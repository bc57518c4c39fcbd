//! Windows event logs: telling them by name, and turning the fields of a
//! decoded event into a record.

use vstd::prelude::*;
use crate::calendar::Fields;
use crate::log_entry::{EntryView, LogEntry};
use crate::number::{decimal, push_padded};
use crate::text::{extend_chars, join, to_chars, views};

verus! {

/// The data that an event carries.
pub enum EventData {
    /// The event has none.
    Absent,
    /// Named values, each already written as text.
    Pairs(Vec<(String, String)>),
    /// One text.
    Text(String),
    /// Data of another shape, which gives no message.
    Other,
}

/// What a decoder hands over of one event.
pub struct EvtxFields {
    /// The time of the event on the local clock.
    pub stamp: Fields,
    /// The name of the provider.
    pub provider: Option<String>,
    /// The name of the computer.
    pub computer: Option<String>,
    pub event_id: Option<u64>,
    pub level: Option<u64>,
    pub event_data: EventData,
    /// The user data of the event, written as text.
    pub user_data: Option<String>,
}

/// Reads Windows event logs.
pub struct EvtxLogParser;

/// The small letter of an ASCII capital; any other character as it is.
pub open spec fn lower(c: char) -> char {
    if 'A' <= c <= 'Z' {
        ((c as u32) + 32) as char
    } else {
        c
    }
}

/// Whether a file with the extension `ext` is an event log: the extension
/// is `evtx`, in small or capital letters.
pub open spec fn names_event_log(ext: Option<Seq<char>>) -> bool {
    match ext {
        None => false,
        Some(e) => e.len() == 4 && lower(e[0]) == 'e' && lower(e[1]) == 'v' && lower(e[2]) == 't'
            && lower(e[3]) == 'x',
    }
}

/// The name of a severity level.
pub open spec fn level_name(level: Option<u64>) -> Seq<char> {
    match level {
        Some(1) => "Critical"@,
        Some(2) => "Error"@,
        Some(3) => "Warning"@,
        Some(4) => "Information"@,
        Some(5) => "Verbose"@,
        _ => "Unknown"@,
    }
}

/// The named values of an event as `name=value`, in order, without the
/// attributes of the data element itself.
pub open spec fn pair_texts(pairs: Seq<(String, String)>) -> Seq<Seq<char>>
    decreases pairs.len(),
{
    if pairs.len() == 0 {
        Seq::empty()
    } else if pairs.last().0@ == "#attributes"@ {
        pair_texts(pairs.drop_last())
    } else {
        pair_texts(pairs.drop_last()).push(pairs.last().0@ + seq!['='] + pairs.last().1@)
    }
}

/// What the data of an event says: its named values joined by blanks, or
/// its text; where that is empty, the user data.
pub open spec fn event_text(data: EventData, user_data: Option<String>) -> Seq<char> {
    let own = match data {
        EventData::Pairs(p) => join(pair_texts(p@), seq![' ']),
        EventData::Text(t) => t@,
        _ => Seq::empty(),
    };
    if own.len() > 0 {
        own
    } else {
        match user_data {
            Some(u) => u@,
            None => Seq::empty(),
        }
    }
}

/// The message of an event: its level in brackets, its number, and what
/// its data says.
pub open spec fn event_message(f: EvtxFields) -> Seq<char> {
    let id = match f.event_id {
        Some(n) => n,
        None => 0,
    };
    let text = event_text(f.event_data, f.user_data);
    let head = seq!['['] + level_name(f.level) + "] EventID "@ + decimal(id as nat);
    if text.len() > 0 {
        head + seq![' '] + text
    } else {
        head
    }
}

/// The text of an optional name; `Unknown` without one.
pub open spec fn name_or_unknown(name: Option<String>) -> Seq<char> {
    match name {
        Some(n) => n@,
        None => "Unknown"@,
    }
}

/// The record of an event: the computer as host, the provider as source.
pub open spec fn event_record(f: EvtxFields) -> EntryView {
    EntryView {
        year: f.stamp.0,
        month: f.stamp.1,
        day: f.stamp.2,
        hour: f.stamp.3,
        minute: f.stamp.4,
        second: f.stamp.5,
        host: name_or_unknown(f.computer),
        daemon: name_or_unknown(f.provider),
        log_entry: event_message(f),
    }
}

fn lower_of(c: char) -> (l: char)
    ensures
        l == lower(c),
{
    if c >= 'A' && c <= 'Z' {
        ((c as u8) + 32u8) as char
    } else {
        c
    }
}

fn name_text(name: &Option<String>) -> (t: Vec<char>)
    ensures
        t@ == name_or_unknown(*name),
{
    match name {
        Some(n) => to_chars(n.as_str()),
        None => to_chars("Unknown"),
    }
}

fn level_text(level: Option<u64>) -> (n: &'static str)
    ensures
        n@ == level_name(level),
{
    match level {
        Some(1) => "Critical",
        Some(2) => "Error",
        Some(3) => "Warning",
        Some(4) => "Information",
        Some(5) => "Verbose",
        _ => "Unknown",
    }
}

fn data_text(data: &EventData, user_data: &Option<String>) -> (t: Vec<char>)
    ensures
        t@ == event_text(*data, *user_data),
{
    let own: Vec<char> = match data {
        EventData::Pairs(pairs) => {
            let mut parts: Vec<Vec<char>> = Vec::new();
            let skip = to_chars("#attributes");
            let mut i: usize = 0;
            while i < pairs.len()
                invariant
                    i <= pairs@.len(),
                    skip@ == "#attributes"@,
                    views(parts@) == pair_texts(pairs@.take(i as int)),
                decreases pairs@.len() - i,
            {
                let name = to_chars(pairs[i].0.as_str());
                proof {
                    assert(pairs@.take(i + 1).drop_last() == pairs@.take(i as int));
                    assert(pairs@.take(i + 1).last() == pairs@[i as int]);
                }
                if !crate::text::same_chars(name.as_slice(), skip.as_slice()) {
                    let mut part = name;
                    part.push('=');
                    let value = to_chars(pairs[i].1.as_str());
                    extend_chars(&mut part, value.as_slice());
                    proof {
                        assert(part@ =~= pairs@[i as int].0@ + seq!['='] + pairs@[i as int].1@);
                        assert(views(parts@.push(part)) =~= views(parts@).push(part@));
                    }
                    parts.push(part);
                }
                i += 1;
            }
            proof {
                assert(pairs@.take(pairs@.len() as int) == pairs@);
                assert(views(parts@).skip(0) == views(parts@));
            }
            let blank: [char; 1] = [' '];
            assert(blank@ =~= seq![' ']);
            crate::text::join_from(&parts, 0, blank.as_slice())
        },
        EventData::Text(t) => to_chars(t.as_str()),
        _ => Vec::new(),
    };
    if own.len() > 0 {
        own
    } else {
        match user_data {
            Some(u) => to_chars(u.as_str()),
            None => Vec::new(),
        }
    }
}

impl EvtxLogParser {
    /// Whether a file with the extension `ext` is an event log.
    pub fn is_evtx_extension(ext: Option<&str>) -> (b: bool)
        ensures
            b == names_event_log(
                match ext {
                    Some(e) => Some(e@),
                    None => None,
                },
            ),
    {
        match ext {
            None => false,
            Some(e) => {
                let c = to_chars(e);
                c.len() == 4 && lower_of(c[0]) == 'e' && lower_of(c[1]) == 'v' && lower_of(c[2])
                    == 't' && lower_of(c[3]) == 'x'
            },
        }
    }

    /// Whether the file at `path` is an event log, by its extension. What
    /// the extension of a path is, the standard library decides for the
    /// platform at hand.
    pub fn is_evtx_file(path: &str) -> (b: bool)
        ensures
            exists|ext: Option<Seq<char>>| b == names_event_log(ext),
    {
        let ext = extension_of(path);
        let b = match &ext {
            Some(e) => EvtxLogParser::is_evtx_extension(Some(e.as_str())),
            None => EvtxLogParser::is_evtx_extension(None),
        };
        assert(b == names_event_log(
            match ext {
                Some(e) => Some(e@),
                None => None,
            },
        ));
        b
    }

    /// The record of a decoded event.
    pub fn convert_record_to_entry(fields: &EvtxFields) -> (e: LogEntry)
        ensures
            e@ == event_record(*fields),
    {
        let host = name_text(&fields.computer);
        let daemon = name_text(&fields.provider);
        let id: u64 = match fields.event_id {
            Some(n) => n,
            None => 0,
        };
        let text = data_text(&fields.event_data, &fields.user_data);
        let mut message: Vec<char> = Vec::new();
        message.push('[');
        extend_chars(&mut message, to_chars(level_text(fields.level)).as_slice());
        extend_chars(&mut message, to_chars("] EventID ").as_slice());
        push_padded(&mut message, id, 0);
        proof {
            assert(crate::number::zero_padded(id as nat, 0) == decimal(id as nat));
            assert(message@ =~= seq!['['] + level_name(fields.level) + "] EventID "@ + decimal(
                id as nat,
            ));
        }
        if text.len() > 0 {
            message.push(' ');
            extend_chars(&mut message, text.as_slice());
            assert(message@ =~= seq!['['] + level_name(fields.level) + "] EventID "@ + decimal(
                id as nat,
            ) + seq![' '] + text@);
        }
        LogEntry::from_parts(
            fields.stamp.0,
            fields.stamp.1,
            fields.stamp.2,
            fields.stamp.3,
            fields.stamp.4,
            fields.stamp.5,
            host.as_slice(),
            daemon.as_slice(),
            message.as_slice(),
        )
    }
}

/// `std::path::Path::extension` of `path`, as text. Nothing is claimed of
/// it: it differs from platform to platform.
#[verifier::external_body]
fn extension_of(path: &str) -> Option<String> {
    std::path::Path::new(path).extension().map(|e| e.to_string_lossy().into_owned())
}

} // verus!
