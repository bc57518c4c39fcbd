//! The record that every log line is normalised into, and what a format
//! parser has to offer.

use vstd::prelude::*;
use crate::text::from_chars;

verus! {

/// One normalised log event.
#[derive(Debug, Clone)]
pub struct LogEntry {
    pub year: i32,
    pub month: u32,
    pub day: u32,
    pub hour: u32,
    pub minute: u32,
    pub second: u32,
    pub host: String,
    pub daemon: String,
    pub log_entry: String,
}

/// A record as the contracts see it: the numbers, and each text as its
/// characters.
pub ghost struct EntryView {
    pub year: i32,
    pub month: u32,
    pub day: u32,
    pub hour: u32,
    pub minute: u32,
    pub second: u32,
    pub host: Seq<char>,
    pub daemon: Seq<char>,
    pub log_entry: Seq<char>,
}

impl View for LogEntry {
    type V = EntryView;

    open spec fn view(&self) -> EntryView {
        EntryView {
            year: self.year,
            month: self.month,
            day: self.day,
            hour: self.hour,
            minute: self.minute,
            second: self.second,
            host: self.host@,
            daemon: self.daemon@,
            log_entry: self.log_entry@,
        }
    }
}

/// The reserved marker: the host and daemon of a line that fits no grammar,
/// and what a fully redacted text is reduced to.
pub open spec fn marker() -> Seq<char> {
    seq!['#']
}

/// The record of a line that fits no grammar: the fixed date 1900-01-01
/// 00:00:00, the marker as host and daemon, and `message` as its text.
pub open spec fn abnormal(message: Seq<char>) -> EntryView {
    EntryView {
        year: 1900,
        month: 1,
        day: 1,
        hour: 0,
        minute: 0,
        second: 0,
        host: marker(),
        daemon: marker(),
        log_entry: message,
    }
}

/// Whether `e` is a record of a line that fits no grammar.
pub open spec fn is_abnormal(e: EntryView) -> bool {
    e == abnormal(e.log_entry)
}

/// The marker as a `String`.
pub fn marker_string() -> (s: String)
    ensures
        s@ == marker(),
{
    let s = "#".to_owned();
    proof {
        reveal_strlit("#");
        assert(s@ =~= marker());
    }
    s
}

impl LogEntry {
    /// The record whose every text is the marker, at the fixed date.
    pub fn new() -> (e: LogEntry)
        ensures
            e@ == abnormal(marker()),
    {
        LogEntry {
            year: 1900,
            month: 1,
            day: 1,
            hour: 0,
            minute: 0,
            second: 0,
            host: marker_string(),
            daemon: marker_string(),
            log_entry: marker_string(),
        }
    }

    /// Turns the record into the one of a line that fits no grammar, with
    /// `value` as its text.
    pub fn set_abnormal(&mut self, value: &str)
        ensures
            final(self)@ == abnormal(value@),
    {
        self.year = 1900;
        self.month = 1;
        self.day = 1;
        self.hour = 0;
        self.minute = 0;
        self.second = 0;
        self.host = marker_string();
        self.daemon = marker_string();
        self.log_entry = value.to_owned();
    }

    /// The record of a line that fits no grammar.
    pub fn abnormal_of(line: &str) -> (e: LogEntry)
        ensures
            e@ == abnormal(line@),
    {
        let mut e = LogEntry::new();
        e.set_abnormal(line);
        e
    }

    /// A copy of the record.
    pub fn duplicate(&self) -> (e: LogEntry)
        ensures
            e@ == self@,
    {
        LogEntry {
            year: self.year,
            month: self.month,
            day: self.day,
            hour: self.hour,
            minute: self.minute,
            second: self.second,
            host: self.host.clone(),
            daemon: self.daemon.clone(),
            log_entry: self.log_entry.clone(),
        }
    }

    /// Builds a record from its numbers and from texts held as characters.
    pub fn from_parts(
        year: i32,
        month: u32,
        day: u32,
        hour: u32,
        minute: u32,
        second: u32,
        host: &[char],
        daemon: &[char],
        message: &[char],
    ) -> (e: LogEntry)
        ensures
            e@ == (EntryView {
                year,
                month,
                day,
                hour,
                minute,
                second,
                host: host@,
                daemon: daemon@,
                log_entry: message@,
            }),
    {
        LogEntry {
            year,
            month,
            day,
            hour,
            minute,
            second,
            host: from_chars(host),
            daemon: from_chars(daemon),
            log_entry: from_chars(message),
        }
    }
}

/// Why a line could not be parsed under a format.
#[derive(Debug, Clone, Copy, PartialEq, Eq, Structural)]
pub enum ParseError {
    /// The line does not have the shape of the format.
    NoMatch,
    /// The line has fewer fields than the format needs.
    TooFewFields,
    /// The timestamp is not a date and a time joined by `T`.
    TimestampFormat,
    /// The date is not three fields joined by `-`.
    DateFormat,
    /// The time of day is not three fields joined by `:`.
    TimeFormat,
    /// The month is none of the twelve English abbreviations.
    Month,
    /// A numeric field does not write a number of its type.
    Number,
}

/// Why a whole run is given up.
#[derive(Debug, Clone, Copy, PartialEq, Eq, Structural)]
pub enum LogError {
    /// The input holds no line.
    NoData,
    /// A time bound is written in none of the accepted forms.
    InvalidBound,
    /// A range of time reaches beyond what the calendar can represent.
    OutOfRange,
}

/// The outcome of a parse as the contracts see it.
pub open spec fn outcome(r: Result<LogEntry, ParseError>) -> Result<EntryView, ParseError> {
    match r {
        Ok(e) => Ok(e@),
        Err(e) => Err(e),
    }
}

/// A format: a cheap test of a line's shape, a parser, and a name.
///
/// Formats whose lines carry no year take it from the caller:
/// [`parse_in_year`](LogParser::parse_in_year) is exact, and
/// [`parse`](LogParser::parse) is that with the year the clock shows.
pub trait LogParser {
    /// Whether `line` has the shape of this format.
    spec fn recognizes(&self, line: Seq<char>) -> bool;

    /// The record that `line` is parsed into; `year` is used where the
    /// line carries none.
    spec fn parsed(&self, line: Seq<char>, year: i32) -> Result<EntryView, ParseError>;

    /// The stable, human-readable name of the format.
    spec fn format_name(&self) -> Seq<char>;

    /// Tests the shape of `line`, without parsing it.
    fn is_type(&self, line: &str) -> (b: bool)
        ensures
            b == self.recognizes(line@),
    ;

    /// Parses `line`, with `year` as its year where it carries none.
    fn parse_in_year(&self, line: &str, year: i32) -> (r: Result<LogEntry, ParseError>)
        ensures
            outcome(r) == self.parsed(line@, year),
    ;

    /// Parses `line`, with the year that the clock shows where it carries
    /// none.
    fn parse(&self, line: &str) -> (r: Result<LogEntry, ParseError>)
        ensures
            exists|year: i32| outcome(r) == self.parsed(line@, year),
    ;

    /// The name of the format.
    fn name(&self) -> (n: &'static str)
        ensures
            n@ == self.format_name(),
    ;
}

/// The fallback format: every line that is not blank, kept whole.
pub struct RawParser;

impl LogParser for RawParser {
    open spec fn recognizes(&self, line: Seq<char>) -> bool {
        crate::text::tokens(line).len() > 0
    }

    open spec fn parsed(&self, line: Seq<char>, year: i32) -> Result<EntryView, ParseError> {
        Ok(abnormal(line))
    }

    open spec fn format_name(&self) -> Seq<char> {
        "Raw"@
    }

    fn is_type(&self, line: &str) -> (b: bool) {
        let chars = crate::text::to_chars(line);
        let parts = crate::text::split_whitespace(chars.as_slice());
        assert(crate::text::views(parts@).len() == parts@.len());
        parts.len() > 0
    }

    fn parse_in_year(&self, line: &str, year: i32) -> (r: Result<LogEntry, ParseError>) {
        Ok(LogEntry::abnormal_of(line))
    }

    fn parse(&self, line: &str) -> (r: Result<LogEntry, ParseError>) {
        let r = self.parse_in_year(line, 1900);
        assert(outcome(r) == self.parsed(line@, 1900));
        r
    }

    fn name(&self) -> (n: &'static str) {
        "Raw"
    }
}

} // verus!
