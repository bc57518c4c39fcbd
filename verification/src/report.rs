//! The reports: what each mode of operation writes, line by line.

use vstd::prelude::*;
use crate::calendar::{bound_written, parse_datetime, stamp_seconds, Timestamp};
use crate::crunch_log::{entry_views, survivors, CrunchLog};
use crate::detect::line_views;
use crate::filter::Filter;
use crate::graph::{range_start, reachable, span, GraphHash, GraphType};
use crate::hash::{grouped, is_ranking, report_lines, HashMode, SampleMode, SuperHash};
use crate::log_entry::{EntryView, LogEntry, LogError};
use crate::number::{push_padded, push_signed_padded, signed_zero_padded, zero_padded};
use crate::text::{extend_chars, from_chars, has_prefix, slice_chars, starts_with, to_chars};

verus! {

/// The message of a record as print mode shows it: without a colon and a
/// blank, or a blank alone, at its beginning.
pub open spec fn shown_message(m: Seq<char>) -> Seq<char> {
    if has_prefix(m, seq![':', ' ']) {
        m.skip(2)
    } else if has_prefix(m, seq![' ']) {
        m.skip(1)
    } else {
        m
    }
}

/// The source of a record as print mode shows it: with a colon at its end,
/// which is added where the source has none.
pub open spec fn shown_daemon(d: Seq<char>) -> Seq<char> {
    if d.len() > 0 && d.last() == ':' {
        d
    } else {
        d + seq![':']
    }
}

/// The timestamp of a record as print mode shows it:
/// `YYYY-MM-DDTHH:MM:SS`.
pub open spec fn shown_stamp(e: EntryView) -> Seq<char> {
    signed_zero_padded(e.year as int, 4) + seq!['-'] + zero_padded(e.month as nat, 2) + seq!['-']
        + zero_padded(e.day as nat, 2) + seq!['T'] + zero_padded(e.hour as nat, 2) + seq![':']
        + zero_padded(e.minute as nat, 2) + seq![':'] + zero_padded(e.second as nat, 2)
}

/// The line of a record in print mode: timestamp, host, source and
/// message, with one blank between them.
pub open spec fn print_line(e: EntryView) -> Seq<char> {
    shown_stamp(e) + seq![' '] + e.host + seq![' '] + shown_daemon(e.daemon) + seq![' ']
        + shown_message(e.log_entry)
}

/// The lines of print mode: one for each record, in order.
pub open spec fn print_lines(entries: Seq<EntryView>) -> Seq<Seq<char>> {
    Seq::new(entries.len(), |i: int| print_line(entries[i]))
}

fn stamp_of(e: &LogEntry) -> (out: Vec<char>)
    ensures
        out@ == shown_stamp(e@),
{
    let mut out: Vec<char> = Vec::new();
    let ghost year = signed_zero_padded(e.year as int, 4);
    let ghost month = zero_padded(e.month as nat, 2);
    let ghost day = zero_padded(e.day as nat, 2);
    let ghost hour = zero_padded(e.hour as nat, 2);
    let ghost minute = zero_padded(e.minute as nat, 2);
    let ghost second = zero_padded(e.second as nat, 2);
    push_signed_padded(&mut out, e.year as i64, 4);
    out.push('-');
    push_padded(&mut out, e.month as u64, 2);
    assert(out@ =~= year + seq!['-'] + month);
    out.push('-');
    push_padded(&mut out, e.day as u64, 2);
    assert(out@ =~= year + seq!['-'] + month + seq!['-'] + day);
    out.push('T');
    push_padded(&mut out, e.hour as u64, 2);
    assert(out@ =~= year + seq!['-'] + month + seq!['-'] + day + seq!['T'] + hour);
    out.push(':');
    push_padded(&mut out, e.minute as u64, 2);
    assert(out@ =~= year + seq!['-'] + month + seq!['-'] + day + seq!['T'] + hour + seq![':']
        + minute);
    out.push(':');
    push_padded(&mut out, e.second as u64, 2);
    assert(out@ =~= year + seq!['-'] + month + seq!['-'] + day + seq!['T'] + hour + seq![':']
        + minute + seq![':'] + second);
    out
}

/// Writes the line of a record in print mode.
pub fn format_entry(e: &LogEntry) -> (line: String)
    ensures
        line@ == print_line(e@),
{
    let mut out = stamp_of(e);
    out.push(' ');
    let host = to_chars(e.host.as_str());
    extend_chars(&mut out, host.as_slice());
    out.push(' ');
    let daemon = to_chars(e.daemon.as_str());
    extend_chars(&mut out, daemon.as_slice());
    if !(daemon.len() > 0 && daemon[daemon.len() - 1] == ':') {
        out.push(':');
    }
    assert(out@ =~= shown_stamp(e@) + seq![' '] + e@.host + seq![' '] + shown_daemon(e@.daemon));
    out.push(' ');
    let message = to_chars(e.log_entry.as_str());
    let colon_blank: [char; 2] = [':', ' '];
    let blank: [char; 1] = [' '];
    assert(colon_blank@ =~= seq![':', ' ']);
    assert(blank@ =~= seq![' ']);
    let from: usize = if starts_with(message.as_slice(), colon_blank.as_slice()) {
        2
    } else if starts_with(message.as_slice(), blank.as_slice()) {
        1
    } else {
        0
    };
    let shown = slice_chars(message.as_slice(), from, message.len());
    assert(shown@ =~= shown_message(e@.log_entry));
    extend_chars(&mut out, shown.as_slice());
    assert(out@ =~= print_line(e@));
    from_chars(out.as_slice())
}

/// Print mode: every record of `log` as a line.
pub fn mode_print(log: &CrunchLog) -> (lines: Vec<String>)
    ensures
        line_views(lines@) == print_lines(entry_views(log.entries@)),
{
    let mut lines: Vec<String> = Vec::new();
    let mut i: usize = 0;
    while i < log.entries.len()
        invariant
            i <= log.entries@.len(),
            lines@.len() == i,
            forall|k: int| 0 <= k < i ==> (#[trigger] lines@[k])@ == print_line(log.entries@[k]@),
        decreases log.entries@.len() - i,
    {
        lines.push(format_entry(&log.entries[i]));
        i += 1;
    }
    assert(line_views(lines@) =~= print_lines(entry_views(log.entries@)));
    lines
}

/// What the reports of message groups show: a random record of every
/// group where `all_samples` asks for it, else the key alone where
/// `no_samples` asks for it, else the first record of small groups.
pub open spec fn sample_choice(all_samples: bool, no_samples: bool) -> SampleMode {
    if all_samples {
        SampleMode::All
    } else if no_samples {
        SampleMode::RawKey
    } else {
        SampleMode::Threshold
    }
}

/// Whether `lines` are a report of `entries` grouped under `mode`: the
/// lines of a table that holds under each key what the grouping puts
/// there, in ranked order, drawn as `sample` and `threshold` say.
pub open spec fn reports(
    lines: Seq<Seq<char>>,
    entries: Seq<EntryView>,
    rules: Seq<Seq<char>>,
    mode: HashMode,
    sample: SampleMode,
    threshold: usize,
) -> bool {
    exists|table: SuperHash, order: Seq<usize>, picks: Seq<usize>|
        {
            &&& table.valid()
            &&& forall|k: Seq<char>| #[trigger]
                table.records_under(k) == grouped(entries, rules, mode, k)
            &&& is_ranking(table.rows(), order)
            &&& lines == #[trigger] report_lines(table.rows(), order, sample, threshold, picks)
        }
}

fn report_of(
    log: &CrunchLog,
    mode: HashMode,
    filter: Filter,
    sample: SampleMode,
    threshold: usize,
    rng: &mut rand::rngs::StdRng,
) -> (lines: Vec<String>)
    ensures
        reports(
            line_views(lines@),
            entry_views(log.entries@),
            filter.patterns(),
            mode,
            sample,
            threshold,
        ),
{
    let mut table = SuperHash::from_log(log, mode, filter);
    table.set_sample_threshold(threshold);
    table.set_sample_mode(sample);
    let picks = match sample {
        SampleMode::All => crate::sampling::draws(rng, table.len()),
        _ => Vec::new(),
    };
    let lines = table.display_with(&picks);
    proof {
        let order = choose|order: Seq<usize>|
            is_ranking(table.rows(), order) && line_views(lines@) == #[trigger] report_lines(
                table.rows(),
                order,
                table.mode(),
                table.threshold(),
                picks@,
            );
        assert(line_views(lines@) == report_lines(table.rows(), order, sample, threshold, picks@));
    }
    lines
}

/// The report of message groups: records grouped by source and message.
pub fn mode_hash(
    log: &CrunchLog,
    filter: Filter,
    threshold: usize,
    all_samples: bool,
    no_samples: bool,
    rng: &mut rand::rngs::StdRng,
) -> (lines: Vec<String>)
    ensures
        reports(
            line_views(lines@),
            entry_views(log.entries@),
            filter.patterns(),
            HashMode::Hash,
            sample_choice(all_samples, no_samples),
            threshold,
        ),
{
    let sample = if all_samples {
        SampleMode::All
    } else if no_samples {
        SampleMode::RawKey
    } else {
        SampleMode::Threshold
    };
    report_of(log, HashMode::Hash, filter, sample, threshold, rng)
}

/// The report of words: every word of every message counted, keys shown.
pub fn mode_wordcount(log: &CrunchLog, filter: Filter, rng: &mut rand::rngs::StdRng) -> (lines:
    Vec<String>)
    ensures
        reports(
            line_views(lines@),
            entry_views(log.entries@),
            filter.patterns(),
            HashMode::WordCount,
            SampleMode::RawKey,
            crate::hash::DEFAULT_THRESHOLD,
        ),
{
    report_of(
        log,
        HashMode::WordCount,
        filter,
        SampleMode::RawKey,
        crate::hash::DEFAULT_THRESHOLD,
        rng,
    )
}

/// The report of sources: records grouped by source, keys shown.
pub fn mode_daemon(log: &CrunchLog, filter: Filter, rng: &mut rand::rngs::StdRng) -> (lines: Vec<
    String,
>)
    ensures
        reports(
            line_views(lines@),
            entry_views(log.entries@),
            filter.patterns(),
            HashMode::Daemon,
            SampleMode::RawKey,
            crate::hash::DEFAULT_THRESHOLD,
        ),
{
    report_of(log, HashMode::Daemon, filter, SampleMode::RawKey, crate::hash::DEFAULT_THRESHOLD, rng)
}

/// The report of hosts: records grouped by host, keys shown.
pub fn mode_host(log: &CrunchLog, filter: Filter, rng: &mut rand::rngs::StdRng) -> (lines: Vec<
    String,
>)
    ensures
        reports(
            line_views(lines@),
            entry_views(log.entries@),
            filter.patterns(),
            HashMode::Host,
            SampleMode::RawKey,
            crate::hash::DEFAULT_THRESHOLD,
        ),
{
    report_of(log, HashMode::Host, filter, SampleMode::RawKey, crate::hash::DEFAULT_THRESHOLD, rng)
}

/// The histogram of `log`, drawn with `tick` (with `#` where none is
/// given), in double width where `wide` asks for it.
pub fn mode_graph(
    log: &CrunchLog,
    graph_type: GraphType,
    from: Option<Timestamp>,
    to: Option<Timestamp>,
    tick: Option<char>,
    wide: bool,
) -> (r: Result<Vec<String>, LogError>)
    ensures
        r matches Ok(lines) ==> exists|g: GraphHash|
            {
                &&& g.valid()
                &&& g.tick() == (match tick {
                    Some(c) => c,
                    None => '#',
                })
                &&& g.wide() == wide
                &&& exists|built: GraphHash|
                    #[trigger] built.built_from(entry_views(log.entries@), graph_type, from, to)
                        && g.same_counts(built)
                &&& line_views(lines@) == #[trigger] g.rendered()
            },
        r matches Err(e) ==> e == LogError::OutOfRange && log.entries@.len() > 0 && !reachable(
            graph_type,
            range_start(entry_views(log.entries@), from),
            span(graph_type, range_start(entry_views(log.entries@), from), from, to),
        ),
{
    let mut g = match GraphHash::new_with_range(log, graph_type, from, to) {
        Ok(g) => g,
        Err(e) => {
            return Err(e);
        },
    };
    let ghost built = g;
    if let Some(c) = tick {
        g.set_tick(c);
    }
    g.set_wide(wide);
    assert(g.same_counts(built));
    let lines = g.display();
    assert(line_views(lines@) == g.rendered());
    Ok(lines)
}

/// The bound that an optional text gives: none without a text.
pub open spec fn bound_of(text: Option<&str>) -> Option<Option<int>> {
    match text {
        None => Some(None),
        Some(t) => match bound_written(t@) {
            Some(s) => Some(Some(s)),
            None => None,
        },
    }
}

fn read_bound(text: Option<&str>) -> (r: Result<Option<Timestamp>, LogError>)
    ensures
        match r {
            Ok(None) => bound_of(text) == Some(None::<int>),
            Ok(Some(t)) => bound_of(text) == Some(Some(t.seconds as int)),
            Err(e) => e == LogError::InvalidBound && bound_of(text) is None,
        },
{
    match text {
        None => Ok(None),
        Some(t) => match parse_datetime(t) {
            Ok(stamp) => Ok(Some(stamp)),
            Err(e) => Err(e),
        },
    }
}

/// Keeps the records of `log` that lie within the bounds, which are given
/// as texts. A bound that cannot be read is an error, the lower one first.
pub fn apply_time_filters(log: CrunchLog, from: Option<&str>, to: Option<&str>) -> (r: Result<
    CrunchLog,
    LogError,
>)
    ensures
        r is Ok <==> bound_of(from) is Some && bound_of(to) is Some,
        r matches Err(e) ==> e == LogError::InvalidBound,
        r matches Ok(kept) ==> kept.parser_type@ == log.parser_type@ && exists|
            lower: Option<Timestamp>,
            upper: Option<Timestamp>,
        |
            {
                &&& bound_of(from) == Some(stamp_seconds(lower))
                &&& bound_of(to) == Some(stamp_seconds(upper))
                &&& entry_views(kept.entries@) == #[trigger] survivors(
                    entry_views(log.entries@),
                    lower,
                    upper,
                )
            },
{
    let lower = match read_bound(from) {
        Ok(b) => b,
        Err(e) => {
            return Err(e);
        },
    };
    let upper = match read_bound(to) {
        Ok(b) => b,
        Err(e) => {
            return Err(e);
        },
    };
    let mut kept = log;
    kept.filter_by_time(lower, upper);
    let r: Result<CrunchLog, LogError> = Ok(kept);
    assert(entry_views(r->Ok_0.entries@) == survivors(entry_views(log.entries@), lower, upper));
    r
}

} // verus!
