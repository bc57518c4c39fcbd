//! A batch of lines, parsed under the format chosen for it.

use vstd::prelude::*;
use crate::calendar::{entry_seconds, Timestamp};
use crate::detect::{detect_from_picks, detected, line_views, sample_of, sample_size, Format};
use crate::log_entry::{abnormal, EntryView, LogEntry, LogError};

verus! {

/// The records of a batch of lines, in the order of the lines, and the
/// name of the format they were parsed under.
pub struct CrunchLog {
    pub entries: Vec<LogEntry>,
    pub parser_type: String,
}

/// The records as the contracts see them.
pub open spec fn entry_views(entries: Seq<LogEntry>) -> Seq<EntryView> {
    Seq::new(entries.len(), |i: int| entries[i]@)
}

/// The record that `line` becomes under `format`: what the format parses
/// it into, or the abnormal record where the format fails on it.
pub open spec fn record_of(format: Format, line: Seq<char>, year: i32) -> EntryView {
    match format.parsed(line, year) {
        Ok(e) => e,
        Err(_) => abnormal(line),
    }
}

/// One record for each line, in order.
pub open spec fn records_of(format: Format, lines: Seq<Seq<char>>, year: i32) -> Seq<EntryView> {
    Seq::new(lines.len(), |i: int| record_of(format, lines[i], year))
}

/// Whether the instant `t` lies within the bounds, each of which is
/// inclusive where it is given.
pub open spec fn within(t: int, from: Option<Timestamp>, to: Option<Timestamp>) -> bool {
    &&& from matches Some(f) ==> f.seconds <= t
    &&& to matches Some(u) ==> t <= u.seconds
}

/// The records of `entries` that lie within the bounds, in their order.
pub open spec fn survivors(entries: Seq<EntryView>, from: Option<Timestamp>, to: Option<Timestamp>)
    -> Seq<EntryView>
    decreases entries.len(),
{
    if entries.len() == 0 {
        Seq::empty()
    } else {
        let rest = survivors(entries.drop_last(), from, to);
        if within(entry_seconds(entries.last()), from, to) {
            rest.push(entries.last())
        } else {
            rest
        }
    }
}

impl CrunchLog {
    /// Whether the log is what `lines` give under the format that the
    /// sample selected by `picks` decides, with `year` for lines that
    /// carry none.
    pub open spec fn parses(&self, lines: Seq<Seq<char>>, picks: Seq<usize>, year: i32) -> bool {
        let format = detected(sample_of(lines, picks));
        &&& self.parser_type@ == format.format_name()
        &&& entry_views(self.entries@) == records_of(format, lines, year)
    }

    /// Parses `lines` under `format`, one record for each line.
    pub fn parse_lines(lines: &Vec<String>, format: Format, year: i32) -> (log: CrunchLog)
        ensures
            log.parser_type@ == format.format_name(),
            log.entries@.len() == lines@.len(),
            entry_views(log.entries@) == records_of(format, line_views(lines@), year),
    {
        let mut entries: Vec<LogEntry> = Vec::new();
        let mut i: usize = 0;
        while i < lines.len()
            invariant
                i <= lines@.len(),
                entries@.len() == i,
                forall|k: int|
                    0 <= k < i ==> (#[trigger] entries@[k])@ == record_of(format, lines@[k]@, year),
            decreases lines@.len() - i,
        {
            let line = lines[i].as_str();
            let entry = match format.parse_in_year(line, year) {
                Ok(e) => e,
                Err(_) => LogEntry::abnormal_of(line),
            };
            entries.push(entry);
            i += 1;
        }
        assert(entry_views(entries@) =~= records_of(format, line_views(lines@), year));
        CrunchLog { entries, parser_type: format.name().to_owned() }
    }

    /// Parses `lines` under the format that the sample selected by `picks`
    /// decides, with `year` for lines that carry none. An empty batch is
    /// refused.
    pub fn from_lines_with(lines: &Vec<String>, picks: &Vec<usize>, year: i32) -> (r: Result<
        CrunchLog,
        LogError,
    >)
        ensures
            r is Err <==> lines@.len() == 0,
            r matches Err(e) ==> e == LogError::NoData,
            r matches Ok(log) ==> log.entries@.len() == lines@.len() && log.parses(
                line_views(lines@),
                picks@,
                year,
            ),
    {
        if lines.len() == 0 {
            return Err(LogError::NoData);
        }
        let format = detect_from_picks(lines, picks);
        Ok(CrunchLog::parse_lines(lines, format, year))
    }

    /// Parses `lines` under the format that a random sample of them
    /// decides, with the year of the clock for lines that carry none. An
    /// empty batch is refused.
    pub fn from_lines(lines: &Vec<String>, rng: &mut rand::rngs::StdRng) -> (r: Result<
        CrunchLog,
        LogError,
    >)
        ensures
            r is Err <==> lines@.len() == 0,
            r matches Err(e) ==> e == LogError::NoData,
            r matches Ok(log) ==> log.entries@.len() == lines@.len(),
            r is Ok ==> exists|picks: Seq<usize>, year: i32|
                picks.len() == sample_size(lines@.len()) && #[trigger] r->Ok_0.parses(
                    line_views(lines@),
                    picks,
                    year,
                ),
    {
        if lines.len() == 0 {
            return Err(LogError::NoData);
        }
        let count: usize = if lines.len() < crate::detect::SAMPLE_LIMIT {
            lines.len()
        } else {
            crate::detect::SAMPLE_LIMIT
        };
        let picks = crate::sampling::draws(rng, count);
        let year = crate::calendar::current_year();
        let format = detect_from_picks(lines, &picks);
        let log = CrunchLog::parse_lines(lines, format, year);
        let r: Result<CrunchLog, LogError> = Ok(log);
        assert(picks@.len() == sample_size(lines@.len()));
        assert(r->Ok_0.parses(line_views(lines@), picks@, year));
        r
    }

    /// Removes the records that lie outside the bounds. The others keep
    /// their order and their fields. Without a bound nothing is removed.
    pub fn filter_by_time(&mut self, from: Option<Timestamp>, to: Option<Timestamp>)
        ensures
            final(self).parser_type@ == old(self).parser_type@,
            entry_views(final(self).entries@) == survivors(
                entry_views(old(self).entries@),
                from,
                to,
            ),
    {
        let ghost all = entry_views(self.entries@);
        let mut kept: Vec<LogEntry> = Vec::new();
        let mut i: usize = 0;
        while i < self.entries.len()
            invariant
                i <= self.entries@.len(),
                all == entry_views(self.entries@),
                entry_views(kept@) == survivors(all.take(i as int), from, to),
            decreases self.entries@.len() - i,
        {
            let e = &self.entries[i];
            let t = Timestamp::of_entry(e);
            let after = match from {
                Some(f) => f.seconds <= t.seconds,
                None => true,
            };
            let before = match to {
                Some(u) => t.seconds <= u.seconds,
                None => true,
            };
            proof {
                assert(all.take(i + 1).drop_last() == all.take(i as int));
                assert(all.take(i + 1).last() == e@);
            }
            if after && before {
                let copy = e.duplicate();
                proof {
                    assert(entry_views(kept@.push(copy)) =~= entry_views(kept@).push(copy@));
                }
                kept.push(copy);
            }
            i += 1;
        }
        proof {
            assert(all.take(self.entries@.len() as int) == all);
        }
        self.entries = kept;
    }
}

/// Without a bound every record survives.
pub proof fn lemma_no_bound_keeps_all(entries: Seq<EntryView>)
    ensures
        survivors(entries, None, None) == entries,
    decreases entries.len(),
{
    if entries.len() > 0 {
        lemma_no_bound_keeps_all(entries.drop_last());
        assert(entries.drop_last().push(entries.last()) == entries);
    }
}

} // verus!
