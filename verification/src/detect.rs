//! The registry of formats and the choice of one for a batch of lines.

use vstd::prelude::*;
use crate::access::{ApacheCombinedParser, ApacheCommonParser, AwsAlbParser, AwsElbParser};
use crate::database::{MysqlGeneralParser, PostgresqlParser};
use crate::log_entry::{outcome, EntryView, LogEntry, LogParser, ParseError, RawParser};
use crate::syslog::{JournalctlParser, RSyslogParser, SecureLogParser, SyslogParser};

verus! {

/// The registered formats, in registry order: the more specific a format,
/// the earlier it stands, and the fallback stands last.
#[derive(Debug, Clone, Copy, PartialEq, Eq, Structural)]
pub enum Format {
    AwsElb,
    AwsAlb,
    MysqlGeneral,
    Postgresql,
    RSyslog,
    Journalctl,
    ApacheCombined,
    ApacheCommon,
    Syslog,
    SecureLog,
    Raw,
}

/// The number of registered formats.
pub const FORMAT_COUNT: usize = 11;

/// At most this many lines are sampled to choose a format.
pub const SAMPLE_LIMIT: usize = 10;

impl Format {
    /// The format at place `i` of the registry; the fallback beyond its end.
    pub open spec fn at(i: int) -> Format {
        if i == 0 {
            Format::AwsElb
        } else if i == 1 {
            Format::AwsAlb
        } else if i == 2 {
            Format::MysqlGeneral
        } else if i == 3 {
            Format::Postgresql
        } else if i == 4 {
            Format::RSyslog
        } else if i == 5 {
            Format::Journalctl
        } else if i == 6 {
            Format::ApacheCombined
        } else if i == 7 {
            Format::ApacheCommon
        } else if i == 8 {
            Format::Syslog
        } else if i == 9 {
            Format::SecureLog
        } else {
            Format::Raw
        }
    }

    /// The place of the format in the registry.
    pub open spec fn place(self) -> int {
        match self {
            Format::AwsElb => 0,
            Format::AwsAlb => 1,
            Format::MysqlGeneral => 2,
            Format::Postgresql => 3,
            Format::RSyslog => 4,
            Format::Journalctl => 5,
            Format::ApacheCombined => 6,
            Format::ApacheCommon => 7,
            Format::Syslog => 8,
            Format::SecureLog => 9,
            Format::Raw => 10,
        }
    }

    /// Whether `line` has the shape of the format.
    pub open spec fn recognizes(self, line: Seq<char>) -> bool {
        match self {
            Format::AwsElb => AwsElbParser.recognizes(line),
            Format::AwsAlb => AwsAlbParser.recognizes(line),
            Format::MysqlGeneral => MysqlGeneralParser.recognizes(line),
            Format::Postgresql => PostgresqlParser.recognizes(line),
            Format::RSyslog => RSyslogParser.recognizes(line),
            Format::Journalctl => JournalctlParser.recognizes(line),
            Format::ApacheCombined => ApacheCombinedParser.recognizes(line),
            Format::ApacheCommon => ApacheCommonParser.recognizes(line),
            Format::Syslog => SyslogParser.recognizes(line),
            Format::SecureLog => SecureLogParser.recognizes(line),
            Format::Raw => RawParser.recognizes(line),
        }
    }

    /// The record that the format parses `line` into, with `year` where the
    /// line carries none.
    pub open spec fn parsed(self, line: Seq<char>, year: i32) -> Result<EntryView, ParseError> {
        match self {
            Format::AwsElb => AwsElbParser.parsed(line, year),
            Format::AwsAlb => AwsAlbParser.parsed(line, year),
            Format::MysqlGeneral => MysqlGeneralParser.parsed(line, year),
            Format::Postgresql => PostgresqlParser.parsed(line, year),
            Format::RSyslog => RSyslogParser.parsed(line, year),
            Format::Journalctl => JournalctlParser.parsed(line, year),
            Format::ApacheCombined => ApacheCombinedParser.parsed(line, year),
            Format::ApacheCommon => ApacheCommonParser.parsed(line, year),
            Format::Syslog => SyslogParser.parsed(line, year),
            Format::SecureLog => SecureLogParser.parsed(line, year),
            Format::Raw => RawParser.parsed(line, year),
        }
    }

    /// The name of the format.
    pub open spec fn format_name(self) -> Seq<char> {
        match self {
            Format::AwsElb => AwsElbParser.format_name(),
            Format::AwsAlb => AwsAlbParser.format_name(),
            Format::MysqlGeneral => MysqlGeneralParser.format_name(),
            Format::Postgresql => PostgresqlParser.format_name(),
            Format::RSyslog => RSyslogParser.format_name(),
            Format::Journalctl => JournalctlParser.format_name(),
            Format::ApacheCombined => ApacheCombinedParser.format_name(),
            Format::ApacheCommon => ApacheCommonParser.format_name(),
            Format::Syslog => SyslogParser.format_name(),
            Format::SecureLog => SecureLogParser.format_name(),
            Format::Raw => RawParser.format_name(),
        }
    }

    /// The format at place `i` of the registry.
    pub fn from_place(i: usize) -> (f: Format)
        ensures
            f == Format::at(i as int),
    {
        if i == 0 {
            Format::AwsElb
        } else if i == 1 {
            Format::AwsAlb
        } else if i == 2 {
            Format::MysqlGeneral
        } else if i == 3 {
            Format::Postgresql
        } else if i == 4 {
            Format::RSyslog
        } else if i == 5 {
            Format::Journalctl
        } else if i == 6 {
            Format::ApacheCombined
        } else if i == 7 {
            Format::ApacheCommon
        } else if i == 8 {
            Format::Syslog
        } else if i == 9 {
            Format::SecureLog
        } else {
            Format::Raw
        }
    }

    /// Whether `line` has the shape of the format.
    pub fn is_type(&self, line: &str) -> (b: bool)
        ensures
            b == self.recognizes(line@),
    {
        match self {
            Format::AwsElb => AwsElbParser.is_type(line),
            Format::AwsAlb => AwsAlbParser.is_type(line),
            Format::MysqlGeneral => MysqlGeneralParser.is_type(line),
            Format::Postgresql => PostgresqlParser.is_type(line),
            Format::RSyslog => RSyslogParser.is_type(line),
            Format::Journalctl => JournalctlParser.is_type(line),
            Format::ApacheCombined => ApacheCombinedParser.is_type(line),
            Format::ApacheCommon => ApacheCommonParser.is_type(line),
            Format::Syslog => SyslogParser.is_type(line),
            Format::SecureLog => SecureLogParser.is_type(line),
            Format::Raw => RawParser.is_type(line),
        }
    }

    /// Parses `line` under the format, with `year` where the line carries none.
    pub fn parse_in_year(&self, line: &str, year: i32) -> (r: Result<LogEntry, ParseError>)
        ensures
            outcome(r) == self.parsed(line@, year),
    {
        match self {
            Format::AwsElb => AwsElbParser.parse_in_year(line, year),
            Format::AwsAlb => AwsAlbParser.parse_in_year(line, year),
            Format::MysqlGeneral => MysqlGeneralParser.parse_in_year(line, year),
            Format::Postgresql => PostgresqlParser.parse_in_year(line, year),
            Format::RSyslog => RSyslogParser.parse_in_year(line, year),
            Format::Journalctl => JournalctlParser.parse_in_year(line, year),
            Format::ApacheCombined => ApacheCombinedParser.parse_in_year(line, year),
            Format::ApacheCommon => ApacheCommonParser.parse_in_year(line, year),
            Format::Syslog => SyslogParser.parse_in_year(line, year),
            Format::SecureLog => SecureLogParser.parse_in_year(line, year),
            Format::Raw => RawParser.parse_in_year(line, year),
        }
    }

    /// The name of the format.
    pub fn name(&self) -> (n: &'static str)
        ensures
            n@ == self.format_name(),
    {
        match self {
            Format::AwsElb => AwsElbParser.name(),
            Format::AwsAlb => AwsAlbParser.name(),
            Format::MysqlGeneral => MysqlGeneralParser.name(),
            Format::Postgresql => PostgresqlParser.name(),
            Format::RSyslog => RSyslogParser.name(),
            Format::Journalctl => JournalctlParser.name(),
            Format::ApacheCombined => ApacheCombinedParser.name(),
            Format::ApacheCommon => ApacheCommonParser.name(),
            Format::Syslog => SyslogParser.name(),
            Format::SecureLog => SecureLogParser.name(),
            Format::Raw => RawParser.name(),
        }
    }
}

/// The texts of a batch of lines.
pub open spec fn line_views(lines: Seq<String>) -> Seq<Seq<char>> {
    Seq::new(lines.len(), |i: int| lines[i]@)
}

/// The lines that the draws `picks` select from `lines`: draw `d` selects
/// line `d` modulo the number of lines. A line may be selected twice.
pub open spec fn sample_of(lines: Seq<Seq<char>>, picks: Seq<usize>) -> Seq<Seq<char>> {
    Seq::new(picks.len(), |j: int| lines[picks[j] as int % lines.len() as int])
}

/// How many lines of `sample` the format recognizes.
pub open spec fn score(format: Format, sample: Seq<Seq<char>>) -> nat
    decreases sample.len(),
{
    if sample.len() == 0 {
        0
    } else {
        score(format, sample.drop_last()) + if format.recognizes(sample.last()) {
            1nat
        } else {
            0nat
        }
    }
}

/// The highest score among the first `count` formats of the registry.
pub open spec fn top_score(sample: Seq<Seq<char>>, count: int) -> nat
    decreases count,
{
    if count <= 0 {
        0
    } else {
        let rest = top_score(sample, count - 1);
        let here = score(Format::at(count - 1), sample);
        if here > rest {
            here
        } else {
            rest
        }
    }
}

/// The first place at or after `from` whose format scores `target`, or the
/// number of formats when there is none.
pub open spec fn first_scoring(sample: Seq<Seq<char>>, target: nat, from: int) -> int
    decreases FORMAT_COUNT - from,
{
    if from >= FORMAT_COUNT {
        FORMAT_COUNT as int
    } else if from >= 0 && score(Format::at(from), sample) == target {
        from
    } else if from >= 0 {
        first_scoring(sample, target, from + 1)
    } else {
        FORMAT_COUNT as int
    }
}

/// The format chosen for a sample: the one with the highest score, the
/// earliest of the registry among equals, provided that score is at least a
/// quarter of the sample's size; else the fallback.
pub open spec fn detected(sample: Seq<Seq<char>>) -> Format {
    let top = top_score(sample, FORMAT_COUNT as int);
    if 4 * top >= sample.len() {
        Format::at(first_scoring(sample, top, 0))
    } else {
        Format::Raw
    }
}

/// Chooses the format for `lines` from the sample that `picks` selects.
pub fn detect_from_picks(lines: &Vec<String>, picks: &Vec<usize>) -> (f: Format)
    requires
        lines@.len() > 0,
    ensures
        f == detected(sample_of(line_views(lines@), picks@)),
{
    let ghost all = line_views(lines@);
    let ghost sample = sample_of(all, picks@);
    let mut scores: Vec<usize> = Vec::new();
    let mut i: usize = 0;
    while i < FORMAT_COUNT
        invariant
            i <= FORMAT_COUNT,
            scores@.len() == i,
            forall|k: int| 0 <= k < i ==> scores@[k] == 0,
        decreases FORMAT_COUNT - i,
    {
        scores.push(0);
        i += 1;
    }
    let mut j: usize = 0;
    while j < picks.len()
        invariant
            j <= picks@.len(),
            lines@.len() > 0,
            all == line_views(lines@),
            sample == sample_of(all, picks@),
            scores@.len() == FORMAT_COUNT,
            forall|k: int|
                0 <= k < FORMAT_COUNT ==> scores@[k] == score(
                    Format::at(k),
                    sample.take(j as int),
                ) && scores@[k] <= j,
        decreases picks@.len() - j,
    {
        let line = &lines[picks[j] % lines.len()];
        assert(line@ == sample[j as int]);
        let ghost seen = sample.take(j as int);
        let ghost next = sample.take(j + 1);
        proof {
            assert(next.drop_last() == seen);
            assert(next.last() == line@);
        }
        let mut k: usize = 0;
        while k < FORMAT_COUNT
            invariant
                k <= FORMAT_COUNT,
                j < picks@.len() <= usize::MAX,
                scores@.len() == FORMAT_COUNT,
                next.len() == j + 1,
                next.drop_last() == seen,
                next.last() == line@,
                forall|m: int|
                    0 <= m < k ==> scores@[m] == score(Format::at(m), next) && scores@[m] <= j + 1,
                forall|m: int|
                    k <= m < FORMAT_COUNT ==> scores@[m] == score(Format::at(m), seen)
                        && scores@[m] <= j,
            decreases FORMAT_COUNT - k,
        {
            let f = Format::from_place(k);
            if f.is_type(line.as_str()) {
                let s: usize = scores[k];
                scores.set(k, s + 1);
            }
            k += 1;
        }
        j += 1;
    }
    proof {
        assert(sample.take(picks@.len() as int) == sample);
    }
    let mut top: usize = 0;
    let mut k: usize = 0;
    while k < FORMAT_COUNT
        invariant
            k <= FORMAT_COUNT,
            scores@.len() == FORMAT_COUNT,
            top == top_score(sample, k as int),
            forall|m: int| 0 <= m < FORMAT_COUNT ==> scores@[m] == score(Format::at(m), sample),
        decreases FORMAT_COUNT - k,
    {
        if scores[k] > top {
            top = scores[k];
        }
        k += 1;
    }
    assert(sample.len() == picks@.len());
    if (top as u128) * 4 < picks.len() as u128 {
        return Format::Raw;
    }
    let mut k: usize = 0;
    while k < FORMAT_COUNT
        invariant
            k <= FORMAT_COUNT,
            scores@.len() == FORMAT_COUNT,
            top == top_score(sample, FORMAT_COUNT as int),
            4 * top >= sample.len(),
            sample == sample_of(line_views(lines@), picks@),
            first_scoring(sample, top as nat, 0) == first_scoring(sample, top as nat, k as int),
            forall|m: int| 0 <= m < FORMAT_COUNT ==> scores@[m] == score(Format::at(m), sample),
        decreases FORMAT_COUNT - k,
    {
        if scores[k] == top {
            return Format::from_place(k);
        }
        k += 1;
    }
    Format::Raw
}

/// Chooses the format for `lines` from a random sample of them: as many
/// draws as there are lines, and at most ten.
pub fn detect_parser(lines: &Vec<String>, rng: &mut rand::rngs::StdRng) -> (f: Format)
    requires
        lines@.len() > 0,
    ensures
        exists|picks: Seq<usize>|
            picks.len() == sample_size(lines@.len()) && f == detected(
                sample_of(line_views(lines@), picks),
            ),
{
    let count: usize = if lines.len() < SAMPLE_LIMIT {
        lines.len()
    } else {
        SAMPLE_LIMIT
    };
    let picks = crate::sampling::draws(rng, count);
    detect_from_picks(lines, &picks)
}

/// The size of the sample drawn from `count` lines.
pub open spec fn sample_size(count: nat) -> nat {
    if count < SAMPLE_LIMIT {
        count
    } else {
        SAMPLE_LIMIT as nat
    }
}

/// The highest score is no less than the score of any format counted, and
/// one of them reaches it.
pub proof fn lemma_top_score(sample: Seq<Seq<char>>, count: int)
    requires
        0 <= count <= FORMAT_COUNT,
    ensures
        forall|i: int| 0 <= i < count ==> score(Format::at(i), sample) <= top_score(sample, count),
        count > 0 ==> exists|i: int|
            0 <= i < count && score(Format::at(i), sample) == top_score(sample, count),
    decreases count,
{
    if count > 0 {
        lemma_top_score(sample, count - 1);
        let rest = top_score(sample, count - 1);
        let here = score(Format::at(count - 1), sample);
        if here > rest || count == 1 {
            assert(score(Format::at(count - 1), sample) == top_score(sample, count));
        } else {
            let i = choose|i: int|
                0 <= i < count - 1 && score(Format::at(i), sample) == top_score(sample, count - 1);
            assert(0 <= i < count && score(Format::at(i), sample) == top_score(sample, count));
        }
    }
}

/// The search for a score stops at the first place that has it.
pub proof fn lemma_first_scoring(sample: Seq<Seq<char>>, target: nat, from: int, goal: int)
    requires
        0 <= from <= goal < FORMAT_COUNT,
        score(Format::at(goal), sample) == target,
        forall|i: int| from <= i < goal ==> score(Format::at(i), sample) != target,
    ensures
        first_scoring(sample, target, from) == goal,
    decreases goal - from,
{
    if from < goal {
        lemma_first_scoring(sample, target, from + 1, goal);
    }
}

/// Detection is stable: a format that recognizes at least nine in ten of
/// the sampled lines is the one chosen, whenever no other format scores
/// higher on the sample and none that stands before it in the registry
/// scores as high.
pub proof fn lemma_detection_stable(sample: Seq<Seq<char>>, f: Format)
    requires
        sample.len() > 0,
        10 * score(f, sample) >= 9 * sample.len(),
        forall|g: Format|
            g != f ==> score(g, sample) < score(f, sample) || (score(g, sample) == score(
                f,
                sample,
            ) && f.place() < g.place()),
    ensures
        detected(sample) == f,
{
    let n = FORMAT_COUNT as int;
    lemma_top_score(sample, n);
    let top = top_score(sample, n);
    assert(Format::at(f.place()) == f);
    assert(0 <= f.place() < n);
    let i = choose|i: int| 0 <= i < n && score(Format::at(i), sample) == top;
    assert(score(Format::at(i), sample) <= score(f, sample)) by {
        if Format::at(i) != f {
        }
    }
    assert(top == score(f, sample));
    assert forall|k: int| 0 <= k < f.place() implies score(Format::at(k), sample) != top by {
        assert(Format::at(k).place() == k);
        assert(Format::at(k) != f);
    }
    lemma_first_scoring(sample, top, 0, f.place());
}

} // verus!
