//! The line-oriented system log formats: classic syslog, the
//! authentication log, journal output, and syslog with ISO timestamps.

use vstd::prelude::*;
use crate::log_entry::{abnormal, outcome, EntryView, LogEntry, LogParser, ParseError};
use crate::number::{parse_signed, parse_unsigned, read_i32, read_u32};
use crate::pattern::{fits, text_fits};
use crate::text::{
    before_first, has_prefix, join, join_from, split_chars, split_on,
    split_whitespace, starts_with, take_before, to_chars, tokens, trim_trailing, views,
    without_trailing,
};

verus! {

/// A three-letter month: one capital, two small letters.
pub const MONTH_SHAPE: &'static str = "^[A-Z][a-z]{2}$";

/// A day of the month: one or two digits.
pub const DAY_SHAPE: &'static str = "^[0-9]{1,2}$";

/// A time of day: `H:MM:SS` or `HH:MM:SS`.
pub const TIME_SHAPE: &'static str = "^[0-9]{1,2}:[0-9]{2}:[0-9]{2}$";

/// A journal source: a name, an optional bracketed number, an optional colon.
pub const SOURCE_SHAPE: &'static str = "^[a-zA-Z0-9_\\-\\.]+(\\[[0-9]+\\])?:?$";

/// The beginning of an ISO timestamp: a date, then `T`.
pub const ISO_DATE_SHAPE: &'static str = "^\\d{4}-\\d{2}-\\d{2}T";

/// The number of the month that `s` abbreviates: `Jan` is 1, `Dec` is 12.
pub open spec fn month_number(s: Seq<char>) -> Option<u32> {
    if s == seq!['J', 'a', 'n'] {
        Some(1u32)
    } else if s == seq!['F', 'e', 'b'] {
        Some(2u32)
    } else if s == seq!['M', 'a', 'r'] {
        Some(3u32)
    } else if s == seq!['A', 'p', 'r'] {
        Some(4u32)
    } else if s == seq!['M', 'a', 'y'] {
        Some(5u32)
    } else if s == seq!['J', 'u', 'n'] {
        Some(6u32)
    } else if s == seq!['J', 'u', 'l'] {
        Some(7u32)
    } else if s == seq!['A', 'u', 'g'] {
        Some(8u32)
    } else if s == seq!['S', 'e', 'p'] {
        Some(9u32)
    } else if s == seq!['O', 'c', 't'] {
        Some(10u32)
    } else if s == seq!['N', 'o', 'v'] {
        Some(11u32)
    } else if s == seq!['D', 'e', 'c'] {
        Some(12u32)
    } else {
        None
    }
}

fn is_three(s: &[char], a: char, b: char, c: char) -> (r: bool)
    ensures
        r == (s@ == seq![a, b, c]),
{
    if s.len() == 3 && s[0] == a && s[1] == b && s[2] == c {
        assert(s@ =~= seq![a, b, c]);
        true
    } else {
        assert(seq![a, b, c].len() == 3);
        assert(seq![a, b, c][0] == a && seq![a, b, c][1] == b && seq![a, b, c][2] == c);
        false
    }
}

/// Looks a month abbreviation up.
pub fn month_of(s: &[char]) -> (m: Option<u32>)
    ensures
        m == month_number(s@),
{
    if is_three(s, 'J', 'a', 'n') {
        Some(1)
    } else if is_three(s, 'F', 'e', 'b') {
        Some(2)
    } else if is_three(s, 'M', 'a', 'r') {
        Some(3)
    } else if is_three(s, 'A', 'p', 'r') {
        Some(4)
    } else if is_three(s, 'M', 'a', 'y') {
        Some(5)
    } else if is_three(s, 'J', 'u', 'n') {
        Some(6)
    } else if is_three(s, 'J', 'u', 'l') {
        Some(7)
    } else if is_three(s, 'A', 'u', 'g') {
        Some(8)
    } else if is_three(s, 'S', 'e', 'p') {
        Some(9)
    } else if is_three(s, 'O', 'c', 't') {
        Some(10)
    } else if is_three(s, 'N', 'o', 'v') {
        Some(11)
    } else if is_three(s, 'D', 'e', 'c') {
        Some(12)
    } else {
        None
    }
}

/// Hour, minute and second of a time written as three numbers joined by `:`.
pub open spec fn time_of_day(s: Seq<char>) -> Result<(u32, u32, u32), ParseError> {
    let f = split_on(s, ':');
    if f.len() != 3 {
        Err(ParseError::TimeFormat)
    } else if parse_unsigned(f[0]) is None || parse_unsigned(f[1]) is None || parse_unsigned(
        f[2],
    ) is None {
        Err(ParseError::Number)
    } else {
        Ok((parse_unsigned(f[0])->0, parse_unsigned(f[1])->0, parse_unsigned(f[2])->0))
    }
}

/// Reads a time of day.
pub fn read_time_of_day(s: &[char]) -> (r: Result<(u32, u32, u32), ParseError>)
    ensures
        r == time_of_day(s@),
{
    let f = split_chars(s, ':');
    assert(views(f@).len() == f@.len());
    if f.len() != 3 {
        return Err(ParseError::TimeFormat);
    }
    assert(views(f@)[0] == f@[0]@ && views(f@)[1] == f@[1]@ && views(f@)[2] == f@[2]@);
    let hour = match read_u32(f[0].as_slice()) {
        Some(v) => v,
        None => {
            return Err(ParseError::Number);
        },
    };
    let minute = match read_u32(f[1].as_slice()) {
        Some(v) => v,
        None => {
            return Err(ParseError::Number);
        },
    };
    let second = match read_u32(f[2].as_slice()) {
        Some(v) => v,
        None => {
            return Err(ParseError::Number);
        },
    };
    Ok((hour, minute, second))
}

/// The record of a line laid out as month, day, time, host, source and
/// message. A line of fewer than five tokens gives the abnormal record.
/// With `bare_source`, the colons that end the source are dropped.
pub open spec fn dated_line(line: Seq<char>, year: i32, bare_source: bool) -> Result<
    EntryView,
    ParseError,
> {
    let p = tokens(line);
    if p.len() < 5 {
        Ok(abnormal(line))
    } else if time_of_day(p[2]) is Err {
        Err(time_of_day(p[2])->Err_0)
    } else if month_number(p[0]) is None {
        Err(ParseError::Month)
    } else if parse_unsigned(p[1]) is None {
        Err(ParseError::Number)
    } else {
        let t = time_of_day(p[2])->Ok_0;
        Ok(
            EntryView {
                year,
                month: month_number(p[0])->0,
                day: parse_unsigned(p[1])->0,
                hour: t.0,
                minute: t.1,
                second: t.2,
                host: p[3],
                daemon: if bare_source {
                    without_trailing(p[4], ':')
                } else {
                    p[4]
                },
                log_entry: join(p.skip(5), seq![' ']),
            },
        )
    }
}

/// Parses a line laid out as month, day, time, host, source and message.
pub fn parse_dated_line(line: &str, year: i32, bare_source: bool) -> (r: Result<
    LogEntry,
    ParseError,
>)
    ensures
        outcome(r) == dated_line(line@, year, bare_source),
{
    let chars = to_chars(line);
    let p = split_whitespace(chars.as_slice());
    assert(views(p@).len() == p@.len());
    if p.len() < 5 {
        return Ok(LogEntry::abnormal_of(line));
    }
    assert(forall|i: int| 0 <= i < p@.len() ==> views(p@)[i] == p@[i]@);
    let t = match read_time_of_day(p[2].as_slice()) {
        Ok(t) => t,
        Err(e) => {
            return Err(e);
        },
    };
    let month = match month_of(p[0].as_slice()) {
        Some(m) => m,
        None => {
            return Err(ParseError::Month);
        },
    };
    let day = match read_u32(p[1].as_slice()) {
        Some(d) => d,
        None => {
            return Err(ParseError::Number);
        },
    };
    let source = if bare_source {
        trim_trailing(p[4].as_slice(), ':')
    } else {
        crate::text::slice_chars(p[4].as_slice(), 0, p[4].len())
    };
    assert(p@[4]@.subrange(0, p@[4]@.len() as int) == p@[4]@);
    let space: [char; 1] = [' '];
    assert(space@ =~= seq![' ']);
    let message = join_from(&p, 5, space.as_slice());
    Ok(
        LogEntry::from_parts(
            year,
            month,
            day,
            t.0,
            t.1,
            t.2,
            p[3].as_slice(),
            source.as_slice(),
            message.as_slice(),
        ),
    )
}

/// Whether the tokens of a line have the shape that the three dated
/// formats share: five tokens at least, of which the first three are a
/// month, a day and a time of day.
pub open spec fn has_dated_shape(p: Seq<Seq<char>>) -> bool {
    &&& p.len() >= 5
    &&& fits(MONTH_SHAPE@, p[0])
    &&& fits(DAY_SHAPE@, p[1])
    &&& fits(TIME_SHAPE@, p[2])
}

/// Whether a source marks a line of the authentication log: it begins with
/// the prefix of the PAM modules, `pam_`, or with that of the SSH daemon
/// and its process number, `sshd[`.
pub open spec fn is_auth_source(source: Seq<char>) -> bool {
    has_prefix(source, "pam_"@) || has_prefix(source, "sshd["@)
}

/// Whether a source marks a line of the authentication log.
pub fn auth_source(source: &[char]) -> (b: bool)
    ensures
        b == is_auth_source(source@),
{
    let pam = to_chars("pam_");
    let sshd = to_chars("sshd[");
    starts_with(source, pam.as_slice()) || starts_with(source, sshd.as_slice())
}

/// Whether the tokens of a line have the shape that the three dated
/// formats share.
pub fn dated_shape(p: &Vec<Vec<char>>) -> (b: bool)
    ensures
        b == has_dated_shape(views(p@)),
{
    assert(views(p@).len() == p@.len());
    if p.len() < 5 {
        return false;
    }
    assert(forall|i: int| 0 <= i < p@.len() ==> views(p@)[i] == p@[i]@);
    text_fits(MONTH_SHAPE, p[0].as_slice()) && text_fits(DAY_SHAPE, p[1].as_slice()) && text_fits(
        TIME_SHAPE,
        p[2].as_slice(),
    )
}

/// Classic syslog: `Mon D HH:MM:SS host source message`, but for the lines
/// of the authentication log.
pub struct SyslogParser;

/// The authentication log: the shape of classic syslog, with a source that
/// names a PAM module or the SSH daemon with its process number.
pub struct SecureLogParser;

/// Journal output: the shape of classic syslog, with a source of the form
/// `name`, `name:`, `name[number]` or `name[number]:`.
pub struct JournalctlParser;

impl LogParser for SyslogParser {
    open spec fn recognizes(&self, line: Seq<char>) -> bool {
        let p = tokens(line);
        has_dated_shape(p) && !is_auth_source(p[4])
    }

    open spec fn parsed(&self, line: Seq<char>, year: i32) -> Result<EntryView, ParseError> {
        dated_line(line, year, false)
    }

    open spec fn format_name(&self) -> Seq<char> {
        "Syslog"@
    }

    fn is_type(&self, line: &str) -> (b: bool) {
        let chars = to_chars(line);
        let p = split_whitespace(chars.as_slice());
        if !dated_shape(&p) {
            return false;
        }
        assert(views(p@)[4] == p@[4]@);
        !auth_source(p[4].as_slice())
    }

    fn parse_in_year(&self, line: &str, year: i32) -> (r: Result<LogEntry, ParseError>) {
        parse_dated_line(line, year, false)
    }

    fn parse(&self, line: &str) -> (r: Result<LogEntry, ParseError>) {
        let year = crate::calendar::current_year();
        let r = self.parse_in_year(line, year);
        assert(outcome(r) == self.parsed(line@, year));
        r
    }

    fn name(&self) -> (n: &'static str) {
        "Syslog"
    }
}

impl LogParser for SecureLogParser {
    open spec fn recognizes(&self, line: Seq<char>) -> bool {
        let p = tokens(line);
        has_dated_shape(p) && is_auth_source(p[4])
    }

    open spec fn parsed(&self, line: Seq<char>, year: i32) -> Result<EntryView, ParseError> {
        dated_line(line, year, false)
    }

    open spec fn format_name(&self) -> Seq<char> {
        "SecureLog"@
    }

    fn is_type(&self, line: &str) -> (b: bool) {
        let chars = to_chars(line);
        let p = split_whitespace(chars.as_slice());
        if !dated_shape(&p) {
            return false;
        }
        assert(views(p@)[4] == p@[4]@);
        auth_source(p[4].as_slice())
    }

    fn parse_in_year(&self, line: &str, year: i32) -> (r: Result<LogEntry, ParseError>) {
        parse_dated_line(line, year, false)
    }

    fn parse(&self, line: &str) -> (r: Result<LogEntry, ParseError>) {
        let year = crate::calendar::current_year();
        let r = self.parse_in_year(line, year);
        assert(outcome(r) == self.parsed(line@, year));
        r
    }

    fn name(&self) -> (n: &'static str) {
        "SecureLog"
    }
}

impl LogParser for JournalctlParser {
    open spec fn recognizes(&self, line: Seq<char>) -> bool {
        let p = tokens(line);
        has_dated_shape(p) && fits(SOURCE_SHAPE@, p[4])
    }

    open spec fn parsed(&self, line: Seq<char>, year: i32) -> Result<EntryView, ParseError> {
        dated_line(line, year, true)
    }

    open spec fn format_name(&self) -> Seq<char> {
        "Journalctl"@
    }

    fn is_type(&self, line: &str) -> (b: bool) {
        let chars = to_chars(line);
        let p = split_whitespace(chars.as_slice());
        if !dated_shape(&p) {
            return false;
        }
        assert(views(p@)[4] == p@[4]@);
        text_fits(SOURCE_SHAPE, p[4].as_slice())
    }

    fn parse_in_year(&self, line: &str, year: i32) -> (r: Result<LogEntry, ParseError>) {
        parse_dated_line(line, year, true)
    }

    fn parse(&self, line: &str) -> (r: Result<LogEntry, ParseError>) {
        let year = crate::calendar::current_year();
        let r = self.parse_in_year(line, year);
        assert(outcome(r) == self.parsed(line@, year));
        r
    }

    fn name(&self) -> (n: &'static str) {
        "Journalctl"
    }
}

/// The time of day at the head of `s`: what stands before the first `-` or
/// `+` (a zone offset) and before the first `.` (a fraction of a second).
pub open spec fn clock_part(s: Seq<char>) -> Seq<char> {
    let a = before_first(s, '-');
    let b = before_first(s, '+');
    before_first(if a.len() <= b.len() { a } else { b }, '.')
}

/// Year, month and day of a date written as three numbers joined by `-`.
pub open spec fn iso_date(s: Seq<char>) -> Result<(i32, u32, u32), ParseError> {
    let f = split_on(s, '-');
    if f.len() != 3 {
        Err(ParseError::DateFormat)
    } else if parse_signed(f[0]) is None || parse_unsigned(f[1]) is None || parse_unsigned(f[2])
        is None {
        Err(ParseError::Number)
    } else {
        Ok((parse_signed(f[0])->0, parse_unsigned(f[1])->0, parse_unsigned(f[2])->0))
    }
}

/// Reads a date written as three numbers joined by `-`.
pub fn read_iso_date(s: &[char]) -> (r: Result<(i32, u32, u32), ParseError>)
    ensures
        r == iso_date(s@),
{
    let f = split_chars(s, '-');
    assert(views(f@).len() == f@.len());
    if f.len() != 3 {
        return Err(ParseError::DateFormat);
    }
    assert(views(f@)[0] == f@[0]@ && views(f@)[1] == f@[1]@ && views(f@)[2] == f@[2]@);
    let year = match read_i32(f[0].as_slice()) {
        Some(v) => v,
        None => {
            return Err(ParseError::Number);
        },
    };
    let month = match read_u32(f[1].as_slice()) {
        Some(v) => v,
        None => {
            return Err(ParseError::Number);
        },
    };
    let day = match read_u32(f[2].as_slice()) {
        Some(v) => v,
        None => {
            return Err(ParseError::Number);
        },
    };
    Ok((year, month, day))
}

/// The record of a line laid out as ISO timestamp, host, source and
/// message. A line of fewer than three tokens gives the abnormal record.
pub open spec fn stamped_line(line: Seq<char>) -> Result<EntryView, ParseError> {
    let p = tokens(line);
    if p.len() < 3 {
        Ok(abnormal(line))
    } else {
        let halves = split_on(p[0], 'T');
        if halves.len() != 2 {
            Err(ParseError::TimestampFormat)
        } else if iso_date(halves[0]) is Err {
            Err(iso_date(halves[0])->Err_0)
        } else if time_of_day(clock_part(halves[1])) is Err {
            Err(time_of_day(clock_part(halves[1]))->Err_0)
        } else {
            let d = iso_date(halves[0])->Ok_0;
            let t = time_of_day(clock_part(halves[1]))->Ok_0;
            Ok(
                EntryView {
                    year: d.0,
                    month: d.1,
                    day: d.2,
                    hour: t.0,
                    minute: t.1,
                    second: t.2,
                    host: p[1],
                    daemon: p[2],
                    log_entry: join(p.skip(3), seq![' ']),
                },
            )
        }
    }
}

/// Parses a line laid out as ISO timestamp, host, source and message.
pub fn parse_stamped_line(line: &str) -> (r: Result<LogEntry, ParseError>)
    ensures
        outcome(r) == stamped_line(line@),
{
    let chars = to_chars(line);
    let p = split_whitespace(chars.as_slice());
    assert(views(p@).len() == p@.len());
    if p.len() < 3 {
        return Ok(LogEntry::abnormal_of(line));
    }
    assert(forall|i: int| 0 <= i < p@.len() ==> views(p@)[i] == p@[i]@);
    let halves = split_chars(p[0].as_slice(), 'T');
    assert(views(halves@).len() == halves@.len());
    if halves.len() != 2 {
        return Err(ParseError::TimestampFormat);
    }
    assert(views(halves@)[0] == halves@[0]@ && views(halves@)[1] == halves@[1]@);
    let d = match read_iso_date(halves[0].as_slice()) {
        Ok(d) => d,
        Err(e) => {
            return Err(e);
        },
    };
    let a = take_before(halves[1].as_slice(), '-');
    let b = take_before(halves[1].as_slice(), '+');
    let clock = if a.len() <= b.len() {
        take_before(a.as_slice(), '.')
    } else {
        take_before(b.as_slice(), '.')
    };
    let t = match read_time_of_day(clock.as_slice()) {
        Ok(t) => t,
        Err(e) => {
            return Err(e);
        },
    };
    let space: [char; 1] = [' '];
    assert(space@ =~= seq![' ']);
    let message = join_from(&p, 3, space.as_slice());
    Ok(
        LogEntry::from_parts(
            d.0,
            d.1,
            d.2,
            t.0,
            t.1,
            t.2,
            p[1].as_slice(),
            p[2].as_slice(),
            message.as_slice(),
        ),
    )
}

/// Syslog with ISO timestamps: `YYYY-MM-DDTHH:MM:SS[.frac][zone] host source message`.
pub struct RSyslogParser;

impl LogParser for RSyslogParser {
    open spec fn recognizes(&self, line: Seq<char>) -> bool {
        let p = tokens(line);
        p.len() >= 1 && fits(ISO_DATE_SHAPE@, p[0])
    }

    open spec fn parsed(&self, line: Seq<char>, year: i32) -> Result<EntryView, ParseError> {
        stamped_line(line)
    }

    open spec fn format_name(&self) -> Seq<char> {
        "RSyslog"@
    }

    fn is_type(&self, line: &str) -> (b: bool) {
        let chars = to_chars(line);
        let p = split_whitespace(chars.as_slice());
        assert(views(p@).len() == p@.len());
        if p.len() < 1 {
            return false;
        }
        assert(views(p@)[0] == p@[0]@);
        text_fits(ISO_DATE_SHAPE, p[0].as_slice())
    }

    fn parse_in_year(&self, line: &str, year: i32) -> (r: Result<LogEntry, ParseError>) {
        parse_stamped_line(line)
    }

    fn parse(&self, line: &str) -> (r: Result<LogEntry, ParseError>) {
        let r = parse_stamped_line(line);
        assert(outcome(r) == self.parsed(line@, 0));
        r
    }

    fn name(&self) -> (n: &'static str) {
        "RSyslog"
    }
}

/// A line of the dated shape is of the authentication log or of classic
/// syslog and never of both, as its source decides; a line of another
/// shape is of neither.
pub proof fn lemma_auth_or_classic(line: Seq<char>)
    ensures
        SecureLogParser.recognizes(line) == (has_dated_shape(tokens(line)) && is_auth_source(
            tokens(line)[4],
        )),
        SyslogParser.recognizes(line) == (has_dated_shape(tokens(line)) && !is_auth_source(
            tokens(line)[4],
        )),
        !(SyslogParser.recognizes(line) && SecureLogParser.recognizes(line)),
{
}

} // verus!
