//! The request log formats: Apache access logs and AWS load-balancer logs.

use vstd::prelude::*;
use crate::captured::{
    all_present, first_token, first_token_or, group, group_texts, read_stamp_fields,
    stamp_fields, Groups,
};
use crate::log_entry::{outcome, EntryView, LogEntry, LogParser, ParseError};
use crate::number::{parse_signed, parse_unsigned, read_i32, read_u32};
use crate::pattern::{fits, line_fits, regex_captures};
use crate::syslog::{month_number, month_of};
use crate::text::{
    before_first, extend_chars, first_index_of, from_chars, lemma_first_index_of, slice_chars,
    split_whitespace, take_before, to_chars, tokens, views,
};

verus! {

/// A line of the common access log, whole.
pub const APACHE_COMMON_SHAPE: &'static str =
    "^\\S+ \\S+ \\S+ \\[\\d{2}/\\w{3}/\\d{4}:\\d{2}:\\d{2}:\\d{2} [+-]\\d{4}\\] \"\\S+ \\S+ \\S+\" \\d+ (?:\\d+|-)$";

/// The fields of a line of the common access log: address, identity, user,
/// day, month, year, hour, minute, second, zone, request, status, size.
pub const APACHE_COMMON_FIELDS: &'static str =
    "^(\\S+) (\\S+) (\\S+) \\[(\\d{2})/(\\w{3})/(\\d{4}):(\\d{2}):(\\d{2}):(\\d{2}) ([+-]\\d{4})\\] \"([^\"]+)\" (\\d+) (\\S+)";

/// A line of the combined access log, whole.
pub const APACHE_COMBINED_SHAPE: &'static str =
    "^\\S+ \\S+ \\S+ \\[\\d{2}/\\w{3}/\\d{4}:\\d{2}:\\d{2}:\\d{2} [+-]\\d{4}\\] \"\\S+ \\S+ \\S+\" \\d+ (?:\\d+|-) \"[^\"]*\" \"[^\"]*\"$";

/// The fields of a line of the combined access log: those of the common
/// log, then referer and user agent.
pub const APACHE_COMBINED_FIELDS: &'static str =
    "^(\\S+) (\\S+) (\\S+) \\[(\\d{2})/(\\w{3})/(\\d{4}):(\\d{2}):(\\d{2}):(\\d{2}) ([+-]\\d{4})\\] \"([^\"]+)\" (\\d+) (\\S+) \"([^\"]*)\" \"([^\"]*)\"";

/// The beginning of a classic load-balancer line, up to the first status.
pub const ELB_SHAPE: &'static str =
    "^\\d{4}-\\d{2}-\\d{2}T\\d{2}:\\d{2}:\\d{2}\\.\\d+Z \\S+ \\d+\\.\\d+\\.\\d+\\.\\d+:\\d+ (\\d+\\.\\d+\\.\\d+\\.\\d+:\\d+|-) [\\d\\.-]+ [\\d\\.-]+ [\\d\\.-]+ \\d+ ";

/// The beginning of an application load-balancer line: protocol, timestamp.
pub const ALB_SHAPE: &'static str =
    "^(http|https|h2|grpc|ws|wss) \\d{4}-\\d{2}-\\d{2}T\\d{2}:\\d{2}:\\d{2}\\.\\d+Z";

/// The six fields at the head of an ISO timestamp.
pub const STAMP_FIELDS: &'static str = "^(\\d{4})-(\\d{2})-(\\d{2})T(\\d{2}):(\\d{2}):(\\d{2})";

/// The message of an access-log record: request, status and size, and for
/// the combined log the referer and the user agent, each in quotes.
pub open spec fn access_message(g: Groups, combined: bool) -> Seq<char> {
    let base = group(g, 11)->0 + seq![' '] + group(g, 12)->0 + seq![' '] + group(g, 13)->0;
    if combined {
        base + seq![' ', '"'] + group(g, 14)->0 + seq!['"', ' ', '"'] + group(g, 15)->0
            + seq!['"']
    } else {
        base
    }
}

/// The record of an access-log line whose fields are `found`: the host is
/// the client address, the source is the request's method (`HTTP` where the
/// request is blank).
pub open spec fn access_record(found: Option<Groups>, combined: bool) -> Result<
    EntryView,
    ParseError,
> {
    match found {
        None => Err(ParseError::NoMatch),
        Some(g) => {
            let count: int = if combined {
                15
            } else {
                13
            };
            if !all_present(g, 1, count) {
                Err(ParseError::NoMatch)
            } else if parse_unsigned(group(g, 4)->0) is None || parse_signed(group(g, 6)->0)
                is None || parse_unsigned(group(g, 7)->0) is None || parse_unsigned(
                group(g, 8)->0,
            ) is None || parse_unsigned(group(g, 9)->0) is None {
                Err(ParseError::Number)
            } else if month_number(group(g, 5)->0) is None {
                Err(ParseError::Month)
            } else {
                Ok(
                    EntryView {
                        year: parse_signed(group(g, 6)->0)->0,
                        month: month_number(group(g, 5)->0)->0,
                        day: parse_unsigned(group(g, 4)->0)->0,
                        hour: parse_unsigned(group(g, 7)->0)->0,
                        minute: parse_unsigned(group(g, 8)->0)->0,
                        second: parse_unsigned(group(g, 9)->0)->0,
                        host: group(g, 1)->0,
                        daemon: first_token_or(group(g, 11)->0, "HTTP"@),
                        log_entry: access_message(g, combined),
                    },
                )
            }
        },
    }
}

/// Builds the record of an access-log line from its fields.
pub fn access_entry(found: &Option<Vec<Option<String>>>, combined: bool) -> (r: Result<
    LogEntry,
    ParseError,
>)
    ensures
        outcome(r) == access_record(found.deep_view(), combined),
{
    let g = match found {
        Some(g) => g,
        None => {
            return Err(ParseError::NoMatch);
        },
    };
    let count: usize = if combined {
        15
    } else {
        13
    };
    let v = match group_texts(g, 1, count) {
        Some(v) => v,
        None => {
            return Err(ParseError::NoMatch);
        },
    };
    proof {
        assert forall|k: int| 1 <= k <= count implies group(g.deep_view(), k) == Some(
            v@[k - 1]@,
        ) by {
            assert(group(g.deep_view(), 1 + (k - 1)) == Some(v@[k - 1]@));
        }
    }
    let day = read_u32(v[3].as_slice());
    let year = read_i32(v[5].as_slice());
    let hour = read_u32(v[6].as_slice());
    let minute = read_u32(v[7].as_slice());
    let second = read_u32(v[8].as_slice());
    let (year, day, hour, minute, second) = match (year, day, hour, minute, second) {
        (Some(y), Some(d), Some(h), Some(mi), Some(s)) => (y, d, h, mi, s),
        _ => {
            return Err(ParseError::Number);
        },
    };
    let month = match month_of(v[4].as_slice()) {
        Some(m) => m,
        None => {
            return Err(ParseError::Month);
        },
    };
    let http = to_chars("HTTP");
    let daemon = first_token(v[10].as_slice(), http.as_slice());
    let mut message: Vec<char> = Vec::new();
    extend_chars(&mut message, v[10].as_slice());
    message.push(' ');
    extend_chars(&mut message, v[11].as_slice());
    message.push(' ');
    extend_chars(&mut message, v[12].as_slice());
    if combined {
        message.push(' ');
        message.push('"');
        extend_chars(&mut message, v[13].as_slice());
        message.push('"');
        message.push(' ');
        message.push('"');
        extend_chars(&mut message, v[14].as_slice());
        message.push('"');
    }
    proof {
        assert(message@ =~= access_message(g.deep_view(), combined));
    }
    Ok(
        LogEntry::from_parts(
            year,
            month,
            day,
            hour,
            minute,
            second,
            v[0].as_slice(),
            daemon.as_slice(),
            message.as_slice(),
        ),
    )
}

/// The Apache common access log.
pub struct ApacheCommonParser;

/// The Apache combined access log.
pub struct ApacheCombinedParser;

impl LogParser for ApacheCommonParser {
    open spec fn recognizes(&self, line: Seq<char>) -> bool {
        fits(APACHE_COMMON_SHAPE@, line)
    }

    open spec fn parsed(&self, line: Seq<char>, year: i32) -> Result<EntryView, ParseError> {
        access_record(regex_captures(APACHE_COMMON_FIELDS@, line), false)
    }

    open spec fn format_name(&self) -> Seq<char> {
        "ApacheCommon"@
    }

    fn is_type(&self, line: &str) -> (b: bool) {
        line_fits(APACHE_COMMON_SHAPE, line)
    }

    fn parse_in_year(&self, line: &str, year: i32) -> (r: Result<LogEntry, ParseError>) {
        let found = crate::pattern::captures(APACHE_COMMON_FIELDS, line);
        access_entry(&found, false)
    }

    fn parse(&self, line: &str) -> (r: Result<LogEntry, ParseError>) {
        let r = self.parse_in_year(line, 0);
        assert(outcome(r) == self.parsed(line@, 0));
        r
    }

    fn name(&self) -> (n: &'static str) {
        "ApacheCommon"
    }
}

impl LogParser for ApacheCombinedParser {
    open spec fn recognizes(&self, line: Seq<char>) -> bool {
        fits(APACHE_COMBINED_SHAPE@, line)
    }

    open spec fn parsed(&self, line: Seq<char>, year: i32) -> Result<EntryView, ParseError> {
        access_record(regex_captures(APACHE_COMBINED_FIELDS@, line), true)
    }

    open spec fn format_name(&self) -> Seq<char> {
        "ApacheCombined"@
    }

    fn is_type(&self, line: &str) -> (b: bool) {
        line_fits(APACHE_COMBINED_SHAPE, line)
    }

    fn parse_in_year(&self, line: &str, year: i32) -> (r: Result<LogEntry, ParseError>) {
        let found = crate::pattern::captures(APACHE_COMBINED_FIELDS, line);
        access_entry(&found, true)
    }

    fn parse(&self, line: &str) -> (r: Result<LogEntry, ParseError>) {
        let r = self.parse_in_year(line, 0);
        assert(outcome(r) == self.parsed(line@, 0));
        r
    }

    fn name(&self) -> (n: &'static str) {
        "ApacheCombined"
    }
}

/// The position of the last `c` in `s`, or -1 when it holds none.
pub open spec fn last_index_of(s: Seq<char>, c: char) -> int
    decreases s.len(),
{
    if s.len() == 0 {
        -1
    } else if s.last() == c {
        s.len() - 1
    } else {
        last_index_of(s.drop_last(), c)
    }
}

/// The request of a load-balancer line: what stands between the first
/// double quote and, with `to_last`, the last one, else the next one. A
/// line without quotes gives all but its first character; a line whose
/// only quote is at once first and last gives `-`.
pub open spec fn quoted_request(line: Seq<char>, to_last: bool) -> Seq<char> {
    let first = first_index_of(line, '"');
    let start = if first < line.len() {
        first
    } else {
        0
    };
    let end = if to_last {
        if last_index_of(line, '"') >= 0 {
            last_index_of(line, '"')
        } else {
            line.len() as int
        }
    } else if start + 1 <= line.len() && first_index_of(line.skip(start + 1), '"') < line.len()
        - (start + 1) {
        start + 1 + first_index_of(line.skip(start + 1), '"')
    } else {
        line.len() as int
    };
    if start < end {
        line.subrange(start + 1, end)
    } else {
        seq!['-']
    }
}

/// The position of the last `c` in `s`, or the length of `s` when it
/// holds none.
fn last_position(s: &[char], c: char) -> (r: usize)
    ensures
        r == if last_index_of(s@, c) >= 0 {
            last_index_of(s@, c)
        } else {
            s@.len() as int
        },
        last_index_of(s@, c) < s@.len(),
{
    let mut n: usize = s.len();
    proof {
        assert(s@.take(n as int) == s@);
    }
    while n > 0
        invariant
            n <= s@.len(),
            last_index_of(s@, c) == last_index_of(s@.take(n as int), c),
        decreases n,
    {
        if s[n - 1] == c {
            return n - 1;
        }
        proof {
            assert(s@.take(n as int).drop_last() == s@.take(n - 1));
        }
        n -= 1;
    }
    s.len()
}

/// Cuts the request out of a load-balancer line.
pub fn find_request(line: &[char], to_last: bool) -> (r: Vec<char>)
    ensures
        r@ == quoted_request(line@, to_last),
{
    let n: usize = line.len();
    let first: usize = take_before(line, '"').len();
    proof {
        lemma_first_index_of(line@, '"');
    }
    let start: usize = if first < n {
        first
    } else {
        0
    };
    let end: usize = if to_last {
        last_position(line, '"')
    } else if start + 1 <= n {
        let rest = slice_chars(line, start + 1, n);
        assert(rest@ == line@.skip(start + 1));
        let next: usize = take_before(rest.as_slice(), '"').len();
        proof {
            lemma_first_index_of(rest@, '"');
        }
        if next < rest.len() {
            start + 1 + next
        } else {
            n
        }
    } else {
        n
    };
    if start < end {
        slice_chars(line, start + 1, end)
    } else {
        let mut r: Vec<char> = Vec::new();
        r.push('-');
        assert(r@ =~= seq!['-']);
        r
    }
}

/// The message of a load-balancer record: the request, the two status
/// codes, and for an application balancer the protocol.
pub open spec fn balancer_message(
    request: Seq<char>,
    status: Seq<char>,
    inner_status: Seq<char>,
    protocol: Option<Seq<char>>,
) -> Seq<char> {
    match protocol {
        None => request + " elb_status="@ + status + " backend_status="@ + inner_status,
        Some(p) => request + " elb_status="@ + status + " target_status="@ + inner_status
            + " protocol="@ + p,
    }
}

/// The record of a load-balancer line whose timestamp fields are `found`:
/// the host is the client address without its port, the source is the
/// request's method. A classic line needs 13 tokens and has its fallback
/// source `HTTP`; an application line needs 15 and falls back on its
/// protocol.
pub open spec fn balancer_record(line: Seq<char>, found: Option<Groups>, classic: bool) -> Result<
    EntryView,
    ParseError,
> {
    let p = tokens(line);
    let shift: int = if classic {
        0
    } else {
        1
    };
    if p.len() < 13 + 2 * shift {
        Err(ParseError::TooFewFields)
    } else {
        match found {
            None => Err(ParseError::NoMatch),
            Some(g) => match stamp_fields(g, 1) {
                Err(e) => Err(e),
                Ok(t) => {
                    let request = quoted_request(line, classic);
                    Ok(
                        EntryView {
                            year: t.0,
                            month: t.1,
                            day: t.2,
                            hour: t.3,
                            minute: t.4,
                            second: t.5,
                            host: before_first(p[2 + shift], ':'),
                            daemon: first_token_or(
                                request,
                                if classic {
                                    "HTTP"@
                                } else {
                                    p[0]
                                },
                            ),
                            log_entry: balancer_message(
                                request,
                                p[7 + shift],
                                p[8 + shift],
                                if classic {
                                    None
                                } else {
                                    Some(p[0])
                                },
                            ),
                        },
                    )
                },
            },
        }
    }
}

/// The record of a load-balancer line.
pub open spec fn balancer_line(line: Seq<char>, classic: bool) -> Result<EntryView, ParseError> {
    let p = tokens(line);
    let shift: int = if classic {
        0
    } else {
        1
    };
    if p.len() < 13 + 2 * shift {
        Err(ParseError::TooFewFields)
    } else {
        balancer_record(line, regex_captures(STAMP_FIELDS@, p[shift]), classic)
    }
}

/// Builds the record of a load-balancer line from the fields of its
/// timestamp.
pub fn balancer_entry(line: &str, found: &Option<Vec<Option<String>>>, classic: bool) -> (r:
    Result<LogEntry, ParseError>)
    ensures
        outcome(r) == balancer_record(line@, found.deep_view(), classic),
{
    let chars = to_chars(line);
    let p = split_whitespace(chars.as_slice());
    assert(views(p@).len() == p@.len());
    let shift: usize = if classic {
        0
    } else {
        1
    };
    if p.len() < 13 + 2 * shift {
        return Err(ParseError::TooFewFields);
    }
    assert(forall|i: int| 0 <= i < p@.len() ==> views(p@)[i] == p@[i]@);
    let g = match found {
        Some(g) => g,
        None => {
            return Err(ParseError::NoMatch);
        },
    };
    let t = match read_stamp_fields(g, 1) {
        Ok(t) => t,
        Err(e) => {
            return Err(e);
        },
    };
    let request = find_request(chars.as_slice(), classic);
    let host = take_before(p[2 + shift].as_slice(), ':');
    let mut message: Vec<char> = Vec::new();
    extend_chars(&mut message, request.as_slice());
    let a = to_chars(" elb_status=");
    extend_chars(&mut message, a.as_slice());
    extend_chars(&mut message, p[7 + shift].as_slice());
    let daemon = if classic {
        let b = to_chars(" backend_status=");
        extend_chars(&mut message, b.as_slice());
        extend_chars(&mut message, p[8].as_slice());
        let http = to_chars("HTTP");
        first_token(request.as_slice(), http.as_slice())
    } else {
        let b = to_chars(" target_status=");
        extend_chars(&mut message, b.as_slice());
        extend_chars(&mut message, p[9].as_slice());
        let c = to_chars(" protocol=");
        extend_chars(&mut message, c.as_slice());
        extend_chars(&mut message, p[0].as_slice());
        first_token(request.as_slice(), p[0].as_slice())
    };
    Ok(
        LogEntry::from_parts(
            t.0,
            t.1,
            t.2,
            t.3,
            t.4,
            t.5,
            host.as_slice(),
            daemon.as_slice(),
            message.as_slice(),
        ),
    )
}

/// Parses a load-balancer line.
pub fn parse_balancer_line(line: &str, classic: bool) -> (r: Result<LogEntry, ParseError>)
    ensures
        outcome(r) == balancer_line(line@, classic),
{
    let chars = to_chars(line);
    let p = split_whitespace(chars.as_slice());
    assert(views(p@).len() == p@.len());
    let shift: usize = if classic {
        0
    } else {
        1
    };
    if p.len() < 13 + 2 * shift {
        return Err(ParseError::TooFewFields);
    }
    assert(views(p@)[shift as int] == p@[shift as int]@);
    let stamp = from_chars(p[shift].as_slice());
    let found = crate::pattern::captures(STAMP_FIELDS, stamp.as_str());
    balancer_entry(line, &found, classic)
}

/// The AWS classic load balancer.
pub struct AwsElbParser;

/// The AWS application load balancer.
pub struct AwsAlbParser;

impl LogParser for AwsElbParser {
    open spec fn recognizes(&self, line: Seq<char>) -> bool {
        fits(ELB_SHAPE@, line)
    }

    open spec fn parsed(&self, line: Seq<char>, year: i32) -> Result<EntryView, ParseError> {
        balancer_line(line, true)
    }

    open spec fn format_name(&self) -> Seq<char> {
        "AWS-ELB"@
    }

    fn is_type(&self, line: &str) -> (b: bool) {
        line_fits(ELB_SHAPE, line)
    }

    fn parse_in_year(&self, line: &str, year: i32) -> (r: Result<LogEntry, ParseError>) {
        parse_balancer_line(line, true)
    }

    fn parse(&self, line: &str) -> (r: Result<LogEntry, ParseError>) {
        let r = self.parse_in_year(line, 0);
        assert(outcome(r) == self.parsed(line@, 0));
        r
    }

    fn name(&self) -> (n: &'static str) {
        "AWS-ELB"
    }
}

impl LogParser for AwsAlbParser {
    open spec fn recognizes(&self, line: Seq<char>) -> bool {
        fits(ALB_SHAPE@, line)
    }

    open spec fn parsed(&self, line: Seq<char>, year: i32) -> Result<EntryView, ParseError> {
        balancer_line(line, false)
    }

    open spec fn format_name(&self) -> Seq<char> {
        "AWS-ALB"@
    }

    fn is_type(&self, line: &str) -> (b: bool) {
        line_fits(ALB_SHAPE, line)
    }

    fn parse_in_year(&self, line: &str, year: i32) -> (r: Result<LogEntry, ParseError>) {
        parse_balancer_line(line, false)
    }

    fn parse(&self, line: &str) -> (r: Result<LogEntry, ParseError>) {
        let r = self.parse_in_year(line, 0);
        assert(outcome(r) == self.parsed(line@, 0));
        r
    }

    fn name(&self) -> (n: &'static str) {
        "AWS-ALB"
    }
}

} // verus!
