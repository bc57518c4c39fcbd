//! The database server formats: the MySQL general log and the PostgreSQL
//! server log.

use vstd::prelude::*;
use crate::captured::{
    all_present, group, group_texts, read_stamp_fields, stamp_fields, Groups,
};
use crate::log_entry::{outcome, EntryView, LogEntry, LogParser, ParseError};
use crate::pattern::{fits, line_fits, regex_captures};
use crate::text::{extend_chars, to_chars};

verus! {

/// A general-log line: ISO timestamp ending in `Z`, session number, command.
pub const MYSQL_SHAPE: &'static str =
    "^\\d{4}-\\d{2}-\\d{2}T\\d{2}:\\d{2}:\\d{2}\\.\\d+Z\\s+\\d+\\s+(Query|Connect|Quit|Init|Execute)";

/// The fields of a general-log line: six of the timestamp, then session
/// number, command and the rest.
pub const MYSQL_FIELDS: &'static str =
    "^(\\d{4})-(\\d{2})-(\\d{2})T(\\d{2}):(\\d{2}):(\\d{2})\\.\\d+Z\\s+(\\d+)\\s+(\\w+)\\s*(.*)$";

/// A server-log line: timestamp, zone, process number, user and database,
/// level.
pub const POSTGRES_SHAPE: &'static str =
    "^\\d{4}-\\d{2}-\\d{2} \\d{2}:\\d{2}:\\d{2}\\.\\d+ \\w+ \\[\\d+\\] \\S+@\\S+ (LOG|ERROR|WARNING|FATAL|PANIC|DEBUG|INFO|NOTICE|STATEMENT):";

/// The fields of a server-log line: six of the timestamp, then process
/// number, user, database, level and message.
pub const POSTGRES_FIELDS: &'static str =
    "^(\\d{4})-(\\d{2})-(\\d{2}) (\\d{2}):(\\d{2}):(\\d{2})\\.\\d+ \\w+ \\[(\\d+)\\] (\\S+)@(\\S+) (\\w+):\\s*(.*)$";

/// The record of a general-log line whose fields are `found`: the host is
/// `thread_` and the session number, the source is the command, the message
/// is the query.
pub open spec fn mysql_record(found: Option<Groups>) -> Result<EntryView, ParseError> {
    match found {
        None => Err(ParseError::NoMatch),
        Some(g) => if !all_present(g, 1, 9) {
            Err(ParseError::NoMatch)
        } else {
            match stamp_fields(g, 1) {
                Err(e) => Err(e),
                Ok(t) => Ok(
                    EntryView {
                        year: t.0,
                        month: t.1,
                        day: t.2,
                        hour: t.3,
                        minute: t.4,
                        second: t.5,
                        host: "thread_"@ + group(g, 7)->0,
                        daemon: group(g, 8)->0,
                        log_entry: group(g, 9)->0,
                    },
                ),
            }
        },
    }
}

/// Builds the record of a general-log line from its fields.
pub fn mysql_entry(found: &Option<Vec<Option<String>>>) -> (r: Result<LogEntry, ParseError>)
    ensures
        outcome(r) == mysql_record(found.deep_view()),
{
    let g = match found {
        Some(g) => g,
        None => {
            return Err(ParseError::NoMatch);
        },
    };
    let tail = match group_texts(g, 7, 3) {
        Some(v) => v,
        None => {
            proof {
                if all_present(g.deep_view(), 1, 9) {
                    assert forall|i: int| 7 <= i < 10 implies (#[trigger] group(
                        g.deep_view(),
                        i,
                    )) is Some by {}
                }
            }
            return Err(ParseError::NoMatch);
        },
    };
    let t = match read_stamp_fields(g, 1) {
        Ok(t) => t,
        Err(e) => {
            proof {
                if e == ParseError::NoMatch && all_present(g.deep_view(), 1, 9) {
                    assert forall|i: int| 1 <= i < 7 implies (#[trigger] group(
                        g.deep_view(),
                        i,
                    )) is Some by {}
                }
            }
            return Err(e);
        },
    };
    proof {
        assert(group(g.deep_view(), 7) == Some(tail@[0]@));
        assert(group(g.deep_view(), 8) == Some(tail@[1]@));
        assert(group(g.deep_view(), 9) == Some(tail@[2]@));
        assert forall|i: int| 1 <= i < 10 implies (#[trigger] group(g.deep_view(), i)) is Some by {
            if i >= 7 {
                assert(group(g.deep_view(), i) == Some(tail@[i - 7]@));
            }
        }
    }
    let mut host = to_chars("thread_");
    extend_chars(&mut host, tail[0].as_slice());
    Ok(
        LogEntry::from_parts(
            t.0,
            t.1,
            t.2,
            t.3,
            t.4,
            t.5,
            host.as_slice(),
            tail[1].as_slice(),
            tail[2].as_slice(),
        ),
    )
}

/// The record of a server-log line whose fields are `found`: the host is
/// `user@database`, the source is the level.
pub open spec fn postgres_record(found: Option<Groups>) -> Result<EntryView, ParseError> {
    match found {
        None => Err(ParseError::NoMatch),
        Some(g) => if !all_present(g, 1, 11) {
            Err(ParseError::NoMatch)
        } else {
            match stamp_fields(g, 1) {
                Err(e) => Err(e),
                Ok(t) => Ok(
                    EntryView {
                        year: t.0,
                        month: t.1,
                        day: t.2,
                        hour: t.3,
                        minute: t.4,
                        second: t.5,
                        host: group(g, 8)->0 + seq!['@'] + group(g, 9)->0,
                        daemon: group(g, 10)->0,
                        log_entry: group(g, 11)->0,
                    },
                ),
            }
        },
    }
}

/// Builds the record of a server-log line from its fields.
pub fn postgres_entry(found: &Option<Vec<Option<String>>>) -> (r: Result<LogEntry, ParseError>)
    ensures
        outcome(r) == postgres_record(found.deep_view()),
{
    let g = match found {
        Some(g) => g,
        None => {
            return Err(ParseError::NoMatch);
        },
    };
    let tail = match group_texts(g, 7, 5) {
        Some(v) => v,
        None => {
            proof {
                if all_present(g.deep_view(), 1, 11) {
                    assert forall|i: int| 7 <= i < 12 implies (#[trigger] group(
                        g.deep_view(),
                        i,
                    )) is Some by {}
                }
            }
            return Err(ParseError::NoMatch);
        },
    };
    let t = match read_stamp_fields(g, 1) {
        Ok(t) => t,
        Err(e) => {
            proof {
                if e == ParseError::NoMatch && all_present(g.deep_view(), 1, 11) {
                    assert forall|i: int| 1 <= i < 7 implies (#[trigger] group(
                        g.deep_view(),
                        i,
                    )) is Some by {}
                }
            }
            return Err(e);
        },
    };
    proof {
        assert(group(g.deep_view(), 8) == Some(tail@[1]@));
        assert(group(g.deep_view(), 9) == Some(tail@[2]@));
        assert(group(g.deep_view(), 10) == Some(tail@[3]@));
        assert(group(g.deep_view(), 11) == Some(tail@[4]@));
        assert forall|i: int| 1 <= i < 12 implies (#[trigger] group(g.deep_view(), i)) is Some by {
            if i >= 7 {
                assert(group(g.deep_view(), i) == Some(tail@[i - 7]@));
            }
        }
    }
    let mut host: Vec<char> = Vec::new();
    extend_chars(&mut host, tail[1].as_slice());
    host.push('@');
    extend_chars(&mut host, tail[2].as_slice());
    proof {
        assert(host@ =~= tail@[1]@ + seq!['@'] + tail@[2]@);
    }
    Ok(
        LogEntry::from_parts(
            t.0,
            t.1,
            t.2,
            t.3,
            t.4,
            t.5,
            host.as_slice(),
            tail[3].as_slice(),
            tail[4].as_slice(),
        ),
    )
}

/// The MySQL general log.
pub struct MysqlGeneralParser;

/// The PostgreSQL server log.
pub struct PostgresqlParser;

impl LogParser for MysqlGeneralParser {
    open spec fn recognizes(&self, line: Seq<char>) -> bool {
        fits(MYSQL_SHAPE@, line)
    }

    open spec fn parsed(&self, line: Seq<char>, year: i32) -> Result<EntryView, ParseError> {
        mysql_record(regex_captures(MYSQL_FIELDS@, line))
    }

    open spec fn format_name(&self) -> Seq<char> {
        "MySQL-General"@
    }

    fn is_type(&self, line: &str) -> (b: bool) {
        line_fits(MYSQL_SHAPE, line)
    }

    fn parse_in_year(&self, line: &str, year: i32) -> (r: Result<LogEntry, ParseError>) {
        let found = crate::pattern::captures(MYSQL_FIELDS, line);
        mysql_entry(&found)
    }

    fn parse(&self, line: &str) -> (r: Result<LogEntry, ParseError>) {
        let r = self.parse_in_year(line, 0);
        assert(outcome(r) == self.parsed(line@, 0));
        r
    }

    fn name(&self) -> (n: &'static str) {
        "MySQL-General"
    }
}

impl LogParser for PostgresqlParser {
    open spec fn recognizes(&self, line: Seq<char>) -> bool {
        fits(POSTGRES_SHAPE@, line)
    }

    open spec fn parsed(&self, line: Seq<char>, year: i32) -> Result<EntryView, ParseError> {
        postgres_record(regex_captures(POSTGRES_FIELDS@, line))
    }

    open spec fn format_name(&self) -> Seq<char> {
        "PostgreSQL"@
    }

    fn is_type(&self, line: &str) -> (b: bool) {
        line_fits(POSTGRES_SHAPE, line)
    }

    fn parse_in_year(&self, line: &str, year: i32) -> (r: Result<LogEntry, ParseError>) {
        let found = crate::pattern::captures(POSTGRES_FIELDS, line);
        postgres_entry(&found)
    }

    fn parse(&self, line: &str) -> (r: Result<LogEntry, ParseError>) {
        let r = self.parse_in_year(line, 0);
        assert(outcome(r) == self.parsed(line@, 0));
        r
    }

    fn name(&self) -> (n: &'static str) {
        "PostgreSQL"
    }
}

} // verus!
