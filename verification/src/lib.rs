//! Format detection, normalisation and reporting for operational log text.
//!
//! A batch of lines is sampled to choose one of eleven formats
//! ([`detect`]), every line is parsed under that format into a
//! [`LogEntry`] ([`crunch_log`]), and the records are reported: grouped and
//! counted under scrubbed keys ([`hash`], [`filter`]), counted in buckets
//! along the time line ([`graph`]), or printed line by line ([`report`]).
//!
//! Every function states what it returns over the characters of its
//! texts. Three things are taken from other crates and not restated here:
//! what a regular expression matches ([`pattern`]), what a text writes
//! under a date format ([`calendar`]), and random draws ([`sampling`]).

pub mod access;
pub mod calendar;
pub mod captured;
pub mod crunch_log;
pub mod database;
pub mod detect;
pub mod evtx_parser;
pub mod filter;
pub mod graph;
pub mod hash;
pub mod laws;
pub mod log_entry;
pub mod number;
pub mod order;
pub mod pattern;
pub mod report;
pub mod sampling;
pub mod syslog;
pub mod text;

pub use access::{ApacheCombinedParser, ApacheCommonParser, AwsAlbParser, AwsElbParser};
pub use calendar::Timestamp;
pub use crunch_log::CrunchLog;
pub use database::{MysqlGeneralParser, PostgresqlParser};
pub use detect::Format;
pub use evtx_parser::EvtxLogParser;
pub use filter::Filter;
pub use graph::{GraphHash, GraphType};
pub use hash::{HashMode, SampleMode, SuperHash};
pub use log_entry::{LogEntry, LogError, LogParser, ParseError, RawParser};
pub use syslog::{JournalctlParser, RSyslogParser, SecureLogParser, SyslogParser};
