use glancelog::{
    ApacheCombinedParser, ApacheCommonParser, AwsAlbParser, AwsElbParser, JournalctlParser,
    LogParser, MysqlGeneralParser, ParseError, PostgresqlParser, RSyslogParser, RawParser,
    SecureLogParser, SyslogParser,
};

const SYSLOG: &str = "Jan 5 10:00:00 host1 sshd: failed";
const SECURE: &str = "Feb 12 03:04:05 gate sshd[4242]: pam_unix(sshd:auth): authentication failure";
const JOURNAL: &str = "Mar 7 21:15:02 box systemd[1]: Started Session 3 of user root.";
const RSYSLOG: &str = "2010-06-24T17:56:32.197716-04:00 myhost kernel: something   happened here";
const COMMON: &str = "127.0.0.1 - frank [10/Oct/2000:13:55:36 -0700] \"GET /apache_pb.gif HTTP/1.0\" 200 2326";
const COMBINED: &str = "127.0.0.1 - frank [10/Oct/2000:13:55:36 -0700] \"GET /apache_pb.gif HTTP/1.0\" 200 2326 \"http://www.example.com/start.html\" \"Mozilla/4.08 [en] (Win98; I ;Nav)\"";
const ELB: &str = "2015-05-13T23:39:43.945958Z my-loadbalancer 192.168.131.39:2817 10.0.0.1:80 0.000073 0.001048 0.000057 200 200 0 29 \"GET http://www.example.com:80/ HTTP/1.1\" \"curl/7.38.0\" - -";
const ALB: &str = "http 2018-07-02T22:23:00.186641Z app/my-loadbalancer/50dc6c495c0c9188 192.168.131.39:2817 10.0.0.1:80 0.000 0.001 0.000 200 201 34 366 \"GET http://www.example.com:80/ HTTP/1.1\" \"curl/7.46.0\" - - arn:aws:elasticloadbalancing:us-east-2:123456789012:targetgroup/my-targets/73e2d6bc24d8a067 \"Root=1-58337262-36d228ad5d99923122bbe354\" \"-\" \"-\" 0 2018-07-02T22:22:48.364000Z \"forward\" \"-\" \"-\"";
const MYSQL: &str = "2023-11-14T10:30:45.123456Z    42 Query     SELECT * FROM users";
const POSTGRES: &str = "2023-11-14 10:30:45.123 UTC [12345] postgres@testdb LOG:  database system is ready";

#[test]
fn format_names_are_stable() {
    assert_eq!(SyslogParser.name(), "Syslog");
    assert_eq!(RSyslogParser.name(), "RSyslog");
    assert_eq!(SecureLogParser.name(), "SecureLog");
    assert_eq!(JournalctlParser.name(), "Journalctl");
    assert_eq!(ApacheCommonParser.name(), "ApacheCommon");
    assert_eq!(ApacheCombinedParser.name(), "ApacheCombined");
    assert_eq!(AwsElbParser.name(), "AWS-ELB");
    assert_eq!(AwsAlbParser.name(), "AWS-ALB");
    assert_eq!(MysqlGeneralParser.name(), "MySQL-General");
    assert_eq!(PostgresqlParser.name(), "PostgreSQL");
    assert_eq!(RawParser.name(), "Raw");
}

#[test]
fn classic_syslog_line_is_recognized_and_parsed() {
    assert!(SyslogParser.is_type(SYSLOG));
    let e = SyslogParser.parse_in_year(SYSLOG, 2024).unwrap();
    assert_eq!((e.year, e.month, e.day, e.hour, e.minute, e.second), (2024, 1, 5, 10, 0, 0));
    assert_eq!(e.host, "host1");
    assert_eq!(e.daemon, "sshd:");
    assert_eq!(e.log_entry, "failed");
}

#[test]
fn classic_syslog_excludes_authentication_lines() {
    assert!(!SyslogParser.is_type("Feb 12 03:04:05 gate pam_unix(sshd:auth): failure"));
    assert!(!SyslogParser.is_type("Jan 5 10:00:00 host1 sshd[123]: Failed password for root"));
    assert!(!SyslogParser.is_type(
        "Jan 5 10:00:00 host1 pam_unix(sshd:auth): authentication failure"
    ));
    assert!(!SyslogParser.is_type(SECURE));
    assert!(SyslogParser.is_type("Jan 5 10:00:00 host1 cron: job started now"));
    assert!(SyslogParser.is_type("Feb 12 03:04:05 sshd[42]: x y z"));
    assert!(SyslogParser.is_type("Feb 12 03:04:05 gate su: pam_unix(su:session): opened"));
    assert!(SyslogParser.is_type("Feb 12 03:04:05 gate sshd: accepted"));
    assert!(!SyslogParser.is_type("Feb 12 03:04:05 gate"));
    assert!(!SyslogParser.is_type("feb 12 03:04:05 gate sshd: x"));
    assert!(!SyslogParser.is_type("Feb 123 03:04:05 gate sshd: x"));
    assert!(!SyslogParser.is_type("Feb 12 03:04 gate sshd: x"));
}

#[test]
fn parse_without_a_year_takes_the_year_of_the_clock() {
    let e = SyslogParser.parse(SYSLOG).unwrap();
    assert!(e.year >= 2024);
    assert_eq!((e.month, e.day), (1, 5));
}

#[test]
fn short_lines_become_abnormal_records() {
    let e = SyslogParser.parse_in_year("Jan 5 10:00:00 host1", 2024).unwrap();
    assert_eq!((e.year, e.month, e.day, e.hour, e.minute, e.second), (1900, 1, 1, 0, 0, 0));
    assert_eq!(e.host, "#");
    assert_eq!(e.daemon, "#");
    assert_eq!(e.log_entry, "Jan 5 10:00:00 host1");
    let r = RSyslogParser.parse_in_year("2010-06-24T17:56:32 myhost", 0).unwrap();
    assert_eq!(r.host, "#");
    assert_eq!(r.log_entry, "2010-06-24T17:56:32 myhost");
}

#[test]
fn authentication_line_is_recognized_and_parsed() {
    assert!(SecureLogParser.is_type(SECURE));
    assert!(SecureLogParser.is_type(
        "Jan 5 10:00:00 host1 pam_unix(sshd:auth): authentication failure"
    ));
    assert!(SecureLogParser.is_type("Jan 5 10:00:00 host1 sshd[123]: Failed password for root"));
    assert!(SecureLogParser.is_type("Jan 5 10:00:00 host1 pam_unix(sshd:auth):"));
    assert!(!SecureLogParser.is_type(SYSLOG));
    assert!(!SecureLogParser.is_type("Jan 5 10:00:00 host1 cron: job started now"));
    assert!(!SecureLogParser.is_type("Feb 12 03:04:05 gate su: pam_unix(su:session): opened"));
    assert!(!SecureLogParser.is_type("Feb 12 03:04:05 sshd[42]: x y z"));
    assert!(!SecureLogParser.is_type("feb 12 03:04:05 gate sshd[42]: x"));
    assert!(!SecureLogParser.is_type("Feb 12 03:04 gate sshd[42]: x"));
    assert!(!SecureLogParser.is_type("Feb 12 03:04:05 sshd[42]:"));
    let e = SecureLogParser.parse_in_year(SECURE, 2023).unwrap();
    assert_eq!((e.year, e.month, e.day, e.hour, e.minute, e.second), (2023, 2, 12, 3, 4, 5));
    assert_eq!(e.host, "gate");
    assert_eq!(e.daemon, "sshd[4242]:");
    assert_eq!(e.log_entry, "pam_unix(sshd:auth): authentication failure");
}

#[test]
fn journal_line_is_recognized_and_loses_the_colon() {
    assert!(JournalctlParser.is_type(JOURNAL));
    assert!(JournalctlParser.is_type(SYSLOG));
    assert!(!JournalctlParser.is_type("Mar 7 21:15:02 box (sd-pam): session opened"));
    let e = JournalctlParser.parse_in_year(JOURNAL, 2022).unwrap();
    assert_eq!((e.year, e.month, e.day, e.hour, e.minute, e.second), (2022, 3, 7, 21, 15, 2));
    assert_eq!(e.host, "box");
    assert_eq!(e.daemon, "systemd[1]");
    assert_eq!(e.log_entry, "Started Session 3 of user root.");
}

#[test]
fn iso_syslog_line_is_recognized_and_parsed() {
    assert!(RSyslogParser.is_type(RSYSLOG));
    assert!(!RSyslogParser.is_type(SYSLOG));
    assert!(!RSyslogParser.is_type("   "));
    let e = RSyslogParser.parse(RSYSLOG).unwrap();
    assert_eq!((e.year, e.month, e.day, e.hour, e.minute, e.second), (2010, 6, 24, 17, 56, 32));
    assert_eq!(e.host, "myhost");
    assert_eq!(e.daemon, "kernel:");
    assert_eq!(e.log_entry, "something happened here");
    let z = RSyslogParser.parse("2024-02-29T23:59:58+01:00 h d").unwrap();
    assert_eq!((z.year, z.month, z.day, z.hour, z.minute, z.second), (2024, 2, 29, 23, 59, 58));
    assert_eq!(z.log_entry, "");
}

#[test]
fn common_access_line_is_recognized_and_parsed() {
    assert!(ApacheCommonParser.is_type(COMMON));
    assert!(!ApacheCommonParser.is_type(COMBINED));
    let e = ApacheCommonParser.parse(COMMON).unwrap();
    assert_eq!((e.year, e.month, e.day, e.hour, e.minute, e.second), (2000, 10, 10, 13, 55, 36));
    assert_eq!(e.host, "127.0.0.1");
    assert_eq!(e.daemon, "GET");
    assert_eq!(e.log_entry, "GET /apache_pb.gif HTTP/1.0 200 2326");
}

#[test]
fn combined_access_line_is_recognized_and_parsed() {
    assert!(ApacheCombinedParser.is_type(COMBINED));
    assert!(!ApacheCombinedParser.is_type(COMMON));
    let e = ApacheCombinedParser.parse(COMBINED).unwrap();
    assert_eq!((e.year, e.month, e.day, e.hour, e.minute, e.second), (2000, 10, 10, 13, 55, 36));
    assert_eq!(e.host, "127.0.0.1");
    assert_eq!(e.daemon, "GET");
    assert_eq!(
        e.log_entry,
        "GET /apache_pb.gif HTTP/1.0 200 2326 \"http://www.example.com/start.html\" \"Mozilla/4.08 [en] (Win98; I ;Nav)\""
    );
}

#[test]
fn a_blank_request_has_the_source_http() {
    let line = "10.0.0.9 - - [01/Jan/2021:00:00:01 +0000] \" \" 400 0";
    let e = ApacheCommonParser.parse(line).unwrap();
    assert_eq!(e.daemon, "HTTP");
    assert_eq!(e.log_entry, "  400 0");
}

#[test]
fn classic_balancer_line_is_recognized_and_its_method_extracted() {
    assert!(AwsElbParser.is_type(ELB));
    assert!(!AwsElbParser.is_type(ALB));
    let e = AwsElbParser.parse(ELB).unwrap();
    assert_eq!((e.year, e.month, e.day, e.hour, e.minute, e.second), (2015, 5, 13, 23, 39, 43));
    assert_eq!(e.host, "192.168.131.39");
    assert_eq!(e.daemon, "GET");
    assert_eq!(
        e.log_entry,
        "GET http://www.example.com:80/ HTTP/1.1\" \"curl/7.38.0 elb_status=200 backend_status=200"
    );
}

#[test]
fn classic_balancer_line_without_backend_is_recognized() {
    let line = "2015-05-13T23:39:43.945958Z my-lb 192.168.131.39:2817 - -1 -1 -1 503 0 0 0 \"GET http://example.com:80/ HTTP/1.1\" - -";
    assert!(AwsElbParser.is_type(line));
    let e = AwsElbParser.parse(line).unwrap();
    assert_eq!(e.daemon, "GET");
    assert_eq!(e.log_entry, "GET http://example.com:80/ HTTP/1.1 elb_status=503 backend_status=0");
}

#[test]
fn application_balancer_line_is_recognized_and_parsed() {
    assert!(AwsAlbParser.is_type(ALB));
    assert!(!AwsAlbParser.is_type(ELB));
    let e = AwsAlbParser.parse(ALB).unwrap();
    assert_eq!((e.year, e.month, e.day, e.hour, e.minute, e.second), (2018, 7, 2, 22, 23, 0));
    assert_eq!(e.host, "192.168.131.39");
    assert_eq!(e.daemon, "GET");
    assert_eq!(
        e.log_entry,
        "GET http://www.example.com:80/ HTTP/1.1 elb_status=200 target_status=201 protocol=http"
    );
}

#[test]
fn balancer_line_without_quotes_loses_its_first_character() {
    let line = "2015-05-13T23:39:43.945958Z a b c d e f g h i j k l";
    let e = AwsElbParser.parse(line).unwrap();
    assert_eq!(e.daemon, "015-05-13T23:39:43.945958Z");
    assert_eq!(e.host, "b");
    let one_quote = "2015-05-13T23:39:43.945958Z a b c d e f g h i j k \"l";
    let f = AwsElbParser.parse(one_quote).unwrap();
    assert_eq!(f.daemon, "-");
    assert_eq!(f.log_entry, "- elb_status=g backend_status=h");
}

#[test]
fn general_log_line_is_recognized_and_parsed() {
    assert!(MysqlGeneralParser.is_type(MYSQL));
    assert!(!MysqlGeneralParser.is_type("2023-11-14T10:30:45.123456Z 42 Sleep"));
    let e = MysqlGeneralParser.parse(MYSQL).unwrap();
    assert_eq!((e.year, e.month, e.day, e.hour, e.minute, e.second), (2023, 11, 14, 10, 30, 45));
    assert_eq!(e.host, "thread_42");
    assert_eq!(e.daemon, "Query");
    assert_eq!(e.log_entry, "SELECT * FROM users");
    let quit = MysqlGeneralParser.parse("2023-11-14T10:30:46.000001Z\t  43 Quit\t").unwrap();
    assert_eq!(quit.host, "thread_43");
    assert_eq!(quit.daemon, "Quit");
    assert_eq!(quit.log_entry, "");
}

#[test]
fn server_log_line_is_recognized_and_parsed() {
    assert!(PostgresqlParser.is_type(POSTGRES));
    assert!(!PostgresqlParser.is_type("2023-11-14 10:30:45.123 UTC [12345] postgres@testdb TRACE: x"));
    let e = PostgresqlParser.parse(POSTGRES).unwrap();
    assert_eq!((e.year, e.month, e.day, e.hour, e.minute, e.second), (2023, 11, 14, 10, 30, 45));
    assert_eq!(e.host, "postgres@testdb");
    assert_eq!(e.daemon, "LOG");
    assert_eq!(e.log_entry, "database system is ready");
}

#[test]
fn raw_recognizes_every_line_that_is_not_blank() {
    assert!(RawParser.is_type("x"));
    assert!(RawParser.is_type("  anything at all  "));
    assert!(!RawParser.is_type(""));
    assert!(!RawParser.is_type(" \t\u{2003}"));
    let e = RawParser.parse("  anything at all  ").unwrap();
    assert_eq!(e.year, 1900);
    assert_eq!(e.host, "#");
    assert_eq!(e.daemon, "#");
    assert_eq!(e.log_entry, "  anything at all  ");
}

fn error_of(r: Result<glancelog::LogEntry, ParseError>) -> ParseError {
    match r {
        Ok(e) => panic!("parsed: {:?}", e),
        Err(e) => e,
    }
}

#[test]
fn every_parse_error_has_an_input_that_gives_it() {
    assert_eq!(error_of(ApacheCommonParser.parse("not an access line")), ParseError::NoMatch);
    assert_eq!(error_of(MysqlGeneralParser.parse("nothing")), ParseError::NoMatch);
    assert_eq!(error_of(PostgresqlParser.parse("nothing")), ParseError::NoMatch);
    assert_eq!(error_of(AwsElbParser.parse("a b c")), ParseError::TooFewFields);
    assert_eq!(error_of(AwsAlbParser.parse(ELB)), ParseError::NoMatch);
    assert_eq!(error_of(AwsElbParser.parse("x a b c d e f g h i j k l")), ParseError::NoMatch);
    assert_eq!(error_of(RSyslogParser.parse("20100624 host d x")), ParseError::TimestampFormat);
    assert_eq!(error_of(RSyslogParser.parse("2010-06T10:00:00 host d")), ParseError::DateFormat);
    assert_eq!(error_of(RSyslogParser.parse("2010-06-24T10:00 host d")), ParseError::TimeFormat);
    assert_eq!(error_of(RSyslogParser.parse("2010-xx-24T10:00:00 host d")), ParseError::Number);
    assert_eq!(error_of(SyslogParser.parse("Jan 5 10:00 host1 sshd: x")), ParseError::TimeFormat);
    assert_eq!(error_of(SyslogParser.parse("Xyz 5 10:00:00 host1 sshd: x")), ParseError::Month);
    assert_eq!(error_of(SyslogParser.parse("Jan x5 10:00:00 host1 sshd: x")), ParseError::Number);
    assert_eq!(error_of(SyslogParser.parse("Jan 5 10:00:6o host1 sshd: x")), ParseError::Number);
    let odd_month = "127.0.0.1 - - [10/Okt/2000:13:55:36 -0700] \"GET / HTTP/1.0\" 200 1";
    assert_eq!(error_of(ApacheCommonParser.parse(odd_month)), ParseError::Month);
    let wide_digits = "127.0.0.1 - - [１０/Oct/2000:13:55:36 -0700] \"GET / HTTP/1.0\" 200 1";
    assert_eq!(error_of(ApacheCommonParser.parse(wide_digits)), ParseError::Number);
}

#[test]
fn every_month_has_its_number() {
    let names = ["Jan", "Feb", "Mar", "Apr", "May", "Jun", "Jul", "Aug", "Sep", "Oct", "Nov", "Dec"];
    for (i, name) in names.iter().enumerate() {
        let line = format!("{} 1 00:00:00 h d m", name);
        let e = SyslogParser.parse_in_year(&line, 2000).unwrap();
        assert_eq!(e.month as usize, i + 1);
    }
}
