use glancelog::detect::{detect_from_picks, detect_parser};
use glancelog::{CrunchLog, Format, LogError};
use rand::rngs::StdRng;
use rand::SeedableRng;

const COMMON: &str = "127.0.0.1 - frank [10/Oct/2000:13:55:36 -0700] \"GET /apache_pb.gif HTTP/1.0\" 200 2326";
const ELB: &str = "2015-05-13T23:39:43.945958Z my-loadbalancer 192.168.131.39:2817 10.0.0.1:80 0.000073 0.001048 0.000057 200 200 0 29 \"GET http://www.example.com:80/ HTTP/1.1\" \"curl/7.38.0\" - -";
const RSYSLOG: &str = "2010-06-24T17:56:32.197716-04:00 myhost kernel: something happened";
const MYSQL: &str = "2023-11-14T10:30:45.123456Z    42 Query     SELECT 1";

fn lines(of: &[&str]) -> Vec<String> {
    of.iter().map(|s| s.to_string()).collect()
}

fn in_order(n: usize) -> Vec<usize> {
    (0..n).collect()
}

#[test]
fn empty_input_is_no_data() {
    let mut rng = StdRng::seed_from_u64(1);
    match CrunchLog::from_lines(&Vec::new(), &mut rng) {
        Err(e) => assert_eq!(e, LogError::NoData),
        Ok(_) => panic!("an empty batch was accepted"),
    }
    match CrunchLog::from_lines_with(&Vec::new(), &vec![0, 1, 2], 2024) {
        Err(e) => assert_eq!(e, LogError::NoData),
        Ok(_) => panic!("an empty batch was accepted"),
    }
}

#[test]
fn every_line_yields_one_record() {
    let batch = lines(&[RSYSLOG, "", "2010-xx-24T10:00:00 host d", "short", RSYSLOG, "   "]);
    let log = CrunchLog::parse_lines(&batch, Format::RSyslog, 0);
    assert_eq!(log.entries.len(), batch.len());
    assert_eq!(log.parser_type, "RSyslog");
    assert_eq!(log.entries[0].host, "myhost");
    assert_eq!(log.entries[1].host, "#");
    assert_eq!(log.entries[1].log_entry, "");
    assert_eq!(log.entries[2].host, "#");
    assert_eq!(log.entries[2].log_entry, "2010-xx-24T10:00:00 host d");
    assert_eq!(log.entries[3].log_entry, "short");
    assert_eq!(log.entries[4].daemon, "kernel:");
    assert_eq!(log.entries[5].log_entry, "   ");
    for seed in 0..3 {
        let mut rng = StdRng::seed_from_u64(seed);
        let any = CrunchLog::from_lines(&batch, &mut rng).unwrap();
        assert_eq!(any.entries.len(), batch.len());
    }
}

#[test]
fn the_more_specific_format_wins_a_tie() {
    let syslog = lines(&["Jan 5 10:00:00 host1 sshd: failed"; 3]);
    assert_eq!(detect_from_picks(&syslog, &in_order(3)), Format::Journalctl);
    let elb = lines(&[ELB; 4]);
    assert_eq!(detect_from_picks(&elb, &in_order(4)), Format::AwsElb);
    let mysql = lines(&[MYSQL; 2]);
    assert_eq!(detect_from_picks(&mysql, &in_order(2)), Format::MysqlGeneral);
    let iso = lines(&[RSYSLOG; 2]);
    assert_eq!(detect_from_picks(&iso, &in_order(2)), Format::RSyslog);
    let common = lines(&[COMMON; 5]);
    assert_eq!(detect_from_picks(&common, &in_order(5)), Format::ApacheCommon);
    let pam = lines(&["Jan 5 10:00:00 host1 pam_unix(sshd:auth): authentication failure"; 2]);
    assert_eq!(detect_from_picks(&pam, &in_order(2)), Format::SecureLog);
    let cron = lines(&["Jan 5 10:00:00 host1 (cron) job started now"; 2]);
    assert_eq!(detect_from_picks(&cron, &in_order(2)), Format::Syslog);
    let ssh = lines(&["Jan 5 10:00:00 host1 sshd[123]: Failed password for root"; 2]);
    assert_eq!(detect_from_picks(&ssh, &in_order(2)), Format::Journalctl);
}

#[test]
fn a_draw_selects_its_line_modulo_the_number_of_lines() {
    let batch = lines(&[COMMON, "free text", "more free text"]);
    assert_eq!(detect_from_picks(&batch, &vec![0, 3, 6, 9]), Format::ApacheCommon);
    assert_eq!(detect_from_picks(&batch, &vec![1, 4, 2, 5]), Format::Raw);
    assert_eq!(detect_from_picks(&batch, &vec![usize::MAX]), Format::ApacheCommon);
}

#[test]
fn a_score_below_a_quarter_of_the_sample_falls_back_to_raw() {
    let two = lines(&[ELB, ELB, "", "", "", "", "", "", "", ""]);
    assert_eq!(detect_from_picks(&two, &in_order(10)), Format::Raw);
    let three = lines(&[ELB, ELB, ELB, "", "", "", "", "", "", ""]);
    assert_eq!(detect_from_picks(&three, &in_order(10)), Format::AwsElb);
    let blank = lines(&["", " "]);
    assert_eq!(detect_from_picks(&blank, &in_order(2)), Format::Raw);
    assert_eq!(detect_from_picks(&blank, &Vec::new()), Format::AwsElb);
}

#[test]
fn raw_wins_where_it_alone_recognizes_every_line() {
    let mixed = lines(&[COMMON, COMMON, COMMON, COMMON, COMMON, COMMON, COMMON, COMMON, COMMON, "oops"]);
    assert_eq!(detect_from_picks(&mixed, &in_order(10)), Format::Raw);
    let with_blank = lines(&[COMMON, COMMON, COMMON, COMMON, COMMON, COMMON, COMMON, COMMON, COMMON, ""]);
    assert_eq!(detect_from_picks(&with_blank, &in_order(10)), Format::ApacheCommon);
}

#[test]
fn detection_repeats_under_the_same_seed() {
    let batch = lines(&[RSYSLOG, "free", RSYSLOG, "text", RSYSLOG, RSYSLOG, "x", RSYSLOG, RSYSLOG, "y", RSYSLOG, RSYSLOG]);
    for seed in 0..3 {
        let mut a = StdRng::seed_from_u64(seed);
        let mut b = StdRng::seed_from_u64(seed);
        assert_eq!(detect_parser(&batch, &mut a), detect_parser(&batch, &mut b));
        let mut c = StdRng::seed_from_u64(seed);
        let mut d = StdRng::seed_from_u64(seed);
        let one = CrunchLog::from_lines(&batch, &mut c).unwrap();
        let two = CrunchLog::from_lines(&batch, &mut d).unwrap();
        assert_eq!(one.parser_type, two.parser_type);
    }
}

#[test]
fn a_uniform_batch_is_detected_under_every_seed() {
    let batch = lines(&[MYSQL; 25]);
    for seed in 0..3 {
        let mut rng = StdRng::seed_from_u64(seed);
        let log = CrunchLog::from_lines(&batch, &mut rng).unwrap();
        assert_eq!(log.parser_type, "MySQL-General");
        assert_eq!(log.entries.len(), 25);
        assert_eq!(log.entries[24].host, "thread_42");
    }
}

#[test]
fn the_registry_has_eleven_places() {
    let names: Vec<&str> = (0..11).map(|i| Format::from_place(i).name()).collect();
    assert_eq!(
        names,
        vec![
            "AWS-ELB", "AWS-ALB", "MySQL-General", "PostgreSQL", "RSyslog", "Journalctl",
            "ApacheCombined", "ApacheCommon", "Syslog", "SecureLog", "Raw",
        ]
    );
    assert_eq!(Format::from_place(99), Format::Raw);
}
