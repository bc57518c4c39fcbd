use glancelog::report::{mode_daemon, mode_hash, mode_host, mode_wordcount};
use glancelog::{CrunchLog, Filter, Format, HashMode, LogEntry, SampleMode, SuperHash};
use rand::rngs::StdRng;
use rand::SeedableRng;

fn lines(of: &[&str]) -> Vec<String> {
    of.iter().map(|s| s.to_string()).collect()
}

fn entry(host: &str, daemon: &str, message: &str) -> LogEntry {
    LogEntry {
        year: 2024,
        month: 1,
        day: 15,
        hour: 10,
        minute: 0,
        second: 0,
        host: host.to_string(),
        daemon: daemon.to_string(),
        log_entry: message.to_string(),
    }
}

fn log_of(entries: Vec<LogEntry>) -> CrunchLog {
    CrunchLog { entries, parser_type: "Test".to_string() }
}

#[test]
fn three_identical_lines_make_one_group_of_three() {
    let batch = lines(&["Jan 5 10:00:00 host1 sshd: failed"; 3]);
    let mut rng = StdRng::seed_from_u64(7);
    let log = CrunchLog::from_lines(&batch, &mut rng).unwrap();
    let table = SuperHash::from_log(&log, HashMode::Hash, Filter::new());
    assert_eq!(table.len(), 1);
    assert!(!table.is_empty());
    assert_eq!(table.count_of("sshd failed"), 3);
    let keys = mode_hash(&log, Filter::new(), 3, false, true, &mut rng);
    assert_eq!(keys, vec!["3:\tsshd failed"]);
    let samples = mode_hash(&log, Filter::new(), 3, false, false, &mut rng);
    assert_eq!(samples, vec!["3:\tfailed"]);
    let above = mode_hash(&log, Filter::new(), 2, false, false, &mut rng);
    assert_eq!(above, vec!["3:\tsshd failed"]);
}

#[test]
fn host_counts_add_up_to_the_records_that_are_not_abnormal() {
    let batch = lines(&[
        "2024-01-15T10:00:00 web1 app: one",
        "garbage",
        "2024-01-15T10:00:01 web1 app: two",
        "2024-01-15T10:00:02 web2 app: three",
        "",
    ]);
    let log = CrunchLog::parse_lines(&batch, Format::RSyslog, 0);
    let table = SuperHash::from_log(&log, HashMode::Host, Filter::new());
    assert_eq!(table.len(), 2);
    assert_eq!(table.count_of("web1"), 2);
    assert_eq!(table.count_of("web2"), 1);
    assert_eq!(table.count_of("#"), 0);
    let live = log.entries.iter().filter(|e| e.host != "#").count();
    assert_eq!(table.count_of("web1") + table.count_of("web2"), live);
    let mut rng = StdRng::seed_from_u64(7);
    assert_eq!(mode_host(&log, Filter::new(), &mut rng), vec!["2:\tweb1", "1:\tweb2"]);
    assert_eq!(mode_daemon(&log, Filter::new(), &mut rng), vec!["3:\tapp:"]);
}

#[test]
fn groups_are_ranked_by_count_and_then_by_key() {
    let log = log_of(vec![
        entry("h", "b", "x"),
        entry("h", "c", "x"),
        entry("h", "a", "x"),
        entry("h", "c", "y"),
        entry("h", "B", "x"),
        entry("h", "10", "x"),
        entry("h", "9", "x"),
    ]);
    let mut rng = StdRng::seed_from_u64(3);
    assert_eq!(
        mode_daemon(&log, Filter::new(), &mut rng),
        vec!["2:\tc", "1:\t10", "1:\t9", "1:\tB", "1:\ta", "1:\tb"]
    );
    let table = SuperHash::from_log(&log, HashMode::Daemon, Filter::new());
    let order = table.ranking();
    assert_eq!(order.len(), 6);
    let mut seen = order.clone();
    seen.sort();
    assert_eq!(seen, vec![0, 1, 2, 3, 4, 5]);
}

#[test]
fn small_groups_show_their_first_record() {
    let log = log_of(vec![
        entry("h", "d", "user 1 logged in"),
        entry("h", "d", "user 2 logged in"),
        entry("h", "e", "disk 9 full"),
    ]);
    let (filter, refused) = Filter::load_from_string("[0-9]+");
    assert!(refused.is_empty());
    let mut table = SuperHash::from_log(&log, HashMode::Hash, filter);
    assert_eq!(table.count_of("d user # logged in"), 2);
    assert_eq!(table.count_of("e disk # full"), 1);
    assert_eq!(
        table.display_with(&Vec::new()),
        vec!["2:\tuser 1 logged in", "1:\tdisk 9 full"]
    );
    table.set_sample_threshold(1);
    assert_eq!(
        table.display_with(&Vec::new()),
        vec!["2:\td user # logged in", "1:\tdisk 9 full"]
    );
    table.set_sample_mode(SampleMode::RawKey);
    assert_eq!(
        table.display_with(&Vec::new()),
        vec!["2:\td user # logged in", "1:\te disk # full"]
    );
    table.set_sample_mode(SampleMode::All);
    assert_eq!(
        table.display_with(&vec![1, 0]),
        vec!["2:\tuser 2 logged in", "1:\tdisk 9 full"]
    );
    assert_eq!(
        table.display_with(&vec![4, 7]),
        vec!["2:\tuser 1 logged in", "1:\tdisk 9 full"]
    );
    let mut rng = StdRng::seed_from_u64(11);
    let drawn = table.display(&mut rng);
    assert_eq!(drawn.len(), 2);
    assert!(drawn[0] == "2:\tuser 1 logged in" || drawn[0] == "2:\tuser 2 logged in");
    assert_eq!(drawn[1], "1:\tdisk 9 full");
}

#[test]
fn words_are_counted_wherever_they_stand() {
    let log = log_of(vec![entry("h", "d", "a b  a"), entry("h", "d", " b c"), entry("h", "d", "")]);
    let mut rng = StdRng::seed_from_u64(5);
    assert_eq!(mode_wordcount(&log, Filter::new(), &mut rng), vec!["2:\ta", "2:\tb", "1:\tc"]);
    let table = SuperHash::from_log(&log, HashMode::WordCount, Filter::new());
    assert_eq!(table.len(), 3);
    assert_eq!(table.count_of("a"), 2);
    assert_eq!(table.count_of("d"), 0);
}

#[test]
fn words_that_are_scrubbed_to_the_marker_are_dropped() {
    let log = log_of(vec![
        entry("h", "d", "error 404 at 10.0.0.1"),
        entry("h", "d", "error 500 at 10.0.0.2 #"),
    ]);
    let (filter, _) = Filter::load_from_string("^[0-9.]+$\n^at$");
    let mut rng = StdRng::seed_from_u64(5);
    assert_eq!(mode_wordcount(&log, filter, &mut rng), vec!["2:\terror"]);
}

#[test]
fn a_group_under_the_marker_is_dropped() {
    let log = log_of(vec![entry("web1", "d", "x"), entry("web2", "d", "y"), entry("db", "d", "z")]);
    let (filter, _) = Filter::load_from_string("^web[0-9]+$");
    let table = SuperHash::from_log(&log, HashMode::Host, filter);
    assert_eq!(table.len(), 1);
    assert_eq!(table.count_of("db"), 1);
    assert_eq!(table.count_of("#"), 0);
    let (all, _) = Filter::load_from_string("^.*$");
    let none = SuperHash::from_log(&log, HashMode::Host, all);
    assert!(none.is_empty());
    assert_eq!(none.display_with(&Vec::new()), Vec::<String>::new());
}

#[test]
fn increment_founds_and_extends_groups() {
    let mut table = SuperHash::new(Filter::new());
    assert!(table.is_empty());
    table.increment("k2".to_string(), entry("h", "d", "first"));
    table.increment("k1".to_string(), entry("h", "d", "other"));
    table.increment("k2".to_string(), entry("h", "d", "second"));
    table.increment("#".to_string(), entry("h", "d", "hidden"));
    assert_eq!(table.len(), 3);
    assert_eq!(table.count_of("k2"), 2);
    assert_eq!(table.count_of("k1"), 1);
    assert_eq!(table.count_of("#"), 1);
    assert_eq!(table.count_of("k3"), 0);
    assert_eq!(table.display_with(&Vec::new()), vec!["2:\tfirst", "1:\tother"]);
}
