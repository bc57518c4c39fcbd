use glancelog::LogEntry;

#[test]
fn new_record_is_all_marker() {
    let e = LogEntry::new();
    assert_eq!(e.year, 1900);
    assert_eq!(e.month, 1);
    assert_eq!(e.day, 1);
    assert_eq!(e.hour, 0);
    assert_eq!(e.minute, 0);
    assert_eq!(e.second, 0);
    assert_eq!(e.host, "#");
    assert_eq!(e.daemon, "#");
    assert_eq!(e.log_entry, "#");
}

#[test]
fn set_abnormal_keeps_the_line() {
    let mut e = LogEntry::new();
    e.year = 2024;
    e.host = "web1".to_string();
    e.set_abnormal("what is this");
    assert_eq!(e.year, 1900);
    assert_eq!(e.host, "#");
    assert_eq!(e.daemon, "#");
    assert_eq!(e.log_entry, "what is this");
}
