use glancelog::calendar::parse_datetime;
use glancelog::report::{apply_time_filters, mode_graph, mode_print};
use glancelog::{CrunchLog, Format, GraphType, LogEntry, LogError, Timestamp};

fn lines(of: &[&str]) -> Vec<String> {
    of.iter().map(|s| s.to_string()).collect()
}

fn at(y: i32, mo: u32, d: u32, h: u32, mi: u32, s: u32) -> LogEntry {
    LogEntry {
        year: y,
        month: mo,
        day: d,
        hour: h,
        minute: mi,
        second: s,
        host: "h".to_string(),
        daemon: "d".to_string(),
        log_entry: "m".to_string(),
    }
}

fn stamp(y: i32, mo: u32, d: u32, h: u32, mi: u32, s: u32) -> Timestamp {
    Timestamp::from_civil(y, mo, d, h, mi, s).unwrap()
}

#[test]
fn instants_count_seconds_from_1970() {
    assert_eq!(stamp(1970, 1, 1, 0, 0, 0).seconds, 0);
    assert_eq!(stamp(1970, 1, 2, 0, 0, 1).seconds, 86_401);
    assert_eq!(stamp(2024, 2, 29, 12, 0, 0).seconds, 1_709_208_000);
    assert_eq!(stamp(1969, 12, 31, 23, 59, 59).seconds, -1);
    assert_eq!(stamp(1900, 1, 1, 0, 0, 0).seconds, -2_208_988_800);
}

#[test]
fn dates_and_times_that_do_not_exist_give_no_instant() {
    assert!(Timestamp::from_civil(2023, 2, 29, 0, 0, 0).is_none());
    assert!(Timestamp::from_civil(2024, 13, 1, 0, 0, 0).is_none());
    assert!(Timestamp::from_civil(2024, 0, 1, 0, 0, 0).is_none());
    assert!(Timestamp::from_civil(2024, 4, 31, 0, 0, 0).is_none());
    assert!(Timestamp::from_civil(2024, 1, 1, 24, 0, 0).is_none());
    assert!(Timestamp::from_civil(2024, 1, 1, 0, 60, 0).is_none());
    assert!(Timestamp::from_civil(2024, 1, 1, 0, 0, 60).is_none());
    assert!(Timestamp::from_civil(400_000, 1, 1, 0, 0, 0).is_none());
}

#[test]
fn fields_undo_from_civil() {
    assert_eq!(Timestamp { seconds: 0 }.fields(), Some((1970, 1, 1, 0, 0, 0)));
    assert_eq!(Timestamp { seconds: 1_709_208_000 }.fields(), Some((2024, 2, 29, 12, 0, 0)));
    assert_eq!(Timestamp { seconds: -1 }.fields(), Some((1969, 12, 31, 23, 59, 59)));
    assert_eq!(Timestamp { seconds: i64::MAX }.fields(), None);
    assert_eq!(Timestamp { seconds: i64::MIN }.fields(), None);
}

#[test]
fn a_record_without_a_valid_date_is_put_at_1900() {
    assert_eq!(Timestamp::of_entry(&LogEntry::new()).seconds, -2_208_988_800);
    assert_eq!(Timestamp::of_entry(&at(2024, 2, 29, 12, 0, 0)).seconds, 1_709_208_000);
    assert_eq!(Timestamp::of_entry(&at(2023, 2, 30, 10, 0, 0)).seconds, -2_208_988_800 + 36_000);
    assert_eq!(Timestamp::of_entry(&at(2024, 2, 29, 25, 0, 0)).seconds, 1_709_208_000 - 43_200);
    assert_eq!(Timestamp::of_entry(&at(2024, 13, 1, 0, 61, 0)).seconds, -2_208_988_800);
}

#[test]
fn bounds_are_read_in_three_forms() {
    assert_eq!(parse_datetime("2024-01-15 10:30:45"), Ok(stamp(2024, 1, 15, 10, 30, 45)));
    assert_eq!(parse_datetime("2024-01-15"), Ok(stamp(2024, 1, 15, 0, 0, 0)));
    assert_eq!(parse_datetime("2024-01-15 10:30"), Ok(stamp(2024, 1, 15, 10, 30, 0)));
    assert_eq!(parse_datetime("15/01/2024"), Err(LogError::InvalidBound));
    assert_eq!(parse_datetime("2024-02-30"), Err(LogError::InvalidBound));
    assert_eq!(parse_datetime("2024-01-15 25:00:00"), Err(LogError::InvalidBound));
    assert_eq!(parse_datetime(""), Err(LogError::InvalidBound));
}

fn sample_log() -> CrunchLog {
    CrunchLog {
        entries: vec![
            at(2024, 1, 15, 9, 59, 59),
            at(2024, 1, 15, 10, 0, 0),
            at(2024, 1, 15, 10, 30, 0),
            at(2024, 1, 15, 11, 0, 0),
            at(2024, 1, 15, 11, 0, 1),
        ],
        parser_type: "Test".to_string(),
    }
}

fn seconds_of(log: &CrunchLog) -> Vec<u32> {
    log.entries.iter().map(|e| e.hour * 3600 + e.minute * 60 + e.second).collect()
}

#[test]
fn both_bounds_are_inclusive() {
    let mut log = sample_log();
    log.filter_by_time(Some(stamp(2024, 1, 15, 10, 0, 0)), Some(stamp(2024, 1, 15, 11, 0, 0)));
    assert_eq!(seconds_of(&log), vec![36_000, 37_800, 39_600]);
    assert_eq!(log.parser_type, "Test");
}

#[test]
fn one_bound_alone_filters() {
    let mut late = sample_log();
    late.filter_by_time(Some(stamp(2024, 1, 15, 10, 30, 0)), None);
    assert_eq!(seconds_of(&late), vec![37_800, 39_600, 39_601]);
    let mut early = sample_log();
    early.filter_by_time(None, Some(stamp(2024, 1, 15, 10, 0, 0)));
    assert_eq!(seconds_of(&early), vec![35_999, 36_000]);
}

#[test]
fn without_bounds_nothing_is_removed() {
    let mut log = sample_log();
    log.filter_by_time(None, None);
    assert_eq!(log.entries.len(), 5);
    let same = apply_time_filters(sample_log(), None, None).unwrap();
    assert_eq!(seconds_of(&same), seconds_of(&sample_log()));
}

#[test]
fn survivors_keep_their_order_and_their_fields() {
    let batch = lines(&[
        "2024-01-15T12:00:00 c app: third",
        "2024-01-15T10:00:00 a app: first",
        "nonsense",
        "2024-01-15T11:00:00 b app: second",
    ]);
    let log = CrunchLog::parse_lines(&batch, Format::RSyslog, 0);
    let kept = apply_time_filters(log, Some("2024-01-15 10:30"), Some("2024-01-15 12:00:00")).unwrap();
    let hosts: Vec<&str> = kept.entries.iter().map(|e| e.host.as_str()).collect();
    assert_eq!(hosts, vec!["c", "b"]);
    assert_eq!(kept.entries[0].log_entry, "third");
    assert_eq!(kept.entries[1].hour, 11);
    assert_eq!(kept.parser_type, "RSyslog");
}

#[test]
fn a_lower_bound_after_the_last_record_leaves_nothing_and_is_no_error() {
    let kept = apply_time_filters(sample_log(), Some("2024-01-16"), None).unwrap();
    assert!(kept.entries.is_empty());
    assert_eq!(mode_print(&kept), Vec::<String>::new());
    let from = parse_datetime("2024-01-16").ok();
    let chart = mode_graph(&kept, GraphType::Hours, from, None, None, false).unwrap();
    assert_eq!(chart, vec!["No data to graph"]);
}

#[test]
fn a_bound_that_cannot_be_read_is_an_error() {
    assert_eq!(
        apply_time_filters(sample_log(), Some("yesterday"), None).err(),
        Some(LogError::InvalidBound)
    );
    assert_eq!(
        apply_time_filters(sample_log(), Some("2024-01-15"), Some("24-01-15 10")).err(),
        Some(LogError::InvalidBound)
    );
}

fn leap(year: i64) -> bool {
    year.rem_euclid(4) == 0 && (year.rem_euclid(100) != 0 || year.rem_euclid(400) == 0)
}

fn days_in(year: i64, month: u32) -> u32 {
    match month {
        2 => {
            if leap(year) {
                29
            } else {
                28
            }
        }
        4 | 6 | 9 | 11 => 30,
        _ => 31,
    }
}

fn day_number(year: i64, month: u32, day: u32) -> i64 {
    let y = year - 1;
    let before_year = 365 * y + y.div_euclid(4) - y.div_euclid(100) + y.div_euclid(400);
    let before_month: i64 = (1..month).map(|m| days_in(year, m) as i64).sum();
    before_year + before_month + day as i64
}

#[test]
fn day_numbers_follow_the_leap_rule() {
    let years = [
        -262_143i32, -262_142, -100_001, -401, -400, -399, -101, -100, -5, -4, -1, 0, 1, 2, 3, 4,
        99, 100, 400, 1582, 1600, 1899, 1900, 1901, 1969, 1970, 1999, 2000, 2001, 2023, 2024,
        2100, 9999, 10_000, 262_141, 262_142,
    ];
    for year in years {
        for month in 0..=13u32 {
            for day in 0..=32u32 {
                let valid = (1..=12).contains(&month) && day >= 1 && day <= days_in(year as i64, month);
                let got = Timestamp::from_civil(year, month, day, 0, 0, 0);
                assert_eq!(got.is_some(), valid, "{}-{}-{}", year, month, day);
                if let Some(t) = got {
                    let expected = (day_number(year as i64, month, day) - 719_163) * 86_400;
                    assert_eq!(t.seconds, expected, "{}-{}-{}", year, month, day);
                }
            }
        }
    }
    assert!(Timestamp::from_civil(-262_144, 12, 31, 0, 0, 0).is_none());
    assert!(Timestamp::from_civil(262_143, 1, 1, 0, 0, 0).is_none());
    assert!(Timestamp::from_civil(i32::MIN, 1, 1, 0, 0, 0).is_none());
    assert!(Timestamp::from_civil(i32::MAX, 1, 1, 0, 0, 0).is_none());
}

#[test]
fn fields_lead_back_to_their_instant() {
    let mut seconds: i64 = -8_334_601_228_800;
    while seconds < 8_210_266_876_799 {
        let f = Timestamp { seconds }.fields().unwrap();
        let back = Timestamp::from_civil(f.0, f.1, f.2, f.3, f.4, f.5).unwrap();
        assert_eq!(back.seconds, seconds);
        seconds += 9_876_543_211;
    }
    assert!(Timestamp { seconds: -8_334_601_228_801 }.fields().is_none());
    assert!(Timestamp { seconds: 8_210_266_876_800 }.fields().is_none());
    assert_eq!(
        Timestamp { seconds: -8_334_601_228_800 }.fields(),
        Some((-262_143, 1, 1, 0, 0, 0))
    );
    assert_eq!(
        Timestamp { seconds: 8_210_266_876_799 }.fields(),
        Some((262_142, 12, 31, 23, 59, 59))
    );
    assert_eq!(stamp(-262_143, 1, 1, 0, 0, 0).seconds, -8_334_601_228_800);
    assert_eq!(stamp(262_142, 12, 31, 23, 59, 59).seconds, 8_210_266_876_799);
}

#[test]
fn a_bound_is_the_instant_of_a_record_with_its_fields() {
    assert_eq!(
        parse_datetime("2024-01-05 10:20:30").unwrap(),
        Timestamp::of_entry(&at(2024, 1, 5, 10, 20, 30))
    );
    assert_eq!(parse_datetime("2024-01-05").unwrap(), Timestamp::of_entry(&at(2024, 1, 5, 0, 0, 0)));
    assert_eq!(
        parse_datetime("2024-01-05 10:20").unwrap(),
        Timestamp::of_entry(&at(2024, 1, 5, 10, 20, 0))
    );
    assert_eq!(parse_datetime("0001-01-01").unwrap().seconds, -719_162 * 86_400);
}

#[test]
fn a_later_date_has_a_later_instant() {
    let dates = [
        (-5, 12, 31, 23, 59, 59),
        (0, 1, 1, 0, 0, 0),
        (1899, 12, 31, 23, 59, 59),
        (1900, 1, 1, 0, 0, 0),
        (2023, 12, 31, 23, 59, 59),
        (2024, 1, 1, 0, 0, 0),
        (2024, 2, 28, 23, 59, 59),
        (2024, 2, 29, 0, 0, 0),
        (2024, 2, 29, 0, 0, 1),
        (2024, 2, 29, 0, 1, 0),
        (2024, 2, 29, 1, 0, 0),
        (2024, 3, 1, 0, 0, 0),
        (10_000, 1, 1, 0, 0, 0),
    ];
    for pair in dates.windows(2) {
        let (a, b) = (pair[0], pair[1]);
        assert!(stamp(a.0, a.1, a.2, a.3, a.4, a.5).seconds < stamp(b.0, b.1, b.2, b.3, b.4, b.5).seconds);
    }
}
