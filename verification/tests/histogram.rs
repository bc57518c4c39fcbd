use glancelog::graph::make_key;
use glancelog::report::mode_graph;
use glancelog::{CrunchLog, GraphHash, GraphType, LogEntry, LogError, Timestamp};

fn at(y: i32, mo: u32, d: u32, h: u32, mi: u32, s: u32) -> LogEntry {
    LogEntry {
        year: y,
        month: mo,
        day: d,
        hour: h,
        minute: mi,
        second: s,
        host: "h".to_string(),
        daemon: "d".to_string(),
        log_entry: "m".to_string(),
    }
}

fn log_of(entries: Vec<LogEntry>) -> CrunchLog {
    CrunchLog { entries, parser_type: "Test".to_string() }
}

fn stamp(y: i32, mo: u32, d: u32, h: u32, mi: u32, s: u32) -> Timestamp {
    Timestamp::from_civil(y, mo, d, h, mi, s).unwrap()
}

fn text(v: &[char]) -> String {
    v.iter().collect()
}

#[test]
fn keys_are_the_fields_down_to_the_width() {
    let f = (2024, 1, 5, 9, 7, 3);
    assert_eq!(text(&make_key(GraphType::Seconds, f)), "20240105090703");
    assert_eq!(text(&make_key(GraphType::Minutes, f)), "202401050907");
    assert_eq!(text(&make_key(GraphType::Hours, f)), "2024010509");
    assert_eq!(text(&make_key(GraphType::Days, f)), "20240105");
    assert_eq!(text(&make_key(GraphType::Months, f)), "202401");
    assert_eq!(text(&make_key(GraphType::Years, f)), "2024");
    assert_eq!(text(&make_key(GraphType::Months, (-5, 12, 1, 0, 0, 0))), "-512");
    assert_eq!(text(&make_key(GraphType::Days, (987, 123, 4, 0, 0, 0))), "98712304");
}

#[test]
fn the_default_range_starts_at_the_first_record() {
    let log = log_of(vec![
        at(2024, 1, 15, 10, 0, 0),
        at(2024, 1, 15, 10, 0, 0),
        at(2024, 1, 15, 10, 0, 30),
        at(2024, 1, 15, 10, 5, 0),
        at(2024, 1, 15, 11, 0, 0),
        at(2024, 1, 15, 9, 59, 59),
    ]);
    let g = GraphHash::new(&log, GraphType::Minutes).unwrap();
    assert_eq!(g.len(), 60);
    assert_eq!(g.span(), 60);
    assert_eq!(g.count_for("202401151000"), Some(3));
    assert_eq!(g.count_for("202401151005"), Some(1));
    assert_eq!(g.count_for("202401151001"), Some(0));
    assert_eq!(g.count_for("202401151059"), Some(0));
    assert_eq!(g.count_for("202401151100"), None);
    assert_eq!(g.count_for("202401150959"), None);
    assert_eq!(g.max_value(), 3);
    assert_eq!(g.min_value(), 0);
}

#[test]
fn default_spans_are_fixed_for_each_width() {
    let log = log_of(vec![at(2024, 1, 15, 10, 0, 0)]);
    let widths = [
        (GraphType::Seconds, 60),
        (GraphType::Minutes, 60),
        (GraphType::Hours, 24),
        (GraphType::Days, 31),
        (GraphType::Months, 12),
        (GraphType::Years, 10),
    ];
    for (kind, n) in widths {
        let g = GraphHash::new(&log, kind).unwrap();
        assert_eq!(g.span(), n);
        assert_eq!(g.len() as i64, n);
    }
}

#[test]
fn bucket_counts_add_up_to_the_records_in_range() {
    let log = log_of(vec![
        at(2024, 1, 15, 0, 10, 0),
        at(2024, 1, 15, 5, 59, 59),
        at(2024, 1, 15, 6, 10, 0),
        at(2024, 1, 14, 23, 0, 0),
        at(2024, 1, 15, 3, 0, 0),
        at(2024, 1, 15, 3, 30, 0),
    ]);
    let from = Some(stamp(2024, 1, 15, 0, 0, 0));
    let to = Some(stamp(2024, 1, 15, 6, 30, 0));
    let g = GraphHash::new_with_range(&log, GraphType::Hours, from, to).unwrap();
    assert_eq!(g.span(), 6);
    assert_eq!(g.len(), 6);
    let keys = ["2024011500", "2024011501", "2024011502", "2024011503", "2024011504", "2024011505"];
    let counts: Vec<usize> = keys.iter().map(|k| g.count_for(k).unwrap()).collect();
    assert_eq!(counts, vec![1, 0, 0, 2, 0, 1]);
    assert_eq!(counts.iter().sum::<usize>(), 4);
    assert_eq!(g.count_for("2024011506"), None);
}

#[test]
fn a_range_is_measured_in_whole_units_and_is_one_at_least() {
    let log = log_of(vec![at(2024, 1, 15, 0, 0, 0)]);
    let from = Some(stamp(2024, 1, 1, 0, 0, 0));
    let span = |kind, to: Timestamp| GraphHash::new_with_range(&log, kind, from, Some(to)).unwrap().span();
    assert_eq!(span(GraphType::Seconds, stamp(2024, 1, 1, 0, 1, 30)), 90);
    assert_eq!(span(GraphType::Minutes, stamp(2024, 1, 1, 0, 1, 30)), 1);
    assert_eq!(span(GraphType::Minutes, stamp(2024, 1, 1, 1, 59, 59)), 119);
    assert_eq!(span(GraphType::Hours, stamp(2024, 1, 1, 0, 59, 59)), 1);
    assert_eq!(span(GraphType::Days, stamp(2024, 1, 11, 23, 0, 0)), 10);
    assert_eq!(span(GraphType::Months, stamp(2024, 3, 31, 0, 0, 0)), 3);
    assert_eq!(span(GraphType::Months, stamp(2024, 1, 30, 0, 0, 0)), 1);
    assert_eq!(span(GraphType::Years, stamp(2026, 1, 1, 0, 0, 0)), 2);
    assert_eq!(span(GraphType::Years, stamp(2025, 12, 30, 0, 0, 0)), 1);
    assert_eq!(span(GraphType::Seconds, stamp(2023, 12, 31, 0, 0, 0)), 1);
    assert_eq!(span(GraphType::Days, stamp(2024, 1, 1, 0, 0, 0)), 1);
}

#[test]
fn one_bound_alone_leaves_the_default_span() {
    let log = log_of(vec![at(2024, 1, 15, 10, 0, 0)]);
    let from = Some(stamp(2024, 1, 15, 9, 0, 0));
    let g = GraphHash::new_with_range(&log, GraphType::Hours, from, None).unwrap();
    assert_eq!(g.span(), 24);
    assert_eq!(g.count_for("2024011509"), Some(0));
    assert_eq!(g.count_for("2024011510"), Some(1));
    let to = Some(stamp(2024, 1, 15, 12, 0, 0));
    let h = GraphHash::new_with_range(&log, GraphType::Hours, None, to).unwrap();
    assert_eq!(h.span(), 24);
    assert_eq!(h.count_for("2024011509"), None);
    assert_eq!(h.count_for("2024011510"), Some(1));
}

#[test]
fn months_advance_by_a_twelfth_of_365_days() {
    let log = log_of(vec![at(2024, 1, 15, 10, 0, 0), at(2024, 2, 20, 0, 0, 0), at(2025, 1, 1, 0, 0, 0)]);
    let g = GraphHash::new(&log, GraphType::Months).unwrap();
    assert_eq!(g.len(), 12);
    let months = ["202401", "202402", "202403", "202404", "202405", "202406", "202407", "202408",
        "202409", "202410", "202411", "202412"];
    let counts: Vec<Option<usize>> = months.iter().map(|k| g.count_for(k)).collect();
    assert_eq!(counts[0], Some(1));
    assert_eq!(counts[1], Some(1));
    assert!(counts[2..].iter().all(|c| *c == Some(0)));
    assert_eq!(g.count_for("202501"), None);
}

#[test]
fn two_buckets_with_one_key_are_one_column() {
    let log = log_of(vec![at(2023, 12, 31, 0, 0, 0), at(2024, 1, 20, 0, 0, 0), at(2024, 2, 10, 0, 0, 0)]);
    let g = GraphHash::new(&log, GraphType::Months).unwrap();
    assert_eq!(g.span(), 12);
    assert_eq!(g.len(), 10);
    assert_eq!(g.count_for("202312"), None);
    assert_eq!(g.count_for("202401"), Some(1));
    assert_eq!(g.count_for("202402"), None);
    assert_eq!(g.count_for("202407"), Some(0));
    assert_eq!(g.count_for("202411"), Some(0));
    assert_eq!(g.count_for("202412"), None);
}

#[test]
fn years_advance_by_365_days() {
    let log = log_of(vec![at(2024, 1, 15, 0, 0, 0), at(2033, 6, 1, 0, 0, 0), at(2034, 1, 1, 0, 0, 0)]);
    let g = GraphHash::new(&log, GraphType::Years).unwrap();
    assert_eq!(g.len(), 10);
    assert_eq!(g.count_for("2024"), Some(1));
    assert_eq!(g.count_for("2033"), Some(1));
    assert_eq!(g.count_for("2034"), None);
    let end_of_leap = log_of(vec![at(2024, 12, 31, 0, 0, 0)]);
    let h = GraphHash::new(&end_of_leap, GraphType::Years).unwrap();
    assert_eq!(h.count_for("2024"), Some(1));
    assert_eq!(h.count_for("2025"), Some(0));
    assert_eq!(h.count_for("2033"), Some(0));
    assert_eq!(h.count_for("2034"), None);
    assert_eq!(h.len(), 10);
}

#[test]
fn the_chart_of_an_hour_in_minutes() {
    let log = log_of(vec![
        at(2024, 1, 15, 10, 0, 0),
        at(2024, 1, 15, 10, 0, 0),
        at(2024, 1, 15, 10, 0, 30),
        at(2024, 1, 15, 10, 5, 0),
    ]);
    let lines = mode_graph(&log, GraphType::Minutes, None, None, None, false).unwrap();
    assert_eq!(lines.len(), 13);
    let top = format!("#{}", " ".repeat(59));
    let low = format!("#    #{}", " ".repeat(54));
    assert_eq!(lines[0], "");
    assert_eq!(lines[1], top);
    assert_eq!(lines[2], top);
    assert_eq!(lines[3], top);
    assert_eq!(lines[4], low);
    assert_eq!(lines[5], low);
    assert_eq!(lines[6], "#".repeat(60));
    assert_eq!(lines[7], format!("00{}30{}59  ", " ".repeat(28), " ".repeat(26)));
    assert_eq!(lines[8], "");
    assert_eq!(lines[9], "Start Time:\t2024-01-15 10:00:00\t\tMinimum Value: 0");
    assert_eq!(lines[10], "End Time:\t2024-01-15 10:59:00\t\tMaximum Value: 3");
    assert_eq!(lines[11], "Duration:\t60 minutes\t\t\tScale: 0.50");
    assert_eq!(lines[12], "");
}

#[test]
fn heights_are_rounded_up_on_a_scale_of_six() {
    let mut entries = Vec::new();
    for (second, count) in [(0u32, 1usize), (1, 2), (2, 4), (3, 3), (4, 0), (5, 4)] {
        for _ in 0..count {
            entries.push(at(2024, 1, 15, 10, 0, second));
        }
    }
    let log = log_of(entries);
    let from = Some(stamp(2024, 1, 15, 10, 0, 0));
    let to = Some(stamp(2024, 1, 15, 10, 0, 6));
    let lines = mode_graph(&log, GraphType::Seconds, from, to, Some('*'), false).unwrap();
    assert_eq!(lines[1], "  ** *");
    assert_eq!(lines[2], "  ** *");
    assert_eq!(lines[3], " *** *");
    assert_eq!(lines[4], "**** *");
    assert_eq!(lines[5], "**** *");
    assert_eq!(lines[6], "******");
    assert_eq!(lines[7], "00 03  ");
    assert_eq!(lines[9], "Start Time:\t2024-01-15 10:00:00\t\tMinimum Value: 0");
    assert_eq!(lines[10], "End Time:\t2024-01-15 10:00:05\t\tMaximum Value: 4");
    assert_eq!(lines[11], "Duration:\t6 seconds\t\t\tScale: 0.67");
}

#[test]
fn the_smallest_count_has_no_height_where_the_extremes_differ() {
    let mut entries = Vec::new();
    for (second, count) in [(0u32, 2usize), (1, 5), (2, 3)] {
        for _ in 0..count {
            entries.push(at(2024, 1, 15, 10, 0, second));
        }
    }
    let log = log_of(entries);
    let from = Some(stamp(2024, 1, 15, 10, 0, 0));
    let to = Some(stamp(2024, 1, 15, 10, 0, 3));
    let g = GraphHash::new_with_range(&log, GraphType::Seconds, from, to).unwrap();
    assert_eq!((g.min_value(), g.max_value()), (2, 5));
    let lines = g.display();
    assert_eq!(lines[1], " # ");
    assert_eq!(lines[2], " # ");
    assert_eq!(lines[3], " # ");
    assert_eq!(lines[4], " ##");
    assert_eq!(lines[5], " ##");
    assert_eq!(lines[6], "###");
    assert_eq!(lines[7], "00 ");
    assert_eq!(lines[11], "Duration:\t3 seconds\t\t\tScale: 0.50");
}

#[test]
fn equal_counts_fill_every_level() {
    let log = log_of(vec![at(2024, 1, 15, 10, 0, 0), at(2024, 1, 15, 10, 0, 1)]);
    let from = Some(stamp(2024, 1, 15, 10, 0, 0));
    let to = Some(stamp(2024, 1, 15, 10, 0, 2));
    let mut g = GraphHash::new_with_range(&log, GraphType::Seconds, from, to).unwrap();
    g.set_wide(true);
    g.set_tick('|');
    let lines = g.display();
    for row in 1..=6 {
        assert_eq!(lines[row], "| | ");
    }
    assert_eq!(lines[7], "0001 ");
    assert_eq!(lines[11], "Duration:\t2 seconds\t\t\tScale: 0.00");
}

#[test]
fn a_wide_chart_doubles_every_column() {
    let log = log_of(vec![at(2024, 1, 15, 10, 0, 0), at(2024, 1, 15, 14, 0, 0), at(2024, 1, 15, 14, 1, 0)]);
    let from = Some(stamp(2024, 1, 15, 10, 0, 0));
    let to = Some(stamp(2024, 1, 15, 18, 0, 0));
    let narrow = mode_graph(&log, GraphType::Hours, from, to, None, false).unwrap();
    let wide = mode_graph(&log, GraphType::Hours, from, to, None, true).unwrap();
    assert_eq!(narrow[1], "    #   ");
    assert_eq!(wide[1], "        #       ");
    assert_eq!(narrow[2], "    #   ");
    assert_eq!(narrow[3], "#   #   ");
    assert_eq!(narrow[5], "#   #   ");
    assert_eq!(wide[5], "#       #       ");
    assert_eq!(narrow[6], "########");
    assert_eq!(wide[6], "# # # # # # # # ");
    assert_eq!(narrow[7], "10  1417  ");
    assert_eq!(wide[7], "10      14    17  ");
    assert_eq!(narrow[9..], wide[9..]);
    assert_eq!(narrow[11], "Duration:\t8 hours\t\t\tScale: 0.33");
}

#[test]
fn year_labels_are_taken_modulo_2000() {
    let log = log_of(vec![at(2024, 6, 1, 0, 0, 0)]);
    let lines = mode_graph(&log, GraphType::Years, None, None, None, false).unwrap();
    assert_eq!(lines[6], "##########");
    assert_eq!(lines[7], "24   29 34  ");
    assert_eq!(lines[9], "Start Time:\t2024-06-01 00:00:00\t\tMinimum Value: 0");
    assert_eq!(lines[10], "End Time:\t2034-05-30 00:00:00\t\tMaximum Value: 1");
    assert_eq!(lines[11], "Duration:\t10 years\t\t\tScale: 0.17");
}

#[test]
fn the_histogram_of_no_records_says_so() {
    let g = GraphHash::new(&log_of(Vec::new()), GraphType::Days).unwrap();
    assert_eq!(g.len(), 0);
    assert_eq!(g.display(), vec!["No data to graph"]);
}

#[test]
fn a_range_beyond_the_calendar_is_refused() {
    let log = log_of(vec![at(2024, 1, 15, 10, 0, 0)]);
    let far = Some(Timestamp { seconds: i64::MAX - 5 });
    assert_eq!(
        GraphHash::new_with_range(&log, GraphType::Seconds, far, None).err(),
        Some(LogError::OutOfRange)
    );
    let edge = Some(Timestamp { seconds: 8_210_266_876_799 - 3 });
    assert_eq!(
        mode_graph(&log, GraphType::Seconds, edge, None, None, false).err(),
        Some(LogError::OutOfRange)
    );
}

#[test]
fn records_with_fields_out_of_range_fall_into_no_bucket() {
    let log = log_of(vec![at(2024, 1, 15, 10, 0, 0), at(2024, 1, 15, 10, 61, 0), at(2024, 1, 15, 10, 7, 99)]);
    let g = GraphHash::new(&log, GraphType::Minutes).unwrap();
    assert_eq!(g.count_for("202401151000"), Some(1));
    assert_eq!(g.count_for("202401151007"), Some(1));
    assert_eq!(g.count_for("202401151061"), None);
}

fn as_chrono_writes(seconds: i64) -> String {
    chrono::DateTime::from_timestamp(seconds, 0).unwrap().format("%Y-%m-%d %H:%M:%S").to_string()
}

#[test]
fn the_years_of_the_summary_are_written_as_the_calendar_writes_them() {
    let log = log_of(vec![at(2024, 1, 15, 10, 0, 0)]);
    let starts = [
        stamp(-12_345, 3, 4, 5, 6, 7),
        stamp(-5, 1, 1, 0, 0, 0),
        stamp(-1, 12, 31, 23, 59, 59),
        stamp(0, 1, 1, 0, 0, 0),
        stamp(7, 7, 7, 7, 7, 7),
        stamp(999, 12, 31, 0, 0, 0),
        stamp(9_990, 6, 1, 0, 0, 0),
        stamp(9_999, 12, 31, 23, 59, 59),
        stamp(10_000, 1, 1, 0, 0, 0),
        stamp(123_456, 2, 3, 4, 5, 6),
    ];
    for start in starts {
        let g = GraphHash::new_with_range(&log, GraphType::Years, Some(start), None).unwrap();
        let lines = g.display();
        let end = start.seconds + 3_650 * 86_400;
        assert_eq!(
            lines[9],
            format!("Start Time:\t{}\t\tMinimum Value: 0", as_chrono_writes(start.seconds))
        );
        assert_eq!(
            lines[10],
            format!("End Time:\t{}\t\tMaximum Value: 0", as_chrono_writes(end))
        );
    }
    let far = GraphHash::new_with_range(&log, GraphType::Days, Some(stamp(-5, 1, 1, 0, 0, 0)), None)
        .unwrap()
        .display();
    assert_eq!(far[9], "Start Time:\t-0005-01-01 00:00:00\t\tMinimum Value: 0");
    let late = GraphHash::new_with_range(&log, GraphType::Days, Some(stamp(12_345, 1, 1, 0, 0, 0)), None)
        .unwrap()
        .display();
    assert_eq!(late[9], "Start Time:\t+12345-01-01 00:00:00\t\tMinimum Value: 0");
}
