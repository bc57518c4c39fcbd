use glancelog::evtx_parser::{EventData, EvtxFields};
use glancelog::EvtxLogParser;

fn fields(data: EventData, user_data: Option<&str>) -> EvtxFields {
    EvtxFields {
        stamp: (2025, 11, 14, 12, 0, 1),
        provider: Some("Service Control Manager".to_string()),
        computer: Some("WIN-HOST".to_string()),
        event_id: Some(7036),
        level: Some(4),
        event_data: data,
        user_data: user_data.map(|s| s.to_string()),
    }
}

#[test]
fn event_logs_are_told_by_their_extension() {
    assert!(EvtxLogParser::is_evtx_file("System.evtx"));
    assert!(EvtxLogParser::is_evtx_file("logs/Security.EVTX"));
    assert!(EvtxLogParser::is_evtx_file("/var/tmp/a.b.EvTx"));
    assert!(!EvtxLogParser::is_evtx_file("System.evtx.bak"));
    assert!(!EvtxLogParser::is_evtx_file("evtx"));
    assert!(!EvtxLogParser::is_evtx_file(".evtx"));
    assert!(!EvtxLogParser::is_evtx_file("System.evt"));
    assert!(!EvtxLogParser::is_evtx_file(""));
    assert!(EvtxLogParser::is_evtx_extension(Some("evtx")));
    assert!(EvtxLogParser::is_evtx_extension(Some("EVTX")));
    assert!(!EvtxLogParser::is_evtx_extension(Some("evtxx")));
    assert!(!EvtxLogParser::is_evtx_extension(Some("\u{212a}vtx")));
    assert!(!EvtxLogParser::is_evtx_extension(None));
}

#[test]
fn an_event_with_named_values_lists_them() {
    let data = EventData::Pairs(vec![
        ("#attributes".to_string(), "{}".to_string()),
        ("param1".to_string(), "\"Windows Update\"".to_string()),
        ("param2".to_string(), "7".to_string()),
    ]);
    let e = EvtxLogParser::convert_record_to_entry(&fields(data, Some("ignored")));
    assert_eq!((e.year, e.month, e.day, e.hour, e.minute, e.second), (2025, 11, 14, 12, 0, 1));
    assert_eq!(e.host, "WIN-HOST");
    assert_eq!(e.daemon, "Service Control Manager");
    assert_eq!(e.log_entry, "[Information] EventID 7036 param1=\"Windows Update\" param2=7");
}

#[test]
fn an_event_without_data_shows_its_user_data_or_its_number_alone() {
    let text = EvtxLogParser::convert_record_to_entry(&fields(EventData::Text("plain".to_string()), None));
    assert_eq!(text.log_entry, "[Information] EventID 7036 plain");
    let user = EvtxLogParser::convert_record_to_entry(&fields(EventData::Absent, Some("Object {}")));
    assert_eq!(user.log_entry, "[Information] EventID 7036 Object {}");
    let only_attributes = EventData::Pairs(vec![("#attributes".to_string(), "x".to_string())]);
    let bare = EvtxLogParser::convert_record_to_entry(&fields(only_attributes, None));
    assert_eq!(bare.log_entry, "[Information] EventID 7036");
    let other = EvtxLogParser::convert_record_to_entry(&fields(EventData::Other, None));
    assert_eq!(other.log_entry, "[Information] EventID 7036");
}

#[test]
fn missing_names_and_numbers_have_defaults() {
    let mut f = fields(EventData::Absent, None);
    f.provider = None;
    f.computer = None;
    f.event_id = None;
    f.level = None;
    let e = EvtxLogParser::convert_record_to_entry(&f);
    assert_eq!(e.host, "Unknown");
    assert_eq!(e.daemon, "Unknown");
    assert_eq!(e.log_entry, "[Unknown] EventID 0");
}

#[test]
fn every_level_has_its_name() {
    let names = ["Unknown", "Critical", "Error", "Warning", "Information", "Verbose", "Unknown"];
    for (level, name) in names.iter().enumerate() {
        let mut f = fields(EventData::Absent, None);
        f.level = Some(level as u64);
        let e = EvtxLogParser::convert_record_to_entry(&f);
        assert_eq!(e.log_entry, format!("[{}] EventID 7036", name));
    }
}
