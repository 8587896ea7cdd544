use als_engine::device::{format_threadtime_line, DeviceContext, ExportMode};
use als_engine::filter::FilterQuery;
use als_engine::log_entry::{LogEntry, LogLevel};
use als_engine::parser::parse_threadtime_line;
use als_engine::recorder::{Recorder, RecorderConfig};
use tempfile::tempdir;

fn new_test_device(buffer_capacity: usize) -> DeviceContext {
    let dir = tempdir().expect("tempdir");
    let recorder = Recorder::new(RecorderConfig {
        enabled: false,
        root: dir.path().to_path_buf(),
        device_name: "mock".to_string(),
    });
    DeviceContext::new("mock".to_string(), "Mock".to_string(), buffer_capacity, recorder)
}

fn sample_entry() -> LogEntry {
    LogEntry {
        seq: 1,
        timestamp: 0,
        date: "07-16".into(),
        time: "12:34:56.789".into(),
        pid: 1234,
        tid: 5678,
        level: LogLevel::Info,
        tag: "ActivityManager".into(),
        message: "hello".into(),
        package_name: None,
        foreground: None,
        background: None,
        hidden: false,
        bookmarked: false,
    }
}

#[test]
fn ingests_and_snapshots_visible_lines() {
    let mut device = new_test_device(10);
    device.set_filter(FilterQuery::parse("level:error"));

    device.ingest_line("07-04 12:34:56.789  1234  5678 I Tag: info");
    device.ingest_line("07-04 12:34:57.789  1234  5678 E Tag: error");

    let snapshot = device.latest_visible_snapshot(500);
    assert_eq!(snapshot.logs.len(), 1);
    assert_eq!(snapshot.logs[0].message, "error");
    assert_eq!(snapshot.stats.errors, 1);
}

#[test]
fn limits_after_filtering_visible_lines() {
    let mut device = new_test_device(5);
    device.set_filter(FilterQuery::parse("level:error"));

    device.ingest_line("07-04 12:34:56.000  1234  5678 E Tag: first error");
    device.ingest_line("07-04 12:34:57.000  1234  5678 E Tag: second error");
    device.ingest_line("07-04 12:34:58.000  1234  5678 E Tag: third error");
    device.ingest_line("07-04 12:34:59.000  1234  5678 I Tag: hidden info one");
    device.ingest_line("07-04 12:35:00.000  1234  5678 I Tag: hidden info two");

    let snapshot = device.latest_visible_snapshot(2);

    assert_eq!(snapshot.logs.len(), 2);
    assert_eq!(snapshot.logs[0].message, "second error");
    assert_eq!(snapshot.logs[1].message, "third error");
}

#[test]
fn searches_visible_messages_case_insensitively() {
    let mut device = new_test_device(10);
    device.set_filter(FilterQuery::parse("level:error"));

    device.ingest_line("07-04 12:34:56.000  1234  5678 E Tag: Alpha failure");
    device.ingest_line("07-04 12:34:57.000  1234  5678 I Tag: alpha hidden");
    device.ingest_line("07-04 12:34:58.000  1234  5678 E Tag: beta ALPHA");

    assert_eq!(device.search_visible_sequences("alpha"), vec![1, 3]);
    assert!(device.search_visible_sequences("").is_empty());
}

#[test]
fn search_query_is_lowered_too() {
    let mut device = new_test_device(10);
    device.ingest_line("07-04 12:34:56.000  1234  5678 E Tag: Ärger im Paradies");
    device.ingest_line("07-04 12:34:57.000  1234  5678 E Tag: nothing");
    assert_eq!(device.search_visible_sequences("ÄRGER"), vec![1]);
    assert_eq!(device.search_visible_sequences("PARADIES"), vec![1]);
    assert!(device.search_visible_sequences("zzz").is_empty());
}

#[test]
fn set_filter_recomputes_buffer_visibility_and_hidden_count() {
    let mut device = new_test_device(10);

    device.ingest_line("07-04 12:34:56.000  1234  5678 I Tag: info");
    device.ingest_line("07-04 12:34:57.000  1234  5678 E Tag: error");
    device.set_filter(FilterQuery::parse("level:error"));

    let snapshot = device.latest_visible_snapshot(500);
    assert_eq!(snapshot.logs.len(), 1);
    assert_eq!(snapshot.logs[0].message, "error");
    assert_eq!(snapshot.stats.hidden, 1);
}

#[test]
fn clearing_the_filter_shows_everything_again() {
    let mut device = new_test_device(10);
    device.set_filter(FilterQuery::parse("level:none"));
    device.ingest_line("07-04 12:34:56.000  1234  5678 I Tag: a");
    device.ingest_line("07-04 12:34:57.000  1234  5678 E Tag: b");
    assert_eq!(device.latest_visible_snapshot(10).logs.len(), 0);
    assert_eq!(device.latest_visible_snapshot(10).stats.hidden, 2);
    device.set_filter(FilterQuery::parse(""));
    let snapshot = device.latest_visible_snapshot(10);
    assert_eq!(snapshot.logs.len(), 2);
    assert_eq!(snapshot.stats.hidden, 0);
    assert_eq!(snapshot.logs[0].seq, 1);
    assert_eq!(snapshot.logs[1].seq, 2);
}

#[test]
fn full_buffer_drops_oldest_but_counts_every_line() {
    let mut device = new_test_device(2);
    for i in 0..5 {
        let line = format!("07-04 12:34:5{i}.000  1  1 W Tag: line {i}");
        let entry = device.ingest_line(&line).expect("every line gives an entry");
        assert_eq!(entry.seq, i as u64 + 1);
    }
    assert_eq!(device.line_count(), 5);
    let snapshot = device.latest_visible_snapshot(10);
    assert_eq!(snapshot.logs.len(), 2);
    assert_eq!(snapshot.logs[0].message, "line 3");
    assert_eq!(snapshot.stats.warnings, 5);
    assert_eq!(snapshot.stats.memory_bytes, 5 * 256);
}

#[test]
fn format_threadtime_line_matches_parser_roundtrip_shape() {
    let line = format_threadtime_line(&LogEntry {
        seq: 1,
        timestamp: 0,
        date: "07-16".into(),
        time: "12:34:56.789".into(),
        pid: 1234,
        tid: 5678,
        level: LogLevel::Info,
        tag: "ActivityManager".into(),
        message: "hello".into(),
        package_name: None,
        foreground: None,
        background: None,
        hidden: false,
        bookmarked: false,
    });
    assert_eq!(line, "07-16 12:34:56.789  1234  5678 I ActivityManager: hello");
}

#[test]
fn formatted_line_parses_back_to_the_entry() {
    let mut entries = vec![sample_entry()];
    let mut wide = sample_entry();
    wide.pid = 4_000_000_000;
    wide.tid = 0;
    wide.level = LogLevel::Assert;
    wide.tag = String::new();
    wide.message = " leading blank: and colons: too".into();
    entries.push(wide);
    let mut unknown = sample_entry();
    unknown.level = LogLevel::Unknown;
    unknown.tag = "Tag with spaces ".into();
    entries.push(unknown);
    for e in entries {
        let line = format_threadtime_line(&e);
        let back = parse_threadtime_line(9, &line).expect("parses");
        assert_eq!(back.seq, 9);
        assert_eq!(back.date, e.date);
        assert_eq!(back.time, e.time);
        assert_eq!(back.pid, e.pid);
        assert_eq!(back.tid, e.tid);
        assert_eq!(back.level, e.level);
        assert_eq!(back.tag, e.tag);
        assert_eq!(back.message, e.message);
    }
}

#[test]
fn export_lines_all_includes_hidden_filtered_skips_them() {
    let mut device = new_test_device(100);
    assert!(device.ingest_line("07-16 12:00:00.000  1  1 I Keep: stay").is_some());
    assert!(device.ingest_line("07-16 12:00:01.000  1  1 I Drop: gone").is_some());
    device.set_filter(FilterQuery::parse("tag:Keep"));

    let all = device.export_lines(ExportMode::All);
    let filtered = device.export_lines(ExportMode::Filtered);
    assert_eq!(all.len(), 2);
    assert_eq!(filtered.len(), 1);
    assert_eq!(all[0], "07-16 12:00:00.000     1     1 I Keep: stay");
    assert_eq!(all[1], "07-16 12:00:01.000     1     1 I Drop: gone");
    assert_eq!(filtered[0], "07-16 12:00:00.000     1     1 I Keep: stay");
    assert!(new_test_device(3).export_lines(ExportMode::All).is_empty());
}

#[test]
fn search_hit_needs_a_visible_entry_whose_lowered_message_holds_the_query() {
    let mut entry = sample_entry();
    assert!(als_engine::device::is_search_hit(&entry, "hello world", "lo w"));
    assert!(!als_engine::device::is_search_hit(&entry, "hello world", "Hello"));
    assert!(als_engine::device::is_search_hit(&entry, "anything", ""));
    entry.hidden = true;
    assert!(!als_engine::device::is_search_hit(&entry, "hello world", "lo w"));
}

#[test]
fn search_ignores_the_case_of_query_and_message() {
    let mut device = new_test_device(10);
    device.ingest_line("07-04 12:34:56.000  1234  5678 E Tag: Alpha failure");
    device.ingest_line("07-04 12:34:57.000  1234  5678 E Tag: alpha again");
    assert_eq!(device.search_visible_sequences("Alpha"), vec![1, 2]);
    assert_eq!(device.search_visible_sequences("ALPHA"), vec![1, 2]);
    assert!(device.search_visible_sequences("").is_empty());
}
