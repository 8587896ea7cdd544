use als_engine::log_entry::{LogEntry, LogLevel};
use als_engine::statistics::Statistics;

fn entry(level: LogLevel) -> LogEntry {
    LogEntry {
        seq: 1,
        timestamp: 0,
        date: String::new(),
        time: String::new(),
        pid: 0,
        tid: 0,
        level,
        tag: String::new(),
        message: String::new(),
        package_name: None,
        foreground: None,
        background: None,
        hidden: false,
        bookmarked: false,
    }
}

#[test]
fn counts_errors_and_warnings() {
    let mut stats = Statistics::default();
    stats.observe(&entry(LogLevel::Error));
    stats.observe(&entry(LogLevel::Warn));

    let snapshot = stats.snapshot();
    assert_eq!(snapshot.errors, 1);
    assert_eq!(snapshot.warnings, 1);
}

#[test]
fn assert_counts_as_error_and_memory_is_estimated_per_entry() {
    let mut stats = Statistics::default();
    stats.observe(&entry(LogLevel::Assert));
    stats.observe(&entry(LogLevel::Info));
    let mut hidden = entry(LogLevel::Debug);
    hidden.hidden = true;
    stats.observe(&hidden);

    let snapshot = stats.snapshot();
    assert_eq!(snapshot.errors, 1);
    assert_eq!(snapshot.warnings, 0);
    assert_eq!(snapshot.hidden, 1);
    assert_eq!(snapshot.memory_bytes, 3 * 256);
    assert_eq!(snapshot.logs_per_second, 0);

    stats.set_hidden(0);
    assert_eq!(stats.snapshot().hidden, 0);
}
