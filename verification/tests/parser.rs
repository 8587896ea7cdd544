use als_engine::log_entry::LogLevel;
use als_engine::parser::{parse_threadtime_line, MAX_MESSAGE_BYTES};

#[test]
fn parses_standard_threadtime_line() {
    let entry = parse_threadtime_line(
        42,
        "07-04 12:34:56.789  1234  5678 I ActivityManager: Start proc com.example",
    )
    .expect("threadtime line should parse");

    assert_eq!(entry.seq, 42);
    assert_eq!(entry.timestamp, 0);
    assert_eq!(entry.date, "07-04");
    assert_eq!(entry.time, "12:34:56.789");
    assert_eq!(entry.pid, 1234);
    assert_eq!(entry.tid, 5678);
    assert_eq!(entry.level, LogLevel::Info);
    assert_eq!(entry.tag, "ActivityManager");
    assert_eq!(entry.message, "Start proc com.example");
    assert_eq!(entry.package_name, None);
    assert_eq!(entry.foreground, None);
    assert_eq!(entry.background, None);
    assert!(!entry.hidden);
    assert!(!entry.bookmarked);
}

#[test]
fn returns_unknown_entry_for_unparseable_line() {
    let raw_line = "this is not a threadtime line";
    let entry = parse_threadtime_line(7, raw_line).expect("raw line should be preserved");

    assert_eq!(entry.seq, 7);
    assert_eq!(entry.timestamp, 0);
    assert_eq!(entry.date, "");
    assert_eq!(entry.time, "");
    assert_eq!(entry.pid, 0);
    assert_eq!(entry.tid, 0);
    assert_eq!(entry.level, LogLevel::Unknown);
    assert_eq!(entry.tag, "");
    assert_eq!(entry.message, raw_line);
    assert_eq!(entry.package_name, None);
    assert_eq!(entry.foreground, None);
    assert_eq!(entry.background, None);
    assert!(!entry.hidden);
    assert!(!entry.bookmarked);
}

#[test]
fn truncates_large_message_to_ten_kib() {
    let large_message = "🙂".repeat(3_000);
    let line = format!("07-04 12:34:56.789  1234  5678 D Tag: {large_message}");

    let entry = parse_threadtime_line(9, &line).expect("threadtime line should parse");

    assert_eq!(entry.message.len(), 10 * 1024);
    assert_eq!(entry.message, "🙂".repeat((10 * 1024) / "🙂".len()));
}

#[test]
fn truncation_stops_before_a_character_that_would_not_fit() {
    // 10239 ASCII bytes, then a 4-byte character that would pass the limit.
    let message = format!("{}🙂tail", "a".repeat(MAX_MESSAGE_BYTES - 1));
    let line = format!("07-04 12:34:56.789  1 1 W T: {message}");
    let entry = parse_threadtime_line(1, &line).expect("parses");
    assert_eq!(entry.message, "a".repeat(MAX_MESSAGE_BYTES - 1));
    assert_eq!(entry.level, LogLevel::Warn);
}

#[test]
fn message_within_the_limit_is_kept_whole() {
    let message = "b".repeat(MAX_MESSAGE_BYTES);
    let line = format!("07-04 12:34:56.789 1 1 E T: {message}");
    let entry = parse_threadtime_line(3, &line).expect("parses");
    assert_eq!(entry.message, message);
}

#[test]
fn fatal_priority_reads_as_assert_and_unknown_letters_as_unknown() {
    let fatal = parse_threadtime_line(1, "07-04 12:34:56.789  1  2 F Tag: boom").unwrap();
    assert_eq!(fatal.level, LogLevel::Assert);
    let odd = parse_threadtime_line(2, "07-04 12:34:56.789  1  2 X Tag: odd").unwrap();
    assert_eq!(odd.level, LogLevel::Unknown);
    assert_eq!(odd.tag, "Tag");
}

#[test]
fn pid_out_of_range_keeps_the_raw_line() {
    let line = "07-04 12:34:56.789  99999999999  2 I Tag: big";
    let entry = parse_threadtime_line(5, line).unwrap();
    assert_eq!(entry.level, LogLevel::Unknown);
    assert_eq!(entry.message, line);
}

#[test]
fn colon_right_after_tag_and_empty_message() {
    let entry = parse_threadtime_line(4, "07-04 12:34:56.789  1  2 I Tag:").unwrap();
    assert_eq!(entry.tag, "Tag");
    assert_eq!(entry.message, "");
    let spaced = parse_threadtime_line(5, "07-04 12:34:56.789  1  2 I My Tag :  two spaces").unwrap();
    assert_eq!(spaced.tag, "My Tag ");
    assert_eq!(spaced.message, " two spaces");
}
