use als_engine::filter::{FilterQuery, FilterTerm};
use als_engine::log_entry::{LogEntry, LogLevel};

fn entry() -> LogEntry {
    LogEntry {
        seq: 1,
        timestamp: 0,
        date: "07-04".to_string(),
        time: "12:00:00.000".to_string(),
        pid: 1234,
        tid: 5678,
        level: LogLevel::Error,
        tag: "ActivityManager".to_string(),
        message: "Process crashed".to_string(),
        package_name: Some("com.example".to_string()),
        foreground: None,
        background: None,
        hidden: false,
        bookmarked: false,
    }
}

#[test]
fn matches_basic_and_query() {
    let query = FilterQuery::parse("package:example level:error text:crashed");
    assert!(query.matches(&entry()));
}

#[test]
fn rejects_non_matching_query() {
    let query = FilterQuery::parse("tag:SurfaceFlinger");
    assert!(!query.matches(&entry()));
}

#[test]
fn multiple_level_terms_match_any_selected_level() {
    let query = FilterQuery::parse("level:warn level:error");
    assert!(query.matches(&entry()));

    let mut warn = entry();
    warn.level = LogLevel::Warn;
    assert!(query.matches(&warn));

    let mut info = entry();
    info.level = LogLevel::Info;
    assert!(!query.matches(&info));
}

#[test]
fn package_and_level_still_and_with_or_levels() {
    let query = FilterQuery::parse("package:example level:warn level:error");
    assert!(query.matches(&entry()));

    let mut other = entry();
    other.package_name = Some("com.other".to_string());
    assert!(!query.matches(&other));
}

#[test]
fn level_none_matches_nothing() {
    let query = FilterQuery::parse("level:none");
    assert!(!query.matches(&entry()));
}

#[test]
fn level_none_in_any_case_hides_everything_whatever_else_is_asked() {
    let query = FilterQuery::parse("text:crashed level:NoNe level:error");
    assert!(!query.matches(&entry()));
}

#[test]
fn empty_query_matches_every_entry() {
    let query = FilterQuery::parse("");
    assert!(query.terms().is_empty());
    assert!(query.matches(&entry()));
    let mut unknown = entry();
    unknown.level = LogLevel::Unknown;
    unknown.package_name = None;
    assert!(query.matches(&unknown));
}

#[test]
fn parses_terms_and_skips_unknown_tokens() {
    let query = FilterQuery::parse("  pid:1234 foo level:W tag:Act mystery:1 level:bogus pid:x text:a:b ");
    let terms = query.terms();
    assert_eq!(terms.len(), 4);
    assert_eq!(terms[0], FilterTerm::Pid(1234));
    assert_eq!(terms[1], FilterTerm::Level(LogLevel::Warn));
    assert_eq!(terms[2], FilterTerm::Tag("Act".to_string()));
    assert_eq!(terms[3], FilterTerm::Text("a:b".to_string()));
}

#[test]
fn pid_term_requires_equal_pid_and_package_term_needs_a_package() {
    assert!(FilterQuery::parse("pid:1234").matches(&entry()));
    assert!(!FilterQuery::parse("pid:1235").matches(&entry()));
    let mut no_package = entry();
    no_package.package_name = None;
    assert!(!FilterQuery::parse("package:example").matches(&no_package));
    assert!(FilterQuery::parse("package:").matches(&no_package));
}

#[test]
fn keys_are_case_sensitive_and_matching_is_case_sensitive() {
    assert!(FilterQuery::parse("TAG:Nothing").terms().is_empty());
    assert!(!FilterQuery::parse("text:CRASHED").matches(&entry()));
}

#[test]
fn excluding_tag_term_drops_matching_entries() {
    assert!(!FilterQuery::parse("-tag:ActivityManager").matches(&entry()));
    assert!(FilterQuery::parse("-tag:SurfaceFlinger").matches(&entry()));
    assert!(!FilterQuery::parse("-package:example").matches(&entry()));
    assert!(!FilterQuery::parse("-pid:1234").matches(&entry()));
    assert!(FilterQuery::parse("-pid:1").matches(&entry()));
    assert!(!FilterQuery::parse("-text:crashed").matches(&entry()));
    assert_eq!(FilterQuery::parse("-tag:x").terms()[0], FilterTerm::ExcludeTag("x".to_string()));
    assert!(FilterQuery::parse("-level:error --tag:x -bogus:1").terms().is_empty());
}

#[test]
fn bar_separates_tag_and_package_alternatives() {
    assert!(FilterQuery::parse("tag:SurfaceFlinger|ActivityManager").matches(&entry()));
    assert!(FilterQuery::parse("package:com.other|com.example").matches(&entry()));
    assert!(!FilterQuery::parse("tag:SurfaceFlinger|Zygote").matches(&entry()));
    assert!(!FilterQuery::parse("-tag:Zygote|Activity").matches(&entry()));
    assert!(FilterQuery::parse("-tag:Zygote|Surface").matches(&entry()));
    // Text terms take `|` literally.
    assert!(!FilterQuery::parse("text:crashed|none").matches(&entry()));
}
