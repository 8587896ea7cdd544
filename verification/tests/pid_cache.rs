use als_engine::pid_cache::{refresh_due, PidCache, DEFAULT_REFRESH_NANOS};
use std::time::Duration;

#[test]
fn parses_simple_pid_name_output() {
    let mut cache = PidCache::default();
    cache.apply_ps_output(
        "  PID NAME\n\
         1 init\n\
         1234 com.example.app\n\
         5678 system_server\n",
    );

    assert_eq!(cache.resolve(1234), Some("com.example.app"));
    assert_eq!(cache.resolve(5678), Some("system_server"));
    assert_eq!(cache.resolve(1), Some("init"));
    assert_eq!(cache.resolve(9999), None);
}

#[test]
fn parses_user_pid_name_output() {
    let mut cache = PidCache::default();
    cache.apply_ps_output(
        "USER           PID NAME\n\
         u0_a100       4321 com.android.systemui\n",
    );

    assert_eq!(cache.resolve(4321), Some("com.android.systemui"));
}

#[test]
fn needs_refresh_before_first_apply() {
    let cache = PidCache::new(Duration::from_secs(60));
    assert!(cache.needs_refresh());
}

#[test]
fn insert_and_resolve() {
    let mut cache = PidCache::default();
    cache.insert(42, "com.demo");
    assert_eq!(cache.resolve(42), Some("com.demo"));
}

#[test]
fn empty_name_is_ignored_and_later_insert_wins() {
    let mut cache = PidCache::default();
    cache.insert(7, "");
    assert_eq!(cache.resolve(7), None);
    cache.insert(7, "first");
    cache.insert(7, "second");
    assert_eq!(cache.resolve(7), Some("second"));
}

#[test]
fn apply_replaces_the_cache_and_marks_it_refreshed() {
    let mut cache = PidCache::new(Duration::from_secs(3600));
    cache.insert(1, "stale");
    cache.apply_ps_output("PID NAME\n2 fresh name here\n[junk line]\n");
    assert_eq!(cache.resolve(1), None);
    assert_eq!(cache.resolve(2), Some("fresh name here"));
    assert!(!cache.needs_refresh());
}

#[test]
fn output_without_processes_leaves_the_cache() {
    let mut cache = PidCache::new(Duration::from_secs(3600));
    cache.insert(1, "kept");
    cache.apply_ps_output("PID NAME\n\n   \n");
    assert_eq!(cache.resolve(1), Some("kept"));
    assert!(cache.needs_refresh());
    cache.mark_refreshed();
    assert!(!cache.needs_refresh());
}

#[test]
fn refresh_is_due_when_never_refreshed_or_after_the_interval() {
    assert!(refresh_due(None, 10));
    assert!(refresh_due(Some(10), 10));
    assert!(!refresh_due(Some(9), 10));
    assert_eq!(DEFAULT_REFRESH_NANOS, 5_000_000_000);
    let mut cache = PidCache::with_interval_nanos(0);
    assert!(cache.needs_refresh());
    cache.mark_refreshed();
    assert!(cache.needs_refresh());
}

#[test]
fn new_keeps_the_interval_it_was_given() {
    let mut zero = PidCache::new(Duration::from_nanos(0));
    zero.mark_refreshed();
    assert!(zero.needs_refresh());
    let mut hour = PidCache::new(Duration::from_secs(3600));
    hour.mark_refreshed();
    assert!(!hour.needs_refresh());
}
