use als_engine::recorder::{hour_file_name, sanitize_device_name, Recorder, RecorderConfig, RecorderStatus};
use std::path::PathBuf;

fn recorder(enabled: bool, name: &str) -> Recorder {
    Recorder::new(RecorderConfig { enabled, root: PathBuf::from("/logs"), device_name: name.to_string() })
}

#[test]
fn device_names_are_made_safe_for_directories() {
    assert_eq!(sanitize_device_name("Pixel 9"), "Pixel_9");
    assert_eq!(sanitize_device_name("a/b\\c:d-e_f.g"), "a_b_c_d-e_f_g");
    assert_eq!(sanitize_device_name("Ünïcode"), "_n_code");
    assert_eq!(sanitize_device_name(""), "");
}

#[test]
fn hour_files_have_two_digits() {
    assert_eq!(hour_file_name(0), "00.log");
    assert_eq!(hour_file_name(7), "07.log");
    assert_eq!(hour_file_name(23), "23.log");
    assert_eq!(hour_file_name(10), "10.log");
    assert_eq!(hour_file_name(123), "123.log");
}

#[test]
fn target_is_day_then_safe_device_then_hour() {
    let r = recorder(true, "Pixel 9");
    assert!(r.is_enabled());
    let (day, device, file) = r.target_parts("2026-07-16", 9).expect("enabled");
    assert_eq!(day, "2026-07-16");
    assert_eq!(device, "Pixel_9");
    assert_eq!(file, "09.log");
    let path = r.target_path("2026-07-16", 9).expect("enabled");
    assert_eq!(path, PathBuf::from("/logs/2026-07-16/Pixel_9/09.log"));
}

#[test]
fn disabled_recorder_has_no_target() {
    let r = recorder(false, "Pixel");
    assert!(!r.is_enabled());
    assert!(r.target_parts("2026-07-16", 9).is_none());
    assert!(r.target_path("2026-07-16", 9).is_none());
}

#[test]
fn recording_a_write_reports_the_file() {
    let mut r = recorder(true, "dev");
    let target = r.target_path("x", 1).expect("enabled");
    assert_eq!(target, PathBuf::from("/logs/x/dev/01.log"));
    let status = r.record_written(target);
    assert!(status.enabled);
    assert_eq!(status.path, Some(PathBuf::from("/logs/x/dev/01.log")));
    assert!(status.warning.is_none());
    let failed = RecorderStatus::failed("disk full".to_string());
    assert!(!failed.enabled);
    assert_eq!(failed.warning.as_deref(), Some("disk full"));
    let off = RecorderStatus::disabled();
    assert!(!off.enabled && off.path.is_none() && off.warning.is_none());
}
