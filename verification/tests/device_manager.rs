use als_engine::adb::AdbDevice;
use als_engine::device::ExportMode;
use als_engine::device_manager::{
    export_file_name, AdbStatusMode, DeviceManager, LogcatStop, ManagerError, MOCK_DEVICE_ID, MOCK_DEVICE_NAME,
};
use als_engine::log_entry::DeviceSource;
use tempfile::tempdir;

fn adb(serial: &str, name: &str) -> AdbDevice {
    AdbDevice { serial: serial.to_string(), display_name: name.to_string() }
}

#[test]
fn remove_device_rejects_connected_and_unknown() {
    let mut manager = DeviceManager::from_adb_devices("libs/linux/adb".to_string(), vec![adb("serial-a", "Phone A")]);
    let err = manager.remove_device("serial-a").expect_err("connected device cannot be removed");
    assert!(err.message().contains("still connected"));

    let err = manager.remove_device("missing").expect_err("unknown device");
    assert!(err.message().contains("unknown device"));
}

#[test]
fn remove_device_drops_disconnected_context() {
    let mut manager = DeviceManager::from_adb_devices(
        "libs/linux/adb".to_string(),
        vec![adb("serial-a", "Phone A"), adb("serial-b", "Phone B")],
    );
    assert!(manager.mark_disconnected("serial-a"));
    manager.remove_device("serial-a").expect("remove ok");
    assert!(!manager.has_device("serial-a"));
    assert_eq!(manager.device_list().len(), 1);
    assert_eq!(manager.device_list()[0].device_id, "serial-b");
}

#[test]
fn mark_disconnected_keeps_context_and_sets_flag() {
    let mut manager = DeviceManager::from_adb_devices("libs/linux/adb".to_string(), vec![adb("serial-a", "Phone A")]);
    let line = "07-04 12:34:56.789  1234  5678 I Tag: keep me";
    assert!(manager.ingest_device_line("serial-a", line).is_some());

    assert!(manager.mark_disconnected("serial-a"));
    let device = manager.device_list().iter().find(|d| d.device_id == "serial-a").expect("device remains listed");
    assert!(!device.connected);
    assert!(manager.has_device("serial-a"));
    let snap = manager.latest_visible_snapshot("serial-a", 100).expect("snapshot still works");
    assert_eq!(snap.logs.len(), 1);
}

#[test]
fn builds_mock_fallback_when_adb_is_missing() {
    let manager = DeviceManager::mock_fallback("ADB: missing libs/linux/adb, using mock device");

    assert_eq!(manager.adb_status().available, false);
    assert_eq!(manager.adb_status().mode, AdbStatusMode::MockFallback);
    assert_eq!(manager.device_list().len(), 1);
    assert_eq!(manager.device_list()[0].device_id, MOCK_DEVICE_ID);
    assert_eq!(manager.device_list()[0].source, DeviceSource::Mock);
}

#[test]
fn no_adb_devices_uses_mock_fallback_status() {
    let manager = DeviceManager::from_scan_result(Some("libs/linux/adb".to_string()), Vec::new(), None);

    assert_eq!(manager.adb_status().available, false);
    assert_eq!(manager.device_list()[0].source, DeviceSource::Mock);
    assert!(manager.adb_status().message.contains("no online devices"));
}

#[test]
fn adb_scan_error_uses_mock_fallback_status() {
    let manager = DeviceManager::from_scan_result(
        Some("libs/linux/adb".to_string()),
        Vec::new(),
        Some("permission denied".to_string()),
    );

    assert_eq!(manager.adb_status().available, false);
    assert!(manager.adb_status().message.contains("permission denied"));
}

#[test]
fn merge_scan_soft_disconnects_missing_and_keeps_buffer() {
    let log_root = tempdir().expect("tempdir");
    let mut manager = DeviceManager::from_adb_devices_with_log_root(
        "libs/linux/adb".to_string(),
        vec![adb("keep", "Keep"), adb("gone", "Gone")],
        log_root.path().to_path_buf(),
    );
    manager.ingest_device_line("gone", "07-04 12:34:56.789  1  1 I Tag: history");

    manager.merge_scan_result(Some("libs/linux/adb".to_string()), vec![adb("keep", "Keep")], None);

    assert_eq!(manager.device_list().len(), 2);
    let gone = manager.device_list().iter().find(|d| d.device_id == "gone").unwrap();
    assert!(!gone.connected);
    let snap = manager.latest_visible_snapshot("gone", 10).unwrap();
    assert_eq!(snap.logs.len(), 1);

    let keep = manager.device_list().iter().find(|d| d.device_id == "keep").unwrap();
    assert!(keep.connected);
}

#[test]
fn merge_scan_adds_new_device_without_dropping_existing() {
    let log_root = tempdir().expect("tempdir");
    let mut manager = DeviceManager::from_adb_devices_with_log_root(
        "libs/linux/adb".to_string(),
        vec![adb("old", "Old")],
        log_root.path().to_path_buf(),
    );
    manager.ingest_device_line("old", "07-04 12:34:56.789  1  1 I Tag: old-log");

    manager.merge_scan_result(Some("libs/linux/adb".to_string()), vec![adb("old", "Old"), adb("new", "New")], None);

    assert_eq!(manager.device_list().len(), 2);
    assert!(manager.has_device("old"));
    assert!(manager.has_device("new"));
    let snap = manager.latest_visible_snapshot("old", 10).unwrap();
    assert_eq!(snap.logs.len(), 1);
}

#[test]
fn merge_scan_error_soft_disconnects_all_adb_devices() {
    let mut manager = DeviceManager::from_adb_devices("libs/linux/adb".to_string(), vec![adb("serial-a", "Phone A")]);
    manager.merge_scan_result(Some("libs/linux/adb".to_string()), Vec::new(), Some("permission denied".to_string()));
    assert!(!manager.device_list()[0].connected);
    assert!(manager.adb_status().message.contains("permission denied"));
    assert!(manager.has_device("serial-a"));
}

#[test]
fn builds_adb_devices_for_online_devices() {
    let devices = vec![adb("emulator-5554", "Pixel 8"), adb("R58N123ABC", "Galaxy S23")];

    let manager = DeviceManager::from_adb_devices("libs/linux/adb".to_string(), devices);

    assert_eq!(manager.adb_status().available, true);
    assert_eq!(manager.adb_status().mode, AdbStatusMode::Bundled);
    assert_eq!(manager.adb_status().message, "ADB: 2 device(s) connected");
    assert_eq!(manager.device_list().len(), 2);
    assert_eq!(manager.device_list()[0].source, DeviceSource::Adb);
    assert_eq!(manager.device_list()[1].device_name, "Galaxy S23");
}

#[test]
fn identifies_mock_fallback_mode() {
    let mock_manager = DeviceManager::mock_fallback("ADB: no online devices, using mock device");
    let adb_manager = DeviceManager::from_adb_devices("libs/linux/adb".to_string(), vec![adb("emulator-5554", "Pixel 8")]);

    assert!(mock_manager.is_mock_fallback());
    assert!(!adb_manager.is_mock_fallback());
}

#[test]
fn mock_manager_ingests_and_searches_logs() {
    let dir = tempdir().expect("tempdir");
    let mut manager =
        DeviceManager::mock_fallback_with_log_root("ADB: no online devices, using mock device", dir.path().to_path_buf());

    manager.ingest_mock_line("07-04 12:34:56.789  1234  5678 I ActivityManager: Mock log line");
    manager.set_filter(MOCK_DEVICE_ID, "ActivityManager").expect("filter should apply");

    let snapshot = manager.latest_visible_snapshot(MOCK_DEVICE_ID, 500).expect("snapshot");
    assert_eq!(snapshot.logs.len(), 1);
    assert_eq!(manager.search_visible_sequences(MOCK_DEVICE_ID, "Mock").expect("search"), vec![1]);
}

#[test]
fn unknown_device_returns_error() {
    let mut manager = DeviceManager::mock_fallback("ADB: no online devices, using mock device");

    let error = manager.set_filter("missing", "level:error").expect_err("unknown device should error");
    assert!(error.message().contains("unknown device: missing"));
}

#[test]
fn manager_export_logs_unknown_device_errors() {
    let manager = DeviceManager::mock_fallback("test");
    let err = manager.export_lines("missing", ExportMode::All).expect_err("unknown");
    assert!(err.message().contains("unknown device"));
}

#[test]
fn manager_export_lines_of_the_mock_device() {
    let mut manager = DeviceManager::mock_fallback("test");
    assert!(manager.ingest_mock_line("07-16 12:00:00.000  1  1 I Tag: line").is_some());
    let lines = manager.export_lines(MOCK_DEVICE_ID, ExportMode::All).expect("export");
    assert_eq!(lines, vec!["07-16 12:00:00.000     1     1 I Tag: line".to_string()]);
}

#[test]
fn export_file_names_are_safe() {
    assert_eq!(export_file_name("emulator-5554", ExportMode::All, 1234), "emulator-5554-all-1234.log");
    assert_eq!(export_file_name("192.168.1.2:5555", ExportMode::Filtered, 0), "192_168_1_2_5555-filtered-0.log");
}

#[test]
fn mock_fallback_lists_only_the_mock_device() {
    let manager = DeviceManager::mock_fallback("why");
    assert_eq!(manager.device_list()[0].device_name, MOCK_DEVICE_NAME);
    assert!(manager.device_list()[0].connected);
    assert_eq!(manager.adb_status().message, "why");
    assert_eq!(manager.adb_status().path, None);
    assert_eq!(manager.line_count(MOCK_DEVICE_ID), Some(0));
    assert_eq!(manager.line_count("other"), None);
}

#[test]
fn first_real_scan_replaces_the_mock_device() {
    let mut manager = DeviceManager::mock_fallback("ADB: no online devices, using mock device");
    let stop = manager.merge_scan_result(None, vec![adb("a", "A"), adb("b", "B")], None);
    assert_eq!(stop, LogcatStop::All);
    assert!(!manager.is_mock_fallback());
    assert!(!manager.has_device(MOCK_DEVICE_ID));
    assert_eq!(manager.device_list().len(), 2);
    assert_eq!(manager.adb_status().path.as_deref(), Some("libs/<platform>/adb"));
    assert_eq!(manager.adb_status().message, "ADB: 2 device(s) connected");
}

#[test]
fn merge_reports_counts_and_the_processes_to_stop() {
    let mut manager =
        DeviceManager::from_adb_devices("p".to_string(), vec![adb("a", "A"), adb("b", "B"), adb("c", "C")]);
    let stop = manager.merge_scan_result(Some("q".to_string()), vec![adb("b", "Bee"), adb("d", "D")], None);
    assert_eq!(stop, LogcatStop::Devices(vec!["a".to_string(), "c".to_string()]));
    let list = manager.device_list();
    assert_eq!(list.len(), 4);
    assert_eq!((list[0].device_id.as_str(), list[0].connected), ("a", false));
    assert_eq!((list[1].device_id.as_str(), list[1].device_name.as_str(), list[1].connected), ("b", "Bee", true));
    assert_eq!((list[2].device_id.as_str(), list[2].connected), ("c", false));
    assert_eq!((list[3].device_id.as_str(), list[3].connected), ("d", true));
    assert_eq!(manager.adb_status().message, "ADB: 2 online, 2 disconnected");
    assert_eq!(manager.adb_status().path.as_deref(), Some("q"));
}

#[test]
fn empty_scan_disconnects_adb_devices_or_falls_back_to_mock() {
    let mut manager = DeviceManager::from_adb_devices("p".to_string(), vec![adb("a", "A")]);
    assert_eq!(manager.merge_scan_result(None, Vec::new(), None), LogcatStop::All);
    assert!(!manager.is_connected("a"));
    assert_eq!(manager.adb_status().message, "ADB: no online devices");
    assert!(manager.adb_status().available);

    let mut mock = DeviceManager::mock_fallback("x");
    mock.replace_with_scan_result(None, Vec::new(), Some("boom".to_string()));
    assert_eq!(mock.adb_status().message, "ADB: boom, using mock device");
    assert!(mock.is_mock_fallback());
}

#[test]
fn scan_error_status_keeps_the_path_availability() {
    let mut manager = DeviceManager::from_adb_devices("p".to_string(), vec![adb("a", "A")]);
    manager.merge_scan_result(None, Vec::new(), Some("gone".to_string()));
    assert!(!manager.adb_status().available);
    assert_eq!(manager.adb_status().message, "ADB: gone");
    assert!(matches!(manager.remove_device("a"), Ok(())));
    assert!(manager.device_list().is_empty());
}

#[test]
fn exited_logcat_disconnects_and_recounts() {
    let mut manager = DeviceManager::from_adb_devices("p".to_string(), vec![adb("a", "A"), adb("b", "B")]);
    assert!(manager.logcat_exited(&vec!["b".to_string(), "zzz".to_string()]));
    assert!(!manager.is_connected("b"));
    assert!(manager.is_connected("a"));
    assert_eq!(manager.adb_status().message, "ADB: 1 online, 1 disconnected");
    assert!(!manager.logcat_exited(&vec!["zzz".to_string()]));
    assert_eq!(manager.online_adb_device_ids(), vec!["a".to_string()]);
    assert_eq!(manager.adb_device_ids(), vec!["a".to_string(), "b".to_string()]);
}

#[test]
fn logcat_start_failures() {
    let mut manager = DeviceManager::from_adb_devices("p".to_string(), vec![adb("a", "A")]);
    manager.logcat_start_failed("a", "no such file");
    assert!(!manager.is_connected("a"));
    assert_eq!(manager.adb_status().message, "ADB: failed to start logcat for a: no such file");

    manager.fall_back_after_logcat_failure("spawn failed");
    assert!(manager.is_mock_fallback());
    assert_eq!(manager.adb_status().mode, AdbStatusMode::MockFallback);
    assert!(manager.adb_status().message.contains("failed to start logcat"));
    assert!(manager.has_device(MOCK_DEVICE_ID));
    assert!(!manager.has_device("a"));
}

#[test]
fn errors_name_the_device() {
    assert_eq!(ManagerError::UnknownDevice("x".to_string()).message(), "unknown device: x");
    assert_eq!(ManagerError::StillConnected("y".to_string()).message(), "device still connected: y");
}

#[test]
fn log_root_is_where_devices_record() {
    let dir = tempdir().expect("tempdir");
    let manager = DeviceManager::from_adb_devices_with_log_root(
        "p".to_string(),
        vec![adb("a", "A")],
        dir.path().to_path_buf(),
    );
    let target = manager.record_target("a", "2026-07-16", 3).expect("recording is on");
    assert!(target.starts_with(dir.path()));
    assert!(target.ends_with("2026-07-16/a/03.log"));
    let mock = DeviceManager::mock_fallback_with_log_root("m", dir.path().to_path_buf());
    let target = mock.record_target(MOCK_DEVICE_ID, "d", 12).expect("recording is on");
    assert!(target.starts_with(dir.path()));
    assert!(manager.record_target("zzz", "d", 1).is_none());
}
