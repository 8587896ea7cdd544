use als_engine::adb::AdbDevice;
use als_engine::device::ExportMode;
use als_engine::device_manager::{AdbStatusMode, DeviceManager, MOCK_DEVICE_ID};
use als_engine::log_entry::{DeviceSource, LogEntry, LogLevel};
use als_engine::recorder::RecorderStatus;
use als_engine::websocket::{
    adb_status_message, announce_after_scan, device_list_message, device_states, is_allowed_origin, is_allowed_token,
    parse_export_mode, pending_adb_log_messages, recorder_status_message, refresh_device_state_device_ids,
    refresh_device_state_messages, respond, startup_recorder_status_device_ids, wants_auto_scan, ClientMessage,
    ClientReply, PendingAdbLogMessage, ServerMessage, MOCK_LOG_LINE,
};
use std::path::PathBuf;

fn one_adb_device() -> DeviceManager {
    DeviceManager::from_adb_devices(
        "libs/linux/adb".to_string(),
        vec![AdbDevice { serial: "emulator-5554".to_string(), display_name: "Pixel 8".to_string() }],
    )
}

fn sent(reply: ClientReply) -> Vec<ServerMessage> {
    match reply {
        ClientReply::Send(ms) => ms,
        other => panic!("expected messages, got {other:?}"),
    }
}

#[test]
fn origin_allowlist_accepts_dev_packaged_and_non_browser_requests() {
    assert!(is_allowed_origin(None));
    assert!(is_allowed_origin(Some("http://127.0.0.1:5173")));
    assert!(is_allowed_origin(Some("http://localhost:5173")));
    assert!(is_allowed_origin(Some("file://")));
    assert!(!is_allowed_origin(Some("http://evil.example")));
}

#[test]
fn websocket_token_must_match_server_secret() {
    assert!(is_allowed_token(Some("secret"), "secret"));
    assert!(!is_allowed_token(None, "secret"));
    assert!(!is_allowed_token(Some("wrong"), "secret"));
}

#[test]
fn device_list_message_uses_manager_mock_fallback_device() {
    let manager = DeviceManager::mock_fallback("ADB: no online devices, using mock device");
    match device_list_message(&manager) {
        ServerMessage::DeviceList { devices } => {
            assert_eq!(devices[0].device_id, MOCK_DEVICE_ID);
            assert_eq!(devices[0].device_name, "Mock Device");
            assert!(devices[0].connected);
            assert_eq!(devices[0].source, DeviceSource::Mock);
        },
        other => panic!("unexpected {other:?}"),
    }
}

#[test]
fn startup_recorder_status_targets_manager_devices() {
    let mock_manager = DeviceManager::mock_fallback("ADB: no online devices, using mock device");
    let adb_manager = one_adb_device();

    assert_eq!(startup_recorder_status_device_ids(&mock_manager), vec![MOCK_DEVICE_ID]);
    assert_eq!(startup_recorder_status_device_ids(&adb_manager), vec!["emulator-5554".to_string()]);
}

#[test]
fn refresh_device_state_targets_manager_devices() {
    let mock_manager = DeviceManager::mock_fallback("ADB: no online devices, using mock device");
    let adb_manager = one_adb_device();

    assert_eq!(refresh_device_state_device_ids(&mock_manager), vec![MOCK_DEVICE_ID]);
    assert_eq!(refresh_device_state_device_ids(&adb_manager), vec!["emulator-5554".to_string()]);
}

#[test]
fn refresh_device_state_messages_reset_visible_device_state() {
    let manager = one_adb_device();

    let messages = refresh_device_state_messages(&manager, "emulator-5554").expect("refresh state messages");

    assert_eq!(messages.len(), 3);
    assert!(matches!(
        &messages[0],
        ServerMessage::RecorderStatus { device_id, .. } if device_id == "emulator-5554"
    ));
    assert!(matches!(
        &messages[1],
        ServerMessage::LogSnapshot { device_id, logs } if device_id == "emulator-5554" && logs.is_empty()
    ));
    assert!(matches!(
        &messages[2],
        ServerMessage::Statistics { device_id, .. } if device_id == "emulator-5554"
    ));
}

#[test]
fn refresh_device_state_of_an_unknown_device_is_an_error() {
    let manager = one_adb_device();
    let err = refresh_device_state_messages(&manager, "nope").expect_err("unknown");
    assert_eq!(err.message(), "unknown device: nope");
}

#[test]
fn adb_status_message_uses_manager_mock_fallback_status() {
    let manager = DeviceManager::mock_fallback("ADB: no online devices, using mock device");
    match adb_status_message(manager.adb_status()) {
        ServerMessage::AdbStatus { available, mode, path, message } => {
            assert!(!available);
            assert_eq!(mode, AdbStatusMode::MockFallback);
            assert!(path.is_none());
            assert_eq!(message, "ADB: no online devices, using mock device");
        },
        other => panic!("unexpected {other:?}"),
    }
}

#[test]
fn pending_adb_log_messages_include_stats_for_hidden_entries() {
    let messages = pending_adb_log_messages(
        "emulator-5554",
        LogEntry {
            seq: 1,
            timestamp: 0,
            date: "07-04".to_string(),
            time: "12:00:00.000".to_string(),
            pid: 1234,
            tid: 5678,
            level: LogLevel::Error,
            tag: "ActivityManager".to_string(),
            message: "Hidden crash".to_string(),
            package_name: Some("com.example".to_string()),
            foreground: None,
            background: None,
            hidden: true,
            bookmarked: false,
        },
    );

    assert_eq!(messages.len(), 2);
    assert!(matches!(messages[0], PendingAdbLogMessage::RecorderStatus));
    assert!(matches!(messages[1], PendingAdbLogMessage::Statistics));
}

#[test]
fn pending_adb_log_messages_send_visible_entries_first() {
    let entry = als_engine::parser::parse_threadtime_line(3, MOCK_LOG_LINE).unwrap();
    let messages = pending_adb_log_messages("emulator-5554", entry);
    assert_eq!(messages.len(), 3);
    assert!(matches!(&messages[0], PendingAdbLogMessage::NewLogs(e) if e.seq == 3 && e.tag == "ActivityManager"));
    assert!(matches!(messages[1], PendingAdbLogMessage::RecorderStatus));
    assert!(matches!(messages[2], PendingAdbLogMessage::Statistics));
}

#[test]
fn recorder_status_message_is_flat() {
    let status = RecorderStatus {
        enabled: true,
        path: Some(PathBuf::from("logs/mock.log")),
        warning: Some("disk nearly full".to_string()),
    };
    match recorder_status_message(MOCK_DEVICE_ID, status) {
        ServerMessage::RecorderStatus { device_id, enabled, path, warning } => {
            assert_eq!(device_id, MOCK_DEVICE_ID);
            assert!(enabled);
            assert_eq!(path.as_deref(), Some("logs/mock.log"));
            assert_eq!(warning.as_deref(), Some("disk nearly full"));
        },
        other => panic!("unexpected {other:?}"),
    }
}

#[test]
fn export_modes_are_all_or_filtered() {
    assert_eq!(parse_export_mode("all"), Ok(ExportMode::All));
    assert_eq!(parse_export_mode("filtered"), Ok(ExportMode::Filtered));
    assert_eq!(parse_export_mode("ALL"), Err("invalid export mode: ALL (expected all|filtered)".to_string()));
}

#[test]
fn set_filter_request_answers_with_snapshot_and_statistics() {
    let mut manager = DeviceManager::mock_fallback("m");
    manager.ingest_mock_line("07-04 12:34:56.789  1234  5678 I Tag: info");
    manager.ingest_mock_line("07-04 12:34:57.789  1234  5678 E Tag: boom");
    let ms = sent(respond(
        &mut manager,
        ClientMessage::SetFilter { device_id: MOCK_DEVICE_ID.to_string(), query: "level:error".to_string() },
    ));
    assert_eq!(ms.len(), 2);
    assert!(matches!(&ms[0], ServerMessage::LogSnapshot { logs, .. } if logs.len() == 1 && logs[0].message == "boom"));
    assert!(matches!(&ms[1], ServerMessage::Statistics { stats, .. } if stats.hidden == 1 && stats.errors == 1));
}

#[test]
fn requests_for_unknown_devices_are_answered_with_errors() {
    let mut manager = DeviceManager::mock_fallback("m");
    let ms = sent(respond(
        &mut manager,
        ClientMessage::SetFilter { device_id: "ghost".to_string(), query: "x".to_string() },
    ));
    assert_eq!(ms.len(), 3);
    for m in &ms {
        assert!(matches!(m, ServerMessage::Error { message } if message == "unknown device: ghost"));
    }
    let ms = sent(respond(&mut manager, ClientMessage::ConnectDevice { device_id: "ghost".to_string() }));
    assert_eq!(ms.len(), 1);
    let ms = sent(respond(&mut manager, ClientMessage::DisconnectDevice { device_id: MOCK_DEVICE_ID.to_string() }));
    assert!(ms.is_empty());
    let ms = sent(respond(&mut manager, ClientMessage::RemoveDevice { device_id: MOCK_DEVICE_ID.to_string() }));
    assert!(matches!(&ms[0], ServerMessage::Error { message } if message == "device still connected: mock-device"));
}

#[test]
fn connect_search_statistics_refresh_and_export_requests() {
    let mut manager = DeviceManager::mock_fallback("m");
    manager.ingest_mock_line(MOCK_LOG_LINE);
    let ms = sent(respond(&mut manager, ClientMessage::ConnectDevice { device_id: MOCK_DEVICE_ID.to_string() }));
    assert_eq!(ms.len(), 3);
    assert!(matches!(&ms[0], ServerMessage::LogSnapshot { logs, .. } if logs.len() == 1));
    assert!(matches!(&ms[1], ServerMessage::Statistics { .. }));
    assert!(matches!(&ms[2], ServerMessage::RecorderStatus { enabled: false, .. }));

    let ms = sent(respond(
        &mut manager,
        ClientMessage::SetSearch { device_id: MOCK_DEVICE_ID.to_string(), query: "SYSTEMUI".to_string() },
    ));
    assert!(matches!(&ms[0], ServerMessage::SearchResults { matches, .. } if matches == &vec![1u64]));
    let ms = sent(respond(
        &mut manager,
        ClientMessage::SetSearch { device_id: MOCK_DEVICE_ID.to_string(), query: "systemui".to_string() },
    ));
    assert!(matches!(&ms[0], ServerMessage::SearchResults { matches, .. } if matches == &vec![1u64]));

    let ms = sent(respond(&mut manager, ClientMessage::GetStatistics { device_id: MOCK_DEVICE_ID.to_string() }));
    assert!(matches!(&ms[0], ServerMessage::Statistics { stats, .. } if stats.memory_bytes == 256));

    assert!(matches!(respond(&mut manager, ClientMessage::RefreshDevices), ClientReply::Refresh));
    assert!(matches!(
        respond(&mut manager, ClientMessage::ExportLogs { device_id: "d".to_string(), mode: "filtered".to_string() }),
        ClientReply::Export { mode: ExportMode::Filtered, .. }
    ));
    let ms = sent(respond(
        &mut manager,
        ClientMessage::ExportLogs { device_id: "d".to_string(), mode: "some".to_string() },
    ));
    assert!(matches!(&ms[0], ServerMessage::Error { message } if message == "invalid export mode: some (expected all|filtered)"));
}

#[test]
fn removing_a_disconnected_device_sends_the_new_list() {
    let mut manager = one_adb_device();
    manager.mark_disconnected("emulator-5554");
    let ms = sent(respond(&mut manager, ClientMessage::RemoveDevice { device_id: "emulator-5554".to_string() }));
    assert!(matches!(&ms[0], ServerMessage::DeviceList { devices } if devices.is_empty()));
}

#[test]
fn periodic_scan_runs_only_while_idle() {
    let mut manager = one_adb_device();
    assert!(!wants_auto_scan(&manager));
    let before = device_states(&manager);
    manager.mark_disconnected("emulator-5554");
    assert!(wants_auto_scan(&manager));
    assert!(!wants_auto_scan(&DeviceManager::mock_fallback("m")));
    assert!(announce_after_scan(&before, &manager));
    let now = device_states(&manager);
    assert_eq!(now, vec![("emulator-5554".to_string(), false)]);
    assert!(!announce_after_scan(&now, &manager));
}

#[test]
fn startup_sends_list_status_then_each_recorder_status() {
    let manager = one_adb_device();
    let ms = als_engine::websocket::startup_messages(&manager);
    assert_eq!(ms.len(), 3);
    assert!(matches!(&ms[0], ServerMessage::DeviceList { devices } if devices.len() == 1));
    assert!(matches!(&ms[1], ServerMessage::AdbStatus { available: true, .. }));
    assert!(matches!(&ms[2], ServerMessage::RecorderStatus { device_id, .. } if device_id == "emulator-5554"));
}

#[test]
fn mock_tick_sends_visible_entry_then_statistics_and_recorder_status() {
    let mut manager = DeviceManager::mock_fallback("m");
    let entry = manager.ingest_mock_line(MOCK_LOG_LINE);
    let ms = als_engine::websocket::mock_tick_messages(&manager, entry);
    assert_eq!(ms.len(), 3);
    assert!(matches!(&ms[0], ServerMessage::NewLogs { logs, .. } if logs.len() == 1));
    assert!(matches!(&ms[1], ServerMessage::Statistics { .. }));
    assert!(matches!(&ms[2], ServerMessage::RecorderStatus { .. }));
    manager.set_filter(MOCK_DEVICE_ID, "level:none").unwrap();
    let entry = manager.ingest_mock_line(MOCK_LOG_LINE);
    assert_eq!(als_engine::websocket::mock_tick_messages(&manager, entry).len(), 2);
}
