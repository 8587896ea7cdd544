use als_engine::adb::{adb_relative_path, lists_processes, parse_devices_output, resolve_adb_path, Platform};
use std::path::Path;

#[test]
fn resolves_platform_adb_under_libs() {
    for platform in [Platform::Linux, Platform::MacOs, Platform::Windows] {
        let paths = resolve_adb_path(Path::new("/app"), platform);
        let rendered = paths.adb.display().to_string();

        assert!(rendered.contains("libs"));
        assert!(rendered.contains("adb"));
        assert!(!rendered.contains("tools"));
    }
}

#[test]
fn bundled_adb_lies_under_the_platform_directory() {
    assert_eq!(adb_relative_path(Platform::Linux), "libs/linux/adb");
    assert_eq!(adb_relative_path(Platform::MacOs), "libs/macos/adb");
    assert_eq!(adb_relative_path(Platform::Windows), "libs/windows/adb.exe");
    let paths = resolve_adb_path(Path::new("/app"), Platform::Linux);
    assert_eq!(paths.adb, Path::new("/app/libs/linux/adb"));
}

#[test]
fn parses_online_devices_with_model_name() {
    let output = "List of devices attached\n\
emulator-5554 device product:sdk_gphone64_x86_64 model:Pixel_8 device:emu64 transport_id:1\n";

    let devices = parse_devices_output(output);

    assert_eq!(devices.len(), 1);
    assert_eq!(devices[0].serial, "emulator-5554");
    assert_eq!(devices[0].display_name, "Pixel 8");
}

#[test]
fn parses_multiple_online_devices() {
    let output = "List of devices attached\n\
emulator-5554 device model:Pixel_8\n\
R58N123ABC device model:Galaxy_S23\n";

    let devices = parse_devices_output(output);

    assert_eq!(devices.len(), 2);
    assert_eq!(devices[0].serial, "emulator-5554");
    assert_eq!(devices[1].serial, "R58N123ABC");
}

#[test]
fn ignores_non_online_devices() {
    let output = "List of devices attached\n\
emulator-5554 offline model:Pixel_8\n\
R58N123ABC unauthorized model:Galaxy_S23\n\
ZX1 recovery model:Recovery_Device\n\
OK1 device model:Online_Device\n";

    let devices = parse_devices_output(output);

    assert_eq!(devices.len(), 1);
    assert_eq!(devices[0].serial, "OK1");
    assert_eq!(devices[0].display_name, "Online Device");
}

#[test]
fn uses_serial_when_model_is_missing() {
    let output = "List of devices attached\nabc123 device usb:1-1\n";

    let devices = parse_devices_output(output);

    assert_eq!(devices.len(), 1);
    assert_eq!(devices[0].display_name, "abc123");
}

#[test]
fn first_line_is_always_the_header_and_blank_lines_are_skipped() {
    assert!(parse_devices_output("").is_empty());
    assert!(parse_devices_output("abc device\n").is_empty());
    let devices = parse_devices_output("List\r\n\r\n  xyz   device   model:A_B_C  \r\nonly\n");
    assert_eq!(devices.len(), 1);
    assert_eq!(devices[0].serial, "xyz");
    assert_eq!(devices[0].display_name, "A B C");
}

#[test]
fn ps_output_with_only_a_header_lists_no_process() {
    assert!(!lists_processes("PID NAME\n"));
    assert!(!lists_processes(""));
    assert!(lists_processes("PID NAME\n1 init\n"));
}

#[test]
fn logcat_streams_threadtime_from_the_newest_line() {
    assert_eq!(
        als_engine::adb::logcat_args("serial-1"),
        vec!["-s", "serial-1", "logcat", "-v", "threadtime", "-T", "1"]
    );
    assert_eq!(als_engine::adb::missing_adb_error("libs/linux/adb"), "missing libs/linux/adb");
}
