use phonemirror::devices::{
    mirror_running_from_output, parse_adb_devices, process_list_command, scan_adb_output,
};
use phonemirror::paths::Platform;

#[test]
fn usb_is_preferred_over_tcpip() {
    let out = "List of devices attached\n\
               adb-R5CT-abc._adb-tls-connect._tcp\tdevice\n\
               R5CT123\tdevice\n\n";
    let s = parse_adb_devices(out);
    assert!(s.connected);
    assert_eq!(s.device_id, "R5CT123");
    assert_eq!(s.device_serial, "R5CT123");
}

#[test]
fn tcpip_only() {
    let out = "List of devices attached\r\nadb-X._adb-tls-connect._tcp device\r\n";
    let s = parse_adb_devices(out);
    assert!(s.connected);
    assert_eq!(s.device_serial, "adb-X._adb-tls-connect._tcp");
}

#[test]
fn first_usb_device_wins() {
    let out = "List of devices attached\nAAA\tdevice\nBBB\tdevice\n";
    assert_eq!(parse_adb_devices(out).device_serial, "AAA");
}

#[test]
fn no_device() {
    let s = parse_adb_devices("List of devices attached\n\n");
    assert!(!s.connected);
    assert_eq!(s.device_id, "No device");
    assert_eq!(s.device_serial, "");
}

#[test]
fn daemon_notices_and_other_states_are_skipped() {
    let s = parse_adb_devices("List of devices attached\n* daemon device\nR5\tunauthorized\n");
    assert!(!s.connected);
}

#[test]
fn only_the_first_line_is_taken_for_the_header() {
    // When adb prints daemon notices first, the header line itself mentions
    // "devices" and is read as a device line, as before.
    let out = "* daemon not running; starting now at tcp:5037\n\
               * daemon started successfully\n\
               List of devices attached\n";
    let s = parse_adb_devices(out);
    assert!(s.connected);
    assert_eq!(s.device_serial, "List");
}

#[test]
fn header_line_alone_never_counts() {
    let s = parse_adb_devices("Q device");
    assert!(!s.connected);
}

#[test]
fn failed_adb_run_means_no_device() {
    let s = scan_adb_output(None);
    assert!(!s.connected);
    assert_eq!(s.device_id, "No device");
    let s = scan_adb_output(Some(b"List of devices attached\nZ\xff1\tdevice\n".to_vec()));
    assert!(s.connected);
    assert_eq!(s.device_serial, "Z\u{fffd}1");
}

#[test]
fn running_mirror_detection() {
    assert!(mirror_running_from_output(Platform::Windows, Some(b"Image Name\nSCRCPY.EXE 12".to_vec())));
    assert!(!mirror_running_from_output(Platform::Windows, Some(b"explorer.exe".to_vec())));
    assert!(mirror_running_from_output(Platform::Other, Some(b"4242\n".to_vec())));
    assert!(!mirror_running_from_output(Platform::MacOs, Some(b" \n".to_vec())));
    assert!(!mirror_running_from_output(Platform::MacOs, None));
}

#[test]
fn process_lister() {
    let (p, a) = process_list_command(Platform::Windows);
    assert_eq!(p, "tasklist");
    assert!(a.is_empty());
    let (p, a) = process_list_command(Platform::Other);
    assert_eq!(p, "pgrep");
    assert_eq!(a, vec!["-x".to_string(), "scrcpy".to_string()]);
}
