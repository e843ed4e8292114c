use phonemirror::devices::DeviceScan;
use phonemirror::paths::Platform;
use phonemirror::state::{
    close_mirror_command, menu_choice, refresh_due, stop_recording_command, AppConfig, AppState,
    AppTask, CloseDialogChoice, LaunchOutcome, MenuChoice, WindowCommand,
};

fn cfg(adb: &str, scrcpy: &str, sdk: &str) -> AppConfig {
    AppConfig::new(adb.to_string(), scrcpy.to_string(), sdk.to_string())
}

fn state() -> AppState {
    AppState::new(cfg("", "", ""))
}

#[test]
fn fresh_state() {
    let s = AppState::new(cfg("/a", "/s", ""));
    assert!(!s.device_status.checked);
    assert_eq!(s.device_status.adb_path, "/a");
    assert_eq!(s.config_edit.scrcpy_path, "/s");
    assert!(s.status_line().is_none());
}

#[test]
fn loaded_config_or_defaults() {
    let (c, save) = AppConfig::from_loaded(None, cfg("adb", "scrcpy", ""));
    assert!(save);
    assert_eq!(c.adb_path, "adb");
    let (c, save) = AppConfig::from_loaded(Some(cfg("/x", "", "")), cfg("adb", "scrcpy", ""));
    assert!(!save);
    assert_eq!(c.adb_path, "/x");
}

#[test]
fn configured_tools_win_over_defaults() {
    let c = cfg("/my/adb", "", "/sdk");
    assert_eq!(c.adb_program("adb".to_string()), "/my/adb");
    assert_eq!(c.scrcpy_program("scrcpy".to_string()), "scrcpy");
    assert_eq!(c.sdk(), Some("/sdk"));
    assert_eq!(cfg("", "", "").sdk(), None);
}

#[test]
fn refresh_records_the_scan() {
    let mut s = state();
    let scan = DeviceScan {
        connected: true,
        device_id: "R5".to_string(),
        device_serial: "R5".to_string(),
    };
    s.apply_refresh(scan, "adb".to_string(), "scrcpy".to_string(), true);
    assert!(s.device_status.checked && s.device_status.connected);
    assert_eq!(s.device_status.device_serial, "R5");
    assert_eq!(s.device_status.adb_path, "adb");
    assert!(s.mirror_running);
    let c = s.devices_command("adb".to_string());
    assert_eq!(c.program, "adb");
    assert_eq!(c.args, vec!["devices".to_string()]);
}

#[test]
fn mirror_arguments() {
    let mut s = state();
    s.device_status.device_serial = "R5".to_string();
    let c = s.mirror_command("scrcpy".to_string(), Platform::MacOs);
    assert_eq!(c.args, vec!["-s", "R5", "--shortcut-mod=lctrl"]);
    s.device_status.device_serial = String::new();
    let c = s.mirror_command("scrcpy".to_string(), Platform::Other);
    assert!(c.args.is_empty());
}

#[test]
fn mirror_launch_outcomes() {
    let mut s = state();
    s.finish_mirror_start(LaunchOutcome::Exited(Some(1)));
    assert_eq!(s.status_message, "Mirror failed (exited 1)");
    assert!(s.status_is_error && !s.mirror_running);
    s.finish_mirror_start(LaunchOutcome::Exited(None));
    assert_eq!(s.status_message, "Mirror failed (exited -1)");
    s.finish_mirror_start(LaunchOutcome::Exited(Some(i32::MIN)));
    assert_eq!(s.status_message, "Mirror failed (exited -2147483648)");
    s.finish_mirror_start(LaunchOutcome::Running);
    assert_eq!(s.status_message, "Mirror started");
    assert!(s.mirror_running && !s.status_is_error);
    s.finish_mirror_start(LaunchOutcome::SpawnFailed("No such file or directory (os error 2)".to_string()));
    assert_eq!(s.status_message, "Failed: No such file or directory (os error 2)");
    assert!(s.mirror_running && s.status_is_error);
}

#[test]
fn closing_the_mirror_stops_everything() {
    let mut s = state();
    s.mirror_running = true;
    s.is_recording = true;
    s.after_close_mirror();
    assert!(!s.mirror_running && !s.is_recording);
    assert_eq!(s.status_message, "Mirror closed");
    let c = close_mirror_command(Platform::Other);
    assert_eq!((c.program.as_str(), c.args), ("pkill", vec!["-x".to_string(), "scrcpy".to_string()]));
    let c = close_mirror_command(Platform::Windows);
    assert_eq!(c.program, "taskkill");
    assert_eq!(c.args, vec!["/F", "/IM", "scrcpy.exe"]);
}

#[test]
fn screenshot_runs() {
    let mut s = state();
    s.device_status.device_serial = "R5".to_string();
    let c = s.screenshot_commands("adb".to_string(), "/p/f.png");
    assert_eq!(c.capture.args, vec!["-s", "R5", "shell", "screencap", "-p", "/sdcard/phone_screenshot.png"]);
    assert_eq!(c.pull.args, vec!["-s", "R5", "pull", "/sdcard/phone_screenshot.png", "/p/f.png"]);
    assert_eq!(c.remove.args, vec!["-s", "R5", "shell", "rm", "/sdcard/phone_screenshot.png"]);
    assert_eq!(c.remove.program, "adb");
    s.finish_screenshot(true);
    assert_eq!(s.status_message, "Screenshot saved!");
    s.finish_screenshot(false);
    assert_eq!(s.status_message, "Screenshot failed \u{2014} phone connected?");
    assert!(s.status_is_error);
}

#[test]
fn recording_runs() {
    let mut s = state();
    let c = s.recording_command("scrcpy".to_string(), "/m/r.mp4");
    assert_eq!(c.args, vec!["--record", "/m/r.mp4", "--no-playback", "--no-audio", "--no-window"]);
    s.finish_recording_start(LaunchOutcome::Running, "/m/r.mp4");
    assert!(s.is_recording);
    assert_eq!(s.status_message, "Recording started \u{2192} /m/r.mp4");
    s.finish_recording_start(LaunchOutcome::Exited(Some(2)), "/m/r.mp4");
    assert!(!s.is_recording);
    assert_eq!(s.status_message, "Recording failed (exited 2)");
    s.is_recording = true;
    s.after_stop_recording();
    assert!(!s.is_recording);
    assert_eq!(s.status_message, "Recording stopped");
    let c = stop_recording_command(Platform::MacOs);
    assert_eq!(c.args, vec!["-f", "scrcpy.*--record"]);
}

#[test]
fn settings_flow() {
    let mut s = AppState::new(cfg("/a", "", ""));
    s.record_config_error("old".to_string());
    s.open_settings();
    assert!(s.show_settings);
    assert_eq!(s.config_error, "");
    assert_eq!(s.config_edit.adb_path, "/a");
    s.config_edit.adb_path = "/missing/adb".to_string();
    assert_eq!(s.validate_config_edit(false, true, true), Err("ADB not found: /missing/adb".to_string()));
    s.config_edit.scrcpy_path = "/nope".to_string();
    assert_eq!(s.validate_config_edit(true, false, true), Err("scrcpy not found: /nope".to_string()));
    s.config_edit.android_sdk_path = "/sdk".to_string();
    assert_eq!(s.validate_config_edit(true, true, false), Err("Android SDK not found: /sdk".to_string()));
    assert_eq!(s.validate_config_edit(true, true, true), Ok(()));
    s.commit_config_edit();
    assert_eq!(s.config.adb_path, "/missing/adb");
    let r = s.finish_config_save(Err("disk full".to_string()), "adb".to_string(), "scrcpy".to_string());
    assert_eq!(r, Err("Failed to save config: disk full".to_string()));
    assert!(s.show_settings);
    let r = s.finish_config_save(Ok(()), "adb".to_string(), "scrcpy".to_string());
    assert_eq!(r, Ok(()));
    assert!(!s.show_settings);
    assert_eq!(s.device_status.adb_path, "/missing/adb");
    assert_eq!(s.status_message, "Settings saved");
    s.reset_config_edit(cfg("adb", "scrcpy", ""));
    assert_eq!(s.config_edit.adb_path, "adb");
    s.cancel_settings();
    assert!(!s.show_settings);
}

#[test]
fn empty_settings_need_no_files() {
    let s = state();
    assert_eq!(s.validate_config_edit(false, false, false), Ok(()));
}

#[test]
fn close_request_hides_to_tray() {
    let mut s = state();
    s.show_close_warning = true;
    let c = s.on_close_requested();
    assert_eq!(c, vec![WindowCommand::CancelClose, WindowCommand::Hide]);
    assert!(!s.show_close_warning);
}

#[test]
fn quit_asks_while_mirroring() {
    let mut s = state();
    s.mirror_running = true;
    let r = s.on_menu_event(MenuChoice::Quit);
    assert!(r.commands.is_empty());
    assert!(s.show_close_warning);
    let mut s = state();
    let r = s.on_menu_event(MenuChoice::Quit);
    assert_eq!(r.commands, vec![WindowCommand::Close]);
    assert!(!s.show_close_warning);
}

#[test]
fn tray_menu_entries() {
    let mut s = state();
    let r = s.on_menu_event(menu_choice("Show PhoneMirror"));
    assert_eq!(r.commands, vec![WindowCommand::Show, WindowCommand::Restore, WindowCommand::Focus]);
    let r = s.on_menu_event(menu_choice("Screenshot"));
    assert_eq!(r.task, AppTask::TakeScreenshot);
    let r = s.on_menu_event(menu_choice("Record"));
    assert_eq!(r.commands, vec![WindowCommand::Show, WindowCommand::Restore]);
    assert_eq!(r.task, AppTask::StartRecording);
    let r = s.on_menu_event(menu_choice("other"));
    assert!(r.commands.is_empty());
    assert_eq!(r.task, AppTask::Nothing);
    assert!(matches!(menu_choice("Quit"), MenuChoice::Quit));
}

#[test]
fn quit_dialog_choices() {
    let mut s = state();
    s.show_close_warning = true;
    let r = s.on_close_dialog(CloseDialogChoice::CloseMirrorAndQuit);
    assert_eq!(r.task, AppTask::CloseMirror);
    assert_eq!(r.commands, vec![WindowCommand::Close]);
    assert!(!s.show_close_warning);
    let r = s.on_close_dialog(CloseDialogChoice::KeepRunning);
    assert_eq!(r.commands, vec![WindowCommand::Hide, WindowCommand::Minimize]);
    let r = s.on_close_dialog(CloseDialogChoice::Cancel);
    assert!(r.commands.is_empty());
}

#[test]
fn status_line_marks_and_cuts() {
    let mut s = state();
    s.status_message = "Settings saved".to_string();
    assert_eq!(s.status_line(), Some("\u{2713} Settings saved".to_string()));
    s.status_is_error = true;
    assert_eq!(s.status_line(), Some("\u{2717} Settings saved".to_string()));
    s.status_message = "a".repeat(60);
    assert!(s.status_line_ok());
    assert_eq!(s.status_line(), Some(format!("\u{2717} {}\u{2026}", "a".repeat(47))));
    s.status_message = "b".repeat(50);
    assert_eq!(s.status_line(), Some(format!("\u{2717} {}", "b".repeat(50))));
}

#[test]
fn status_line_cut_inside_a_character_is_flagged() {
    let mut s = state();
    s.status_message = format!("{}\u{2192}{}", "c".repeat(46), "d".repeat(10));
    assert!(!s.status_line_ok());
}

#[test]
fn device_card_contents() {
    let mut s = state();
    s.device_status.adb_path = "adb".to_string();
    s.device_status.scrcpy_path = "/Users/someone/very/long/path/to/bin/scrcpy".to_string();
    let c = s.device_card();
    assert!(c.checking && !c.show_paths);
    s.device_status.checked = true;
    s.device_status.connected = true;
    s.device_status.device_id = "R5".to_string();
    let c = s.device_card();
    assert_eq!(c.badge, "Connected");
    assert!(c.show_detail && c.show_paths);
    assert_eq!(c.detail, "R5");
    assert_eq!(c.adb_shown, "adb");
    assert_eq!(c.scrcpy_shown, "\u{2026}/scrcpy");
    s.device_status.connected = false;
    let c = s.device_card();
    assert_eq!(c.badge, "Disconnected");
    assert_eq!(c.detail, "No device found");
    assert!(!c.show_detail && c.show_paths);
}

#[test]
fn refresh_every_five_seconds() {
    assert!(!refresh_due(5_000_000_000));
    assert!(refresh_due(5_000_000_001));
}
