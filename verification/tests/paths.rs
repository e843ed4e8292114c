use phonemirror::paths::{
    adb_path_candidates, android_sdk_path_candidates, can_truncate_path, capture_timestamp, default_adb_path,
    default_android_sdk_path, default_scrcpy_path, home_dir, home_or_root, recording_file,
    recordings_dir, screenshot_file, screenshots_dir, truncate_path, Platform,
};
use phonemirror::state::AppConfig;

#[test]
fn short_path_is_kept() {
    assert_eq!(truncate_path("/usr/bin/adb", 35), "/usr/bin/adb");
}

#[test]
fn path_of_exactly_max_len_is_kept() {
    let p = format!("/{}", "a".repeat(34));
    assert_eq!(p.len(), 35);
    assert_eq!(truncate_path(&p, 35), p);
}

#[test]
fn long_path_shows_file_name() {
    let p = "/Users/someone/Library/Android/sdk/platform-tools/adb";
    assert_eq!(truncate_path(p, 35), "\u{2026}/adb");
}

#[test]
fn long_file_name_is_cut_from_the_front() {
    let p = format!("/opt/{}", "x".repeat(40));
    let r = truncate_path(&p, 35);
    assert_eq!(r, format!("\u{2026}{}", "x".repeat(34)));
    assert!(r.chars().count() <= 36);
}

#[test]
fn file_name_of_exactly_max_len_is_cut() {
    let p = format!("/opt/{}", "y".repeat(35));
    assert_eq!(truncate_path(&p, 35), format!("\u{2026}{}", "y".repeat(34)));
}

#[test]
fn path_without_slash_keeps_its_end() {
    let p: String = (0..40).map(|i| char::from(b'a' + (i % 26) as u8)).collect();
    let r = truncate_path(&p, 10);
    assert_eq!(r, format!("\u{2026}{}", &p[31..]));
}

#[test]
fn empty_path_with_zero_limit() {
    assert_eq!(truncate_path("", 0), "");
    assert!(can_truncate_path("", 0));
    assert!(!can_truncate_path("abc", 0));
}

#[test]
fn cut_inside_a_character_is_refused() {
    // "é" takes two bytes: a cut after 3 bytes of "éé" falls inside the second one.
    let p = "/d/\u{e9}\u{e9}\u{e9}";
    assert!(!can_truncate_path(p, 4));
    assert!(can_truncate_path(p, 3));
    assert_eq!(truncate_path(p, 3), "\u{2026}\u{e9}");
}

#[test]
fn multibyte_file_name_fits_after_ellipsis() {
    let p = "/some/long/dir/\u{e9}t\u{e9}";
    assert!(can_truncate_path(p, 10));
    assert_eq!(truncate_path(p, 10), "\u{2026}/\u{e9}t\u{e9}");
}

#[test]
fn home_directory_fallbacks() {
    assert_eq!(home_or_root(Some("/home/u".to_string())), "/home/u");
    assert_eq!(home_or_root(None), "/");
    assert_eq!(home_dir(None, Some("C:\\Users\\u".to_string())), "C:\\Users\\u");
    assert_eq!(home_dir(Some("/h".to_string()), Some("/p".to_string())), "/h");
    assert_eq!(home_dir(None, None), "/");
}

#[test]
fn config_file_in_home() {
    assert_eq!(
        AppConfig::config_file(Some("/home/u".to_string()), None),
        "/home/u/.phonemirror-config.json"
    );
    assert_eq!(AppConfig::config_file(None, None), "//.phonemirror-config.json");
}

#[test]
fn adb_candidates_in_order() {
    let c = adb_path_candidates("/home/u");
    assert_eq!(
        c,
        vec![
            "/opt/homebrew/bin/adb".to_string(),
            "/home/u/Library/Android/sdk/platform-tools/adb".to_string(),
            "/home/u/Android/Sdk/platform-tools/adb".to_string(),
            "/usr/local/bin/adb".to_string(),
        ]
    );
}

#[test]
fn default_adb_is_first_existing_candidate() {
    assert_eq!(default_adb_path("/h", &vec![false, false, true, true]), "/h/Android/Sdk/platform-tools/adb");
    assert_eq!(default_adb_path("/h", &vec![true, true, true, true]), "/opt/homebrew/bin/adb");
    assert_eq!(default_adb_path("/h", &vec![false, false, false, false]), "adb");
}

#[test]
fn default_scrcpy_prefers_homebrew() {
    assert_eq!(default_scrcpy_path(true), "/opt/homebrew/bin/scrcpy");
    assert_eq!(default_scrcpy_path(false), "scrcpy");
}

#[test]
fn default_sdk_or_empty() {
    assert_eq!(
        android_sdk_path_candidates("/h"),
        vec!["/h/Library/Android/sdk".to_string(), "/h/Android/Sdk".to_string()]
    );
    assert_eq!(default_android_sdk_path("/h", &vec![false, true]), "/h/Android/Sdk");
    assert_eq!(default_android_sdk_path("/h", &vec![false, false]), "");
}

#[test]
fn capture_directories_by_platform() {
    assert_eq!(screenshots_dir("/Users/u", Platform::MacOs), "/Users/u/Pictures/PhoneMirror");
    assert_eq!(screenshots_dir("C:\\Users\\u", Platform::Windows), "C:\\Users\\u\\Pictures\\PhoneMirror");
    assert_eq!(screenshots_dir("/home/u", Platform::Other), "/home/u/Pictures/PhoneMirror");
    assert_eq!(recordings_dir("/Users/u", Platform::MacOs), "/Users/u/Movies/PhoneMirror");
    assert_eq!(recordings_dir("C:\\Users\\u", Platform::Windows), "C:\\Users\\u\\Videos\\PhoneMirror");
    assert_eq!(recordings_dir("/home/u", Platform::Other), "/home/u/Videos/PhoneMirror");
}

#[test]
fn capture_file_names() {
    assert_eq!(
        screenshot_file("/p", "20260520_101112"),
        "/p/phone_screenshot_20260520_101112.png"
    );
    assert_eq!(
        recording_file("/m", "20260520_101112"),
        "/m/phone_recording_20260520_101112.mp4"
    );
}

fn chrono_stamp(y: i32, mo: u32, d: u32, h: u32, mi: u32, s: u32) -> String {
    chrono::NaiveDate::from_ymd_opt(y, mo, d)
        .unwrap()
        .and_hms_opt(h, mi, s)
        .unwrap()
        .format("%Y%m%d_%H%M%S")
        .to_string()
}

#[test]
fn capture_timestamp_layout() {
    let t = capture_timestamp(2026, 5, 20, 10, 11, 12);
    assert_eq!(t, "20260520_101112");
    assert_eq!(t.len(), 15);
    assert_eq!(capture_timestamp(7, 1, 2, 3, 4, 5), "00070102_030405");
    assert_eq!(capture_timestamp(2016, 12, 31, 23, 59, 60), "20161231_235960");
}

#[test]
fn capture_timestamp_matches_chrono_format() {
    for &(y, mo, d, h, mi, s) in &[
        (2026, 5, 20, 10, 11, 12),
        (1999, 12, 31, 23, 59, 59),
        (7, 1, 1, 0, 0, 0),
        (0, 2, 29, 1, 2, 3),
        (12345, 6, 7, 8, 9, 10),
        (-1, 3, 4, 5, 6, 7),
        (-12345, 3, 4, 5, 6, 7),
        (262142, 12, 31, 23, 59, 59),
        (-262143, 1, 1, 0, 0, 0),
    ] {
        assert_eq!(capture_timestamp(y, mo, d, h, mi, s), chrono_stamp(y, mo, d, h, mi, s));
    }
}
