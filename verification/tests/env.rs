use phonemirror::env::{
    build_full_env, build_full_env_with_sdk, essential_paths, merge_path_entries, sdk_adb_path,
    scrcpy_server_fallbacks, EnvProbe,
};
use phonemirror::paths::Platform;

fn probe(default_adb: &str) -> EnvProbe {
    EnvProbe {
        cellar_scrcpy_server: None,
        scrcpy_fallback_exists: vec![false, false, false],
        sdk_adb_exists: false,
        default_adb: default_adb.to_string(),
    }
}

fn var<'a>(env: &'a [(String, String)], key: &str) -> Option<&'a str> {
    env.iter().find(|(k, _)| k == key).map(|(_, v)| v.as_str())
}

fn pairs(v: &[(&str, &str)]) -> Vec<(String, String)> {
    v.iter().map(|(k, v)| (k.to_string(), v.to_string())).collect()
}

#[test]
fn mac_path_gets_essentials_first_without_duplicates() {
    let env = pairs(&[("HOME", "/Users/u"), ("PATH", "/usr/bin:/custom:/bin")]);
    let r = build_full_env(env, Platform::MacOs, &probe("adb"));
    assert_eq!(
        var(&r, "PATH"),
        Some("/opt/homebrew/bin:/usr/local/bin:/usr/bin:/bin:/usr/sbin:/sbin:/custom")
    );
    assert_eq!(r[0], ("HOME".to_string(), "/Users/u".to_string()));
    assert_eq!(r[1].0, "PATH");
}

#[test]
fn missing_path_is_added_with_sdk_tools() {
    let env = pairs(&[("HOME", "/home/u")]);
    let r = build_full_env_with_sdk(env, Some("/sdk"), Platform::Other, &probe("adb"));
    assert_eq!(
        var(&r, "PATH"),
        Some("/usr/local/bin:/usr/bin:/bin:/usr/sbin:/sbin:/snap/bin:/sdk/platform-tools")
    );
    assert_eq!(var(&r, "ANDROID_HOME"), Some("/sdk"));
    assert_eq!(var(&r, "ANDROID_SDK_ROOT"), Some("/sdk"));
    assert_eq!(var(&r, "ADB_SERVER_PATH"), Some("adb"));
    assert_eq!(var(&r, "SCRCPY_SERVER_PATH"), None);
}

#[test]
fn sdk_tools_not_repeated_in_path() {
    let env = pairs(&[("PATH", "/sdk/platform-tools")]);
    let r = build_full_env_with_sdk(env, Some("/sdk"), Platform::Other, &probe("adb"));
    assert_eq!(
        var(&r, "PATH"),
        Some("/usr/local/bin:/usr/bin:/bin:/usr/sbin:/sbin:/snap/bin:/sdk/platform-tools")
    );
}

#[test]
fn empty_entries_of_path_are_kept_once() {
    let parts = merge_path_entries("::/x", Platform::Other, None);
    assert_eq!(
        parts,
        vec!["/usr/local/bin", "/usr/bin", "/bin", "/usr/sbin", "/sbin", "/snap/bin", "", "/x"]
    );
}

#[test]
fn windows_path_is_left_alone() {
    let env = pairs(&[("Path", "C:\\bin"), ("PATH", "C:\\x")]);
    let r = build_full_env(env, Platform::Windows, &probe("adb"));
    assert_eq!(var(&r, "PATH"), Some("C:\\x"));
    assert_eq!(essential_paths(Platform::Windows).len(), 0);
}

#[test]
fn sdk_adb_is_the_server_when_it_exists() {
    let mut p = probe("/opt/homebrew/bin/adb");
    p.sdk_adb_exists = true;
    let r = build_full_env_with_sdk(Vec::new(), Some("/sdk"), Platform::MacOs, &p);
    assert_eq!(var(&r, "ADB_SERVER_PATH"), Some("/sdk/platform-tools/adb"));
    assert_eq!(sdk_adb_path("/sdk"), "/sdk/platform-tools/adb");
}

#[test]
fn empty_sdk_counts_as_none() {
    let r = build_full_env_with_sdk(Vec::new(), Some(""), Platform::Other, &probe("adb"));
    assert_eq!(var(&r, "ANDROID_HOME"), None);
    assert_eq!(var(&r, "PATH"), Some("/usr/local/bin:/usr/bin:/bin:/usr/sbin:/sbin:/snap/bin"));
}

#[test]
fn existing_tool_variables_are_not_overwritten() {
    let env = pairs(&[
        ("ADB_SERVER_PATH", "/mine/adb"),
        ("ANDROID_HOME", "/mine/sdk"),
        ("SCRCPY_SERVER_PATH", "/mine/server"),
    ]);
    let mut p = probe("adb");
    p.cellar_scrcpy_server = Some("/cellar/server".to_string());
    let r = build_full_env_with_sdk(env, Some("/sdk"), Platform::MacOs, &p);
    assert_eq!(var(&r, "ADB_SERVER_PATH"), Some("/mine/adb"));
    assert_eq!(var(&r, "ANDROID_HOME"), Some("/mine/sdk"));
    assert_eq!(var(&r, "ANDROID_SDK_ROOT"), Some("/sdk"));
    assert_eq!(var(&r, "SCRCPY_SERVER_PATH"), Some("/mine/server"));
}

#[test]
fn scrcpy_server_from_cellar_then_fallbacks_on_mac_only() {
    let mut p = probe("adb");
    p.cellar_scrcpy_server = Some("/opt/homebrew/Cellar/scrcpy/3.1/share/scrcpy/scrcpy-server".to_string());
    let r = build_full_env(Vec::new(), Platform::MacOs, &p);
    assert_eq!(
        var(&r, "SCRCPY_SERVER_PATH"),
        Some("/opt/homebrew/Cellar/scrcpy/3.1/share/scrcpy/scrcpy-server")
    );
    let mut p = probe("adb");
    p.scrcpy_fallback_exists = vec![false, true, true];
    let r = build_full_env(Vec::new(), Platform::MacOs, &p);
    assert_eq!(var(&r, "SCRCPY_SERVER_PATH"), Some("/usr/local/share/scrcpy/scrcpy-server"));
    assert_eq!(scrcpy_server_fallbacks()[1], "/usr/local/share/scrcpy/scrcpy-server");
    let r = build_full_env(Vec::new(), Platform::Other, &p);
    assert_eq!(var(&r, "SCRCPY_SERVER_PATH"), None);
}

#[test]
fn empty_default_adb_sets_no_server() {
    let r = build_full_env(Vec::new(), Platform::Windows, &probe(""));
    assert!(r.is_empty());
}

#[test]
fn building_twice_changes_nothing() {
    let env = pairs(&[("PATH", "/a:/usr/bin::/b"), ("X", "1")]);
    let mut p = probe("/usr/local/bin/adb");
    p.scrcpy_fallback_exists = vec![true, false, false];
    let once = build_full_env_with_sdk(env, Some("/sdk"), Platform::MacOs, &p);
    let twice = build_full_env_with_sdk(once.clone(), Some("/sdk"), Platform::MacOs, &p);
    assert_eq!(once, twice);
}

#[test]
fn sdk_with_colon_breaks_idempotence() {
    let p = probe("adb");
    let once = build_full_env_with_sdk(Vec::new(), Some("/a:b"), Platform::Other, &p);
    let twice = build_full_env_with_sdk(once.clone(), Some("/a:b"), Platform::Other, &p);
    assert_ne!(once, twice);
}

#[test]
fn built_environment_names_each_variable_once() {
    let env = pairs(&[("HOME", "/home/u"), ("ANDROID_HOME", "/old"), ("ADB_SERVER_PATH", "/x/adb")]);
    let mut p = probe("adb");
    p.cellar_scrcpy_server = Some("/cellar/scrcpy-server".to_string());
    let r = build_full_env_with_sdk(env, Some("/sdk"), Platform::MacOs, &p);
    for i in 0..r.len() {
        for j in (i + 1)..r.len() {
            assert_ne!(r[i].0, r[j].0);
        }
    }
    assert_eq!(r.len(), 6);
    assert_eq!(var(&r, "ANDROID_HOME"), Some("/old"));
    assert_eq!(var(&r, "ANDROID_SDK_ROOT"), Some("/sdk"));
    assert_eq!(var(&r, "SCRCPY_SERVER_PATH"), Some("/cellar/scrcpy-server"));
}
