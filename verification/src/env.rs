//! The environment handed to adb and scrcpy: the inherited variables with
//! a `PATH` that reaches the usual tool directories, and the server and SDK
//! variables the tools look for.
use vstd::prelude::*;
use crate::paths::Platform;
use crate::text;
use crate::text::strings_view;

verus! {

broadcast use vstd::string::group_string_axioms;

/// Environment variables as `(name, value)` pairs, by their characters.
pub type EnvView = Seq<(Seq<char>, Seq<char>)>;

/// The characters of each name and value.
pub open spec fn env_view(env: Seq<(String, String)>) -> EnvView {
    env.map_values(|kv: (String, String)| (kv.0@, kv.1@))
}

/// What the file system told about the tools, gathered before the
/// environment is built.
pub struct EnvProbe {
    /// The first `share/scrcpy/scrcpy-server` found under a version
    /// directory of Homebrew's scrcpy cellar, if any.
    pub cellar_scrcpy_server: Option<String>,
    /// For each of `scrcpy_server_fallbacks()`, whether it exists.
    pub scrcpy_fallback_exists: Vec<bool>,
    /// Whether `<sdk>/platform-tools/adb` exists for the SDK in use.
    pub sdk_adb_exists: bool,
    /// The adb that `default_adb_path` picks.
    pub default_adb: String,
}

// ───────────────────────── PATH ─────────────────────────

/// The directories that `PATH` always gets first, by platform.
pub open spec fn essential_paths_spec(platform: Platform) -> Seq<Seq<char>> {
    match platform {
        Platform::MacOs => seq![
            "/opt/homebrew/bin"@,
            "/usr/local/bin"@,
            "/usr/bin"@,
            "/bin"@,
            "/usr/sbin"@,
            "/sbin"@,
        ],
        Platform::Windows => Seq::<Seq<char>>::empty(),
        Platform::Other => seq![
            "/usr/local/bin"@,
            "/usr/bin"@,
            "/bin"@,
            "/usr/sbin"@,
            "/sbin"@,
            "/snap/bin"@,
        ],
    }
}

/// The directories that `PATH` always gets first on `platform`.
pub fn essential_paths(platform: Platform) -> (r: Vec<String>)
    ensures
        strings_view(r@) == essential_paths_spec(platform),
{
    let mut r: Vec<String> = Vec::new();
    match platform {
        Platform::MacOs => {
            r.push(String::from_str("/opt/homebrew/bin"));
            r.push(String::from_str("/usr/local/bin"));
            r.push(String::from_str("/usr/bin"));
            r.push(String::from_str("/bin"));
            r.push(String::from_str("/usr/sbin"));
            r.push(String::from_str("/sbin"));
        },
        Platform::Windows => {},
        Platform::Other => {
            r.push(String::from_str("/usr/local/bin"));
            r.push(String::from_str("/usr/bin"));
            r.push(String::from_str("/bin"));
            r.push(String::from_str("/usr/sbin"));
            r.push(String::from_str("/sbin"));
            r.push(String::from_str("/snap/bin"));
        },
    }
    assert(strings_view(r@) =~= essential_paths_spec(platform));
    r
}

/// `acc` extended, in order, by those of `parts` it does not hold yet.
pub open spec fn append_new(acc: Seq<Seq<char>>, parts: Seq<Seq<char>>) -> Seq<Seq<char>>
    decreases parts.len(),
{
    if parts.len() == 0 {
        acc
    } else {
        let a = append_new(acc, parts.drop_last());
        if a.contains(parts.last()) {
            a
        } else {
            a.push(parts.last())
        }
    }
}

/// The SDK directory, when one is given and not empty.
pub open spec fn given_sdk(sdk: Option<Seq<char>>) -> Option<Seq<char>> {
    match sdk {
        Some(s) => if s.len() > 0 {
            Some(s)
        } else {
            None
        },
        None => None,
    }
}

/// `<sdk>/platform-tools`.
pub open spec fn platform_tools_of(sdk: Seq<char>) -> Seq<char> {
    sdk + "/platform-tools"@
}

/// The `PATH` entries when the environment had a `PATH`: the essential
/// directories, then the existing entries not among them (each once), then
/// the SDK's `platform-tools` if not there yet.
pub open spec fn merged_path_entries(
    existing: Seq<char>,
    platform: Platform,
    sdk: Option<Seq<char>>,
) -> Seq<Seq<char>> {
    let base = append_new(essential_paths_spec(platform), text::split_on(existing, ':'));
    match given_sdk(sdk) {
        Some(s) => if base.contains(platform_tools_of(s)) {
            base
        } else {
            base.push(platform_tools_of(s))
        },
        None => base,
    }
}

/// The `PATH` entries when the environment had no `PATH`: the essential
/// directories, then the SDK's `platform-tools`.
pub open spec fn fresh_path_entries(platform: Platform, sdk: Option<Seq<char>>) -> Seq<Seq<char>> {
    match given_sdk(sdk) {
        Some(s) => essential_paths_spec(platform).push(platform_tools_of(s)),
        None => essential_paths_spec(platform),
    }
}

/// The index of the first variable named `key`.
pub open spec fn key_index(env: EnvView, key: Seq<char>) -> Option<int>
    decreases env.len(),
{
    if env.len() == 0 {
        None
    } else {
        match key_index(env.drop_last(), key) {
            Some(i) => Some(i),
            None => if env.last().0 == key {
                Some(env.len() - 1)
            } else {
                None
            },
        }
    }
}

/// The first index of a key holds that key, and no earlier index does;
/// without one, no index holds it.
pub proof fn lemma_key_index(env: EnvView, key: Seq<char>)
    ensures
        key_index(env, key) matches Some(i) ==> 0 <= i < env.len() && env[i].0 == key && forall|
            j: int,
        | 0 <= j < i ==> env[j].0 != key,
        key_index(env, key) is None ==> forall|j: int| 0 <= j < env.len() ==> env[j].0 != key,
    decreases env.len(),
{
    if env.len() > 0 {
        lemma_key_index(env.drop_last(), key);
        assert forall|j: int| 0 <= j < env.len() - 1 implies env.drop_last()[j] == env[j] by {}
    }
}

/// Some variable is named `key`.
pub open spec fn has_key(env: EnvView, key: Seq<char>) -> bool {
    key_index(env, key) is Some
}

/// The environment with `PATH` reaching the essential directories and the
/// SDK's tools; left alone on platforms without essential directories.
pub open spec fn with_path(env: EnvView, platform: Platform, sdk: Option<Seq<char>>) -> EnvView {
    if essential_paths_spec(platform).len() == 0 {
        env
    } else {
        match key_index(env, "PATH"@) {
            Some(i) => env.update(
                i,
                (env[i].0, text::join_with(merged_path_entries(env[i].1, platform, sdk), ':')),
            ),
            None => env.push(("PATH"@, text::join_with(fresh_path_entries(platform, sdk), ':'))),
        }
    }
}

// ───────────────────────── tool variables ─────────────────────────

/// Where scrcpy's server is looked for when the cellar holds none.
pub open spec fn scrcpy_server_fallbacks_spec() -> Seq<Seq<char>> {
    seq![
        "/opt/homebrew/share/scrcpy/scrcpy-server"@,
        "/usr/local/share/scrcpy/scrcpy-server"@,
        "/usr/share/scrcpy/scrcpy-server"@,
    ]
}

/// Where scrcpy's server is looked for when the cellar holds none, in order.
pub fn scrcpy_server_fallbacks() -> (r: Vec<String>)
    ensures
        strings_view(r@) == scrcpy_server_fallbacks_spec(),
{
    let mut r: Vec<String> = Vec::new();
    r.push(String::from_str("/opt/homebrew/share/scrcpy/scrcpy-server"));
    r.push(String::from_str("/usr/local/share/scrcpy/scrcpy-server"));
    r.push(String::from_str("/usr/share/scrcpy/scrcpy-server"));
    assert(strings_view(r@) =~= scrcpy_server_fallbacks_spec());
    r
}

/// The index of the first true flag.
pub open spec fn first_true(flags: Seq<bool>) -> Option<int>
    decreases flags.len(),
{
    if flags.len() == 0 {
        None
    } else {
        match first_true(flags.drop_last()) {
            Some(i) => Some(i),
            None => if flags.last() {
                Some(flags.len() - 1)
            } else {
                None
            },
        }
    }
}

/// The scrcpy server to announce: the cellar's, else the first existing
/// fallback.
pub open spec fn scrcpy_server_choice(cellar: Option<Seq<char>>, exists: Seq<bool>) -> Option<
    Seq<char>,
> {
    match cellar {
        Some(c) => Some(c),
        None => match first_true(exists) {
            Some(i) => if i < scrcpy_server_fallbacks_spec().len() {
                Some(scrcpy_server_fallbacks_spec()[i])
            } else {
                None
            },
            None => None,
        },
    }
}

/// The environment with `SCRCPY_SERVER_PATH` set on macOS when it is missing
/// and a server was found.
pub open spec fn with_scrcpy_server(
    env: EnvView,
    platform: Platform,
    cellar: Option<Seq<char>>,
    exists: Seq<bool>,
) -> EnvView {
    if has_key(env, "SCRCPY_SERVER_PATH"@) || platform != Platform::MacOs {
        env
    } else {
        match scrcpy_server_choice(cellar, exists) {
            Some(s) => env.push(("SCRCPY_SERVER_PATH"@, s)),
            None => env,
        }
    }
}

/// `<sdk>/platform-tools/adb`.
pub open spec fn sdk_adb_of(sdk: Seq<char>) -> Seq<char> {
    sdk + "/platform-tools/adb"@
}

/// The adb server binary: the SDK's when it exists, else the default adb.
pub open spec fn adb_server_choice(
    sdk: Option<Seq<char>>,
    sdk_adb_exists: bool,
    default_adb: Seq<char>,
) -> Seq<char> {
    match given_sdk(sdk) {
        Some(s) => if sdk_adb_exists {
            sdk_adb_of(s)
        } else {
            default_adb
        },
        None => default_adb,
    }
}

/// The environment with `ADB_SERVER_PATH` set when it is missing.
pub open spec fn with_adb_server(
    env: EnvView,
    sdk: Option<Seq<char>>,
    sdk_adb_exists: bool,
    default_adb: Seq<char>,
) -> EnvView {
    if has_key(env, "ADB_SERVER_PATH"@) {
        env
    } else {
        let adb = adb_server_choice(sdk, sdk_adb_exists, default_adb);
        if adb.len() > 0 {
            env.push(("ADB_SERVER_PATH"@, adb))
        } else {
            env
        }
    }
}

/// `env` with `(key, value)` added unless some variable is named `key`.
pub open spec fn with_default(env: EnvView, key: Seq<char>, value: Seq<char>) -> EnvView {
    if has_key(env, key) {
        env
    } else {
        env.push((key, value))
    }
}

/// The environment with `ANDROID_HOME` and `ANDROID_SDK_ROOT` set to the SDK
/// when one is given and they are missing.
pub open spec fn with_sdk_home(env: EnvView, sdk: Option<Seq<char>>) -> EnvView {
    match given_sdk(sdk) {
        Some(s) => with_default(with_default(env, "ANDROID_HOME"@, s), "ANDROID_SDK_ROOT"@, s),
        None => env,
    }
}

/// The full environment for the tools.
pub open spec fn full_env(
    env: EnvView,
    sdk: Option<Seq<char>>,
    platform: Platform,
    cellar: Option<Seq<char>>,
    exists: Seq<bool>,
    sdk_adb_exists: bool,
    default_adb: Seq<char>,
) -> EnvView {
    with_sdk_home(
        with_adb_server(
            with_scrcpy_server(with_path(env, platform, sdk), platform, cellar, exists),
            sdk,
            sdk_adb_exists,
            default_adb,
        ),
        sdk,
    )
}

/// The characters of an optional string slice.
pub open spec fn opt_view(s: Option<&str>) -> Option<Seq<char>> {
    match s {
        Some(x) => Some(x@),
        None => None,
    }
}

/// The characters of an optional string.
pub open spec fn opt_string_view(s: Option<String>) -> Option<Seq<char>> {
    match s {
        Some(x) => Some(x@),
        None => None,
    }
}

// ───────────────────────── executable parts ─────────────────────────

/// Whether `v` holds a string equal to `s`.
fn holds(v: &Vec<String>, s: &String) -> (r: bool)
    ensures
        r == strings_view(v@).contains(s@),
{
    let mut i: usize = 0;
    while i < v.len()
        invariant
            i <= v.len(),
            forall|j: int| 0 <= j < i ==> v@[j]@ != s@,
        decreases v.len() - i,
    {
        if v[i] == *s {
            assert(strings_view(v@)[i as int] == s@);
            return true;
        }
        i = i + 1;
    }
    assert forall|j: int| 0 <= j < strings_view(v@).len() implies strings_view(v@)[j] != s@ by {
        assert(strings_view(v@)[j] == v@[j]@);
    }
    false
}

/// The index of the first variable named `key`.
pub fn find_key(env: &Vec<(String, String)>, key: &str) -> (r: Option<usize>)
    ensures
        r matches Some(k) ==> key_index(env_view(env@), key@) == Some(k as int),
        r is None ==> key_index(env_view(env@), key@) is None,
{
    let ghost ev = env_view(env@);
    let mut i: usize = 0;
    proof {
        assert(ev.take(0) =~= EnvView::empty());
    }
    while i < env.len()
        invariant
            i <= env.len(),
            ev == env_view(env@),
            key_index(ev.take(i as int), key@) is None,
        decreases env.len() - i,
    {
        assert(ev.take(i + 1).drop_last() =~= ev.take(i as int));
        assert(ev.take(i + 1).last() == ev[i as int]);
        if text::same_text(env[i].0.as_str(), key) {
            proof {
                lemma_key_index_prefix(ev, key@, i + 1);
            }
            return Some(i);
        }
        i = i + 1;
    }
    assert(ev.take(env.len() as int) =~= ev);
    None
}

/// Where a key first occurs is decided by the prefix that holds it.
proof fn lemma_key_index_prefix(env: EnvView, key: Seq<char>, n: int)
    requires
        0 <= n <= env.len(),
        key_index(env.take(n), key) is Some,
    ensures
        key_index(env, key) == key_index(env.take(n), key),
    decreases env.len() - n,
{
    if n < env.len() {
        assert(env.take(n + 1).drop_last() =~= env.take(n));
        lemma_key_index_prefix(env, key, n + 1);
    } else {
        assert(env.take(n) =~= env);
    }
}

/// Whether some variable is named `key`.
pub fn has_var(env: &Vec<(String, String)>, key: &str) -> (r: bool)
    ensures
        r == has_key(env_view(env@), key@),
{
    find_key(env, key).is_some()
}

/// The `PATH` entries for an environment whose `PATH` is `existing`.
pub fn merge_path_entries(existing: &str, platform: Platform, sdk: Option<&str>) -> (r: Vec<
    String,
>)
    ensures
        strings_view(r@) == merged_path_entries(existing@, platform, opt_view(sdk)),
{
    let mut parts = essential_paths(platform);
    let chars = text::chars_of(existing);
    let pieces = text::split_chars(&chars, ':');
    let ghost ess = essential_paths_spec(platform);
    let ghost pv = text::split_on(existing@, ':');
    let mut i: usize = 0;
    proof {
        assert(pv.take(0) =~= Seq::<Seq<char>>::empty());
    }
    while i < pieces.len()
        invariant
            i <= pieces.len(),
            pieces@.len() == pv.len(),
            forall|k: int| 0 <= k < pieces@.len() ==> #[trigger] pieces@[k]@ == pv[k],
            strings_view(parts@) == append_new(ess, pv.take(i as int)),
        decreases pieces.len() - i,
    {
        let p = text::string_of(&pieces[i]);
        assert(pv.take(i + 1).drop_last() =~= pv.take(i as int));
        assert(pv.take(i + 1).last() == pv[i as int]);
        if !holds(&parts, &p) {
            parts.push(p);
            assert(strings_view(parts@) =~= append_new(ess, pv.take(i as int)).push(pv[i as int]));
        }
        i = i + 1;
    }
    assert(pv.take(pieces.len() as int) =~= pv);
    match sdk {
        Some(s) => {
            if !s.is_empty() {
                let tools = text::concat(s, "/platform-tools");
                if !holds(&parts, &tools) {
                    parts.push(tools);
                    assert(strings_view(parts@) =~= append_new(ess, pv).push(
                        platform_tools_of(s@),
                    ));
                }
            }
        },
        None => {},
    }
    parts
}

/// The `PATH` entries for an environment without `PATH`.
pub fn fresh_path(platform: Platform, sdk: Option<&str>) -> (r: Vec<String>)
    ensures
        strings_view(r@) == fresh_path_entries(platform, opt_view(sdk)),
{
    let mut paths = essential_paths(platform);
    match sdk {
        Some(s) => {
            if !s.is_empty() {
                let tools = text::concat(s, "/platform-tools");
                let ghost before = paths@;
                paths.push(tools);
                assert(strings_view(paths@) =~= strings_view(before).push(platform_tools_of(s@)));
            }
        },
        None => {},
    }
    paths
}

/// The SDK's adb, `<sdk>/platform-tools/adb`, whose existence the probe
/// reports.
pub fn sdk_adb_path(sdk: &str) -> (r: String)
    ensures
        r@ == sdk_adb_of(sdk@),
{
    text::concat(sdk, "/platform-tools/adb")
}

/// The index of the first true flag.
fn first_true_index(flags: &Vec<bool>) -> (r: Option<usize>)
    ensures
        r matches Some(k) ==> first_true(flags@) == Some(k as int),
        r is None ==> first_true(flags@) is None,
{
    let mut i: usize = 0;
    proof {
        assert(flags@.take(0) =~= Seq::<bool>::empty());
    }
    while i < flags.len()
        invariant
            i <= flags.len(),
            first_true(flags@.take(i as int)) is None,
        decreases flags.len() - i,
    {
        assert(flags@.take(i + 1).drop_last() =~= flags@.take(i as int));
        assert(flags@.take(i + 1).last() == flags@[i as int]);
        if flags[i] {
            proof {
                lemma_first_true_prefix(flags@, i + 1);
            }
            return Some(i);
        }
        i = i + 1;
    }
    assert(flags@.take(flags.len() as int) =~= flags@);
    None
}

proof fn lemma_first_true(flags: Seq<bool>)
    ensures
        first_true(flags) matches Some(i) ==> 0 <= i < flags.len(),
    decreases flags.len(),
{
    if flags.len() > 0 {
        lemma_first_true(flags.drop_last());
    }
}

proof fn lemma_first_true_prefix(flags: Seq<bool>, n: int)
    requires
        0 <= n <= flags.len(),
        first_true(flags.take(n)) is Some,
    ensures
        first_true(flags) == first_true(flags.take(n)),
    decreases flags.len() - n,
{
    if n < flags.len() {
        assert(flags.take(n + 1).drop_last() =~= flags.take(n));
        lemma_first_true_prefix(flags, n + 1);
    } else {
        assert(flags.take(n) =~= flags);
    }
}

/// The scrcpy server to announce, given what the probe found.
pub fn choose_scrcpy_server(probe: &EnvProbe) -> (r: Option<String>)
    ensures
        opt_string_view(r) == scrcpy_server_choice(
            opt_string_view(probe.cellar_scrcpy_server),
            probe.scrcpy_fallback_exists@,
        ),
{
    match &probe.cellar_scrcpy_server {
        Some(c) => {
            let r = c.clone();
            Some(r)
        },
        None => {
            let fallbacks = scrcpy_server_fallbacks();
            proof {
                lemma_first_true(probe.scrcpy_fallback_exists@);
                assert(strings_view(fallbacks@).len() == fallbacks@.len());
            }
            match first_true_index(&probe.scrcpy_fallback_exists) {
                Some(i) => {
                    if i < fallbacks.len() {
                        assert(strings_view(fallbacks@)[i as int] == fallbacks@[i as int]@);
                        let r = fallbacks[i].clone();
                        Some(r)
                    } else {
                        None
                    }
                },
                None => None,
            }
        },
    }
}

/// Adds `(key, value)` to `env`.
fn push_var(env: &mut Vec<(String, String)>, key: &str, value: String)
    ensures
        env_view(final(env)@) == env_view(old(env)@).push((key@, value@)),
{
    let k = String::from_str(key);
    env.push((k, value));
    assert(env_view(env@) =~= env_view(old(env)@).push((key@, value@)));
}

/// Sets `PATH` as `with_path` describes.
fn set_path(env: &mut Vec<(String, String)>, platform: Platform, sdk: Option<&str>)
    ensures
        env_view(final(env)@) == with_path(env_view(old(env)@), platform, opt_view(sdk)),
{
    let essential = essential_paths(platform);
    assert(strings_view(essential@).len() == essential@.len());
    if essential.len() == 0 {
        return;
    }
    proof {
        lemma_key_index(env_view(env@), "PATH"@);
    }
    match find_key(env, "PATH") {
        Some(pos) => {
            assert(env_view(env@)[pos as int] == (env@[pos as int].0@, env@[pos as int].1@));
            let parts = merge_path_entries(env[pos].1.as_str(), platform, sdk);
            let joined = text::join_strings(&parts, ':');
            let key = env[pos].0.clone();
            let ghost before = env_view(env@);
            env.set(pos, (key, joined));
            assert(env_view(env@) =~= before.update(
                pos as int,
                (before[pos as int].0, text::join_with(strings_view(parts@), ':')),
            ));
        },
        None => {
            let parts = fresh_path(platform, sdk);
            let joined = text::join_strings(&parts, ':');
            push_var(env, "PATH", joined);
        },
    }
}

/// The environment for adb and scrcpy, from the inherited variables `env`,
/// the configured Android SDK (if any) and what `probe` found on disk.
pub fn build_full_env_with_sdk(
    env: Vec<(String, String)>,
    android_sdk_path: Option<&str>,
    platform: Platform,
    probe: &EnvProbe,
) -> (r: Vec<(String, String)>)
    ensures
        env_view(r@) == full_env(
            env_view(env@),
            opt_view(android_sdk_path),
            platform,
            opt_string_view(probe.cellar_scrcpy_server),
            probe.scrcpy_fallback_exists@,
            probe.sdk_adb_exists,
            probe.default_adb@,
        ),
{
    let mut env = env;
    set_path(&mut env, platform, android_sdk_path);
    if !has_var(&env, "SCRCPY_SERVER_PATH") {
        if platform == Platform::MacOs {
            match choose_scrcpy_server(probe) {
                Some(server) => push_var(&mut env, "SCRCPY_SERVER_PATH", server),
                None => {},
            }
        }
    }
    if !has_var(&env, "ADB_SERVER_PATH") {
        let adb = match android_sdk_path {
            Some(sdk) => {
                if !sdk.is_empty() && probe.sdk_adb_exists {
                    sdk_adb_path(sdk)
                } else {
                    probe.default_adb.clone()
                }
            },
            None => probe.default_adb.clone(),
        };
        if !adb.as_str().is_empty() {
            push_var(&mut env, "ADB_SERVER_PATH", adb);
        }
    }
    match android_sdk_path {
        Some(sdk) => {
            if !sdk.is_empty() {
                if !has_var(&env, "ANDROID_HOME") {
                    push_var(&mut env, "ANDROID_HOME", String::from_str(sdk));
                }
                if !has_var(&env, "ANDROID_SDK_ROOT") {
                    push_var(&mut env, "ANDROID_SDK_ROOT", String::from_str(sdk));
                }
            }
        },
        None => {},
    }
    env
}

/// The environment for adb and scrcpy when no Android SDK is configured.
pub fn build_full_env(env: Vec<(String, String)>, platform: Platform, probe: &EnvProbe) -> (r: Vec<
    (String, String),
>)
    ensures
        env_view(r@) == full_env(
            env_view(env@),
            None,
            platform,
            opt_string_view(probe.cellar_scrcpy_server),
            probe.scrcpy_fallback_exists@,
            probe.sdk_adb_exists,
            probe.default_adb@,
        ),
{
    build_full_env_with_sdk(env, None, platform, probe)
}

// ───────────────────────── laws ─────────────────────────

/// No string occurs twice.
pub open spec fn no_dups(s: Seq<Seq<char>>) -> bool {
    forall|i: int, j: int| 0 <= i < j < s.len() ==> s[i] != s[j]
}

/// `append_new` keeps `acc` in front.
proof fn lemma_append_new_prefix(acc: Seq<Seq<char>>, parts: Seq<Seq<char>>)
    ensures
        append_new(acc, parts).len() >= acc.len(),
        append_new(acc, parts).take(acc.len() as int) == acc,
    decreases parts.len(),
{
    if parts.len() > 0 {
        lemma_append_new_prefix(acc, parts.drop_last());
        let a = append_new(acc, parts.drop_last());
        if !a.contains(parts.last()) {
            assert(a.push(parts.last()).take(acc.len() as int) =~= a.take(acc.len() as int));
        }
    } else {
        assert(acc.take(acc.len() as int) =~= acc);
    }
}

/// What `append_new` holds: what `acc` or `parts` hold, nothing else.
proof fn lemma_append_new_members(acc: Seq<Seq<char>>, parts: Seq<Seq<char>>)
    ensures
        forall|x: Seq<char>|
            #[trigger] append_new(acc, parts).contains(x) <==> acc.contains(x) || parts.contains(
                x,
            ),
    decreases parts.len(),
{
    if parts.len() > 0 {
        let init = parts.drop_last();
        lemma_append_new_members(acc, init);
        let a = append_new(acc, init);
        assert forall|x: Seq<char>|
            #[trigger] append_new(acc, parts).contains(x) <==> acc.contains(x) || parts.contains(
                x,
            ) by {
            if parts.contains(x) && !init.contains(x) {
                let k = choose|k: int| 0 <= k < parts.len() && parts[k] == x;
                if k < parts.len() - 1 {
                    assert(init[k] == x);
                }
                assert(x == parts.last());
                if !a.contains(x) {
                    assert(a.push(x)[a.len() as int] == x);
                }
            }
            if init.contains(x) {
                let k = choose|k: int| 0 <= k < init.len() && init[k] == x;
                assert(parts[k] == x);
            }
            if a.contains(x) && !a.contains(parts.last()) {
                let k = choose|k: int| 0 <= k < a.len() && a[k] == x;
                assert(a.push(parts.last())[k] == x);
            }
            if !a.contains(parts.last()) && a.push(parts.last()).contains(x) {
                let k = choose|k: int| 0 <= k < a.len() + 1 && a.push(parts.last())[k] == x;
                if k < a.len() {
                    assert(a[k] == x);
                } else {
                    assert(parts[parts.len() - 1] == x);
                }
            }
        }
    }
}

/// `append_new` adds nothing twice.
proof fn lemma_append_new_no_dups(acc: Seq<Seq<char>>, parts: Seq<Seq<char>>)
    requires
        no_dups(acc),
    ensures
        no_dups(append_new(acc, parts)),
    decreases parts.len(),
{
    if parts.len() > 0 {
        lemma_append_new_no_dups(acc, parts.drop_last());
        let a = append_new(acc, parts.drop_last());
        if !a.contains(parts.last()) {
            let b = a.push(parts.last());
            assert forall|i: int, j: int| 0 <= i < j < b.len() implies b[i] != b[j] by {
                if j == a.len() {
                    if b[i] == b[j] {
                        assert(a[i] == parts.last());
                    }
                } else {
                    assert(b[i] == a[i] && b[j] == a[j]);
                }
            }
        }
    }
}

/// `append_new` over two runs of parts is `append_new` over each in turn.
proof fn lemma_append_new_concat(acc: Seq<Seq<char>>, p1: Seq<Seq<char>>, p2: Seq<Seq<char>>)
    ensures
        append_new(acc, p1 + p2) == append_new(append_new(acc, p1), p2),
    decreases p2.len(),
{
    if p2.len() == 0 {
        assert(p1 + p2 =~= p1);
    } else {
        assert((p1 + p2).drop_last() =~= p1 + p2.drop_last());
        assert((p1 + p2).last() == p2.last());
        lemma_append_new_concat(acc, p1, p2.drop_last());
    }
}

/// Parts already held change nothing.
proof fn lemma_append_new_held(acc: Seq<Seq<char>>, parts: Seq<Seq<char>>)
    requires
        forall|i: int| 0 <= i < parts.len() ==> acc.contains(#[trigger] parts[i]),
    ensures
        append_new(acc, parts) == acc,
    decreases parts.len(),
{
    if parts.len() > 0 {
        assert forall|i: int| 0 <= i < parts.drop_last().len() implies acc.contains(
            #[trigger] parts.drop_last()[i],
        ) by {
            assert(parts.drop_last()[i] == parts[i]);
        }
        lemma_append_new_held(acc, parts.drop_last());
        assert(acc.contains(parts[parts.len() - 1]));
    }
}

/// New distinct parts are all appended.
proof fn lemma_append_new_fresh(acc: Seq<Seq<char>>, parts: Seq<Seq<char>>)
    requires
        no_dups(acc + parts),
    ensures
        append_new(acc, parts) == acc + parts,
    decreases parts.len(),
{
    if parts.len() == 0 {
        assert(acc + parts =~= acc);
    } else {
        let init = parts.drop_last();
        assert(no_dups(acc + init)) by {
            assert forall|i: int, j: int| 0 <= i < j < (acc + init).len() implies (acc + init)[i]
                != (acc + init)[j] by {
                assert((acc + init)[i] == (acc + parts)[i]);
                assert((acc + init)[j] == (acc + parts)[j]);
            }
        }
        lemma_append_new_fresh(acc, init);
        let l = (acc + parts).len() - 1;
        assert((acc + parts)[l] == parts.last());
        assert(!(acc + init).contains(parts.last())) by {
            if (acc + init).contains(parts.last()) {
                let k = choose|k: int| 0 <= k < (acc + init).len() && (acc + init)[k] == parts.last();
                assert((acc + parts)[k] == (acc + init)[k]);
            }
        }
        assert((acc + init).push(parts.last()) =~= acc + parts);
    }
}

/// The essential directories: none twice, none with a `:`, each ending in `n`.
proof fn lemma_essential_facts(platform: Platform)
    ensures
        no_dups(essential_paths_spec(platform)),
        forall|i: int|
            0 <= i < essential_paths_spec(platform).len() ==> !(#[trigger] essential_paths_spec(
                platform,
            )[i]).contains(':'),
        forall|i: int|
            0 <= i < essential_paths_spec(platform).len() ==> (#[trigger] essential_paths_spec(
                platform,
            )[i]).len() > 0 && essential_paths_spec(platform)[i].last() == 'n',
{
    reveal_strlit("/opt/homebrew/bin");
    reveal_strlit("/usr/local/bin");
    reveal_strlit("/usr/bin");
    reveal_strlit("/bin");
    reveal_strlit("/usr/sbin");
    reveal_strlit("/sbin");
    reveal_strlit("/snap/bin");
    let e = essential_paths_spec(platform);
    assert forall|i: int, j: int| 0 <= i < j < e.len() implies e[i] != e[j] by {
        if e[i].len() == e[j].len() {
            assert(e[i][1] != e[j][1] || e[i][2] != e[j][2]);
        }
    }
    assert forall|i: int| 0 <= i < e.len() implies !(#[trigger] e[i]).contains(':') by {
        if e[i].contains(':') {
            let k = choose|k: int| 0 <= k < e[i].len() && e[i][k] == ':';
        }
    }
}

/// `<sdk>/platform-tools` ends with `s` and holds `:` only if the SDK does.
proof fn lemma_platform_tools_facts(sdk: Seq<char>)
    ensures
        platform_tools_of(sdk).len() > 0,
        platform_tools_of(sdk).last() == 's',
        !sdk.contains(':') ==> !platform_tools_of(sdk).contains(':'),
{
    reveal_strlit("/platform-tools");
    let t = platform_tools_of(sdk);
    assert(t.last() == "/platform-tools"@[14]);
    if !sdk.contains(':') && t.contains(':') {
        let k = choose|k: int| 0 <= k < t.len() && t[k] == ':';
        if k < sdk.len() {
            assert(sdk[k] == ':');
        } else {
            assert("/platform-tools"@[k - sdk.len()] == ':');
        }
    }
}

/// The entries of a merged `PATH`: the essential directories first and in
/// their order, every existing entry and the SDK's tools directory, each
/// exactly once.
pub proof fn lemma_merged_path_entries(existing: Seq<char>, platform: Platform, sdk: Option<Seq<char>>)
    ensures
        ({
            let m = merged_path_entries(existing, platform, sdk);
            let ess = essential_paths_spec(platform);
            &&& no_dups(m)
            &&& m.len() >= ess.len()
            &&& m.take(ess.len() as int) == ess
            &&& forall|x: Seq<char>| #[trigger]
                text::split_on(existing, ':').contains(x) ==> m.contains(x)
            &&& given_sdk(sdk) matches Some(s) ==> m.contains(platform_tools_of(s))
            &&& forall|x: Seq<char>| #[trigger]
                m.contains(x) ==> ess.contains(x) || text::split_on(existing, ':').contains(x) || (
                given_sdk(sdk) matches Some(s) && x == platform_tools_of(s))
        }),
{
    let ess = essential_paths_spec(platform);
    let pieces = text::split_on(existing, ':');
    let base = append_new(ess, pieces);
    lemma_essential_facts(platform);
    lemma_append_new_prefix(ess, pieces);
    lemma_append_new_members(ess, pieces);
    lemma_append_new_no_dups(ess, pieces);
    match given_sdk(sdk) {
        Some(s) => {
            let t = platform_tools_of(s);
            if !base.contains(t) {
                let m = base.push(t);
                assert(m.take(ess.len() as int) =~= base.take(ess.len() as int));
                assert(m[base.len() as int] == t);
                assert forall|i: int, j: int| 0 <= i < j < m.len() implies m[i] != m[j] by {
                    if j == base.len() {
                        if m[i] == m[j] {
                            assert(base[i] == t);
                        }
                    } else {
                        assert(m[i] == base[i] && m[j] == base[j]);
                    }
                }
                assert forall|x: Seq<char>| #[trigger] pieces.contains(x) implies m.contains(x) by {
                    assert(base.contains(x));
                    let k = choose|k: int| 0 <= k < base.len() && base[k] == x;
                    assert(m[k] == x);
                }
                assert forall|x: Seq<char>| #[trigger] m.contains(x) implies ess.contains(x)
                    || pieces.contains(x) || x == t by {
                    let k = choose|k: int| 0 <= k < m.len() && m[k] == x;
                    if k < base.len() {
                        assert(base[k] == x);
                        assert(base.contains(x));
                    }
                }
            }
        },
        None => {},
    }
}

/// The `PATH` entries of an environment that had none: the essential
/// directories and the SDK's tools directory, each once and without `:`
/// when the SDK path has none.
proof fn lemma_fresh_path_entries(platform: Platform, sdk: Option<Seq<char>>)
    requires
        given_sdk(sdk) matches Some(s) ==> !s.contains(':'),
    ensures
        ({
            let f = fresh_path_entries(platform, sdk);
            let ess = essential_paths_spec(platform);
            &&& no_dups(f)
            &&& f.len() >= ess.len()
            &&& f.take(ess.len() as int) == ess
            &&& forall|i: int| 0 <= i < f.len() ==> !(#[trigger] f[i]).contains(':')
            &&& given_sdk(sdk) matches Some(s) ==> f.contains(platform_tools_of(s))
        }),
{
    let ess = essential_paths_spec(platform);
    lemma_essential_facts(platform);
    assert(ess.take(ess.len() as int) =~= ess);
    match given_sdk(sdk) {
        Some(s) => {
            let t = platform_tools_of(s);
            lemma_platform_tools_facts(s);
            let f = ess.push(t);
            assert(f.take(ess.len() as int) =~= ess);
            assert(f[ess.len() as int] == t);
            assert forall|i: int, j: int| 0 <= i < j < f.len() implies f[i] != f[j] by {
                if j == ess.len() {
                    assert(f[i] == ess[i]);
                    assert(ess[i].last() == 'n');
                } else {
                    assert(f[i] == ess[i] && f[j] == ess[j]);
                }
            }
            assert forall|i: int| 0 <= i < f.len() implies !(#[trigger] f[i]).contains(':') by {
                if i < ess.len() {
                    assert(f[i] == ess[i]);
                }
            }
        },
        None => {},
    }
}

/// The names of the variables the tools' environment may gain.
pub open spec fn tool_var_name(k: Seq<char>) -> bool {
    ||| k == "PATH"@
    ||| k == "SCRCPY_SERVER_PATH"@
    ||| k == "ADB_SERVER_PATH"@
    ||| k == "ANDROID_HOME"@
    ||| k == "ANDROID_SDK_ROOT"@
}

/// `after` is `before` followed by variables whose names `before` lacks
/// and that are among the tool variables.
pub open spec fn appends_new_vars(before: EnvView, after: EnvView) -> bool {
    &&& after.len() >= before.len()
    &&& forall|i: int| 0 <= i < before.len() ==> after[i] == before[i]
    &&& forall|i: int|
        before.len() <= i < after.len() ==> key_index(before, #[trigger] after[i].0) is None
            && tool_var_name(after[i].0)
}

/// A key is found by the first index holding it.
proof fn lemma_key_index_of_names(env: EnvView, key: Seq<char>, i: int)
    requires
        0 <= i < env.len(),
        env[i].0 == key,
        forall|j: int| 0 <= j < i ==> env[j].0 != key,
    ensures
        key_index(env, key) == Some(i),
{
    lemma_key_index(env, key);
    match key_index(env, key) {
        Some(k) => {
            if k < i {
                assert(env[k].0 == key);
            } else if k > i {
                assert(env[i].0 != key);
            }
        },
        None => {
            assert(env[i].0 != key);
        },
    }
}

/// Where a key is found depends only on the names, index by index.
proof fn lemma_key_index_same_names(a: EnvView, b: EnvView, key: Seq<char>)
    requires
        a.len() <= b.len(),
        forall|j: int| 0 <= j < a.len() ==> a[j].0 == b[j].0,
    ensures
        key_index(a, key) matches Some(i) ==> key_index(b, key) == Some(i),
        key_index(b, key) is None ==> key_index(a, key) is None,
        a.len() == b.len() ==> key_index(a, key) == key_index(b, key),
{
    lemma_key_index(a, key);
    lemma_key_index(b, key);
    if let Some(i) = key_index(a, key) {
        assert forall|j: int| 0 <= j < i implies b[j].0 != key by {
            assert(a[j].0 != key);
        }
        lemma_key_index_of_names(b, key, i);
    }
    if a.len() == b.len() {
        if let Some(i) = key_index(b, key) {
            assert forall|j: int| 0 <= j < i implies a[j].0 != key by {
                assert(b[j].0 != key);
            }
            lemma_key_index_of_names(a, key, i);
        }
    }
}

/// `with_default` appends at most its own variable, only when missing.
proof fn lemma_with_default(env: EnvView, key: Seq<char>, value: Seq<char>)
    requires
        tool_var_name(key),
    ensures
        appends_new_vars(env, with_default(env, key, value)),
        has_key(with_default(env, key, value), key),
{
    if !has_key(env, key) {
        let r = env.push((key, value));
        assert(r[env.len() as int] == (key, value));
        lemma_key_index(env, key);
        assert forall|j: int| 0 <= j < env.len() implies r[j].0 != key by {
            lemma_key_index(env, key);
            assert(r[j] == env[j]);
        }
        lemma_key_index_of_names(r, key, env.len() as int);
    }
}

/// Appending new variables twice appends new variables.
proof fn lemma_appends_trans(a: EnvView, b: EnvView, c: EnvView)
    requires
        appends_new_vars(a, b),
        appends_new_vars(b, c),
    ensures
        appends_new_vars(a, c),
{
    assert forall|i: int| a.len() <= i < c.len() implies key_index(a, #[trigger] c[i].0) is None
        && tool_var_name(c[i].0) by {
        if i < b.len() {
            assert(c[i] == b[i]);
        } else {
            lemma_key_index_same_names(a, b, c[i].0);
        }
    }
}

/// The variables appended by the tool-variable stages.
proof fn lemma_stages_append(
    env: EnvView,
    sdk: Option<Seq<char>>,
    platform: Platform,
    cellar: Option<Seq<char>>,
    exists: Seq<bool>,
    sdk_adb_exists: bool,
    default_adb: Seq<char>,
)
    ensures
        appends_new_vars(env, with_scrcpy_server(env, platform, cellar, exists)),
        appends_new_vars(
            env,
            with_adb_server(env, sdk, sdk_adb_exists, default_adb),
        ),
        appends_new_vars(env, with_sdk_home(env, sdk)),
        given_sdk(sdk) is Some ==> has_key(with_sdk_home(env, sdk), "ANDROID_HOME"@) && has_key(
            with_sdk_home(env, sdk),
            "ANDROID_SDK_ROOT"@,
        ),
{
    let s1 = with_scrcpy_server(env, platform, cellar, exists);
    if !has_key(env, "SCRCPY_SERVER_PATH"@) && platform == Platform::MacOs {
        if let Some(v) = scrcpy_server_choice(cellar, exists) {
            lemma_with_default(env, "SCRCPY_SERVER_PATH"@, v);
        }
    }
    if !has_key(env, "ADB_SERVER_PATH"@) {
        let adb = adb_server_choice(sdk, sdk_adb_exists, default_adb);
        lemma_with_default(env, "ADB_SERVER_PATH"@, adb);
    }
    if let Some(s) = given_sdk(sdk) {
        let e1 = with_default(env, "ANDROID_HOME"@, s);
        lemma_with_default(env, "ANDROID_HOME"@, s);
        lemma_with_default(e1, "ANDROID_SDK_ROOT"@, s);
        lemma_appends_trans(env, e1, with_default(e1, "ANDROID_SDK_ROOT"@, s));
        lemma_key_index_same_names(e1, with_default(e1, "ANDROID_SDK_ROOT"@, s), "ANDROID_HOME"@);
    }
}

/// What `with_path` does: on platforms with essential directories, the
/// first `PATH` (or a new one at the end) holds the joined entries.
proof fn lemma_with_path(env: EnvView, platform: Platform, sdk: Option<Seq<char>>)
    ensures
        ({
            let r = with_path(env, platform, sdk);
            &&& essential_paths_spec(platform).len() == 0 ==> r == env
            &&& essential_paths_spec(platform).len() > 0 ==> match key_index(env, "PATH"@) {
                Some(i) => r.len() == env.len() && key_index(r, "PATH"@) == Some(i) && r[i] == (
                    env[i].0,
                    text::join_with(merged_path_entries(env[i].1, platform, sdk), ':'),
                ) && forall|j: int| 0 <= j < env.len() && j != i ==> r[j] == env[j],
                None => appends_new_vars(env, r) && r.len() == env.len() + 1 && key_index(
                    r,
                    "PATH"@,
                ) == Some(env.len() as int) && r[env.len() as int] == (
                    "PATH"@,
                    text::join_with(fresh_path_entries(platform, sdk), ':'),
                ),
            }
        }),
{
    let r = with_path(env, platform, sdk);
    if essential_paths_spec(platform).len() > 0 {
        lemma_key_index(env, "PATH"@);
        match key_index(env, "PATH"@) {
            Some(i) => {
                lemma_key_index_same_names(env, r, "PATH"@);
            },
            None => {
                assert forall|j: int| 0 <= j < env.len() implies r[j].0 != "PATH"@ by {
                    assert(r[j] == env[j]);
                }
                lemma_key_index_of_names(r, "PATH"@, env.len() as int);
                assert(r[env.len() as int].0 == "PATH"@);
            },
        }
    }
}

/// Building the tools' environment keeps every inherited variable in its
/// place and with its value, except the value of the first `PATH`; it only
/// appends tool variables (`PATH`, `SCRCPY_SERVER_PATH`, `ADB_SERVER_PATH`,
/// `ANDROID_HOME`, `ANDROID_SDK_ROOT`) that were missing.
pub proof fn lemma_full_env_keeps_variables(
    env: EnvView,
    sdk: Option<Seq<char>>,
    platform: Platform,
    cellar: Option<Seq<char>>,
    exists: Seq<bool>,
    sdk_adb_exists: bool,
    default_adb: Seq<char>,
)
    ensures
        ({
            let r = full_env(env, sdk, platform, cellar, exists, sdk_adb_exists, default_adb);
            &&& r.len() >= env.len()
            &&& forall|i: int| 0 <= i < env.len() ==> (#[trigger] r[i]).0 == env[i].0
            &&& forall|i: int|
                0 <= i < env.len() && key_index(env, "PATH"@) != Some(i) ==> #[trigger] r[i]
                    == env[i]
            &&& forall|i: int|
                env.len() <= i < r.len() ==> key_index(env, (#[trigger] r[i]).0) is None
                    && tool_var_name(r[i].0)
        }),
{
    let p = with_path(env, platform, sdk);
    let s1 = with_scrcpy_server(p, platform, cellar, exists);
    let a1 = with_adb_server(s1, sdk, sdk_adb_exists, default_adb);
    let r = with_sdk_home(a1, sdk);
    lemma_with_path(env, platform, sdk);
    lemma_stages_append(p, sdk, platform, cellar, exists, sdk_adb_exists, default_adb);
    lemma_stages_append(s1, sdk, platform, cellar, exists, sdk_adb_exists, default_adb);
    lemma_stages_append(a1, sdk, platform, cellar, exists, sdk_adb_exists, default_adb);
    lemma_appends_trans(p, s1, a1);
    lemma_appends_trans(p, a1, r);
    if essential_paths_spec(platform).len() > 0 && key_index(env, "PATH"@) is None {
        lemma_appends_trans(env, p, r);
    } else {
        assert(p.len() == env.len());
        assert forall|i: int| env.len() <= i < r.len() implies key_index(env, (#[trigger] r[i]).0)
            is None && tool_var_name(r[i].0) by {
            lemma_key_index_same_names(env, p, r[i].0);
        }
    }
}

/// No two variables share a name.
pub open spec fn distinct_keys(env: EnvView) -> bool {
    forall|i: int, j: int| 0 <= i < j < env.len() ==> env[i].0 != env[j].0
}

/// Adding a variable under a name not yet used keeps the names distinct.
proof fn lemma_push_new_key(env: EnvView, key: Seq<char>, value: Seq<char>)
    requires
        distinct_keys(env),
        key_index(env, key) is None,
    ensures
        distinct_keys(env.push((key, value))),
{
    lemma_key_index(env, key);
    let r = env.push((key, value));
    assert forall|i: int, j: int| 0 <= i < j < r.len() implies r[i].0 != r[j].0 by {
        assert(r[i] == env[i]);
        if j < env.len() {
            assert(r[j] == env[j]);
        }
    }
}

/// `with_default` keeps the names distinct.
proof fn lemma_with_default_distinct(env: EnvView, key: Seq<char>, value: Seq<char>)
    requires
        distinct_keys(env),
    ensures
        distinct_keys(with_default(env, key, value)),
{
    if !has_key(env, key) {
        lemma_push_new_key(env, key, value);
    }
}

/// Building the tools' environment never gives two variables one name: when
/// the inherited variables have distinct names, so does the result.
pub proof fn lemma_full_env_distinct_keys(
    env: EnvView,
    sdk: Option<Seq<char>>,
    platform: Platform,
    cellar: Option<Seq<char>>,
    exists: Seq<bool>,
    sdk_adb_exists: bool,
    default_adb: Seq<char>,
)
    requires
        distinct_keys(env),
    ensures
        distinct_keys(full_env(env, sdk, platform, cellar, exists, sdk_adb_exists, default_adb)),
{
    let p = with_path(env, platform, sdk);
    if essential_paths_spec(platform).len() > 0 {
        match key_index(env, "PATH"@) {
            Some(i) => {
                lemma_key_index(env, "PATH"@);
                assert(p.len() == env.len());
                assert forall|a: int, b: int| 0 <= a < b < p.len() implies p[a].0 != p[b].0 by {
                    assert(p[a].0 == env[a].0);
                    assert(p[b].0 == env[b].0);
                }
            },
            None => {
                lemma_push_new_key(
                    env,
                    "PATH"@,
                    text::join_with(fresh_path_entries(platform, sdk), ':'),
                );
            },
        }
    }
    assert(distinct_keys(p));
    let s1 = with_scrcpy_server(p, platform, cellar, exists);
    if !has_key(p, "SCRCPY_SERVER_PATH"@) && platform == Platform::MacOs {
        if let Some(v) = scrcpy_server_choice(cellar, exists) {
            lemma_push_new_key(p, "SCRCPY_SERVER_PATH"@, v);
        }
    }
    assert(distinct_keys(s1));
    let a1 = with_adb_server(s1, sdk, sdk_adb_exists, default_adb);
    if !has_key(s1, "ADB_SERVER_PATH"@) {
        let adb = adb_server_choice(sdk, sdk_adb_exists, default_adb);
        if adb.len() > 0 {
            lemma_push_new_key(s1, "ADB_SERVER_PATH"@, adb);
        }
    }
    assert(distinct_keys(a1));
    if let Some(s) = given_sdk(sdk) {
        lemma_with_default_distinct(a1, "ANDROID_HOME"@, s);
        lemma_with_default_distinct(with_default(a1, "ANDROID_HOME"@, s), "ANDROID_SDK_ROOT"@, s);
    }
}

/// `with_default` either keeps the variables or appends `(key, value)`.
proof fn lemma_with_default_shape(env: EnvView, key: Seq<char>, value: Seq<char>)
    ensures
        with_default(env, key, value) == env || with_default(env, key, value) == env.push(
            (key, value),
        ),
{
}

/// No variable of `env` is named `key`.
pub open spec fn lacks_key(env: EnvView, key: Seq<char>) -> bool {
    forall|i: int| 0 <= i < env.len() ==> env[i].0 != key
}

/// When the inherited variables have no `ADB_SERVER_PATH`, the tools get
/// one: the SDK's `platform-tools/adb` when an SDK (not empty) is given and
/// that file exists, else the default adb; none only when that choice is
/// empty.
pub proof fn lemma_full_env_adb_server(
    env: EnvView,
    sdk: Option<Seq<char>>,
    platform: Platform,
    cellar: Option<Seq<char>>,
    exists: Seq<bool>,
    sdk_adb_exists: bool,
    default_adb: Seq<char>,
)
    requires
        lacks_key(env, "ADB_SERVER_PATH"@),
    ensures
        ({
            let r = full_env(env, sdk, platform, cellar, exists, sdk_adb_exists, default_adb);
            let adb = if sdk is Some && sdk.unwrap().len() > 0 && sdk_adb_exists {
                sdk.unwrap() + "/platform-tools/adb"@
            } else {
                default_adb
            };
            &&& adb.len() > 0 ==> exists|i: int|
                0 <= i < r.len() && #[trigger] r[i] == ("ADB_SERVER_PATH"@, adb)
            &&& adb.len() == 0 ==> lacks_key(r, "ADB_SERVER_PATH"@)
        }),
{
    reveal_strlit("ADB_SERVER_PATH");
    reveal_strlit("PATH");
    reveal_strlit("SCRCPY_SERVER_PATH");
    reveal_strlit("ANDROID_HOME");
    reveal_strlit("ANDROID_SDK_ROOT");
    let key = "ADB_SERVER_PATH"@;
    assert(key != "PATH"@) by {
        assert(key.len() != "PATH"@.len());
    }
    assert(key != "SCRCPY_SERVER_PATH"@) by {
        assert(key.len() != "SCRCPY_SERVER_PATH"@.len());
    }
    assert(key != "ANDROID_HOME"@) by {
        assert(key.len() != "ANDROID_HOME"@.len());
    }
    assert(key != "ANDROID_SDK_ROOT"@) by {
        assert(key.len() != "ANDROID_SDK_ROOT"@.len());
    }
    let p = with_path(env, platform, sdk);
    lemma_with_path(env, platform, sdk);
    if essential_paths_spec(platform).len() > 0 {
        lemma_key_index(env, "PATH"@);
        match key_index(env, "PATH"@) {
            Some(i) => {
                assert forall|j: int| 0 <= j < p.len() implies p[j].0 != key by {
                    assert(p[j].0 == env[j].0);
                }
            },
            None => {
                assert forall|j: int| 0 <= j < p.len() implies p[j].0 != key by {
                    if j < env.len() {
                        assert(p[j] == env[j]);
                    }
                }
            },
        }
    }
    assert(lacks_key(p, key));
    let s1 = with_scrcpy_server(p, platform, cellar, exists);
    assert forall|j: int| 0 <= j < s1.len() implies s1[j].0 != key by {
        if j < p.len() {
            assert(s1[j] == p[j]);
        }
    }
    lemma_key_index(s1, key);
    assert(!has_key(s1, key));
    let chosen = adb_server_choice(sdk, sdk_adb_exists, default_adb);
    let adb = if sdk is Some && sdk.unwrap().len() > 0 && sdk_adb_exists {
        sdk.unwrap() + "/platform-tools/adb"@
    } else {
        default_adb
    };
    assert(chosen == adb);
    let a1 = with_adb_server(s1, sdk, sdk_adb_exists, default_adb);
    let r = with_sdk_home(a1, sdk);
    assert(r == full_env(env, sdk, platform, cellar, exists, sdk_adb_exists, default_adb));
    if let Some(sd) = given_sdk(sdk) {
        let e1 = with_default(a1, "ANDROID_HOME"@, sd);
        lemma_with_default_shape(a1, "ANDROID_HOME"@, sd);
        lemma_with_default_shape(e1, "ANDROID_SDK_ROOT"@, sd);
    }
    assert(r.len() >= a1.len());
    assert(forall|j: int| 0 <= j < a1.len() ==> r[j] == a1[j]);
    assert(forall|j: int| a1.len() <= j < r.len() ==> r[j].0 != key);
    if adb.len() > 0 {
        assert(a1 == s1.push((key, adb)));
        assert(r[s1.len() as int] == (key, adb));
        assert(exists|i: int| 0 <= i < r.len() && #[trigger] r[i] == ("ADB_SERVER_PATH"@, adb));
    } else {
        assert(a1 == s1);
        assert forall|j: int| 0 <= j < r.len() implies r[j].0 != key by {
            if j < a1.len() {
                assert(r[j] == a1[j]);
            }
        }
    }
}

/// A merged `PATH` that already starts with the essential directories,
/// holds the SDK's tools and repeats nothing merges into itself.
proof fn lemma_merge_stable(m: Seq<Seq<char>>, platform: Platform, sdk: Option<Seq<char>>)
    requires
        essential_paths_spec(platform).len() > 0,
        m.len() >= essential_paths_spec(platform).len(),
        m.take(essential_paths_spec(platform).len() as int) == essential_paths_spec(platform),
        no_dups(m),
        forall|i: int| 0 <= i < m.len() ==> !(#[trigger] m[i]).contains(':'),
        given_sdk(sdk) matches Some(s) ==> m.contains(platform_tools_of(s)),
    ensures
        merged_path_entries(text::join_with(m, ':'), platform, sdk) == m,
{
    let ess = essential_paths_spec(platform);
    text::lemma_split_join(m, ':');
    let rest = m.skip(ess.len() as int);
    assert(m =~= ess + rest);
    lemma_append_new_concat(ess, ess, rest);
    assert forall|i: int| 0 <= i < ess.len() implies ess.contains(#[trigger] ess[i]) by {}
    lemma_append_new_held(ess, ess);
    lemma_append_new_fresh(ess, rest);
}

/// Building the tools' environment a second time, from its own result,
/// changes nothing, provided the SDK path holds no `:` (a `:` there would
/// split the SDK's tools directory in two when `PATH` is read back).
pub proof fn lemma_full_env_idempotent(
    env: EnvView,
    sdk: Option<Seq<char>>,
    platform: Platform,
    cellar: Option<Seq<char>>,
    exists: Seq<bool>,
    sdk_adb_exists: bool,
    default_adb: Seq<char>,
)
    requires
        given_sdk(sdk) matches Some(s) ==> !s.contains(':'),
    ensures
        full_env(
            full_env(env, sdk, platform, cellar, exists, sdk_adb_exists, default_adb),
            sdk,
            platform,
            cellar,
            exists,
            sdk_adb_exists,
            default_adb,
        ) == full_env(env, sdk, platform, cellar, exists, sdk_adb_exists, default_adb),
{
    let p = with_path(env, platform, sdk);
    let s1 = with_scrcpy_server(p, platform, cellar, exists);
    let a1 = with_adb_server(s1, sdk, sdk_adb_exists, default_adb);
    let r = with_sdk_home(a1, sdk);
    lemma_with_path(env, platform, sdk);
    lemma_stages_append(p, sdk, platform, cellar, exists, sdk_adb_exists, default_adb);
    lemma_stages_append(s1, sdk, platform, cellar, exists, sdk_adb_exists, default_adb);
    lemma_stages_append(a1, sdk, platform, cellar, exists, sdk_adb_exists, default_adb);
    lemma_appends_trans(p, s1, a1);
    lemma_appends_trans(p, a1, r);
    lemma_appends_trans(s1, a1, r);
    // Second pass, `PATH`.
    let p2 = with_path(r, platform, sdk);
    if essential_paths_spec(platform).len() > 0 {
        lemma_essential_facts(platform);
        let i = match key_index(env, "PATH"@) {
            Some(i) => i,
            None => env.len() as int,
        };
        assert(key_index(p, "PATH"@) == Some(i));
        lemma_key_index(p, "PATH"@);
        lemma_key_index_same_names(p, r, "PATH"@);
        assert(r[i] == p[i]);
        let m = match key_index(env, "PATH"@) {
            Some(k) => merged_path_entries(env[k].1, platform, sdk),
            None => fresh_path_entries(platform, sdk),
        };
        assert(r[i].1 == text::join_with(m, ':'));
        match key_index(env, "PATH"@) {
            Some(k) => {
                lemma_merged_path_entries(env[k].1, platform, sdk);
                text::lemma_split_pieces_free_of_sep(env[k].1, ':');
                if let Some(s) = given_sdk(sdk) {
                    lemma_platform_tools_facts(s);
                }
                assert forall|j: int| 0 <= j < m.len() implies !(#[trigger] m[j]).contains(':') by {
                    assert(m.contains(m[j]));
                    if essential_paths_spec(platform).contains(m[j]) {
                        let q = choose|q: int|
                            0 <= q < essential_paths_spec(platform).len()
                                && essential_paths_spec(platform)[q] == m[j];
                    } else if text::split_on(env[k].1, ':').contains(m[j]) {
                        let q = choose|q: int|
                            0 <= q < text::split_on(env[k].1, ':').len() && text::split_on(
                                env[k].1,
                                ':',
                            )[q] == m[j];
                    }
                }
            },
            None => {
                lemma_fresh_path_entries(platform, sdk);
            },
        }
        lemma_merge_stable(m, platform, sdk);
        assert(key_index(r, "PATH"@) == Some(i));
        assert(p2 == r.update(i, (r[i].0, text::join_with(m, ':'))));
        assert(p2 =~= r);
    }
    assert(p2 == r);
    // Second pass, the tool variables.
    let s2 = with_scrcpy_server(r, platform, cellar, exists);
    if !has_key(r, "SCRCPY_SERVER_PATH"@) && platform == Platform::MacOs {
        lemma_key_index_same_names(p, r, "SCRCPY_SERVER_PATH"@);
        if let Some(v) = scrcpy_server_choice(cellar, exists) {
            lemma_with_default(p, "SCRCPY_SERVER_PATH"@, v);
            lemma_key_index_same_names(s1, r, "SCRCPY_SERVER_PATH"@);
        }
    }
    assert(s2 == r);
    let a2 = with_adb_server(r, sdk, sdk_adb_exists, default_adb);
    if !has_key(r, "ADB_SERVER_PATH"@) {
        lemma_key_index_same_names(s1, r, "ADB_SERVER_PATH"@);
        let adb = adb_server_choice(sdk, sdk_adb_exists, default_adb);
        lemma_with_default(s1, "ADB_SERVER_PATH"@, adb);
        lemma_key_index_same_names(a1, r, "ADB_SERVER_PATH"@);
    }
    assert(a2 == r);
    if let Some(s) = given_sdk(sdk) {
        assert(with_default(r, "ANDROID_HOME"@, s) == r);
    }
    assert(with_sdk_home(r, sdk) == r);
}

} // verus!
