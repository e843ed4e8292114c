//! File-system paths: where the tools are looked for, where captures go,
//! and how long paths are shortened for display.
use vstd::prelude::*;
use crate::text;

verus! {

broadcast use vstd::string::group_string_axioms;

/// The operating system the program runs on, as far as the paths and
/// commands it uses differ.
#[derive(Clone, Copy, PartialEq, Eq, Structural, Debug)]
pub enum Platform {
    MacOs,
    Windows,
    /// Linux and every other system.
    Other,
}

/// The horizontal ellipsis put in front of a shortened path.
pub open spec fn ellipsis() -> char {
    '\u{2026}'
}

// ───────────────────────── home directory ─────────────────────────

/// `HOME` if set, else `/`.
pub fn home_or_root(home: Option<String>) -> (r: String)
    ensures
        r@ == (match home {
            Some(h) => h@,
            None => "/"@,
        }),
{
    match home {
        Some(h) => h,
        None => String::from_str("/"),
    }
}

/// `HOME` if set, else `USERPROFILE` if set, else `/`.
pub fn home_dir(home: Option<String>, user_profile: Option<String>) -> (r: String)
    ensures
        r@ == (match home {
            Some(h) => h@,
            None => match user_profile {
                Some(u) => u@,
                None => "/"@,
            },
        }),
{
    match home {
        Some(h) => h,
        None => home_or_root(user_profile),
    }
}

// ───────────────────────── default tool paths ─────────────────────────

/// The first candidate whose flag says it exists, or `fallback`.
pub open spec fn first_present(cands: Seq<Seq<char>>, exists: Seq<bool>, fallback: Seq<char>) -> Seq<
    char,
>
    decreases cands.len(),
{
    if cands.len() == 0 || exists.len() == 0 {
        fallback
    } else if exists[0] {
        cands[0]
    } else {
        first_present(cands.drop_first(), exists.drop_first(), fallback)
    }
}

/// The first of `cands` whose entry in `exists` is true, or `fallback`.
pub fn choose_present(cands: &Vec<String>, exists: &Vec<bool>, fallback: &str) -> (r: String)
    requires
        cands.len() == exists.len(),
    ensures
        r@ == first_present(text::strings_view(cands@), exists@, fallback@),
{
    let ghost views = text::strings_view(cands@);
    let mut i: usize = 0;
    proof {
        assert(views.skip(0) =~= views);
        assert(exists@.skip(0) =~= exists@);
    }
    while i < cands.len()
        invariant
            cands.len() == exists.len(),
            i <= cands.len(),
            views == text::strings_view(cands@),
            first_present(views, exists@, fallback@) == first_present(
                views.skip(i as int),
                exists@.skip(i as int),
                fallback@,
            ),
        decreases cands.len() - i,
    {
        assert(views.skip(i as int)[0] == cands@[i as int]@);
        assert(exists@.skip(i as int)[0] == exists@[i as int]);
        if exists[i] {
            return cands[i].clone();
        }
        assert(views.skip(i as int).drop_first() =~= views.skip(i + 1));
        assert(exists@.skip(i as int).drop_first() =~= exists@.skip(i + 1));
        i = i + 1;
    }
    String::from_str(fallback)
}

/// Where adb is looked for, in order.
pub open spec fn adb_candidates(home: Seq<char>) -> Seq<Seq<char>> {
    seq![
        "/opt/homebrew/bin/adb"@,
        home + "/Library/Android/sdk/platform-tools/adb"@,
        home + "/Android/Sdk/platform-tools/adb"@,
        "/usr/local/bin/adb"@,
    ]
}

/// Where adb is looked for, in order, for the home directory `home`.
pub fn adb_path_candidates(home: &str) -> (r: Vec<String>)
    ensures
        r.len() == 4,
        text::strings_view(r@) == adb_candidates(home@),
{
    let mut r: Vec<String> = Vec::new();
    r.push(String::from_str("/opt/homebrew/bin/adb"));
    r.push(text::concat(home, "/Library/Android/sdk/platform-tools/adb"));
    r.push(text::concat(home, "/Android/Sdk/platform-tools/adb"));
    r.push(String::from_str("/usr/local/bin/adb"));
    assert(text::strings_view(r@) =~= adb_candidates(home@));
    r
}

/// The adb to use by default: the first candidate that exists, else `adb`
/// (found through `PATH`). `exists[i]` tells whether candidate `i` exists.
pub fn default_adb_path(home: &str, exists: &Vec<bool>) -> (r: String)
    requires
        exists.len() == 4,
    ensures
        r@ == first_present(adb_candidates(home@), exists@, "adb"@),
{
    let cands = adb_path_candidates(home);
    choose_present(&cands, exists, "adb")
}

/// The scrcpy to use by default: Homebrew's when it exists, else `scrcpy`
/// (found through `PATH`).
pub fn default_scrcpy_path(homebrew_scrcpy_exists: bool) -> (r: String)
    ensures
        r@ == (if homebrew_scrcpy_exists {
            homebrew_scrcpy()
        } else {
            "scrcpy"@
        }),
{
    if homebrew_scrcpy_exists {
        String::from_str("/opt/homebrew/bin/scrcpy")
    } else {
        String::from_str("scrcpy")
    }
}

/// Homebrew's scrcpy binary.
pub open spec fn homebrew_scrcpy() -> Seq<char> {
    "/opt/homebrew/bin/scrcpy"@
}

/// The path whose existence decides `default_scrcpy_path`.
pub fn homebrew_scrcpy_path() -> (r: String)
    ensures
        r@ == homebrew_scrcpy(),
{
    String::from_str("/opt/homebrew/bin/scrcpy")
}

/// Where the Android SDK is looked for, in order.
pub open spec fn sdk_candidates(home: Seq<char>) -> Seq<Seq<char>> {
    seq![home + "/Library/Android/sdk"@, home + "/Android/Sdk"@]
}

/// Where the Android SDK is looked for, in order, for the home directory `home`.
pub fn android_sdk_path_candidates(home: &str) -> (r: Vec<String>)
    ensures
        r.len() == 2,
        text::strings_view(r@) == sdk_candidates(home@),
{
    let mut r: Vec<String> = Vec::new();
    r.push(text::concat(home, "/Library/Android/sdk"));
    r.push(text::concat(home, "/Android/Sdk"));
    assert(text::strings_view(r@) =~= sdk_candidates(home@));
    r
}

/// The Android SDK to use by default: the first candidate that exists, else
/// none (the empty path).
pub fn default_android_sdk_path(home: &str, exists: &Vec<bool>) -> (r: String)
    requires
        exists.len() == 2,
    ensures
        r@ == first_present(sdk_candidates(home@), exists@, Seq::<char>::empty()),
{
    let cands = android_sdk_path_candidates(home);
    let r = choose_present(&cands, exists, "");
    proof {
        reveal_strlit("");
        assert(""@ =~= Seq::<char>::empty());
    }
    r
}

// ───────────────────────── capture locations ─────────────────────────

/// The directory screenshots are saved in.
pub open spec fn screenshots_dir_spec(home: Seq<char>, platform: Platform) -> Seq<char> {
    match platform {
        Platform::Windows => home + "\\Pictures\\PhoneMirror"@,
        _ => home + "/Pictures/PhoneMirror"@,
    }
}

/// The directory recordings are saved in.
pub open spec fn recordings_dir_spec(home: Seq<char>, platform: Platform) -> Seq<char> {
    match platform {
        Platform::MacOs => home + "/Movies/PhoneMirror"@,
        Platform::Windows => home + "\\Videos\\PhoneMirror"@,
        Platform::Other => home + "/Videos/PhoneMirror"@,
    }
}

/// The directory screenshots are saved in, under the home directory `home`.
pub fn screenshots_dir(home: &str, platform: Platform) -> (r: String)
    ensures
        r@ == screenshots_dir_spec(home@, platform),
{
    match platform {
        Platform::MacOs => text::concat(home, "/Pictures/PhoneMirror"),
        Platform::Windows => text::concat(home, "\\Pictures\\PhoneMirror"),
        Platform::Other => text::concat(home, "/Pictures/PhoneMirror"),
    }
}

/// The directory recordings are saved in, under the home directory `home`.
pub fn recordings_dir(home: &str, platform: Platform) -> (r: String)
    ensures
        r@ == recordings_dir_spec(home@, platform),
{
    match platform {
        Platform::MacOs => text::concat(home, "/Movies/PhoneMirror"),
        Platform::Windows => text::concat(home, "\\Videos\\PhoneMirror"),
        Platform::Other => text::concat(home, "/Videos/PhoneMirror"),
    }
}

/// How the year of a capture's time stamp is written: four digits with
/// leading zeros for years 0 to 9999; otherwise a sign and at least four
/// digits.
pub open spec fn year_text(year: int) -> Seq<char> {
    if 0 <= year <= 9999 {
        text::fixed_digits(year as nat, 4)
    } else if year > 9999 {
        seq!['+'] + text::digits(year as nat)
    } else if year > -10000 {
        seq!['-'] + text::fixed_digits((-year) as nat, 4)
    } else {
        seq!['-'] + text::digits((-year) as nat)
    }
}

/// The time stamp in capture file names, `YYYYMMDD_HHMMSS`.
pub open spec fn timestamp_text(
    year: int,
    month: nat,
    day: nat,
    hour: nat,
    minute: nat,
    second: nat,
) -> Seq<char> {
    year_text(year) + text::fixed_digits(month, 2) + text::fixed_digits(day, 2) + seq!['_']
        + text::fixed_digits(hour, 2) + text::fixed_digits(minute, 2) + text::fixed_digits(
        second,
        2,
    )
}

/// The time stamp for a capture taken at the given local date and time
/// (`second` is 60 during a leap second). For years 0 to 9999 it has fifteen
/// characters: eight digits, `_`, six digits.
pub fn capture_timestamp(
    year: i32,
    month: u32,
    day: u32,
    hour: u32,
    minute: u32,
    second: u32,
) -> (r: String)
    requires
        1 <= month <= 12,
        1 <= day <= 31,
        hour <= 23,
        minute <= 59,
        second <= 60,
    ensures
        r@ == timestamp_text(year as int, month as nat, day as nat, hour as nat, minute as nat, second as nat),
        0 <= year <= 9999 ==> {
            &&& r@.len() == 15
            &&& r@[8] == '_'
            &&& forall|i: int| 0 <= i < 15 && i != 8 ==> text::is_digit(#[trigger] r@[i])
        },
{
    let mut v: Vec<char> = Vec::new();
    let y: i64 = year as i64;
    if 0 <= y && y <= 9999 {
        text::push_fixed_digits(&mut v, y as u64, 4);
    } else if y > 9999 {
        v.push('+');
        text::push_digits(&mut v, y as u64);
    } else if y > -10000 {
        v.push('-');
        text::push_fixed_digits(&mut v, (-y) as u64, 4);
    } else {
        v.push('-');
        text::push_digits(&mut v, (-y) as u64);
    }
    text::push_fixed_digits(&mut v, month as u64, 2);
    text::push_fixed_digits(&mut v, day as u64, 2);
    v.push('_');
    text::push_fixed_digits(&mut v, hour as u64, 2);
    text::push_fixed_digits(&mut v, minute as u64, 2);
    text::push_fixed_digits(&mut v, second as u64, 2);
    proof {
        assert(v@ =~= timestamp_text(
            year as int,
            month as nat,
            day as nat,
            hour as nat,
            minute as nat,
            second as nat,
        ));
        if 0 <= year <= 9999 {
            text::lemma_fixed_digits(year as nat, 4);
            text::lemma_fixed_digits(month as nat, 2);
            text::lemma_fixed_digits(day as nat, 2);
            text::lemma_fixed_digits(hour as nat, 2);
            text::lemma_fixed_digits(minute as nat, 2);
            text::lemma_fixed_digits(second as nat, 2);
        }
    }
    text::string_of(&v)
}

/// The file a screenshot taken at `timestamp` is saved to.
pub fn screenshot_file(dir: &str, timestamp: &str) -> (r: String)
    ensures
        r@ == dir@ + "/phone_screenshot_"@ + timestamp@ + ".png"@,
{
    let s = text::concat3(dir, "/phone_screenshot_", timestamp);
    s.concat(".png")
}

/// The file a recording started at `timestamp` is saved to.
pub fn recording_file(dir: &str, timestamp: &str) -> (r: String)
    ensures
        r@ == dir@ + "/phone_recording_"@ + timestamp@ + ".mp4"@,
{
    let s = text::concat3(dir, "/phone_recording_", timestamp);
    s.concat(".mp4")
}

// ───────────────────────── shortening paths ─────────────────────────

/// The file name of `p`: what follows its last `/`.
pub open spec fn file_name_of(p: Seq<char>, slash: int) -> Seq<char> {
    p.skip(slash + 1)
}

/// The inputs on which shortening does not slice through a character:
/// every cut falls on a character boundary, and a cut is only made with
/// room for at least the ellipsis (`max_len >= 1`).
pub open spec fn truncate_path_defined(p: Seq<char>, max_len: int) -> bool {
    ||| text::byte_len(p) <= max_len
    ||| max_len >= 1 && match text::last_index_of(p, '/') {
        Some(k) => text::byte_len(file_name_of(p, k)) >= max_len ==> text::is_boundary(
            file_name_of(p, k),
            max_len - 1,
        ),
        None => text::is_boundary(p, text::byte_len(p) - max_len + 1),
    }
}

/// `p` shortened to about `max_len` bytes (lengths count UTF-8 bytes):
/// - a path that fits is kept;
/// - otherwise, when it has a `/`, its file name is shown after `…/`, or,
///   when the file name alone does not fit, `…` and the file name's first
///   `max_len - 1` bytes;
/// - otherwise `…` and the last `max_len - 1` bytes of the path.
pub open spec fn truncated_path(p: Seq<char>, max_len: int) -> Seq<char> {
    if text::byte_len(p) <= max_len {
        p
    } else {
        match text::last_index_of(p, '/') {
            Some(k) => {
                let f = file_name_of(p, k);
                if text::byte_len(f) >= max_len {
                    seq![ellipsis()] + f.take(text::chars_in_bytes(f, max_len - 1) as int)
                } else {
                    seq![ellipsis(), '/'] + f
                }
            },
            None => seq![ellipsis()] + p.skip(text::chars_in_bytes(p, text::byte_len(p) - max_len + 1) as int),
        }
    }
}

/// How a path that does not fit is shortened, by where its last `/` is:
/// with one at `j` and a file name `p[j+1..]` that fits, `…/` and the file
/// name; with a file name of `max_len` bytes or more, `…` and the file
/// name's first `max_len - 1` bytes; with no `/`, `…` and the path's last
/// `max_len - 1` bytes. A path that fits is kept.
pub proof fn lemma_truncated_path_shapes(p: Seq<char>, max_len: int, j: int)
    requires
        truncate_path_defined(p, max_len),
    ensures
        text::byte_len(p) <= max_len ==> truncated_path(p, max_len) == p,
        ({
            let r = truncated_path(p, max_len);
            let f = p.skip(j + 1);
            text::byte_len(p) > max_len && 0 <= j < p.len() && p[j] == '/' && (forall|k: int|
                j < k < p.len() ==> p[k] != '/') ==> if text::byte_len(f) >= max_len {
                &&& r.len() >= 1
                &&& r[0] == '\u{2026}'
                &&& r.skip(1) == f.take(r.len() - 1)
                &&& text::byte_len(r.skip(1)) == max_len - 1
            } else {
                r == seq!['\u{2026}', '/'] + f
            }
        }),
        ({
            let r = truncated_path(p, max_len);
            text::byte_len(p) > max_len && (forall|k: int| 0 <= k < p.len() ==> p[k] != '/') ==> {
                &&& r.len() >= 1
                &&& r[0] == '\u{2026}'
                &&& r.len() - 1 <= p.len()
                &&& r.skip(1) == p.skip(p.len() - (r.len() - 1))
                &&& text::byte_len(r.skip(1)) == max_len - 1
            }
        }),
{
    text::lemma_last_index_is_last(p, '/');
    let r = truncated_path(p, max_len);
    if text::byte_len(p) > max_len {
        match text::last_index_of(p, '/') {
            Some(k) => {
                if 0 <= j < p.len() && p[j] == '/' && (forall|m: int| j < m < p.len() ==> p[m] != '/') {
                    if k < j {
                        assert(p[j] != '/');
                    }
                    if j < k {
                        assert(p[k] != '/');
                    }
                    assert(k == j);
                    let f = p.skip(j + 1);
                    if text::byte_len(f) >= max_len {
                        let c = text::chars_in_bytes(f, max_len - 1);
                        text::lemma_chars_in_bytes_bound(f, max_len - 1);
                        assert(r.skip(1) =~= f.take(c as int));
                        assert(r.len() - 1 == c);
                    }
                }
                assert(p.contains('/'));
            },
            None => {
                if forall|m: int| 0 <= m < p.len() ==> p[m] != '/' {
                    let n = text::byte_len(p) - max_len + 1;
                    let c = text::chars_in_bytes(p, n);
                    text::lemma_chars_in_bytes_bound(p, n);
                    assert(r.skip(1) =~= p.skip(c as int));
                    text::lemma_byte_len_split(p, c as int);
                }
            },
        }
        if forall|m: int| 0 <= m < p.len() ==> p[m] != '/' {
            if let Some(k) = text::last_index_of(p, '/') {
                assert(p[k] == '/');
            }
        }
    }
}

/// Whether `truncate_path(path, max_len)` can cut `path` without slicing
/// through a character.
pub fn can_truncate_path(path: &str, max_len: usize) -> (r: bool)
    ensures
        r == truncate_path_defined(path@, max_len as int),
{
    proof {
        text::lemma_byte_len_is_encoding_len(path@);
        text::lemma_last_index_is_last(path@, '/');
    }
    let bytes = path.as_bytes();
    let len = bytes.len();
    if len <= max_len {
        return true;
    }
    if max_len == 0 {
        return false;
    }
    let cs = text::chars_of(path);
    match text::find_last(&cs, '/') {
        Some(k) => {
            assert(k < cs.len());
            let f = text::chars_from(&cs, k + 1);
            proof {
                text::lemma_byte_len_split(cs@, k + 1);
            }
            let flen = text::byte_length(&f);
            if flen >= max_len {
                text::boundary_at(&f, max_len - 1)
            } else {
                true
            }
        },
        None => text::boundary_at(&cs, len - max_len + 1),
    }
}

/// Shortens `path` for display in at most about `max_len` bytes.
pub fn truncate_path(path: &str, max_len: usize) -> (r: String)
    requires
        truncate_path_defined(path@, max_len as int),
    ensures
        r@ == truncated_path(path@, max_len as int),
        text::byte_len(path@) <= max_len ==> r@ == path@,
        text::byte_len(path@) > max_len ==> r@.len() > 0 && r@[0] == ellipsis() && r@.len() <= max_len
            + 1,
{
    proof {
        text::lemma_byte_len_is_encoding_len(path@);
    }
    let bytes = path.as_bytes();
    let len = bytes.len();
    if len <= max_len {
        return String::from_str(path);
    }
    let cs = text::chars_of(path);
    let dots = String::from_str("\u{2026}");
    proof {
        reveal_strlit("\u{2026}");
        reveal_strlit("\u{2026}/");
    }
    proof {
        text::lemma_last_index_is_last(cs@, '/');
    }
    match text::find_last(&cs, '/') {
        Some(k) => {
            assert(k < cs.len());
            let f = text::chars_from(&cs, k + 1);
            proof {
                text::lemma_byte_len_split(cs@, k + 1);
            }
            let flen = text::byte_length(&f);
            if flen >= max_len {
                let (c, _) = text::count_chars_in_bytes(&f, max_len - 1);
                proof {
                    text::lemma_chars_in_bytes_bound(f@, max_len - 1);
                }
                let head = text::string_of_range(&f, 0, c);
                assert(f@.subrange(0, c as int) =~= f@.take(c as int));
                dots.concat(head.as_str())
            } else {
                proof {
                    text::lemma_byte_len_at_least_len(f@);
                }
                let name = text::string_of(&f);
                text::concat(String::from_str("\u{2026}/").as_str(), name.as_str())
            }
        },
        None => {
            let (c, _) = text::count_chars_in_bytes(&cs, len - max_len + 1);
            proof {
                text::lemma_chars_in_bytes_bound(cs@, len - max_len + 1);
                text::lemma_byte_len_split(cs@, c as int);
                text::lemma_byte_len_at_least_len(cs@.skip(c as int));
            }
            let tail = text::string_of_range(&cs, c, cs.len());
            assert(cs@.subrange(c as int, cs.len() as int) =~= cs@.skip(c as int));
            dots.concat(tail.as_str())
        },
    }
}

} // verus!
