//! What adb and the process table tell: the connected devices and whether
//! a mirror is running.
use vstd::prelude::*;
use vstd::utf8::{decode_utf8, valid_utf8};
use crate::paths::Platform;
use crate::text;

verus! {

broadcast use vstd::string::group_string_axioms;

// ───────────────────────── decoding ─────────────────────────

/// The text `String::from_utf8_lossy` makes of `bytes`.
pub uninterp spec fn lossy_text(bytes: Seq<u8>) -> Seq<char>;

/// `String::from_utf8_lossy`: the text of `bytes`, each invalid sequence
/// replaced by U+FFFD. Claimed: the result is `lossy_text(bytes)`, and valid
/// UTF-8 is decoded unchanged (the documented borrowed case).
#[verifier::external_body]
pub fn utf8_lossy(bytes: &[u8]) -> (s: String)
    ensures
        s@ == lossy_text(bytes@),
        valid_utf8(bytes@) ==> s@ == decode_utf8(bytes@),
{
    String::from_utf8_lossy(bytes).into_owned()
}

/// The text `str::to_lowercase` makes of `s`.
pub uninterp spec fn lowercase_text(s: Seq<char>) -> Seq<char>;

/// `str::to_lowercase`: the lowercase equivalent of `s` by the Unicode
/// `Lowercase` mapping. Claimed: the result is `lowercase_text(s)`.
#[verifier::external_body]
pub fn to_lowercase(s: &str) -> (r: String)
    ensures
        r@ == lowercase_text(s@),
{
    s.to_lowercase()
}

// ───────────────────────── lines ─────────────────────────

/// `x` without one trailing carriage return.
pub open spec fn strip_cr(x: Seq<char>) -> Seq<char> {
    if x.len() > 0 && x.last() == '\r' {
        x.drop_last()
    } else {
        x
    }
}

/// The lines of `s` (`str::lines`): the pieces between `\n`s, without the
/// `\r` of a `\r\n` ending; a final line ending adds no empty line.
pub open spec fn lines(s: Seq<char>) -> Seq<Seq<char>> {
    if s.len() == 0 {
        Seq::<Seq<char>>::empty()
    } else {
        let p = text::split_on(s, '\n');
        let n: int = if s.last() == '\n' {
            p.len() - 1
        } else {
            p.len() as int
        };
        Seq::new(n as nat, |i: int| if i < p.len() - 1 { strip_cr(p[i]) } else { p[i] })
    }
}

fn strip_cr_chars(x: Vec<char>) -> (r: Vec<char>)
    ensures
        r@ == strip_cr(x@),
{
    let mut x = x;
    if x.len() > 0 && x[x.len() - 1] == '\r' {
        x.pop();
    }
    x
}

/// The lines of `s`.
pub fn lines_of(s: &Vec<char>) -> (r: Vec<Vec<char>>)
    ensures
        r@.len() == lines(s@).len(),
        forall|i: int| 0 <= i < r@.len() ==> #[trigger] r@[i]@ == lines(s@)[i],
{
    let mut r: Vec<Vec<char>> = Vec::new();
    if s.len() == 0 {
        return r;
    }
    let pieces = text::split_chars(s, '\n');
    proof {
        text::lemma_split_nonempty(s@, '\n');
        if s@.last() == '\n' {
            assert(s@.drop_last().push('\n') =~= s@);
            text::lemma_split_nonempty(s@.drop_last(), '\n');
        }
    }
    let n = if s[s.len() - 1] == '\n' {
        pieces.len() - 1
    } else {
        pieces.len()
    };
    let mut i: usize = 0;
    while i < n
        invariant
            n <= pieces.len(),
            pieces@.len() == text::split_on(s@, '\n').len(),
            forall|k: int| 0 <= k < pieces@.len() ==> #[trigger] pieces@[k]@ == text::split_on(
                s@,
                '\n',
            )[k],
            n == lines(s@).len(),
            s.len() > 0,
            i <= n,
            r@.len() == i,
            forall|k: int| 0 <= k < i ==> #[trigger] r@[k]@ == lines(s@)[k],
        decreases n - i,
    {
        let piece = pieces[i].clone();
        let line = if i + 1 < pieces.len() {
            strip_cr_chars(piece)
        } else {
            piece
        };
        r.push(line);
        i = i + 1;
    }
    r
}

// ───────────────────────── adb devices ─────────────────────────

/// A trimmed line of `adb devices` that lists a device: it mentions
/// `device` (the state column) and is not a daemon notice.
pub open spec fn is_device_line(t: Seq<char>) -> bool {
    text::contains_text(t, "device"@) && !text::contains_text(t, "daemon"@) && t.len() > 0
}

/// The serial on a device line: its first word.
pub open spec fn serial_of(t: Seq<char>) -> Seq<char> {
    match text::first_word(t) {
        Some(w) => w,
        None => "unknown"@,
    }
}

/// Serials of devices reached over TCP/IP (wireless debugging).
pub open spec fn is_tcpip_serial(serial: Seq<char>) -> bool {
    text::contains_text(serial, "._adb-tls-connect._tcp"@)
}

/// Reading the listed lines in order: whether a device was listed, the
/// first USB serial and the first TCP/IP serial (empty when none).
pub open spec fn scan_lines(ls: Seq<Seq<char>>) -> (bool, Seq<char>, Seq<char>)
    decreases ls.len(),
{
    if ls.len() == 0 {
        (false, Seq::<char>::empty(), Seq::<char>::empty())
    } else {
        let (c, usb, tcp) = scan_lines(ls.drop_last());
        let t = text::trim(ls.last());
        if is_device_line(t) {
            let s = serial_of(t);
            if is_tcpip_serial(s) {
                (true, usb, if tcp.len() == 0 {
                    s
                } else {
                    tcp
                })
            } else {
                (true, if usb.len() == 0 {
                    s
                } else {
                    usb
                }, tcp)
            }
        } else {
            (c, usb, tcp)
        }
    }
}

/// The lines of an `adb devices` output after its header line.
pub open spec fn device_lines(out: Seq<char>) -> Seq<Seq<char>> {
    let ls = lines(out);
    if ls.len() > 0 {
        ls.skip(1)
    } else {
        ls
    }
}

/// What the output of `adb devices` tells: whether a device is connected,
/// and the serial to use, USB preferred over TCP/IP. The first line is
/// the `List of devices attached` header.
pub open spec fn device_scan_spec(out: Seq<char>) -> (bool, Seq<char>, Seq<char>) {
    let (c, usb, tcp) = scan_lines(device_lines(out));
    let serial = if usb.len() > 0 {
        usb
    } else {
        tcp
    };
    (c, if serial.len() > 0 {
        serial
    } else {
        "No device"@
    }, serial)
}

/// The devices adb reported.
pub struct DeviceScan {
    /// Some device is listed.
    pub connected: bool,
    /// The device shown to the user, or `No device`.
    pub device_id: String,
    /// The serial passed to adb and scrcpy with `-s`, or empty.
    pub device_serial: String,
}

impl DeviceScan {
    /// The scan's fields by their characters.
    pub open spec fn view_tuple(&self) -> (bool, Seq<char>, Seq<char>) {
        (self.connected, self.device_id@, self.device_serial@)
    }
}

/// The serial of a device line, or `unknown`.
fn serial_chars(t: &Vec<char>) -> (r: Vec<char>)
    ensures
        r@ == serial_of(t@),
{
    match text::first_word_of(t) {
        Some(w) => w,
        None => text::chars_of("unknown"),
    }
}

/// Reads the output of `adb devices`.
pub fn parse_adb_devices(stdout: &str) -> (r: DeviceScan)
    ensures
        r.view_tuple() == device_scan_spec(stdout@),
{
    let chars = text::chars_of(stdout);
    let ls = lines_of(&chars);
    let ghost all = lines(stdout@);
    let ghost body = if all.len() > 0 {
        all.skip(1)
    } else {
        all
    };
    let mut connected = false;
    let mut usb: Vec<char> = Vec::new();
    let mut tcp: Vec<char> = Vec::new();
    let mut i: usize = if ls.len() > 0 {
        1
    } else {
        0
    };
    let ghost start = i as int;
    proof {
        assert(body.take(0) =~= Seq::<Seq<char>>::empty());
    }
    while i < ls.len()
        invariant
            ls@.len() == all.len(),
            forall|k: int| 0 <= k < ls@.len() ==> #[trigger] ls@[k]@ == all[k],
            all == lines(stdout@),
            body == (if all.len() > 0 {
                all.skip(1)
            } else {
                all
            }),
            start == (if all.len() > 0 {
                1int
            } else {
                0int
            }),
            start <= i <= ls.len(),
            scan_lines(body.take(i - start)) == (connected, usb@, tcp@),
        decreases ls.len() - i,
    {
        let ghost j = i - start;
        assert(body.take(j + 1).drop_last() =~= body.take(j));
        assert(body.take(j + 1).last() == ls@[i as int]@);
        let t = text::trimmed(&ls[i]);
        let is_device = text::contains_str(&t, "device") && !text::contains_str(&t, "daemon")
            && t.len() > 0;
        if is_device {
            let serial = serial_chars(&t);
            connected = true;
            if text::contains_str(&serial, "._adb-tls-connect._tcp") {
                if tcp.len() == 0 {
                    tcp = serial;
                }
            } else {
                if usb.len() == 0 {
                    usb = serial;
                }
            }
        }
        i = i + 1;
    }
    assert(body.take(i - start) =~= body);
    let serial = if usb.len() > 0 {
        usb
    } else {
        tcp
    };
    let device_id = if serial.len() > 0 {
        text::string_of(&serial)
    } else {
        String::from_str("No device")
    };
    let device_serial = text::string_of(&serial);
    DeviceScan { connected, device_id, device_serial }
}

/// Line `i` (trimmed) lists a device.
pub open spec fn lists_device(ls: Seq<Seq<char>>, i: int) -> bool {
    is_device_line(text::trim(ls[i]))
}

/// Line `i` lists a device reached over USB.
pub open spec fn lists_usb(ls: Seq<Seq<char>>, i: int) -> bool {
    lists_device(ls, i) && !is_tcpip_serial(serial_of(text::trim(ls[i])))
}

/// Line `i` lists a device reached over TCP/IP.
pub open spec fn lists_tcpip(ls: Seq<Seq<char>>, i: int) -> bool {
    lists_device(ls, i) && is_tcpip_serial(serial_of(text::trim(ls[i])))
}

proof fn lemma_trim_start_first(s: Seq<char>)
    ensures
        text::trim_start(s).len() > 0 ==> !text::white_space(text::trim_start(s)[0]),
    decreases s.len(),
{
    if s.len() > 0 && text::white_space(s[0]) {
        lemma_trim_start_first(s.drop_first());
    }
}

proof fn lemma_trim_end_prefix(s: Seq<char>)
    ensures
        text::trim_end(s).len() <= s.len(),
        text::trim_end(s) == s.take(text::trim_end(s).len() as int),
    decreases s.len(),
{
    if s.len() > 0 && text::white_space(s.last()) {
        lemma_trim_end_prefix(s.drop_last());
        let t = text::trim_end(s.drop_last());
        assert(s.drop_last().take(t.len() as int) =~= s.take(t.len() as int));
    } else {
        assert(s.take(s.len() as int) =~= s);
    }
}

/// The serial of a listed device is never empty.
proof fn lemma_serial_nonempty(x: Seq<char>)
    requires
        text::trim(x).len() > 0,
    ensures
        serial_of(text::trim(x)).len() > 0,
{
    let y = text::trim_start(x);
    let t = text::trim(x);
    lemma_trim_end_prefix(y);
    lemma_trim_start_first(x);
    assert(y.len() > 0);
    assert(t[0] == y[0]);
    assert(!text::white_space(t[0]));
    assert(text::trim_start(t) == t);
    assert(text::word_end(t) == 1 + text::word_end(t.drop_first()));
    text::lemma_word_end_bound(t);
    text::lemma_word_end_bound(t.drop_first());
    assert(text::first_word(t) == Some(t.take(text::word_end(t))));
    assert(t.take(text::word_end(t)).len() == text::word_end(t));
    assert(serial_of(t) == t.take(text::word_end(t)));
}

/// Reading the lines: a device is reported exactly when a line lists one;
/// the USB serial is that of the first line listing a USB device, the
/// TCP/IP serial that of the first listing a TCP/IP device, and each is
/// empty exactly when no such line exists.
pub proof fn lemma_scan_lines(ls: Seq<Seq<char>>)
    ensures
        ({
            let (c, usb, tcp) = scan_lines(ls);
            &&& c <==> exists|i: int| 0 <= i < ls.len() && lists_device(ls, i)
            &&& usb.len() > 0 <==> exists|i: int| 0 <= i < ls.len() && lists_usb(ls, i)
            &&& tcp.len() > 0 <==> exists|i: int| 0 <= i < ls.len() && lists_tcpip(ls, i)
            &&& usb.len() > 0 ==> exists|i: int|
                0 <= i < ls.len() && lists_usb(ls, i) && usb == serial_of(text::trim(ls[i]))
                    && forall|j: int| 0 <= j < i ==> !lists_usb(ls, j)
            &&& tcp.len() > 0 ==> exists|i: int|
                0 <= i < ls.len() && lists_tcpip(ls, i) && tcp == serial_of(text::trim(ls[i]))
                    && forall|j: int| 0 <= j < i ==> !lists_tcpip(ls, j)
        }),
    decreases ls.len(),
{
    if ls.len() > 0 {
        let init = ls.drop_last();
        let n = ls.len() - 1;
        lemma_scan_lines(init);
        assert forall|i: int| 0 <= i < n implies (lists_device(ls, i) == lists_device(init, i))
            && (lists_usb(ls, i) == lists_usb(init, i)) && (lists_tcpip(ls, i) == lists_tcpip(
            init,
            i,
        )) by {
            assert(ls[i] == init[i]);
        }
        assert(ls.last() == ls[n]);
        if lists_device(ls, n) {
            lemma_serial_nonempty(ls[n]);
        }
        let (c0, u0, t0) = scan_lines(init);
        let (c, usb, tcp) = scan_lines(ls);
        if c {
            if !lists_device(ls, n) {
                let i = choose|i: int| 0 <= i < init.len() && lists_device(init, i);
                assert(lists_device(ls, i));
            }
        }
        if exists|i: int| 0 <= i < ls.len() && lists_device(ls, i) {
            let i = choose|i: int| 0 <= i < ls.len() && lists_device(ls, i);
            if i < n {
                assert(lists_device(init, i));
            }
        }
        if exists|i: int| 0 <= i < ls.len() && lists_usb(ls, i) {
            let i = choose|i: int| 0 <= i < ls.len() && lists_usb(ls, i);
            if i < n {
                assert(lists_usb(init, i));
            }
        }
        if exists|i: int| 0 <= i < ls.len() && lists_tcpip(ls, i) {
            let i = choose|i: int| 0 <= i < ls.len() && lists_tcpip(ls, i);
            if i < n {
                assert(lists_tcpip(init, i));
            }
        }
        if u0.len() > 0 {
            let i = choose|i: int|
                0 <= i < init.len() && lists_usb(init, i) && u0 == serial_of(text::trim(init[i]))
                    && forall|j: int| 0 <= j < i ==> !lists_usb(init, j);
            assert(lists_usb(ls, i) && usb == serial_of(text::trim(ls[i])));
            assert forall|j: int| 0 <= j < i implies !lists_usb(ls, j) by {
                assert(!lists_usb(init, j));
            }
        } else if usb.len() > 0 {
            assert(lists_usb(ls, n));
            assert forall|j: int| 0 <= j < n implies !lists_usb(ls, j) by {
                assert(!lists_usb(init, j));
            }
        }
        if t0.len() > 0 {
            let i = choose|i: int|
                0 <= i < init.len() && lists_tcpip(init, i) && t0 == serial_of(text::trim(init[i]))
                    && forall|j: int| 0 <= j < i ==> !lists_tcpip(init, j);
            assert(lists_tcpip(ls, i) && tcp == serial_of(text::trim(ls[i])));
            assert forall|j: int| 0 <= j < i implies !lists_tcpip(ls, j) by {
                assert(!lists_tcpip(init, j));
            }
        } else if tcp.len() > 0 {
            assert(lists_tcpip(ls, n));
            assert forall|j: int| 0 <= j < n implies !lists_tcpip(ls, j) by {
                assert(!lists_tcpip(init, j));
            }
        }
    }
}

/// Device choice: a device counts as connected exactly when a line after
/// the header lists one, and then a serial is chosen; the serial is a USB
/// device's whenever one is listed (so scrcpy is never pointed at the
/// wireless connection of a phone that is also plugged in); with no
/// device, the id reads `No device` and no serial is passed.
pub proof fn lemma_device_choice(out: Seq<char>)
    ensures
        ({
            let body = device_lines(out);
            let (c, id, serial) = device_scan_spec(out);
            &&& c <==> exists|i: int| 0 <= i < body.len() && lists_device(body, i)
            &&& c ==> serial.len() > 0 && id == serial
            &&& !c ==> serial.len() == 0 && id == "No device"@
            &&& (exists|i: int| 0 <= i < body.len() && lists_usb(body, i)) ==> exists|i: int|
                0 <= i < body.len() && lists_usb(body, i) && serial == serial_of(text::trim(body[i]))
        }),
{
    let body = device_lines(out);
    lemma_scan_lines(body);
    let (c, u, t) = scan_lines(body);
    let (c2, id, serial) = device_scan_spec(out);
    assert(c2 == c);
    assert(serial == (if u.len() > 0 {
        u
    } else {
        t
    }));
    if c {
        let i = choose|i: int| 0 <= i < body.len() && lists_device(body, i);
        if !lists_usb(body, i) {
            assert(lists_tcpip(body, i));
        }
        assert(serial.len() > 0);
    } else {
        if u.len() > 0 {
            let i = choose|i: int| 0 <= i < body.len() && lists_usb(body, i);
            assert(lists_device(body, i));
        }
        if t.len() > 0 {
            let i = choose|i: int| 0 <= i < body.len() && lists_tcpip(body, i);
            assert(lists_device(body, i));
        }
        assert(serial.len() == 0);
    }
    if exists|i: int| 0 <= i < body.len() && lists_usb(body, i) {
        assert(u.len() > 0);
        let i = choose|i: int|
            0 <= i < body.len() && lists_usb(body, i) && u == serial_of(text::trim(body[i]))
                && forall|j: int| 0 <= j < i ==> !lists_usb(body, j);
        assert(serial == serial_of(text::trim(body[i])));
        assert(lists_usb(body, i));
        assert(exists|k: int|
            0 <= k < body.len() && lists_usb(body, k) && serial == serial_of(text::trim(body[k])));
    }
}

/// What `refresh` learns from running `adb devices`: nothing when adb
/// could not be run.
pub open spec fn adb_output_scan(stdout: Option<Seq<u8>>) -> (bool, Seq<char>, Seq<char>) {
    match stdout {
        Some(b) => device_scan_spec(lossy_text(b)),
        None => (false, "No device"@, Seq::<char>::empty()),
    }
}

/// Reads the standard output of `adb devices`, or `None` when adb could
/// not be run.
pub fn scan_adb_output(stdout: Option<Vec<u8>>) -> (r: DeviceScan)
    ensures
        r.view_tuple() == adb_output_scan(
            match stdout {
                Some(b) => Some(b@),
                None => None,
            },
        ),
{
    match stdout {
        Some(bytes) => {
            let text = utf8_lossy(bytes.as_slice());
            parse_adb_devices(text.as_str())
        },
        None => DeviceScan {
            connected: false,
            device_id: String::from_str("No device"),
            device_serial: String::new(),
        },
    }
}

// ───────────────────────── running mirror ─────────────────────────

/// A lowercased Windows task list shows scrcpy.
pub open spec fn listing_shows_scrcpy_spec(lowered: Seq<char>) -> bool {
    text::contains_text(lowered, "scrcpy"@)
}

/// Whether a lowercased task list mentions scrcpy.
pub fn listing_shows_scrcpy(lowered: &str) -> (r: bool)
    ensures
        r == listing_shows_scrcpy_spec(lowered@),
{
    let chars = text::chars_of(lowered);
    text::contains_str(&chars, "scrcpy")
}

/// `pgrep` printed some process id.
pub fn pgrep_found(listing: &str) -> (r: bool)
    ensures
        r == (text::trim(listing@).len() > 0),
{
    let chars = text::chars_of(listing);
    let t = text::trimmed(&chars);
    t.len() > 0
}

/// Whether scrcpy runs, from the output of the process lister: `tasklist`
/// on Windows, `pgrep -x scrcpy` elsewhere (`None`: it could not be run).
pub open spec fn mirror_running_spec(platform: Platform, stdout: Option<Seq<u8>>) -> bool {
    match stdout {
        None => false,
        Some(b) => if platform == Platform::Windows {
            listing_shows_scrcpy_spec(lowercase_text(lossy_text(b)))
        } else {
            text::trim(lossy_text(b)).len() > 0
        },
    }
}

/// What the process lister's output says: nothing when it could not be run;
/// on Windows, whether the lowercased task list mentions `scrcpy`; on every
/// other platform, whether `pgrep` printed anything but white space.
pub proof fn lemma_mirror_running_by_platform(platform: Platform, stdout: Seq<u8>)
    ensures
        !mirror_running_spec(platform, None),
        platform != Platform::Windows ==> (mirror_running_spec(platform, Some(stdout)) <==> exists|
            i: int,
        |
            0 <= i < lossy_text(stdout).len() && !text::white_space(
                #[trigger] lossy_text(stdout)[i],
            )),
        platform == Platform::Windows ==> (mirror_running_spec(platform, Some(stdout)) <==> exists|
            i: int,
        |
            0 <= i && i + 6 <= lowercase_text(lossy_text(stdout)).len() && #[trigger] lowercase_text(
                lossy_text(stdout),
            ).subrange(i, i + 6) == "scrcpy"@),
{
    text::lemma_trim_nonempty(lossy_text(stdout));
    reveal_strlit("scrcpy");
    let low = lowercase_text(lossy_text(stdout));
    assert("scrcpy"@.len() == 6);
    if text::contains_text(low, "scrcpy"@) {
        let i = choose|i: int| text::occurs_at(low, "scrcpy"@, i);
        assert(low.subrange(i, i + 6) == "scrcpy"@);
    }
    if exists|i: int| 0 <= i && i + 6 <= low.len() && #[trigger] low.subrange(i, i + 6) == "scrcpy"@ {
        let i = choose|i: int|
            0 <= i && i + 6 <= low.len() && #[trigger] low.subrange(i, i + 6) == "scrcpy"@;
        assert(text::occurs_at(low, "scrcpy"@, i));
    }
}

/// Whether scrcpy runs, from the process lister's standard output.
pub fn mirror_running_from_output(platform: Platform, stdout: Option<Vec<u8>>) -> (r: bool)
    ensures
        r == mirror_running_spec(
            platform,
            match stdout {
                Some(b) => Some(b@),
                None => None,
            },
        ),
{
    match stdout {
        None => false,
        Some(bytes) => {
            let text = utf8_lossy(bytes.as_slice());
            if platform == Platform::Windows {
                let lowered = to_lowercase(text.as_str());
                listing_shows_scrcpy(lowered.as_str())
            } else {
                pgrep_found(text.as_str())
            }
        },
    }
}

/// The process lister to run: program and arguments.
pub fn process_list_command(platform: Platform) -> (r: (String, Vec<String>))
    ensures
        platform == Platform::Windows ==> r.0@ == "tasklist"@ && r.1@.len() == 0,
        platform != Platform::Windows ==> r.0@ == "pgrep"@ && text::strings_view(r.1@) == seq![
            "-x"@,
            "scrcpy"@,
        ],
{
    if platform == Platform::Windows {
        (String::from_str("tasklist"), Vec::new())
    } else {
        let mut args: Vec<String> = Vec::new();
        args.push(String::from_str("-x"));
        args.push(String::from_str("scrcpy"));
        assert(text::strings_view(args@) =~= seq!["-x"@, "scrcpy"@]);
        (String::from_str("pgrep"), args)
    }
}

} // verus!
