//! The window icon and the tray icon, drawn pixel by pixel.
//!
//! The window icon is a 64×64 phone: a body, a screen with a diagonal
//! reflection, and a round home button. Its regions are stated on whole
//! pixel coordinates, where the drawing's comparisons are exact.
use vstd::prelude::*;

verus! {

/// An RGBA image, four bytes per pixel, row by row.
pub struct IconImage {
    pub rgba: Vec<u8>,
    pub width: u32,
    pub height: u32,
}

/// The phone's body.
pub open spec fn in_phone(x: int, y: int) -> bool {
    18 <= x <= 46 && 6 <= y <= 56
}

/// The phone's screen.
pub open spec fn in_screen(x: int, y: int) -> bool {
    21 <= x <= 43 && 12 <= y <= 50
}

/// The two reflection strokes across the middle of the screen: within 2.5
/// pixels of the lines `y = x - 10` and `y = 72 - x`.
pub open spec fn in_reflection(x: int, y: int) -> bool {
    &&& in_screen(x, y)
    &&& 22 < y < 40
    &&& 26 < x < 40
    &&& (-2 <= y - x + 10 <= 2 || -2 <= y + x - 72 <= 2)
}

/// The home button: closer than √6 to (32, 53).
pub open spec fn in_home(x: int, y: int) -> bool {
    (x - 32) * (x - 32) + (y - 53) * (y - 53) < 6
}

/// The colour of pixel (x, y); the first region that holds it decides.
pub open spec fn icon_pixel(x: int, y: int) -> (u8, u8, u8, u8) {
    if in_reflection(x, y) {
        (100, 180, 255, 230)
    } else if in_screen(x, y) {
        (15, 18, 30, 255)
    } else if in_home(x, y) {
        (60, 70, 100, 255)
    } else if in_phone(x, y) {
        (40, 50, 70, 255)
    } else {
        (0, 0, 0, 0)
    }
}

/// Byte `k` (red, green, blue, alpha) of a colour.
pub open spec fn channel(c: (u8, u8, u8, u8), k: int) -> u8 {
    if k == 0 {
        c.0
    } else if k == 1 {
        c.1
    } else if k == 2 {
        c.2
    } else {
        c.3
    }
}

fn pixel_color(x: i32, y: i32) -> (c: (u8, u8, u8, u8))
    requires
        0 <= x < 64,
        0 <= y < 64,
    ensures
        c == icon_pixel(x as int, y as int),
{
    let in_phone = x >= 18 && x <= 46 && y >= 6 && y <= 56;
    let in_screen = x >= 21 && x <= 43 && y >= 12 && y <= 50;
    let d1 = y - x + 10;
    let d2 = y + x - 72;
    let in_reflection = in_screen && y > 22 && y < 40 && x > 26 && x < 40 && ((-2 <= d1 && d1
        <= 2) || (-2 <= d2 && d2 <= 2));
    let dx = x - 32;
    let dy = y - 53;
    assert(0 <= dx * dx <= 1024 && 0 <= dy * dy <= 2809) by (nonlinear_arith)
        requires
            -32 <= dx < 32,
            -53 <= dy < 11,
    ;
    let in_home = dx * dx + dy * dy < 6;
    if in_reflection {
        (100, 180, 255, 230)
    } else if in_screen {
        (15, 18, 30, 255)
    } else if in_home {
        (60, 70, 100, 255)
    } else if in_phone {
        (40, 50, 70, 255)
    } else {
        (0, 0, 0, 0)
    }
}

/// The 64×64 window icon.
pub fn load_icon() -> (r: IconImage)
    ensures
        r.width == 64,
        r.height == 64,
        r.rgba@.len() == 64 * 64 * 4,
        forall|q: int, k: int|
            0 <= q < 64 * 64 && 0 <= k < 4 ==> #[trigger] r.rgba@[4 * q + k] == channel(
                icon_pixel(q % 64, q / 64),
                k,
            ),
{
    let mut rgba: Vec<u8> = Vec::new();
    let mut p: i32 = 0;
    while p < 64 * 64
        invariant
            0 <= p <= 64 * 64,
            rgba@.len() == 4 * p,
            forall|q: int, k: int|
                0 <= q < p && 0 <= k < 4 ==> #[trigger] rgba@[4 * q + k] == channel(
                    icon_pixel(q % 64, q / 64),
                    k,
                ),
        decreases 64 * 64 - p,
    {
        let x = p % 64;
        let y = p / 64;
        let c = pixel_color(x, y);
        let ghost before = rgba@;
        rgba.push(c.0);
        rgba.push(c.1);
        rgba.push(c.2);
        rgba.push(c.3);
        assert forall|q: int, k: int| 0 <= q < p + 1 && 0 <= k < 4 implies #[trigger] rgba@[4 * q
            + k] == channel(icon_pixel(q % 64, q / 64), k) by {
            if q < p {
                assert(rgba@[4 * q + k] == before[4 * q + k]);
            } else {
                assert(q == p);
            }
        }
        p = p + 1;
    }
    IconImage { rgba, width: 64, height: 64 }
}

/// The 16×16 tray icon: bright red, opaque.
pub fn load_tray_icon_data() -> (r: IconImage)
    ensures
        r.width == 16,
        r.height == 16,
        r.rgba@.len() == 16 * 16 * 4,
        forall|q: int, k: int|
            0 <= q < 16 * 16 && 0 <= k < 4 ==> #[trigger] r.rgba@[4 * q + k] == channel(
                (255u8, 50u8, 50u8, 255u8),
                k,
            ),
{
    let mut rgba: Vec<u8> = Vec::new();
    let mut p: usize = 0;
    while p < 16 * 16
        invariant
            p <= 16 * 16,
            rgba@.len() == 4 * p,
            forall|q: int, k: int|
                0 <= q < p && 0 <= k < 4 ==> #[trigger] rgba@[4 * q + k] == channel(
                    (255u8, 50u8, 50u8, 255u8),
                    k,
                ),
        decreases 16 * 16 - p,
    {
        let ghost before = rgba@;
        rgba.push(255);
        rgba.push(50);
        rgba.push(50);
        rgba.push(255);
        assert forall|q: int, k: int| 0 <= q < p + 1 && 0 <= k < 4 implies #[trigger] rgba@[4 * q
            + k] == channel((255u8, 50u8, 50u8, 255u8), k) by {
            if q < p {
                assert(rgba@[4 * q + k] == before[4 * q + k]);
            }
        }
        p = p + 1;
    }
    IconImage { rgba, width: 16, height: 16 }
}

} // verus!
