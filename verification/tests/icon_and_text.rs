use phonemirror::icon::{load_icon, load_tray_icon_data};
use phonemirror::text::{decimal_string, first_word_of, is_whitespace, join_strings, split_chars, trimmed};

fn pixel(img: &[u8], x: usize, y: usize) -> [u8; 4] {
    let i = 4 * (64 * y + x);
    [img[i], img[i + 1], img[i + 2], img[i + 3]]
}

#[test]
fn window_icon_regions() {
    let icon = load_icon();
    assert_eq!((icon.width, icon.height), (64, 64));
    assert_eq!(icon.rgba.len(), 64 * 64 * 4);
    assert_eq!(pixel(&icon.rgba, 0, 0), [0, 0, 0, 0]);
    assert_eq!(pixel(&icon.rgba, 19, 30), [40, 50, 70, 255]);
    assert_eq!(pixel(&icon.rgba, 30, 15), [15, 18, 30, 255]);
    assert_eq!(pixel(&icon.rgba, 35, 25), [100, 180, 255, 230]);
    assert_eq!(pixel(&icon.rgba, 32, 53), [60, 70, 100, 255]);
    assert_eq!(pixel(&icon.rgba, 34, 54), [60, 70, 100, 255]);
    assert_eq!(pixel(&icon.rgba, 35, 53), [40, 50, 70, 255]);
}

#[test]
fn window_icon_matches_float_drawing() {
    let icon = load_icon();
    for y in 0..64u32 {
        for x in 0..64u32 {
            let fx = x as f32;
            let fy = y as f32;
            let in_phone = fx >= 18.0 && fx <= 46.0 && fy >= 6.0 && fy <= 56.0;
            let in_screen = fx >= 21.0 && fx <= 43.0 && fy >= 12.0 && fy <= 50.0;
            let in_reflection = in_screen && fy > 22.0 && fy < 40.0 && fx > 26.0 && fx < 40.0
                && ((fy - fx + 10.0).abs() < 2.5 || (fy + fx - 72.0).abs() < 2.5);
            let in_home = (fx - 32.0).powi(2) + (fy - 53.0).powi(2) < 6.0;
            let expected = if in_reflection {
                [100, 180, 255, 230]
            } else if in_screen {
                [15, 18, 30, 255]
            } else if in_home {
                [60, 70, 100, 255]
            } else if in_phone {
                [40, 50, 70, 255]
            } else {
                [0, 0, 0, 0]
            };
            assert_eq!(pixel(&icon.rgba, x as usize, y as usize), expected, "pixel {x},{y}");
        }
    }
}

#[test]
fn tray_icon_is_red() {
    let icon = load_tray_icon_data();
    assert_eq!((icon.width, icon.height), (16, 16));
    assert_eq!(icon.rgba.len(), 1024);
    assert!(icon.rgba.chunks(4).all(|p| p == [255, 50, 50, 255]));
}

#[test]
fn decimal_numbers() {
    assert_eq!(decimal_string(0), "0");
    assert_eq!(decimal_string(-42), "-42");
    assert_eq!(decimal_string(i32::MAX), "2147483647");
    assert_eq!(decimal_string(i32::MIN), "-2147483648");
}

#[test]
fn split_join_trim_words() {
    let s: Vec<char> = "a::b".chars().collect();
    let parts = split_chars(&s, ':');
    let parts: Vec<String> = parts.iter().map(|p| p.iter().collect()).collect();
    assert_eq!(parts, vec!["a", "", "b"]);
    assert_eq!(join_strings(&parts, ':'), "a::b");
    let t: Vec<char> = " \t x y \r\n".chars().collect();
    assert_eq!(trimmed(&t).iter().collect::<String>(), "x y");
    assert_eq!(first_word_of(&t).map(|w| w.iter().collect::<String>()), Some("x".to_string()));
    let blank: Vec<char> = " \u{3000}".chars().collect();
    assert_eq!(first_word_of(&blank), None);
}

#[test]
fn white_space_agrees_with_std_on_every_char() {
    for n in 0u32..=0x10FFFF {
        if let Some(c) = char::from_u32(n) {
            assert_eq!(is_whitespace(c), c.is_whitespace(), "U+{:04X}", n);
        }
    }
}
