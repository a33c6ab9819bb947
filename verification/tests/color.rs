use mesh::color::{Color, ToColor};

#[test]
fn u32_is_read_little_endian() {
    assert_eq!(Color::new(0x04030201u32).channels(), [1, 2, 3, 4]);
    assert_eq!(0xFF00FF80u32.to_color().channels(), [0x80, 0xFF, 0x00, 0xFF]);
}

#[test]
fn i32_is_read_big_endian() {
    assert_eq!(Color::new(0x01020304i32).channels(), [1, 2, 3, 4]);
    assert_eq!(Color::new(0x18181818i32).channels(), [0x18, 0x18, 0x18, 0x18]);
}

#[test]
fn negative_i32_keeps_its_top_byte() {
    assert_eq!(Color::new(-1i32).channels(), [255, 255, 255, 255]);
    assert_eq!(Color::new(i32::MIN).channels(), [0x80, 0, 0, 0]);
    assert_eq!(Color::new(-2i32).channels(), [255, 255, 255, 254]);
}

#[test]
fn a_color_reads_as_itself() {
    let c = Color::new(0x11223344u32);
    assert_eq!(Color::new(c.clone()), c);
    assert_eq!(c.to_color().channels(), [0x44, 0x33, 0x22, 0x11]);
}

#[test]
fn default_color_is_transparent_black() {
    assert_eq!(Color::default().channels(), [0, 0, 0, 0]);
    assert_eq!(Color::default(), Color::new(0u32));
}

#[test]
fn box_background_colour() {
    assert_eq!(Color::new(0x18181818u32).channels(), [0x18; 4]);
}

#[test]
fn hover_colours_differ() {
    let magenta = Color::new(0xFFFF00FFu32);
    let white = Color::new(0xFFFFFFFFu32);
    assert_eq!(magenta.channels(), [255, 0, 255, 255]);
    assert!(magenta != white);
    assert!(white == Color::new(-1i32));
}

#[test]
fn u32_colour_packs_back_to_the_same_word() {
    for x in [0u32, 1, 0x04030201, 0xDEADBEEF, u32::MAX, 0x80000000] {
        let [r, g, b, a] = Color::new(x).channels();
        assert_eq!(x, (r as u32) | ((g as u32) << 8) | ((b as u32) << 16) | ((a as u32) << 24));
    }
}

#[test]
fn i32_colour_is_u32_colour_reversed() {
    for x in [0i32, 1, -1, 0x01020304, i32::MIN, i32::MAX, -0x1234567] {
        let [r, g, b, a] = Color::new(x as u32).channels();
        assert_eq!(Color::new(x).channels(), [a, b, g, r]);
    }
}
