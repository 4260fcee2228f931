use soft_ratatui::{Cell, Color, Modifier, RenderError, SoftBackend};

const FONT: &str = "STARTFONT 2.1
FONT testfont
SIZE 13 75 75
FONTBOUNDINGBOX 2 13 0 0
CHARS 1
STARTCHAR capA
ENCODING 65
SWIDTH 500 0
DWIDTH 2 0
BBX 2 13 0 0
BITMAP
80
00
00
00
00
00
00
00
00
00
00
00
40
ENDCHAR
ENDFONT
";

#[test]
fn bdf_backend_renders_bitmap_bits_as_ink() {
    let mut e = SoftBackend::new(2, 1, (2, 13), FONT).expect("font parses");
    let content = vec![(
        0u16,
        0u16,
        Cell::new(vec!['A'], Color::White, Color::Black, Modifier::empty()),
    )];
    e.draw(&content).unwrap();
    assert_eq!(e.rgb_pixmap.get_pixel(0, 0), [255, 255, 255]);
    assert_eq!(e.rgb_pixmap.get_pixel(1, 0), [0, 0, 0]);
    assert_eq!(e.rgb_pixmap.get_pixel(0, 12), [0, 0, 0]);
    assert_eq!(e.rgb_pixmap.get_pixel(1, 12), [255, 255, 255]);
}

#[test]
fn missing_glyph_degrades_to_background_only() {
    let mut e = SoftBackend::new(1, 1, (2, 13), FONT).expect("font parses");
    let content = vec![(
        0u16,
        0u16,
        Cell::new(vec!['Z'], Color::White, Color::Green, Modifier::empty()),
    )];
    e.draw(&content).unwrap();
    for x in 0..2 {
        for y in 0..13 {
            assert_eq!(e.rgb_pixmap.get_pixel(x, y), [0, 100, 0]);
        }
    }
}

#[test]
fn unparseable_font_is_a_construction_error() {
    let r = SoftBackend::new(1, 1, (2, 13), "not a bdf font");
    assert!(matches!(r, Err(RenderError::FontParse)));
}

#[test]
fn short_glyph_sits_on_the_baseline() {
    let short_font: &str = "STARTFONT 2.1
FONT shortfont
SIZE 13 75 75
FONTBOUNDINGBOX 1 1 0 0
CHARS 1
STARTCHAR dot
ENCODING 46
SWIDTH 500 0
DWIDTH 1 0
BBX 1 1 0 0
BITMAP
80
ENDCHAR
ENDFONT
";
    let mut e = SoftBackend::new(1, 1, (1, 13), short_font).expect("font parses");
    let content = vec![(
        0u16,
        0u16,
        Cell::new(vec!['.'], Color::White, Color::Black, Modifier::empty()),
    )];
    e.draw(&content).unwrap();
    for y in 0..12 {
        assert_eq!(e.rgb_pixmap.get_pixel(0, y), [0, 0, 0]);
    }
    assert_eq!(e.rgb_pixmap.get_pixel(0, 12), [255, 255, 255]);
}
