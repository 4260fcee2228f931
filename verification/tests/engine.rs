use soft_ratatui::{Cell, Color, GlyphMask, Modifier, Rasterizer, SoftBackend};

/// A deterministic test rasterizer: for any non-blank text it returns a
/// cell-sized mask with full coverage on the cell's top-left pixel and
/// none elsewhere; blanks have no glyph.
struct PatternRaster {
    w: usize,
    h: usize,
}

impl Rasterizer for PatternRaster {
    fn cell_size(&self) -> (usize, usize) {
        (self.w, self.h)
    }

    fn set_font_size(&mut self, font_size: i32) -> (usize, usize) {
        self.w = font_size as usize;
        self.h = font_size as usize;
        (self.w, self.h)
    }

    fn rasterize(&mut self, text: &[char], _bold: bool, _italic: bool) -> Option<GlyphMask> {
        if text.is_empty() || text[0] == ' ' {
            return None;
        }
        let mut data = vec![0u8; self.w * self.h];
        if !data.is_empty() {
            data[0] = 255;
        }
        Some(GlyphMask {
            left: 0,
            top: 0,
            width: self.w,
            height: self.h,
            data,
        })
    }
}

fn engine(cols: u16, rows: u16) -> SoftBackend<PatternRaster> {
    SoftBackend::with_cell_size(PatternRaster { w: 2, h: 2 }, cols, rows, 2, 2)
        .expect("engine fits")
}

fn plain(sym: char, fg: Color, bg: Color) -> Cell {
    Cell::new(vec![sym], fg, bg, Modifier::empty())
}

fn with_mod(sym: char, fg: Color, bg: Color, m: Modifier) -> Cell {
    Cell::new(vec![sym], fg, bg, m)
}

const DEFAULT_BG: [u8; 3] = [150, 15, 112];

#[test]
fn fresh_engine_is_default_background() {
    let e = engine(2, 2);
    for x in 0..4 {
        for y in 0..4 {
            assert_eq!(e.rgb_pixmap.get_pixel(x, y), DEFAULT_BG);
        }
    }
    assert_eq!(e.size(), (2, 2));
}

#[test]
fn unmodified_cell_paints_background_and_ink() {
    let mut e = engine(1, 1);
    let content = vec![(0u16, 0u16, plain('A', Color::White, Color::Black))];
    e.draw(&content).unwrap();
    assert_eq!(e.rgb_pixmap.get_pixel(0, 0), [255, 255, 255]);
    assert_eq!(e.rgb_pixmap.get_pixel(1, 0), [0, 0, 0]);
    assert_eq!(e.rgb_pixmap.get_pixel(0, 1), [0, 0, 0]);
    assert_eq!(e.rgb_pixmap.get_pixel(1, 1), [0, 0, 0]);
}

#[test]
fn blank_cell_paints_background_only() {
    let mut e = engine(1, 1);
    let content = vec![(0u16, 0u16, plain(' ', Color::White, Color::Green))];
    e.draw(&content).unwrap();
    for x in 0..2 {
        for y in 0..2 {
            assert_eq!(e.rgb_pixmap.get_pixel(x, y), [0, 100, 0]);
        }
    }
}

#[test]
fn dim_renders_identically_on_repeated_draws() {
    let mut e = engine(1, 1);
    let mut m = Modifier::empty();
    m.dim = true;
    let content = vec![(0u16, 0u16, with_mod('A', Color::White, Color::Black, m))];
    e.draw(&content).unwrap();
    assert_eq!(e.rgb_pixmap.get_pixel(0, 0), [77, 77, 77]);
    assert_eq!(e.rgb_pixmap.get_pixel(1, 1), [0, 0, 0]);
    e.draw(&content).unwrap();
    e.draw(&content).unwrap();
    assert_eq!(e.rgb_pixmap.get_pixel(0, 0), [77, 77, 77]);
    assert_eq!(e.rgb_pixmap.get_pixel(1, 1), [0, 0, 0]);
}

#[test]
fn hidden_forces_uniform_background() {
    let mut e = engine(1, 1);
    let mut m = Modifier::empty();
    m.hidden = true;
    let content = vec![(0u16, 0u16, with_mod('A', Color::White, Color::Blue, m))];
    e.draw(&content).unwrap();
    for x in 0..2 {
        for y in 0..2 {
            assert_eq!(e.rgb_pixmap.get_pixel(x, y), [0, 0, 139]);
        }
    }
}

#[test]
fn hidden_with_reset_background_is_uniform() {
    let mut e = engine(1, 1);
    let mut m = Modifier::empty();
    m.hidden = true;
    let content = vec![(0u16, 0u16, with_mod('A', Color::White, Color::Reset, m))];
    e.draw(&content).unwrap();
    for x in 0..2 {
        for y in 0..2 {
            assert_eq!(e.rgb_pixmap.get_pixel(x, y), [150, 15, 112]);
        }
    }
}

#[test]
fn hidden_with_reversed_is_uniform_in_swapped_background() {
    let mut e = engine(1, 1);
    let mut m = Modifier::empty();
    m.hidden = true;
    m.reversed = true;
    let content = vec![(0u16, 0u16, with_mod('A', Color::White, Color::Black, m))];
    e.draw(&content).unwrap();
    for x in 0..2 {
        for y in 0..2 {
            assert_eq!(e.rgb_pixmap.get_pixel(x, y), [255, 255, 255]);
        }
    }
}

#[test]
fn slow_blink_hides_inside_window_and_shows_outside() {
    let mut e = engine(1, 1);
    let mut m = Modifier::empty();
    m.slow_blink = true;
    let content = vec![(0u16, 0u16, with_mod('A', Color::White, Color::Black, m))];

    e.blink_counter = 19;
    e.draw(&content).unwrap();
    assert_eq!(e.blink_counter, 20);
    for x in 0..2 {
        for y in 0..2 {
            assert_eq!(e.rgb_pixmap.get_pixel(x, y), [0, 0, 0]);
        }
    }

    e.blink_counter = 150;
    e.draw(&content).unwrap();
    assert_eq!(e.blink_counter, 151);
    assert_eq!(e.rgb_pixmap.get_pixel(0, 0), [255, 255, 255]);
}

#[test]
fn rapid_blink_follows_mod_100_window() {
    let mut e = engine(1, 1);
    let mut m = Modifier::empty();
    m.rapid_blink = true;
    let content = vec![(0u16, 0u16, with_mod('A', Color::White, Color::Black, m))];

    e.blink_counter = 99;
    e.draw(&content).unwrap();
    assert_eq!(e.blink_counter, 100);
    assert_eq!(e.rgb_pixmap.get_pixel(0, 0), [0, 0, 0]);

    e.blink_counter = 50;
    e.draw(&content).unwrap();
    assert_eq!(e.rgb_pixmap.get_pixel(0, 0), [255, 255, 255]);
}

#[test]
fn blinking_cell_is_repainted_without_new_changes() {
    let mut e = engine(1, 1);
    let mut m = Modifier::empty();
    m.slow_blink = true;
    let content = vec![(0u16, 0u16, with_mod('A', Color::White, Color::Black, m))];

    e.blink_counter = 21;
    e.draw(&content).unwrap();
    assert_eq!(e.blink_counter, 22);
    assert_eq!(e.rgb_pixmap.get_pixel(0, 0), [0, 0, 0]);

    let empty: Vec<(u16, u16, Cell)> = Vec::new();
    e.draw(&empty).unwrap();
    e.draw(&empty).unwrap();
    e.draw(&empty).unwrap();
    e.draw(&empty).unwrap();
    assert_eq!(e.blink_counter, 26);
    assert_eq!(e.rgb_pixmap.get_pixel(0, 0), [255, 255, 255]);
}

#[test]
fn resize_reports_exact_pixel_dimensions() {
    let mut e = engine(2, 3);
    e.resize(4, 5);
    let ws = e.window_size();
    assert_eq!(ws.cols, 4);
    assert_eq!(ws.rows, 5);
    assert_eq!(ws.pixel_width, 4 * 2);
    assert_eq!(ws.pixel_height, 5 * 2);
    assert_eq!(e.size(), (4, 5));
}

#[test]
fn set_font_size_rescales_canvas() {
    let mut e = engine(2, 2);
    assert!(e.set_font_size(3));
    let ws = e.window_size();
    assert_eq!(ws.pixel_width, 2 * 3);
    assert_eq!(ws.pixel_height, 2 * 3);
}

#[test]
fn clear_restores_default_background_everywhere() {
    let mut e = engine(2, 1);
    let content = vec![
        (0u16, 0u16, plain('A', Color::White, Color::Black)),
        (1u16, 0u16, plain('B', Color::Red, Color::Green)),
    ];
    e.draw(&content).unwrap();
    e.clear().unwrap();
    for x in 0..4 {
        for y in 0..2 {
            assert_eq!(e.rgb_pixmap.get_pixel(x, y), DEFAULT_BG);
        }
    }
}

#[test]
fn reversed_cell_matches_plain_cell_with_swapped_declaration() {
    let mut e = engine(2, 1);
    let mut rev = Modifier::empty();
    rev.reversed = true;
    let content = vec![
        (0u16, 0u16, plain('A', Color::White, Color::Black)),
        (1u16, 0u16, with_mod('B', Color::Black, Color::White, rev)),
    ];
    e.draw(&content).unwrap();
    assert_eq!(e.rgb_pixmap.get_pixel(0, 0), [255, 255, 255]);
    assert_eq!(e.rgb_pixmap.get_pixel(1, 0), [0, 0, 0]);
    assert_eq!(e.rgb_pixmap.get_pixel(0, 1), [0, 0, 0]);
    assert_eq!(e.rgb_pixmap.get_pixel(1, 1), [0, 0, 0]);
    for x in 0..2 {
        for y in 0..2 {
            assert_eq!(
                e.rgb_pixmap.get_pixel(2 + x, y),
                e.rgb_pixmap.get_pixel(x, y)
            );
        }
    }
}

#[test]
fn cursor_is_pure_bookkeeping() {
    let mut e = engine(2, 2);
    let before = e.rgb_pixmap.data().to_vec();
    e.show_cursor();
    e.set_cursor_position(1, 1);
    assert!(e.cursor);
    assert_eq!(e.get_cursor_position(), (1, 1));
    e.hide_cursor();
    assert!(!e.cursor);
    assert_eq!(e.rgb_pixmap.data(), &before[..]);
}

#[test]
fn rgba_output_is_opaque() {
    let e = engine(1, 1);
    let rgba = e.get_pixmap_data_as_rgba();
    assert_eq!(rgba.len(), 2 * 2 * 4);
    for q in 0..4 {
        assert_eq!(rgba[4 * q + 3], 255);
        assert_eq!(
            &rgba[4 * q..4 * q + 3],
            &[DEFAULT_BG[0], DEFAULT_BG[1], DEFAULT_BG[2]]
        );
    }
    assert_eq!(e.get_pixmap_width(), 2);
    assert_eq!(e.get_pixmap_height(), 2);
}

/// A rasterizer that records what it is asked to draw and produces no
/// glyphs.
struct RecordingRaster {
    last_text: Vec<char>,
    last_bold: bool,
    last_italic: bool,
}

impl Rasterizer for RecordingRaster {
    fn cell_size(&self) -> (usize, usize) {
        (1, 1)
    }

    fn set_font_size(&mut self, _font_size: i32) -> (usize, usize) {
        (1, 1)
    }

    fn rasterize(&mut self, text: &[char], bold: bool, italic: bool) -> Option<GlyphMask> {
        self.last_text = text.to_vec();
        self.last_bold = bold;
        self.last_italic = italic;
        None
    }
}

#[test]
fn decorations_and_style_reach_the_rasterizer() {
    let raster = RecordingRaster {
        last_text: Vec::new(),
        last_bold: false,
        last_italic: false,
    };
    let mut e = SoftBackend::with_cell_size(raster, 1, 1, 1, 1).expect("fits");
    let mut m = Modifier::empty();
    m.crossed_out = true;
    m.underlined = true;
    m.bold = true;
    m.italic = true;
    let content = vec![(0u16, 0u16, with_mod('a', Color::White, Color::Black, m))];
    e.draw(&content).unwrap();
    assert_eq!(
        e.raster_backend.last_text,
        vec!['a', '\u{0332}', '\u{0336}', '\u{0332}']
    );
    assert!(e.raster_backend.last_bold);
    assert!(e.raster_backend.last_italic);
}

#[test]
fn buffer_reflects_last_draw() {
    let mut e = engine(2, 1);
    let content = vec![(1u16, 0u16, plain('Z', Color::Red, Color::Black))];
    e.draw(&content).unwrap();
    let g = e.buffer();
    assert_eq!(g.get(1, 0).fg, Color::Red);
    assert_eq!(g.get(1, 0).symbol, vec!['Z']);
    assert_eq!(g.get(0, 0).symbol, vec![' ']);
}
