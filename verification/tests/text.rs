use soft_ratatui::{add_strikeout, add_underline, is_unicode_block_drawing};

#[test]
fn strikeout_interleaves_combining_mark() {
    let out = add_strikeout(&vec!['a', 'b']);
    assert_eq!(out, vec!['a', '\u{0336}', 'b', '\u{0336}']);
}

#[test]
fn underline_interleaves_combining_mark() {
    let out = add_underline(&vec!['x']);
    assert_eq!(out, vec!['x', '\u{0332}']);
}

#[test]
fn decorating_empty_text_yields_empty_text() {
    assert_eq!(add_strikeout(&Vec::new()), Vec::<char>::new());
    assert_eq!(add_underline(&Vec::new()), Vec::<char>::new());
}

#[test]
fn block_drawing_ranges() {
    assert!(is_unicode_block_drawing('\u{2580}'));
    assert!(is_unicode_block_drawing('\u{2502}'));
    assert!(is_unicode_block_drawing('\u{25A0}'));
    assert!(is_unicode_block_drawing('\u{2B00}'));
    assert!(is_unicode_block_drawing('\u{1F800}'));
    assert!(!is_unicode_block_drawing('A'));
    assert!(!is_unicode_block_drawing(' '));
}
