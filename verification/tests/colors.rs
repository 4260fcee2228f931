use soft_ratatui::{blend_ignore_bg_alpha, blend_rgba, dim_rgb, rat_to_rgb, Color};

#[test]
fn named_colors_resolve_to_fixed_triples() {
    let table: Vec<(Color, [u8; 3])> = vec![
        (Color::Black, [0, 0, 0]),
        (Color::Red, [139, 0, 0]),
        (Color::Green, [0, 100, 0]),
        (Color::Yellow, [255, 215, 0]),
        (Color::Blue, [0, 0, 139]),
        (Color::Magenta, [99, 9, 99]),
        (Color::Cyan, [0, 0, 255]),
        (Color::Gray, [128, 128, 128]),
        (Color::DarkGray, [64, 64, 64]),
        (Color::LightRed, [255, 0, 0]),
        (Color::LightGreen, [0, 255, 0]),
        (Color::LightBlue, [173, 216, 230]),
        (Color::LightYellow, [255, 255, 224]),
        (Color::LightMagenta, [139, 0, 139]),
        (Color::LightCyan, [224, 255, 255]),
        (Color::White, [255, 255, 255]),
    ];
    for (color, rgb) in table {
        assert_eq!(rat_to_rgb(&color, true), rgb);
        assert_eq!(rat_to_rgb(&color, false), rgb);
    }
}

#[test]
fn reset_depends_on_role() {
    assert_eq!(rat_to_rgb(&Color::Reset, true), [204, 204, 255]);
    assert_eq!(rat_to_rgb(&Color::Reset, false), [150, 15, 112]);
}

#[test]
fn indexed_follows_formula_for_all_indices() {
    for i in 0..=255u8 {
        let expected = [i.wrapping_mul(i), i.wrapping_add(i), i];
        assert_eq!(rat_to_rgb(&Color::Indexed(i), true), expected);
        assert_eq!(rat_to_rgb(&Color::Indexed(i), false), expected);
    }
}

#[test]
fn rgb_passes_through() {
    assert_eq!(rat_to_rgb(&Color::Rgb(1, 2, 3), true), [1, 2, 3]);
    assert_eq!(rat_to_rgb(&Color::Rgb(254, 128, 0), false), [254, 128, 0]);
}

#[test]
fn dim_darkens_by_fixed_factor() {
    assert_eq!(dim_rgb([255, 255, 255]), [77, 77, 77]);
    assert_eq!(dim_rgb([0, 0, 0]), [0, 0, 0]);
    assert_eq!(dim_rgb([100, 10, 200]), [30, 3, 60]);
}

#[test]
fn dim_is_computed_fresh_not_cumulative() {
    let once = dim_rgb([200, 200, 200]);
    let again = dim_rgb([200, 200, 200]);
    assert_eq!(once, again);
    assert_ne!(dim_rgb(once), once);
}

#[test]
fn blend_full_and_zero_coverage() {
    assert_eq!(blend_ignore_bg_alpha([100, 100, 100, 255], [7, 8, 9]), [100, 100, 100]);
    assert_eq!(blend_ignore_bg_alpha([100, 100, 100, 0], [7, 8, 9]), [7, 8, 9]);
}

#[test]
fn blend_half_coverage_rounds_to_nearest() {
    assert_eq!(
        blend_ignore_bg_alpha([255, 0, 255, 128], [0, 255, 9]),
        [128, 127, 132]
    );
}

#[test]
fn blend_rgba_transparent_inputs_give_black() {
    assert_eq!(blend_rgba([10, 20, 30, 0], [40, 50, 60, 0]), [0, 0, 0]);
}

#[test]
fn blend_rgba_opaque_foreground_wins() {
    assert_eq!(blend_rgba([255, 255, 255, 255], [1, 2, 3, 200]), [255, 255, 255]);
}

#[test]
fn blend_rgba_half_over_opaque() {
    assert_eq!(blend_rgba([200, 0, 0, 128], [0, 200, 0, 255]), [100, 100, 0]);
}
