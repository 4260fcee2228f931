//! Terminal color values and their conversion to concrete RGB bytes.

use vstd::prelude::*;

verus! {

/// A terminal color value: one of the 16 named colors, an indexed color,
/// a true-color triple, or the role-dependent default (`Reset`).
#[derive(Clone, Copy, Debug, PartialEq, Eq, Structural)]
pub enum Color {
    Reset,
    Black,
    Red,
    Green,
    Yellow,
    Blue,
    Magenta,
    Cyan,
    Gray,
    DarkGray,
    LightRed,
    LightGreen,
    LightBlue,
    LightYellow,
    LightMagenta,
    LightCyan,
    White,
    Indexed(u8),
    Rgb(u8, u8, u8),
}

/// The RGB triple that a color resolves to, depending on whether it is
/// used as a foreground (`is_a_fg`) or a background color. `Reset` is the
/// only role-dependent case; `Indexed(i)` follows the fixed low-fidelity
/// formula `(i*i mod 256, i+i mod 256, i)`.
pub open spec fn resolve_spec(c: Color, is_a_fg: bool) -> [u8; 3] {
    match c {
        Color::Reset => if is_a_fg {
            [204u8, 204u8, 255u8]
        } else {
            [150u8, 15u8, 112u8]
        },
        Color::Black => [0u8, 0u8, 0u8],
        Color::Red => [139u8, 0u8, 0u8],
        Color::Green => [0u8, 100u8, 0u8],
        Color::Yellow => [255u8, 215u8, 0u8],
        Color::Blue => [0u8, 0u8, 139u8],
        Color::Magenta => [99u8, 9u8, 99u8],
        Color::Cyan => [0u8, 0u8, 255u8],
        Color::Gray => [128u8, 128u8, 128u8],
        Color::DarkGray => [64u8, 64u8, 64u8],
        Color::LightRed => [255u8, 0u8, 0u8],
        Color::LightGreen => [0u8, 255u8, 0u8],
        Color::LightBlue => [173u8, 216u8, 230u8],
        Color::LightYellow => [255u8, 255u8, 224u8],
        Color::LightMagenta => [139u8, 0u8, 139u8],
        Color::LightCyan => [224u8, 255u8, 255u8],
        Color::White => [255u8, 255u8, 255u8],
        Color::Indexed(i) => [
            ((i * i) % 256) as u8,
            ((i + i) % 256) as u8,
            i,
        ],
        Color::Rgb(r, g, b) => [r, g, b],
    }
}

/// Converts a terminal color into an RGB `[u8; 3]`, resolving `Reset`
/// according to the role given by `is_a_fg`.
pub fn rat_to_rgb(rat_col: &Color, is_a_fg: bool) -> (r: [u8; 3])
    ensures
        r == resolve_spec(*rat_col, is_a_fg),
{
    match rat_col {
        Color::Reset => {
            if is_a_fg {
                [204, 204, 255]
            } else {
                [150, 15, 112]
            }
        },
        Color::Black => [0, 0, 0],
        Color::Red => [139, 0, 0],
        Color::Green => [0, 100, 0],
        Color::Yellow => [255, 215, 0],
        Color::Blue => [0, 0, 139],
        Color::Magenta => [99, 9, 99],
        Color::Cyan => [0, 0, 255],
        Color::Gray => [128, 128, 128],
        Color::DarkGray => [64, 64, 64],
        Color::LightRed => [255, 0, 0],
        Color::LightGreen => [0, 255, 0],
        Color::LightBlue => [173, 216, 230],
        Color::LightYellow => [255, 255, 224],
        Color::LightMagenta => [139, 0, 139],
        Color::LightCyan => [224, 255, 255],
        Color::White => [255, 255, 255],
        Color::Indexed(i) => {
            let i = *i;
            [i.wrapping_mul(i), i.wrapping_add(i), i]
        },
        Color::Rgb(r, g, b) => [*r, *g, *b],
    }
}

/// One channel of "fg over bg" compositing where the background is
/// opaque: the mean of `f` and `b` weighted by the coverage `a` out of
/// 255, rounded to the nearest integer.
pub open spec fn blend_ch(f: u8, b: u8, a: u8) -> u8 {
    ((f * a + b * (255 - a) + 127) / 255) as u8
}

/// Denominator of full alpha compositing, scaled by 255*255: the
/// combined output alpha of a foreground with alpha `fa` over a
/// background with alpha `ba`.
pub open spec fn blend_den(fa: u8, ba: u8) -> int {
    255 * fa + ba * (255 - fa)
}

/// One channel of full "fg over bg" alpha compositing, rounded to the
/// nearest integer (halves up). Meaningful when `blend_den(fa, ba) > 0`.
pub open spec fn blend_full_ch(f: u8, b: u8, fa: u8, ba: u8) -> u8 {
    let num = 255 * (f * fa) + (b * ba) * (255 - fa);
    ((2 * num + blend_den(fa, ba)) / (2 * blend_den(fa, ba))) as u8
}

/// The full compositing result: the three blended channels, or black
/// when both inputs are fully transparent.
pub open spec fn blend_rgba_spec(fg: [u8; 4], bg: [u8; 4]) -> [u8; 3] {
    if fg[3] == 0 && bg[3] == 0 {
        [0u8, 0u8, 0u8]
    } else {
        [
            blend_full_ch(fg[0], bg[0], fg[3], bg[3]),
            blend_full_ch(fg[1], bg[1], fg[3], bg[3]),
            blend_full_ch(fg[2], bg[2], fg[3], bg[3]),
        ]
    }
}

/// Quotient bound for the rounded division used in compositing.
proof fn lemma_round_div_bound(num: int, den: int)
    by (nonlinear_arith)
    requires
        den >= 1,
        0 <= num <= 255 * den,
    ensures
        0 <= (2 * num + den) / (2 * den) <= 255,
{
}

/// Channel products stay below the scaled denominator.
proof fn lemma_num_le_den(f: int, b: int, fa: int, ba: int)
    by (nonlinear_arith)
    requires
        0 <= f <= 255,
        0 <= b <= 255,
        0 <= fa <= 255,
        0 <= ba <= 255,
    ensures
        0 <= 255 * (f * fa) + (b * ba) * (255 - fa) <= 255 * (255 * fa + ba * (255 - fa)),
{
}

/// One executable compositing channel for an opaque background.
fn blend_ch_exec(f: u8, b: u8, a: u8) -> (r: u8)
    ensures
        r == blend_ch(f, b, a),
{
    proof {
        assert(f * a + b * (255 - a) <= 255 * 255) by (nonlinear_arith)
            requires
                0 <= f <= 255 && 0 <= b <= 255 && 0 <= a <= 255,
        ;
    }
    ((f as u32 * a as u32 + b as u32 * (255 - a as u32) + 127) / 255) as u8
}

/// Blends a foreground RGBA color over an opaque RGB background using
/// the foreground's alpha as coverage, rounding each channel to the
/// nearest integer.
pub fn blend_ignore_bg_alpha(fg: [u8; 4], bg: [u8; 3]) -> (r: [u8; 3])
    ensures
        r == [blend_ch(fg[0], bg[0], fg[3]), blend_ch(fg[1], bg[1], fg[3]), blend_ch(
            fg[2],
            bg[2],
            fg[3],
        )],
{
    [
        blend_ch_exec(fg[0], bg[0], fg[3]),
        blend_ch_exec(fg[1], bg[1], fg[3]),
        blend_ch_exec(fg[2], bg[2], fg[3]),
    ]
}

/// One executable channel of full alpha compositing.
fn blend_full_ch_exec(f: u8, b: u8, fa: u8, ba: u8) -> (r: u8)
    requires
        fa > 0 || ba > 0,
    ensures
        r == blend_full_ch(f, b, fa, ba),
{
    proof {
        lemma_num_le_den(f as int, b as int, fa as int, ba as int);
        assert(blend_den(fa, ba) >= 1) by (nonlinear_arith)
            requires
                (fa > 0 || ba > 0) && 0 <= fa <= 255 && 0 <= ba <= 255,
        ;
        assert(blend_den(fa, ba) <= 255 * 255 + 255 * 255) by (nonlinear_arith)
            requires
                0 <= fa <= 255 && 0 <= ba <= 255,
        ;
        lemma_round_div_bound(
            255 * (f as int * fa as int) + (b as int * ba as int) * (255 - fa as int),
            blend_den(fa, ba),
        );
    }
    proof {
        assert(f * fa <= 255 * 255 && b * ba <= 255 * 255) by (nonlinear_arith)
            requires
                0 <= f <= 255 && 0 <= b <= 255 && 0 <= fa <= 255 && 0 <= ba <= 255,
        ;
        assert((b as int * ba as int) * (255 - fa as int) <= 65025 * 255) by (nonlinear_arith)
            requires
                0 <= b * ba <= 65025 && 0 <= fa <= 255,
        ;
    }
    let den: u32 = 255 * fa as u32 + ba as u32 * (255 - fa as u32);
    let num: u32 = 255 * (f as u32 * fa as u32) + (b as u32 * ba as u32) * (255 - fa as u32);
    ((2 * num + den) / (2 * den)) as u8
}

/// Blends two RGBA colors with full "fg over bg" alpha compositing,
/// rounding each channel to the nearest integer; black when both are
/// fully transparent.
pub fn blend_rgba(fg: [u8; 4], bg: [u8; 4]) -> (r: [u8; 3])
    ensures
        r == blend_rgba_spec(fg, bg),
{
    if fg[3] == 0 && bg[3] == 0 {
        [0, 0, 0]
    } else {
        [
            blend_full_ch_exec(fg[0], bg[0], fg[3], bg[3]),
            blend_full_ch_exec(fg[1], bg[1], fg[3], bg[3]),
            blend_full_ch_exec(fg[2], bg[2], fg[3], bg[3]),
        ]
    }
}

/// One channel darkened by the fixed dimming factor 77 (roughly 0.3 of
/// 255), with round-to-nearest.
pub open spec fn dim_ch(c: u8) -> u8 {
    ((c * 77 + 127) / 255) as u8
}

/// Zero coverage leaves the background channel unchanged.
pub proof fn lemma_blend_ch_zero(f: u8, b: u8)
    ensures
        blend_ch(f, b, 0) == b,
{
}

/// Full coverage yields the foreground channel exactly.
pub proof fn lemma_blend_ch_full(f: u8, b: u8)
    ensures
        blend_ch(f, b, 255) == f,
{
}

/// Compositing a channel over itself yields that channel for every
/// coverage value.
pub proof fn lemma_blend_ch_same(x: u8, a: u8)
    ensures
        blend_ch(x, x, a) == x,
{
    assert(x * a + x * (255 - a) == 255 * x) by (nonlinear_arith);
}

/// An RGB triple darkened channel by channel.
pub open spec fn dim_spec(c: [u8; 3]) -> [u8; 3] {
    [dim_ch(c[0]), dim_ch(c[1]), dim_ch(c[2])]
}

/// Darkens a color by the fixed dimming factor, channel by channel.
pub fn dim_rgb(color: [u8; 3]) -> (r: [u8; 3])
    ensures
        r == dim_spec(color),
{
    let factor: u32 = 77;
    [
        ((color[0] as u32 * factor + 127) / 255) as u8,
        ((color[1] as u32 * factor + 127) / 255) as u8,
        ((color[2] as u32 * factor + 127) / 255) as u8,
    ]
}

} // verus!
