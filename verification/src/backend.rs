//! The render engine: per-cell color resolution, background painting,
//! glyph compositing, blink animation and the stateful draw loop.

use vstd::prelude::*;

use crate::cell::Cell;
use crate::cell::CellView;
use crate::cell::Grid;
use crate::cell::Modifier;
use crate::color::blend_ch;
use crate::color::blend_ignore_bg_alpha;
use crate::color::dim_rgb;
use crate::color::dim_spec;
use crate::color::rat_to_rgb;
use crate::color::resolve_spec;
use crate::mask::GlyphMask;
use crate::mask::Rasterizer;
use crate::pixmap::lemma_row_major_index_bound;
use crate::pixmap::RgbPixmap;
use crate::redraw::RedrawSet;
use crate::text::add_strikeout;
use crate::text::add_underline;

verus! {

/// Errors surfaced to the caller at construction time: the font data
/// could not be parsed, or the requested dimensions do not fit in
/// memory limits.
#[derive(Clone, Copy, Debug, PartialEq, Eq, Structural)]
pub enum RenderError {
    FontParse,
    TooLarge,
}

/// Whether a modifier set carries one of the two blink flags.
pub open spec fn modifier_blinks(m: Modifier) -> bool {
    m.slow_blink || m.rapid_blink
}

/// The foreground and background RGB pair a cell is painted with.
///
/// The fixed order of modifier application is: both colors are resolved
/// first, with `REVERSED` swapping the two positions while each value
/// keeps the role it had; `HIDDEN` then substitutes the resolved
/// background for the resolved foreground, so a hidden cell is uniform
/// for every background (`Reset` included); `DIM` darkens both resolved
/// colors; finally an active blink phase substitutes the resolved
/// background for the foreground.
pub open spec fn effective_colors(cv: CellView, blinking_slow: bool, blinking_fast: bool) -> (
    [u8; 3],
    [u8; 3],
) {
    let resolved = if cv.modifier.reversed {
        (resolve_spec(cv.bg, false), resolve_spec(cv.fg, true))
    } else {
        (resolve_spec(cv.fg, true), resolve_spec(cv.bg, false))
    };
    let base = if cv.modifier.hidden {
        (resolved.1, resolved.1)
    } else {
        resolved
    };
    let dimmed = if cv.modifier.dim {
        (dim_spec(base.0), dim_spec(base.1))
    } else {
        base
    };
    let fg = if (cv.modifier.slow_blink && blinking_slow) || (cv.modifier.rapid_blink
        && blinking_fast) {
        dimmed.1
    } else {
        dimmed.0
    };
    (fg, dimmed.1)
}

/// All three channels of `fg` composited over `bg` with coverage `a`.
pub open spec fn blend3(fg: [u8; 3], bg: [u8; 3], a: u8) -> [u8; 3] {
    [blend_ch(fg[0], bg[0], a), blend_ch(fg[1], bg[1], a), blend_ch(fg[2], bg[2], a)]
}

/// Composites `fg` over `bg` with coverage `a` out of 255.
fn blend3_exec(fg: [u8; 3], bg: [u8; 3], a: u8) -> (r: [u8; 3])
    ensures
        r == blend3(fg, bg, a),
{
    blend_ignore_bg_alpha([fg[0], fg[1], fg[2], a], bg)
}

/// Whether canvas pixel (px, py) falls inside the mask `m` placed
/// relative to the cell origin (x0, y0).
pub open spec fn mask_covers(m: GlyphMask, x0: int, y0: int, px: int, py: int) -> bool {
    x0 + m.left <= px < x0 + m.left + m.width && y0 + m.top <= py < y0 + m.top + m.height
}

/// The coverage byte of the mask sample that falls on canvas pixel
/// (px, py). Meaningful when `mask_covers` holds there.
pub open spec fn mask_cov_at(m: GlyphMask, x0: int, y0: int, px: int, py: int) -> u8 {
    m.coverage(px - (x0 + m.left), py - (y0 + m.top))
}

/// A rasterizer result is either absent or a well-formed mask.
pub open spec fn opt_mask_wf(m: Option<GlyphMask>) -> bool {
    match m {
        Option::Some(k) => k.wf(),
        Option::None => true,
    }
}

/// The value of one canvas pixel after a cell paint: a composited
/// sample wherever the mask covers the pixel, the background color on
/// the rest of the cell rectangle, and the previous value elsewhere.
pub open spec fn rendered_pixel(
    old_c: [u8; 3],
    x0: int,
    y0: int,
    cw: int,
    ch: int,
    fg: [u8; 3],
    bg: [u8; 3],
    m: Option<GlyphMask>,
    px: int,
    py: int,
) -> [u8; 3] {
    let covered = match m {
        Option::Some(k) => mask_covers(k, x0, y0, px, py),
        Option::None => false,
    };
    if covered {
        blend3(fg, bg, mask_cov_at(m->Some_0, x0, y0, px, py))
    } else if x0 <= px < x0 + cw && y0 <= py < y0 + ch {
        bg
    } else {
        old_c
    }
}

/// The whole-canvas relation of one cell paint: every pixel of the new
/// pixmap holds its `rendered_pixel` value with respect to the old one.
pub open spec fn cell_rendered(
    old_pm: RgbPixmap,
    new_pm: RgbPixmap,
    x0: int,
    y0: int,
    cw: int,
    ch: int,
    fg: [u8; 3],
    bg: [u8; 3],
    m: Option<GlyphMask>,
) -> bool {
    &&& new_pm.wf()
    &&& new_pm.width == old_pm.width
    &&& new_pm.height == old_pm.height
    &&& forall|px: int, py: int|
        0 <= px < new_pm.width && 0 <= py < new_pm.height ==> #[trigger] new_pm.spec_pixel(px, py)
            == rendered_pixel(old_pm.spec_pixel(px, py), x0, y0, cw, ch, fg, bg, m, px, py)
}

/// One canvas pixel part-way through the background rectangle paint:
/// `rows` full rows and `cols` pixels of the next row hold `bg`.
spec fn rect_stage_pixel(
    old_c: [u8; 3],
    x0: int,
    y0: int,
    cw: int,
    bg: [u8; 3],
    rows: int,
    cols: int,
    px: int,
    py: int,
) -> [u8; 3] {
    let dx = px - x0;
    let dy = py - y0;
    if 0 <= dx < cw && 0 <= dy && (dy < rows || (dy == rows && dx < cols)) {
        bg
    } else {
        old_c
    }
}

/// One canvas pixel part-way through the mask compositing pass: the
/// samples of `rows` full mask rows and `cols` samples of the next row
/// have been composited over `base_c`.
spec fn mask_stage_pixel(
    base_c: [u8; 3],
    k: GlyphMask,
    x0: int,
    y0: int,
    fg: [u8; 3],
    bg: [u8; 3],
    rows: int,
    cols: int,
    px: int,
    py: int,
) -> [u8; 3] {
    let dx = px - (x0 + k.left);
    let dy = py - (y0 + k.top);
    if 0 <= dx < k.width && 0 <= dy && (dy < rows || (dy == rows && dx < cols)) {
        blend3(fg, bg, k.coverage(dx, dy))
    } else {
        base_c
    }
}

/// Paints one cell into the pixmap: fills the cell rectangle with `bg`,
/// then composites every mask sample (clipped to the canvas) over it.
fn compose_cell(
    pm: &mut RgbPixmap,
    x0: usize,
    y0: usize,
    cw: usize,
    ch: usize,
    fg: [u8; 3],
    bg: [u8; 3],
    mask: Option<GlyphMask>,
)
    requires
        old(pm).wf(),
        x0 + cw <= old(pm).width,
        y0 + ch <= old(pm).height,
        opt_mask_wf(mask),
    ensures
        cell_rendered(*old(pm), *final(pm), x0 as int, y0 as int, cw as int, ch as int, fg, bg, mask),
{
    let ghost pm0 = *pm;
    let mut y: usize = 0;
    while y < ch
        invariant
            0 <= y <= ch,
            x0 + cw <= pm.width,
            y0 + ch <= pm.height,
            pm.wf(),
            pm.width == pm0.width,
            pm.height == pm0.height,
            forall|px: int, py: int|
                0 <= px < pm.width && 0 <= py < pm.height ==> #[trigger] pm.spec_pixel(px, py)
                    == rect_stage_pixel(
                    pm0.spec_pixel(px, py),
                    x0 as int,
                    y0 as int,
                    cw as int,
                    bg,
                    y as int,
                    0,
                    px,
                    py,
                ),
        decreases ch - y,
    {
        let mut x: usize = 0;
        while x < cw
            invariant
                0 <= y < ch,
                0 <= x <= cw,
                x0 + cw <= pm.width,
                y0 + ch <= pm.height,
                pm.wf(),
                pm.width == pm0.width,
                pm.height == pm0.height,
                forall|px: int, py: int|
                    0 <= px < pm.width && 0 <= py < pm.height ==> #[trigger] pm.spec_pixel(px, py)
                        == rect_stage_pixel(
                        pm0.spec_pixel(px, py),
                        x0 as int,
                        y0 as int,
                        cw as int,
                        bg,
                        y as int,
                        x as int,
                        px,
                        py,
                    ),
            decreases cw - x,
        {
            let ghost pre = *pm;
            pm.put_pixel(x0 + x, y0 + y, bg);
            proof {
                assert forall|px: int, py: int|
                    0 <= px < pm.width && 0 <= py < pm.height implies #[trigger] pm.spec_pixel(
                    px,
                    py,
                ) == rect_stage_pixel(
                    pm0.spec_pixel(px, py),
                    x0 as int,
                    y0 as int,
                    cw as int,
                    bg,
                    y as int,
                    x as int + 1,
                    px,
                    py,
                ) by {
                    if px == x0 + x && py == y0 + y {
                    } else {
                        assert(pm.spec_pixel(px, py) == pre.spec_pixel(px, py));
                    }
                }
            }
            x = x + 1;
        }
        proof {
            assert forall|px: int, py: int|
                0 <= px < pm.width && 0 <= py < pm.height implies #[trigger] pm.spec_pixel(px, py)
                == rect_stage_pixel(
                pm0.spec_pixel(px, py),
                x0 as int,
                y0 as int,
                cw as int,
                bg,
                y as int + 1,
                0,
                px,
                py,
            ) by {
                assert(pm.spec_pixel(px, py) == rect_stage_pixel(
                    pm0.spec_pixel(px, py),
                    x0 as int,
                    y0 as int,
                    cw as int,
                    bg,
                    y as int,
                    cw as int,
                    px,
                    py,
                ));
            }
        }
        y = y + 1;
    }
    let ghost base = *pm;
    match mask {
        Option::None => {
            proof {
                assert forall|px: int, py: int|
                    0 <= px < pm.width && 0 <= py < pm.height implies #[trigger] pm.spec_pixel(
                    px,
                    py,
                ) == rendered_pixel(
                    pm0.spec_pixel(px, py),
                    x0 as int,
                    y0 as int,
                    cw as int,
                    ch as int,
                    fg,
                    bg,
                    mask,
                    px,
                    py,
                ) by {
                    assert(pm.spec_pixel(px, py) == rect_stage_pixel(
                        pm0.spec_pixel(px, py),
                        x0 as int,
                        y0 as int,
                        cw as int,
                        bg,
                        ch as int,
                        0,
                        px,
                        py,
                    ));
                }
            }
        },
        Option::Some(k) => {
            let mut j: usize = 0;
            while j < k.height
                invariant
                    0 <= j <= k.height,
                    k.wf(),
                    x0 + cw <= pm.width,
                    y0 + ch <= pm.height,
                    pm.wf(),
                    pm.width == base.width,
                    pm.height == base.height,
                    forall|px: int, py: int|
                        0 <= px < pm.width && 0 <= py < pm.height ==> #[trigger] pm.spec_pixel(
                            px,
                            py,
                        ) == mask_stage_pixel(
                            base.spec_pixel(px, py),
                            k,
                            x0 as int,
                            y0 as int,
                            fg,
                            bg,
                            j as int,
                            0,
                            px,
                            py,
                        ),
                decreases k.height - j,
            {
                let mut i: usize = 0;
                while i < k.width
                    invariant
                        0 <= j < k.height,
                        0 <= i <= k.width,
                        k.wf(),
                        x0 + cw <= pm.width,
                        y0 + ch <= pm.height,
                        pm.wf(),
                        pm.width == base.width,
                        pm.height == base.height,
                        forall|px: int, py: int|
                            0 <= px < pm.width && 0 <= py < pm.height ==> #[trigger] pm.spec_pixel(
                                px,
                                py,
                            ) == mask_stage_pixel(
                                base.spec_pixel(px, py),
                                k,
                                x0 as int,
                                y0 as int,
                                fg,
                                bg,
                                j as int,
                                i as int,
                                px,
                                py,
                            ),
                    decreases k.width - i,
                {
                    let gx: i128 = x0 as i128 + k.left as i128 + i as i128;
                    let gy: i128 = y0 as i128 + k.top as i128 + j as i128;
                    let ghost pre = *pm;
                    if 0 <= gx && gx < pm.width as i128 && 0 <= gy && gy < pm.height as i128 {
                        proof {
                            lemma_row_major_index_bound(
                                i as int,
                                j as int,
                                k.width as int,
                                k.height as int,
                            );
                        }
                        let cov: u8 = k.data[j * k.width + i];
                        let blended = blend3_exec(fg, bg, cov);
                        pm.put_pixel(gx as usize, gy as usize, blended);
                    }
                    proof {
                        assert forall|px: int, py: int|
                            0 <= px < pm.width && 0 <= py < pm.height implies #[trigger] pm
                            .spec_pixel(px, py) == mask_stage_pixel(
                            base.spec_pixel(px, py),
                            k,
                            x0 as int,
                            y0 as int,
                            fg,
                            bg,
                            j as int,
                            i as int + 1,
                            px,
                            py,
                        ) by {
                            if px == gx as int && py == gy as int {
                                assert(px - (x0 as int + k.left) == i as int);
                                assert(py - (y0 as int + k.top) == j as int);
                            } else {
                                assert(pm.spec_pixel(px, py) == pre.spec_pixel(px, py));
                            }
                        }
                    }
                    i = i + 1;
                }
                proof {
                    assert forall|px: int, py: int|
                        0 <= px < pm.width && 0 <= py < pm.height implies #[trigger] pm.spec_pixel(
                        px,
                        py,
                    ) == mask_stage_pixel(
                        base.spec_pixel(px, py),
                        k,
                        x0 as int,
                        y0 as int,
                        fg,
                        bg,
                        j as int + 1,
                        0,
                        px,
                        py,
                    ) by {
                        assert(pm.spec_pixel(px, py) == mask_stage_pixel(
                            base.spec_pixel(px, py),
                            k,
                            x0 as int,
                            y0 as int,
                            fg,
                            bg,
                            j as int,
                            k.width as int,
                            px,
                            py,
                        ));
                    }
                }
                j = j + 1;
            }
            proof {
                assert forall|px: int, py: int|
                    0 <= px < pm.width && 0 <= py < pm.height implies #[trigger] pm.spec_pixel(
                    px,
                    py,
                ) == rendered_pixel(
                    pm0.spec_pixel(px, py),
                    x0 as int,
                    y0 as int,
                    cw as int,
                    ch as int,
                    fg,
                    bg,
                    mask,
                    px,
                    py,
                ) by {
                    assert(pm.spec_pixel(px, py) == mask_stage_pixel(
                        base.spec_pixel(px, py),
                        k,
                        x0 as int,
                        y0 as int,
                        fg,
                        bg,
                        k.height as int,
                        0,
                        px,
                        py,
                    ));
                    assert(base.spec_pixel(px, py) == rect_stage_pixel(
                        pm0.spec_pixel(px, py),
                        x0 as int,
                        y0 as int,
                        cw as int,
                        bg,
                        ch as int,
                        0,
                        px,
                        py,
                    ));
                }
            }
        },
    }
}

/// The canvas `pm1` is `pm0` with the changed-cell triples painted in
/// order: each paint satisfies the cell-render relation at its cell's
/// pixel rectangle, with the cell's effective colors and the mask of
/// the same position in `ms`.
pub open spec fn changes_rendered(
    pm0: RgbPixmap,
    pm1: RgbPixmap,
    changes: Seq<(u16, u16, Cell)>,
    cw: int,
    ch: int,
    bs: bool,
    bf: bool,
    ms: Seq<Option<GlyphMask>>,
    pms: Seq<RgbPixmap>,
) -> bool
    decreases changes.len(),
{
    if changes.len() == 0 {
        pm1 == pm0 && ms.len() == 0 && pms.len() == 0
    } else {
        ms.len() == changes.len() && pms.len() == changes.len() && opt_mask_wf(ms.last())
            && changes_rendered(
            pm0,
            pms.last(),
            changes.drop_last(),
            cw,
            ch,
            bs,
            bf,
            ms.drop_last(),
            pms.drop_last(),
        ) && cell_rendered(
            pms.last(),
            pm1,
            changes.last().0 * cw,
            changes.last().1 * ch,
            cw,
            ch,
            effective_colors(changes.last().2@, bs, bf).0,
            effective_colors(changes.last().2@, bs, bf).1,
            ms.last(),
        )
    }
}

/// The canvas `pm1` is `pm0` with the grid cells at the listed
/// positions repainted in order from the snapshot `g`, each satisfying
/// the cell-render relation with its effective colors and the mask of
/// the same position in `ms`.
pub open spec fn cells_repainted(
    pm0: RgbPixmap,
    pm1: RgbPixmap,
    ps: Seq<(u16, u16)>,
    g: Grid,
    cw: int,
    ch: int,
    bs: bool,
    bf: bool,
    ms: Seq<Option<GlyphMask>>,
    pms: Seq<RgbPixmap>,
) -> bool
    decreases ps.len(),
{
    if ps.len() == 0 {
        pm1 == pm0 && ms.len() == 0 && pms.len() == 0
    } else {
        ms.len() == ps.len() && pms.len() == ps.len() && opt_mask_wf(ms.last())
            && cells_repainted(
            pm0,
            pms.last(),
            ps.drop_last(),
            g,
            cw,
            ch,
            bs,
            bf,
            ms.drop_last(),
            pms.drop_last(),
        ) && cell_rendered(
            pms.last(),
            pm1,
            ps.last().0 * cw,
            ps.last().1 * ch,
            cw,
            ch,
            effective_colors(g.cell_at(ps.last().0 as int, ps.last().1 as int), bs, bf).0,
            effective_colors(g.cell_at(ps.last().0 as int, ps.last().1 as int), bs, bf).1,
            ms.last(),
        )
    }
}

/// As `changes_rendered`, for some sequence of well-formed rasterizer
/// masks and some sequence of intermediate canvases.
pub open spec fn draw_changes_rendered(
    pm0: RgbPixmap,
    pm1: RgbPixmap,
    changes: Seq<(u16, u16, Cell)>,
    cw: int,
    ch: int,
    bs: bool,
    bf: bool,
) -> bool {
    exists|ms: Seq<Option<GlyphMask>>, pms: Seq<RgbPixmap>|
        #[trigger] changes_rendered(pm0, pm1, changes, cw, ch, bs, bf, ms, pms)
}

/// As `cells_repainted`, for some sequence of well-formed rasterizer
/// masks and some sequence of intermediate canvases.
pub open spec fn repaint_rendered(
    pm0: RgbPixmap,
    pm1: RgbPixmap,
    ps: Seq<(u16, u16)>,
    g: Grid,
    cw: int,
    ch: int,
    bs: bool,
    bf: bool,
) -> bool {
    exists|ms: Seq<Option<GlyphMask>>, pms: Seq<RgbPixmap>|
        #[trigger] cells_repainted(pm0, pm1, ps, g, cw, ch, bs, bf, ms, pms)
}

/// The order in which a full redraw walks the grid: every cell of
/// column 0, then every cell of column 1, and so on.
pub open spec fn scan_order(w: int, h: int) -> Seq<(u16, u16)> {
    Seq::new((w * h) as nat, |i: int| ((i / h) as u16, (i % h) as u16))
}

/// A zero-filled (black) pixel buffer of the given dimensions, as a
/// fresh allocation leaves it.
pub open spec fn fresh_black_pixmap(pm: RgbPixmap, w: int, h: int) -> bool {
    &&& pm.wf()
    &&& pm.width == w
    &&& pm.height == h
    &&& forall|x: int, y: int|
        0 <= x < w && 0 <= y < h ==> #[trigger] pm.spec_pixel(x, y) == [0u8, 0u8, 0u8]
}

/// The cell value at (c, r) after applying a sequence of changed-cell
/// triples in order: the cell of the last matching change, or `dflt`
/// when no change touches the position.
pub open spec fn last_change(
    changes: Seq<(u16, u16, Cell)>,
    c: int,
    r: int,
    dflt: CellView,
) -> CellView
    decreases changes.len(),
{
    if changes.len() == 0 {
        dflt
    } else if changes.last().0 == c && changes.last().1 == r {
        changes.last().2@
    } else {
        last_change(changes.drop_last(), c, r, dflt)
    }
}

/// Some change in the sequence writes a blinking cell at position `p`.
pub open spec fn blink_changed(changes: Seq<(u16, u16, Cell)>, p: (u16, u16)) -> bool {
    exists|i: int|
        0 <= i < changes.len() && (#[trigger] changes[i]).0 == p.0 && changes[i].1 == p.1
            && modifier_blinks(changes[i].2@.modifier)
}

/// Extending the processed prefix by one change extends
/// `blink_changed` by exactly that change.
proof fn lemma_blink_changed_step(changes: Seq<(u16, u16, Cell)>, i: int, p: (u16, u16))
    requires
        0 <= i < changes.len(),
    ensures
        blink_changed(changes.take(i + 1), p) <==> (blink_changed(changes.take(i), p) || (
        changes[i].0 == p.0 && changes[i].1 == p.1 && modifier_blinks(changes[i].2@.modifier))),
{
    if blink_changed(changes.take(i + 1), p) {
        let j = choose|j: int|
            0 <= j < changes.take(i + 1).len() && (#[trigger] changes.take(i + 1)[j]).0 == p.0
                && changes.take(i + 1)[j].1 == p.1 && modifier_blinks(
                changes.take(i + 1)[j].2@.modifier,
            );
        if j < i {
            assert(changes.take(i)[j] == changes.take(i + 1)[j]);
        }
    }
    if blink_changed(changes.take(i), p) {
        let j = choose|j: int|
            0 <= j < changes.take(i).len() && (#[trigger] changes.take(i)[j]).0 == p.0
                && changes.take(i)[j].1 == p.1 && modifier_blinks(changes.take(i)[j].2@.modifier);
        assert(changes.take(i + 1)[j] == changes.take(i)[j]);
    }
    if changes[i].0 == p.0 && changes[i].1 == p.1 && modifier_blinks(changes[i].2@.modifier) {
        assert(changes.take(i + 1)[i] == changes[i]);
    }
}

/// The three channels of a color composited over itself come out
/// unchanged, whatever the coverage.
pub proof fn lemma_blend3_same(x: [u8; 3], a: u8)
    ensures
        blend3(x, x, a) == x,
{
    crate::color::lemma_blend_ch_same(x[0], a);
    crate::color::lemma_blend_ch_same(x[1], a);
    crate::color::lemma_blend_ch_same(x[2], a);
}

/// A cell with no modifiers is painted with its two colors resolved
/// plainly: every pixel of the cell rectangle holds the resolved
/// background where glyph coverage is absent or zero, and the
/// fg-over-bg compositing value where coverage is positive.
pub proof fn lemma_unmodified_cell_render(
    old_pm: RgbPixmap,
    new_pm: RgbPixmap,
    cv: CellView,
    blinking_slow: bool,
    blinking_fast: bool,
    x0: int,
    y0: int,
    cw: int,
    ch: int,
    m: Option<GlyphMask>,
)
    requires
        cv.modifier == Modifier::spec_empty(),
        cell_rendered(
            old_pm,
            new_pm,
            x0,
            y0,
            cw,
            ch,
            effective_colors(cv, blinking_slow, blinking_fast).0,
            effective_colors(cv, blinking_slow, blinking_fast).1,
            m,
        ),
    ensures
        forall|px: int, py: int|
            0 <= px < new_pm.width && 0 <= py < new_pm.height && x0 <= px < x0 + cw && y0 <= py
                < y0 + ch ==> #[trigger] new_pm.spec_pixel(px, py) == (if (match m {
                Option::Some(k) => mask_covers(k, x0, y0, px, py) && mask_cov_at(
                    k,
                    x0,
                    y0,
                    px,
                    py,
                ) != 0,
                Option::None => false,
            }) {
                blend3(
                    resolve_spec(cv.fg, true),
                    resolve_spec(cv.bg, false),
                    mask_cov_at(m->Some_0, x0, y0, px, py),
                )
            } else {
                resolve_spec(cv.bg, false)
            }),
{
    let fg = effective_colors(cv, blinking_slow, blinking_fast).0;
    let bg = effective_colors(cv, blinking_slow, blinking_fast).1;
    assert(fg == resolve_spec(cv.fg, true));
    assert(bg == resolve_spec(cv.bg, false));
    assert forall|px: int, py: int|
        0 <= px < new_pm.width && 0 <= py < new_pm.height && x0 <= px < x0 + cw && y0 <= py < y0
            + ch implies #[trigger] new_pm.spec_pixel(px, py) == (if (match m {
        Option::Some(k) => mask_covers(k, x0, y0, px, py) && mask_cov_at(k, x0, y0, px, py) != 0,
        Option::None => false,
    }) {
        blend3(
            resolve_spec(cv.fg, true),
            resolve_spec(cv.bg, false),
            mask_cov_at(m->Some_0, x0, y0, px, py),
        )
    } else {
        resolve_spec(cv.bg, false)
    }) by {
        match m {
            Option::Some(k) => {
                if mask_covers(k, x0, y0, px, py) && mask_cov_at(k, x0, y0, px, py) == 0 {
                    crate::color::lemma_blend_ch_zero(fg[0], bg[0]);
                    crate::color::lemma_blend_ch_zero(fg[1], bg[1]);
                    crate::color::lemma_blend_ch_zero(fg[2], bg[2]);
                }
            },
            Option::None => {},
        }
    }
}

/// Painting the same cell twice with the same colors and the same mask
/// leaves the canvas exactly as after the first paint: a repeated
/// render (as blink animation causes) never compounds.
pub proof fn lemma_render_idempotent(
    pm0: RgbPixmap,
    pm1: RgbPixmap,
    pm2: RgbPixmap,
    x0: int,
    y0: int,
    cw: int,
    ch: int,
    fg: [u8; 3],
    bg: [u8; 3],
    m: Option<GlyphMask>,
)
    requires
        cell_rendered(pm0, pm1, x0, y0, cw, ch, fg, bg, m),
        cell_rendered(pm1, pm2, x0, y0, cw, ch, fg, bg, m),
    ensures
        forall|px: int, py: int|
            0 <= px < pm2.width && 0 <= py < pm2.height ==> #[trigger] pm2.spec_pixel(px, py)
                == pm1.spec_pixel(px, py),
{
}

/// When the effective foreground and background coincide, the whole
/// cell rectangle comes out uniformly background-colored, whatever
/// coverage the rasterizer returned.
pub proof fn lemma_uniform_render(
    old_pm: RgbPixmap,
    new_pm: RgbPixmap,
    x0: int,
    y0: int,
    cw: int,
    ch: int,
    c: [u8; 3],
    m: Option<GlyphMask>,
)
    requires
        cell_rendered(old_pm, new_pm, x0, y0, cw, ch, c, c, m),
    ensures
        forall|px: int, py: int|
            0 <= px < new_pm.width && 0 <= py < new_pm.height && x0 <= px < x0 + cw && y0 <= py
                < y0 + ch ==> #[trigger] new_pm.spec_pixel(px, py) == c,
{
    assert forall|px: int, py: int|
        0 <= px < new_pm.width && 0 <= py < new_pm.height && x0 <= px < x0 + cw && y0 <= py < y0
            + ch implies #[trigger] new_pm.spec_pixel(px, py) == c by {
        match m {
            Option::Some(k) => {
                if mask_covers(k, x0, y0, px, py) {
                    lemma_blend3_same(c, mask_cov_at(k, x0, y0, px, py));
                }
            },
            Option::None => {},
        }
    }
}

/// `HIDDEN` substitutes the resolved background for the resolved
/// foreground, so both effective colors coincide for every cell —
/// whatever its colors, `Reset` included — and the cell is painted
/// uniformly.
pub proof fn lemma_hidden_uniform(cv: CellView, blinking_slow: bool, blinking_fast: bool)
    requires
        cv.modifier.hidden,
    ensures
        effective_colors(cv, blinking_slow, blinking_fast).0 == effective_colors(
            cv,
            blinking_slow,
            blinking_fast,
        ).1,
{
}

/// An active blink phase substitutes the effective background for the
/// effective foreground: the cell is painted as invisible text.
pub proof fn lemma_blink_hides(cv: CellView, blinking_slow: bool, blinking_fast: bool)
    requires
        (cv.modifier.slow_blink && blinking_slow) || (cv.modifier.rapid_blink && blinking_fast),
    ensures
        effective_colors(cv, blinking_slow, blinking_fast).0 == effective_colors(
            cv,
            blinking_slow,
            blinking_fast,
        ).1,
{
}

/// A cell paint with no modifiers leaves every pixel of the cell
/// rectangle either the plainly resolved background or a compositing
/// of the plainly resolved colors under some positive coverage: the
/// whole rectangle is repainted, whatever mask the rasterizer gave.
pub proof fn lemma_unmodified_rect_repainted(
    old_pm: RgbPixmap,
    new_pm: RgbPixmap,
    cv: CellView,
    blinking_slow: bool,
    blinking_fast: bool,
    x0: int,
    y0: int,
    cw: int,
    ch: int,
    m: Option<GlyphMask>,
)
    requires
        cv.modifier == Modifier::spec_empty(),
        cell_rendered(
            old_pm,
            new_pm,
            x0,
            y0,
            cw,
            ch,
            effective_colors(cv, blinking_slow, blinking_fast).0,
            effective_colors(cv, blinking_slow, blinking_fast).1,
            m,
        ),
    ensures
        forall|px: int, py: int|
            0 <= px < new_pm.width && 0 <= py < new_pm.height && x0 <= px < x0 + cw && y0 <= py
                < y0 + ch ==> (#[trigger] new_pm.spec_pixel(px, py) == resolve_spec(cv.bg, false)
                || exists|cov: u8|
                cov != 0 && new_pm.spec_pixel(px, py) == blend3(
                    resolve_spec(cv.fg, true),
                    resolve_spec(cv.bg, false),
                    cov,
                )),
{
    lemma_unmodified_cell_render(
        old_pm,
        new_pm,
        cv,
        blinking_slow,
        blinking_fast,
        x0,
        y0,
        cw,
        ch,
        m,
    );
    assert forall|px: int, py: int|
        0 <= px < new_pm.width && 0 <= py < new_pm.height && x0 <= px < x0 + cw && y0 <= py < y0
            + ch implies (#[trigger] new_pm.spec_pixel(px, py) == resolve_spec(cv.bg, false)
        || exists|cov: u8|
        cov != 0 && new_pm.spec_pixel(px, py) == blend3(
            resolve_spec(cv.fg, true),
            resolve_spec(cv.bg, false),
            cov,
        )) by {
        match m {
            Option::Some(k) => {
                if mask_covers(k, x0, y0, px, py) && mask_cov_at(k, x0, y0, px, py) != 0 {
                    let cov = mask_cov_at(k, x0, y0, px, py);
                    assert(cov != 0 && new_pm.spec_pixel(px, py) == blend3(
                        resolve_spec(cv.fg, true),
                        resolve_spec(cv.bg, false),
                        cov,
                    ));
                }
            },
            Option::None => {},
        }
    }
}

/// A cell whose `HIDDEN` flag is set paints its whole rectangle
/// uniformly in the effective background color, whatever mask the
/// rasterizer gave.
pub proof fn lemma_hidden_cell_uniform_render(
    old_pm: RgbPixmap,
    new_pm: RgbPixmap,
    cv: CellView,
    blinking_slow: bool,
    blinking_fast: bool,
    x0: int,
    y0: int,
    cw: int,
    ch: int,
    m: Option<GlyphMask>,
)
    requires
        cv.modifier.hidden,
        cell_rendered(
            old_pm,
            new_pm,
            x0,
            y0,
            cw,
            ch,
            effective_colors(cv, blinking_slow, blinking_fast).0,
            effective_colors(cv, blinking_slow, blinking_fast).1,
            m,
        ),
    ensures
        forall|px: int, py: int|
            0 <= px < new_pm.width && 0 <= py < new_pm.height && x0 <= px < x0 + cw && y0 <= py
                < y0 + ch ==> #[trigger] new_pm.spec_pixel(px, py) == effective_colors(
                cv,
                blinking_slow,
                blinking_fast,
            ).1,
{
    lemma_hidden_uniform(cv, blinking_slow, blinking_fast);
    lemma_uniform_render(
        old_pm,
        new_pm,
        x0,
        y0,
        cw,
        ch,
        effective_colors(cv, blinking_slow, blinking_fast).1,
        m,
    );
}

/// A cell whose blink flag matches an active blink phase paints its
/// whole rectangle uniformly in the effective background color: the
/// text is temporarily invisible, whatever mask the rasterizer gave.
pub proof fn lemma_blink_cell_uniform_render(
    old_pm: RgbPixmap,
    new_pm: RgbPixmap,
    cv: CellView,
    blinking_slow: bool,
    blinking_fast: bool,
    x0: int,
    y0: int,
    cw: int,
    ch: int,
    m: Option<GlyphMask>,
)
    requires
        (cv.modifier.slow_blink && blinking_slow) || (cv.modifier.rapid_blink && blinking_fast),
        cell_rendered(
            old_pm,
            new_pm,
            x0,
            y0,
            cw,
            ch,
            effective_colors(cv, blinking_slow, blinking_fast).0,
            effective_colors(cv, blinking_slow, blinking_fast).1,
            m,
        ),
    ensures
        forall|px: int, py: int|
            0 <= px < new_pm.width && 0 <= py < new_pm.height && x0 <= px < x0 + cw && y0 <= py
                < y0 + ch ==> #[trigger] new_pm.spec_pixel(px, py) == effective_colors(
                cv,
                blinking_slow,
                blinking_fast,
            ).1,
{
    lemma_blink_hides(cv, blinking_slow, blinking_fast);
    lemma_uniform_render(
        old_pm,
        new_pm,
        x0,
        y0,
        cw,
        ch,
        effective_colors(cv, blinking_slow, blinking_fast).1,
        m,
    );
}

/// The canvas pixel dimensions always report the cell pixel size times
/// the grid dimensions, as a host sizing a window or texture needs.
pub proof fn lemma_canvas_matches_grid<RasterBackend>(s: SoftBackend<RasterBackend>)
    requires
        s.wf(),
    ensures
        s.rgb_pixmap.width == s.char_width * s.buffer.width,
        s.rgb_pixmap.height == s.char_height * s.buffer.height,
{
}

/// The fast blink phase is "on": six ticks out of every hundred.
pub open spec fn fast_blink_on(counter: u16) -> bool {
    counter % 100 <= 5
}

/// The slow blink phase is "on": one six-tick window per 200-tick cycle.
pub open spec fn slow_blink_on(counter: u16) -> bool {
    20 <= counter <= 25
}

/// A software rendering backend for a terminal-style cell grid. It
/// stores the generated image internally as `rgb_pixmap` and delegates
/// glyph rasterization to the `raster_backend`.
pub struct SoftBackend<RasterBackend> {
    pub buffer: Grid,
    pub cursor: bool,
    pub cursor_pos: (u16, u16),
    pub char_width: usize,
    pub char_height: usize,
    pub blink_counter: u16,
    pub blinking_fast: bool,
    pub blinking_slow: bool,
    pub rgb_pixmap: RgbPixmap,
    pub always_redraw_list: RedrawSet,
    pub raster_backend: RasterBackend,
}

impl<RasterBackend> SoftBackend<RasterBackend> {
    /// The engine invariant: the grid and the pixmap are well formed,
    /// the pixmap's pixel dimensions are exactly the cell pixel size
    /// times the grid dimensions, the blink counter stays inside its
    /// cycle, and the always-redraw set holds only in-bounds cells.
    pub open spec fn wf(self) -> bool {
        &&& self.buffer.wf()
        &&& self.rgb_pixmap.wf()
        &&& self.rgb_pixmap.width == self.char_width * self.buffer.width
        &&& self.rgb_pixmap.height == self.char_height * self.buffer.height
        &&& self.blink_counter < 200
        &&& self.always_redraw_list.wf()
        &&& forall|i: int|
            0 <= i < self.always_redraw_list.items.len() ==> (
            #[trigger] self.always_redraw_list.items[i]).0 < self.buffer.width
                && self.always_redraw_list.items[i].1 < self.buffer.height
    }

    /// Advances the blink counter by one tick modulo 200 and recomputes
    /// both blink phase flags from the new counter value.
    fn update_blinking(&mut self)
        requires
            old(self).blink_counter < 200,
        ensures
            final(self).blink_counter == (old(self).blink_counter + 1) % 200,
            final(self).blinking_fast == fast_blink_on(final(self).blink_counter),
            final(self).blinking_slow == slow_blink_on(final(self).blink_counter),
            final(self).buffer == old(self).buffer,
            final(self).cursor == old(self).cursor,
            final(self).cursor_pos == old(self).cursor_pos,
            final(self).char_width == old(self).char_width,
            final(self).char_height == old(self).char_height,
            final(self).rgb_pixmap == old(self).rgb_pixmap,
            final(self).always_redraw_list == old(self).always_redraw_list,
            final(self).raster_backend == old(self).raster_backend,
    {
        self.blink_counter = (self.blink_counter + 1) % 200;
        self.blinking_fast = self.blink_counter % 100 <= 5;
        self.blinking_slow = 20 <= self.blink_counter && self.blink_counter <= 25;
    }
}

impl<RasterBackend: Rasterizer> SoftBackend<RasterBackend> {
    /// Renders the cell at (xik, yik) into the pixmap: resolves the
    /// effective colors from the cell's modifiers and the current blink
    /// phase, paints the cell rectangle, rasterizes the (possibly
    /// decorated) text, and composites the returned coverage mask. A
    /// blinking cell is registered in the always-redraw set.
    fn draw_cell(&mut self, xik: u16, yik: u16)
        requires
            old(self).wf(),
            xik < old(self).buffer.width,
            yik < old(self).buffer.height,
        ensures
            final(self).wf(),
            final(self).buffer == old(self).buffer,
            final(self).cursor == old(self).cursor,
            final(self).cursor_pos == old(self).cursor_pos,
            final(self).char_width == old(self).char_width,
            final(self).char_height == old(self).char_height,
            final(self).blink_counter == old(self).blink_counter,
            final(self).blinking_fast == old(self).blinking_fast,
            final(self).blinking_slow == old(self).blinking_slow,
            final(self).always_redraw_list.items@ == (if modifier_blinks(
                old(self).buffer.cell_at(xik as int, yik as int).modifier,
            ) && !old(self).always_redraw_list.spec_contains((xik, yik)) {
                old(self).always_redraw_list.items@.push((xik, yik))
            } else {
                old(self).always_redraw_list.items@
            }),
            forall|p: (u16, u16)|
                final(self).always_redraw_list.spec_contains(p) <==> (old(
                    self,
                ).always_redraw_list.spec_contains(p) || (p == (xik, yik) && modifier_blinks(
                    old(self).buffer.cell_at(xik as int, yik as int).modifier,
                ))),
            exists|m: Option<GlyphMask>|
                #[trigger] opt_mask_wf(m) && cell_rendered(
                    old(self).rgb_pixmap,
                    final(self).rgb_pixmap,
                    xik as int * old(self).char_width,
                    yik as int * old(self).char_height,
                    old(self).char_width as int,
                    old(self).char_height as int,
                    effective_colors(
                        old(self).buffer.cell_at(xik as int, yik as int),
                        old(self).blinking_slow,
                        old(self).blinking_fast,
                    ).0,
                    effective_colors(
                        old(self).buffer.cell_at(xik as int, yik as int),
                        old(self).blinking_slow,
                        old(self).blinking_fast,
                    ).1,
                    m,
                ),
    {
        let ghost cv = old(self).buffer.cell_at(xik as int, yik as int);
        let cell = self.buffer.get(xik, yik).clone();
        let (fgr, bgr) = if cell.modifier.reversed {
            (rat_to_rgb(&cell.bg, false), rat_to_rgb(&cell.fg, true))
        } else {
            (rat_to_rgb(&cell.fg, true), rat_to_rgb(&cell.bg, false))
        };
        let (fg0, bg0) = if cell.modifier.hidden {
            (bgr, bgr)
        } else {
            (fgr, bgr)
        };
        let (mut fg, mut bg) = if cell.modifier.dim {
            (dim_rgb(fg0), dim_rgb(bg0))
        } else {
            (fg0, bg0)
        };
        if cell.modifier.slow_blink {
            self.always_redraw_list.insert((xik, yik));
            if self.blinking_slow {
                fg = bg;
            }
        }
        if cell.modifier.rapid_blink {
            self.always_redraw_list.insert((xik, yik));
            if self.blinking_fast {
                fg = bg;
            }
        }
        proof {
            assert(fg == effective_colors(cv, old(self).blinking_slow, old(self).blinking_fast).0);
            assert(bg == effective_colors(cv, old(self).blinking_slow, old(self).blinking_fast).1);
        }
        let mut text = cell.symbol;
        if cell.modifier.crossed_out {
            text = add_strikeout(&text);
        }
        if cell.modifier.underlined {
            text = add_underline(&text);
        }
        let raw = self.raster_backend.rasterize(
            text.as_slice(),
            cell.modifier.bold,
            cell.modifier.italic,
        );
        let mask = match raw {
            Option::Some(k) => if k.is_well_formed() {
                Option::Some(k)
            } else {
                Option::None
            },
            Option::None => Option::None,
        };
        let ghost gm: Option<GlyphMask> = mask;
        proof {
            let cwid = self.char_width as int;
            let chei = self.char_height as int;
            let bw = self.buffer.width as int;
            let bh = self.buffer.height as int;
            let cx = xik as int;
            let cy = yik as int;
            assert(cx * cwid + cwid <= bw * cwid && bw * cwid == cwid * bw) by (nonlinear_arith)
                requires
                    0 <= cx < bw && 0 <= cwid,
            ;
            assert(cy * chei + chei <= bh * chei && bh * chei == chei * bh) by (nonlinear_arith)
                requires
                    0 <= cy < bh && 0 <= chei,
            ;
        }
        let x0: usize = xik as usize * self.char_width;
        let y0: usize = yik as usize * self.char_height;
        compose_cell(&mut self.rgb_pixmap, x0, y0, self.char_width, self.char_height, fg, bg, mask);
        proof {
            assert(opt_mask_wf(gm) && cell_rendered(
                old(self).rgb_pixmap,
                self.rgb_pixmap,
                xik as int * old(self).char_width,
                yik as int * old(self).char_height,
                old(self).char_width as int,
                old(self).char_height as int,
                effective_colors(cv, old(self).blinking_slow, old(self).blinking_fast).0,
                effective_colors(cv, old(self).blinking_slow, old(self).blinking_fast).1,
                gm,
            ));
        }
    }

    /// Rebuilds the always-redraw set and repaints every cell of the
    /// grid in scan order. Afterwards the set holds exactly the
    /// blinking cells, and the canvas is a fresh render of every cell.
    pub fn redraw(&mut self)
        requires
            old(self).wf(),
        ensures
            final(self).wf(),
            final(self).buffer == old(self).buffer,
            final(self).cursor == old(self).cursor,
            final(self).cursor_pos == old(self).cursor_pos,
            final(self).char_width == old(self).char_width,
            final(self).char_height == old(self).char_height,
            final(self).blink_counter == old(self).blink_counter,
            final(self).blinking_fast == old(self).blinking_fast,
            final(self).blinking_slow == old(self).blinking_slow,
            final(self).rgb_pixmap.width == old(self).rgb_pixmap.width,
            final(self).rgb_pixmap.height == old(self).rgb_pixmap.height,
            forall|p: (u16, u16)|
                final(self).always_redraw_list.spec_contains(p) <==> (p.0 < old(self).buffer.width
                    && p.1 < old(self).buffer.height && modifier_blinks(
                    old(self).buffer.cell_at(p.0 as int, p.1 as int).modifier,
                )),
            repaint_rendered(
                old(self).rgb_pixmap,
                final(self).rgb_pixmap,
                scan_order(old(self).buffer.width as int, old(self).buffer.height as int),
                old(self).buffer,
                old(self).char_width as int,
                old(self).char_height as int,
                old(self).blinking_slow,
                old(self).blinking_fast,
            ),
    {
        let ghost pm_start = self.rgb_pixmap;
        let ghost order = scan_order(self.buffer.width as int, self.buffer.height as int);
        let ghost cw = self.char_width as int;
        let ghost ch = self.char_height as int;
        let ghost mut ms: Seq<Option<GlyphMask>> = Seq::empty();
        let ghost mut pms: Seq<RgbPixmap> = Seq::empty();
        self.always_redraw_list = RedrawSet::new();
        let mut x: u16 = 0;
        while x < self.buffer.width
            invariant
                0 <= x <= self.buffer.width,
                self.wf(),
                self.buffer == old(self).buffer,
                self.cursor == old(self).cursor,
                self.cursor_pos == old(self).cursor_pos,
                self.char_width == old(self).char_width,
                self.char_height == old(self).char_height,
                self.blink_counter == old(self).blink_counter,
                self.blinking_fast == old(self).blinking_fast,
                self.blinking_slow == old(self).blinking_slow,
                self.rgb_pixmap.width == old(self).rgb_pixmap.width,
                self.rgb_pixmap.height == old(self).rgb_pixmap.height,
                cw == self.char_width as int,
                ch == self.char_height as int,
                pm_start == old(self).rgb_pixmap,
                order == scan_order(self.buffer.width as int, self.buffer.height as int),
                ms.len() == x * self.buffer.height,
                cells_repainted(
                    pm_start,
                    self.rgb_pixmap,
                    order.take(x * self.buffer.height),
                    self.buffer,
                    cw,
                    ch,
                    self.blinking_slow,
                    self.blinking_fast,
                    ms,
                    pms,
                ),
                forall|p: (u16, u16)|
                    self.always_redraw_list.spec_contains(p) <==> (p.0 < x && p.1
                        < self.buffer.height && modifier_blinks(
                        self.buffer.cell_at(p.0 as int, p.1 as int).modifier,
                    )),
            decreases self.buffer.width - x,
        {
            let mut y: u16 = 0;
            proof {
                let xi = x as int;
                let bw = self.buffer.width as int;
                let bh = self.buffer.height as int;
                assert((xi + 1) * bh == xi * bh + bh) by (nonlinear_arith);
                assert(xi * bh + bh <= bw * bh) by (nonlinear_arith)
                    requires
                        xi < bw && 0 <= bh,
                ;
            }
            while y < self.buffer.height
                invariant
                    0 <= x < self.buffer.width,
                    0 <= y <= self.buffer.height,
                    self.wf(),
                    self.buffer == old(self).buffer,
                    self.cursor == old(self).cursor,
                    self.cursor_pos == old(self).cursor_pos,
                    self.char_width == old(self).char_width,
                    self.char_height == old(self).char_height,
                    self.blink_counter == old(self).blink_counter,
                    self.blinking_fast == old(self).blinking_fast,
                    self.blinking_slow == old(self).blinking_slow,
                    self.rgb_pixmap.width == old(self).rgb_pixmap.width,
                    self.rgb_pixmap.height == old(self).rgb_pixmap.height,
                    cw == self.char_width as int,
                    ch == self.char_height as int,
                    pm_start == old(self).rgb_pixmap,
                    order == scan_order(self.buffer.width as int, self.buffer.height as int),
                    x as int * self.buffer.height + self.buffer.height <= self.buffer.width
                        * self.buffer.height,
                    ms.len() == x * self.buffer.height + y,
                    cells_repainted(
                        pm_start,
                        self.rgb_pixmap,
                        order.take(x * self.buffer.height + y),
                        self.buffer,
                        cw,
                        ch,
                        self.blinking_slow,
                        self.blinking_fast,
                        ms,
                        pms,
                    ),
                    forall|p: (u16, u16)|
                        self.always_redraw_list.spec_contains(p) <==> ((p.0 < x || (p.0 == x && p.1
                            < y)) && p.1 < self.buffer.height && p.0 < self.buffer.width
                            && modifier_blinks(
                            self.buffer.cell_at(p.0 as int, p.1 as int).modifier,
                        )),
                decreases self.buffer.height - y,
            {
                let ghost prev = *self;
                self.draw_cell(x, y);
                proof {
                    let n = x as int * self.buffer.height + y as int;
                    let m = choose|m: Option<GlyphMask>|
                        #[trigger] opt_mask_wf(m) && cell_rendered(
                            prev.rgb_pixmap,
                            self.rgb_pixmap,
                            x as int * prev.char_width,
                            y as int * prev.char_height,
                            prev.char_width as int,
                            prev.char_height as int,
                            effective_colors(
                                prev.buffer.cell_at(x as int, y as int),
                                prev.blinking_slow,
                                prev.blinking_fast,
                            ).0,
                            effective_colors(
                                prev.buffer.cell_at(x as int, y as int),
                                prev.blinking_slow,
                                prev.blinking_fast,
                            ).1,
                            m,
                        );
                    let ghost ms0 = ms;
                    let ghost pms0 = pms;
                    ms = ms.push(m);
                    pms = pms.push(prev.rgb_pixmap);
                    vstd::arithmetic::div_mod::lemma_fundamental_div_mod_converse(
                        n,
                        self.buffer.height as int,
                        x as int,
                        y as int,
                    );
                    assert(order[n] == (x, y));
                    assert(order.take(n + 1).drop_last() =~= order.take(n));
                    assert(ms.drop_last() =~= ms0);
                    assert(pms.drop_last() =~= pms0);
                    assert(order.take(n + 1).last() == (x, y));
                    assert(cells_repainted(
                        pm_start,
                        self.rgb_pixmap,
                        order.take(n + 1),
                        self.buffer,
                        cw,
                        ch,
                        self.blinking_slow,
                        self.blinking_fast,
                        ms,
                        pms,
                    ));
                }
                y = y + 1;
            }
            x = x + 1;
        }
        proof {
            assert(order.take(self.buffer.width as int * self.buffer.height as int) =~= order);
            assert(cells_repainted(
                pm_start,
                self.rgb_pixmap,
                order,
                self.buffer,
                cw,
                ch,
                self.blinking_slow,
                self.blinking_fast,
                ms,
                pms,
            ));
            assert(repaint_rendered(
                pm_start,
                self.rgb_pixmap,
                order,
                self.buffer,
                cw,
                ch,
                self.blinking_slow,
                self.blinking_fast,
            ));
        }
    }

    /// Advances the blink phase, applies every changed-cell triple to
    /// the stored grid and repaints it, then repaints every cell in the
    /// always-redraw set. Cells that a change marks as blinking join
    /// the set; no cell leaves it.
    pub fn draw(&mut self, content: &Vec<(u16, u16, Cell)>) -> (res: Result<(), RenderError>)
        requires
            old(self).wf(),
            forall|i: int|
                0 <= i < content.len() ==> (#[trigger] content[i]).0 < old(self).buffer.width
                    && content[i].1 < old(self).buffer.height,
        ensures
            res is Ok,
            final(self).wf(),
            final(self).cursor == old(self).cursor,
            final(self).cursor_pos == old(self).cursor_pos,
            final(self).char_width == old(self).char_width,
            final(self).char_height == old(self).char_height,
            final(self).rgb_pixmap.width == old(self).rgb_pixmap.width,
            final(self).rgb_pixmap.height == old(self).rgb_pixmap.height,
            final(self).buffer.width == old(self).buffer.width,
            final(self).buffer.height == old(self).buffer.height,
            final(self).blink_counter == (old(self).blink_counter + 1) % 200,
            final(self).blinking_fast == fast_blink_on(final(self).blink_counter),
            final(self).blinking_slow == slow_blink_on(final(self).blink_counter),
            forall|c: int, r: int|
                0 <= c < old(self).buffer.width && 0 <= r < old(self).buffer.height
                    ==> #[trigger] final(self).buffer.cell_at(c, r) == last_change(
                    content@,
                    c,
                    r,
                    old(self).buffer.cell_at(c, r),
                ),
            forall|p: (u16, u16)|
                final(self).always_redraw_list.spec_contains(p) <==> (old(
                    self,
                ).always_redraw_list.spec_contains(p) || blink_changed(content@, p)),
            exists|mid_pm: RgbPixmap|
                #[trigger] draw_changes_rendered(
                    old(self).rgb_pixmap,
                    mid_pm,
                    content@,
                    old(self).char_width as int,
                    old(self).char_height as int,
                    final(self).blinking_slow,
                    final(self).blinking_fast,
                ) && repaint_rendered(
                    mid_pm,
                    final(self).rgb_pixmap,
                    final(self).always_redraw_list.items@,
                    final(self).buffer,
                    old(self).char_width as int,
                    old(self).char_height as int,
                    final(self).blinking_slow,
                    final(self).blinking_fast,
                ),
    {
        self.update_blinking();
        let ghost pm_start = self.rgb_pixmap;
        let ghost cw = self.char_width as int;
        let ghost ch = self.char_height as int;
        let ghost mut ms1: Seq<Option<GlyphMask>> = Seq::empty();
        let ghost mut pms1: Seq<RgbPixmap> = Seq::empty();
        let mut i: usize = 0;
        while i < content.len()
            invariant
                0 <= i <= content.len(),
                self.wf(),
                forall|q: int|
                    0 <= q < content.len() ==> (#[trigger] content[q]).0 < old(self).buffer.width
                        && content[q].1 < old(self).buffer.height,
                self.buffer.width == old(self).buffer.width,
                self.buffer.height == old(self).buffer.height,
                self.cursor == old(self).cursor,
                self.cursor_pos == old(self).cursor_pos,
                self.char_width == old(self).char_width,
                self.char_height == old(self).char_height,
                self.rgb_pixmap.width == old(self).rgb_pixmap.width,
                self.rgb_pixmap.height == old(self).rgb_pixmap.height,
                self.blink_counter == (old(self).blink_counter + 1) % 200,
                self.blinking_fast == fast_blink_on(self.blink_counter),
                self.blinking_slow == slow_blink_on(self.blink_counter),
                cw == self.char_width as int,
                ch == self.char_height as int,
                pm_start == old(self).rgb_pixmap,
                changes_rendered(
                    pm_start,
                    self.rgb_pixmap,
                    content@.take(i as int),
                    cw,
                    ch,
                    self.blinking_slow,
                    self.blinking_fast,
                    ms1,
                    pms1,
                ),
                forall|c: int, r: int|
                    0 <= c < old(self).buffer.width && 0 <= r < old(self).buffer.height
                        ==> #[trigger] self.buffer.cell_at(c, r) == last_change(
                        content@.take(i as int),
                        c,
                        r,
                        old(self).buffer.cell_at(c, r),
                    ),
                forall|p: (u16, u16)|
                    self.always_redraw_list.spec_contains(p) <==> (old(
                        self,
                    ).always_redraw_list.spec_contains(p) || blink_changed(
                        content@.take(i as int),
                        p,
                    )),
            decreases content.len() - i,
        {
            let t = &content[i];
            let cx = t.0;
            let cy = t.1;
            let cellc = t.2.clone();
            let ghost pre_cells = *self;
            self.buffer.set_cell(cx, cy, cellc);
            let ghost pre_draw = *self;
            self.draw_cell(cx, cy);
            proof {
                assert(content@.take(i as int + 1).drop_last() =~= content@.take(i as int));
                assert(content@.take(i as int + 1).last() == content@[i as int]);
                let m = choose|m: Option<GlyphMask>|
                    #[trigger] opt_mask_wf(m) && cell_rendered(
                        pre_draw.rgb_pixmap,
                        self.rgb_pixmap,
                        cx as int * pre_draw.char_width,
                        cy as int * pre_draw.char_height,
                        pre_draw.char_width as int,
                        pre_draw.char_height as int,
                        effective_colors(
                            pre_draw.buffer.cell_at(cx as int, cy as int),
                            pre_draw.blinking_slow,
                            pre_draw.blinking_fast,
                        ).0,
                        effective_colors(
                            pre_draw.buffer.cell_at(cx as int, cy as int),
                            pre_draw.blinking_slow,
                            pre_draw.blinking_fast,
                        ).1,
                        m,
                    );
                let ghost ms0 = ms1;
                let ghost pms0 = pms1;
                ms1 = ms1.push(m);
                pms1 = pms1.push(pre_draw.rgb_pixmap);
                assert(ms1.drop_last() =~= ms0);
                assert(pms1.drop_last() =~= pms0);
                assert(pre_draw.buffer.cell_at(cx as int, cy as int) == content@[i as int].2@);
                assert(changes_rendered(
                    pm_start,
                    self.rgb_pixmap,
                    content@.take(i as int + 1),
                    cw,
                    ch,
                    self.blinking_slow,
                    self.blinking_fast,
                    ms1,
                    pms1,
                ));
                assert forall|c: int, r: int|
                    0 <= c < old(self).buffer.width && 0 <= r < old(
                        self,
                    ).buffer.height implies #[trigger] self.buffer.cell_at(c, r) == last_change(
                    content@.take(i as int + 1),
                    c,
                    r,
                    old(self).buffer.cell_at(c, r),
                ) by {
                    if c == cx as int && r == cy as int {
                    } else {
                        assert(self.buffer.cell_at(c, r) == pre_cells.buffer.cell_at(c, r));
                    }
                }
                assert forall|p: (u16, u16)| self.always_redraw_list.spec_contains(p) <==> (old(
                    self,
                ).always_redraw_list.spec_contains(p) || blink_changed(
                    content@.take(i as int + 1),
                    p,
                )) by {
                    lemma_blink_changed_step(content@, i as int, p);
                }
            }
            i = i + 1;
        }
        proof {
            assert(content@.take(content.len() as int) =~= content@);
        }
        let ghost mid = *self;
        let ghost mut ms2: Seq<Option<GlyphMask>> = Seq::empty();
        let ghost mut pms2: Seq<RgbPixmap> = Seq::empty();
        let mut k: usize = 0;
        while k < self.always_redraw_list.len()
            invariant
                0 <= k <= self.always_redraw_list.items.len(),
                self.wf(),
                self.buffer == mid.buffer,
                self.always_redraw_list.items@ == mid.always_redraw_list.items@,
                self.cursor == mid.cursor,
                self.cursor_pos == mid.cursor_pos,
                self.char_width == mid.char_width,
                self.char_height == mid.char_height,
                self.rgb_pixmap.width == mid.rgb_pixmap.width,
                self.rgb_pixmap.height == mid.rgb_pixmap.height,
                self.blink_counter == mid.blink_counter,
                self.blinking_fast == mid.blinking_fast,
                self.blinking_slow == mid.blinking_slow,
                cw == self.char_width as int,
                ch == self.char_height as int,
                cells_repainted(
                    mid.rgb_pixmap,
                    self.rgb_pixmap,
                    mid.always_redraw_list.items@.take(k as int),
                    mid.buffer,
                    cw,
                    ch,
                    self.blinking_slow,
                    self.blinking_fast,
                    ms2,
                    pms2,
                ),
            decreases self.always_redraw_list.items.len() - k,
        {
            let p = self.always_redraw_list.get(k);
            proof {
                assert(self.always_redraw_list.spec_contains(p));
            }
            let ghost prev = *self;
            self.draw_cell(p.0, p.1);
            proof {
                let m = choose|m: Option<GlyphMask>|
                    #[trigger] opt_mask_wf(m) && cell_rendered(
                        prev.rgb_pixmap,
                        self.rgb_pixmap,
                        p.0 as int * prev.char_width,
                        p.1 as int * prev.char_height,
                        prev.char_width as int,
                        prev.char_height as int,
                        effective_colors(
                            prev.buffer.cell_at(p.0 as int, p.1 as int),
                            prev.blinking_slow,
                            prev.blinking_fast,
                        ).0,
                        effective_colors(
                            prev.buffer.cell_at(p.0 as int, p.1 as int),
                            prev.blinking_slow,
                            prev.blinking_fast,
                        ).1,
                        m,
                    );
                let ghost ms0 = ms2;
                let ghost pms0 = pms2;
                ms2 = ms2.push(m);
                pms2 = pms2.push(prev.rgb_pixmap);
                assert(ms2.drop_last() =~= ms0);
                assert(pms2.drop_last() =~= pms0);
                assert(mid.always_redraw_list.items@.take(k as int + 1).drop_last()
                    =~= mid.always_redraw_list.items@.take(k as int));
                assert(mid.always_redraw_list.items@.take(k as int + 1).last() == p);
                assert(cells_repainted(
                    mid.rgb_pixmap,
                    self.rgb_pixmap,
                    mid.always_redraw_list.items@.take(k as int + 1),
                    mid.buffer,
                    cw,
                    ch,
                    self.blinking_slow,
                    self.blinking_fast,
                    ms2,
                    pms2,
                ));
            }
            k = k + 1;
        }
        proof {
            assert(mid.always_redraw_list.items@.take(mid.always_redraw_list.items@.len() as int)
                =~= mid.always_redraw_list.items@);
            assert(draw_changes_rendered(
                pm_start,
                mid.rgb_pixmap,
                content@,
                cw,
                ch,
                self.blinking_slow,
                self.blinking_fast,
            ));
            assert(repaint_rendered(
                mid.rgb_pixmap,
                self.rgb_pixmap,
                self.always_redraw_list.items@,
                self.buffer,
                cw,
                ch,
                self.blinking_slow,
                self.blinking_fast,
            ));
        }
        Ok(())
    }

    /// Resets the stored grid to default cells everywhere and fills the
    /// canvas with the default background color. The canvas dimensions
    /// do not change.
    pub fn clear(&mut self) -> (res: Result<(), RenderError>)
        requires
            old(self).wf(),
        ensures
            res is Ok,
            final(self).wf(),
            final(self).cursor == old(self).cursor,
            final(self).cursor_pos == old(self).cursor_pos,
            final(self).char_width == old(self).char_width,
            final(self).char_height == old(self).char_height,
            final(self).blink_counter == old(self).blink_counter,
            final(self).blinking_fast == old(self).blinking_fast,
            final(self).blinking_slow == old(self).blinking_slow,
            final(self).always_redraw_list == old(self).always_redraw_list,
            final(self).buffer.width == old(self).buffer.width,
            final(self).buffer.height == old(self).buffer.height,
            forall|c: int, r: int|
                0 <= c < old(self).buffer.width && 0 <= r < old(self).buffer.height
                    ==> #[trigger] final(self).buffer.cell_at(c, r) == Cell::spec_empty(),
            final(self).rgb_pixmap.width == old(self).rgb_pixmap.width,
            final(self).rgb_pixmap.height == old(self).rgb_pixmap.height,
            forall|px: int, py: int|
                0 <= px < old(self).rgb_pixmap.width && 0 <= py < old(self).rgb_pixmap.height
                    ==> #[trigger] final(self).rgb_pixmap.spec_pixel(px, py) == resolve_spec(
                    crate::color::Color::Reset,
                    false,
                ),
    {
        self.buffer.reset();
        let clear_cell = Cell::empty();
        let colorik = rat_to_rgb(&clear_cell.bg, false);
        self.rgb_pixmap.fill(colorik);
        Ok(())
    }

    /// Reallocates the grid snapshot and the canvas for the new grid
    /// dimensions (the cell pixel size does not change) and repaints
    /// every cell from scratch.
    pub fn resize(&mut self, width: u16, height: u16)
        requires
            old(self).wf(),
            old(self).char_width * width <= usize::MAX,
            old(self).char_height * height <= usize::MAX,
            (old(self).char_width * width) * (old(self).char_height * height) * 3 <= usize::MAX,
        ensures
            final(self).wf(),
            final(self).cursor == old(self).cursor,
            final(self).cursor_pos == old(self).cursor_pos,
            final(self).char_width == old(self).char_width,
            final(self).char_height == old(self).char_height,
            final(self).blink_counter == old(self).blink_counter,
            final(self).blinking_fast == old(self).blinking_fast,
            final(self).blinking_slow == old(self).blinking_slow,
            final(self).buffer.width == width,
            final(self).buffer.height == height,
            forall|c: int, r: int|
                0 <= c < width && 0 <= r < height ==> #[trigger] final(self).buffer.cell_at(c, r)
                    == Cell::spec_empty(),
            final(self).rgb_pixmap.width == old(self).char_width * width,
            final(self).rgb_pixmap.height == old(self).char_height * height,
            final(self).always_redraw_list.items@ =~= Seq::<(u16, u16)>::empty(),
            exists|pm0: RgbPixmap|
                #[trigger] fresh_black_pixmap(
                    pm0,
                    old(self).char_width * width,
                    old(self).char_height * height,
                ) && repaint_rendered(
                    pm0,
                    final(self).rgb_pixmap,
                    scan_order(width as int, height as int),
                    final(self).buffer,
                    old(self).char_width as int,
                    old(self).char_height as int,
                    old(self).blinking_slow,
                    old(self).blinking_fast,
                ),
    {
        self.buffer = Grid::empty(width, height);
        let pw: usize = self.char_width * width as usize;
        let ph: usize = self.char_height * height as usize;
        proof {
            assert(pw * ph * 3 <= usize::MAX && pw * ph <= usize::MAX) by (nonlinear_arith)
                requires
                    pw * ph * 3 <= usize::MAX && 0 <= pw && 0 <= ph,
            ;
        }
        let rgb_pixmap = RgbPixmap::new(pw, ph);
        self.rgb_pixmap = rgb_pixmap;
        let ghost pm0 = self.rgb_pixmap;
        self.always_redraw_list = RedrawSet::new();
        self.redraw();
        proof {
            if self.always_redraw_list.items.len() > 0 {
                assert(self.always_redraw_list.spec_contains(self.always_redraw_list.items[0]));
            }
            assert(fresh_black_pixmap(
                pm0,
                old(self).char_width * width,
                old(self).char_height * height,
            ));
        }
    }

    /// Adopts a new cell pixel size. Succeeds exactly when the
    /// resulting canvas fits in memory limits: the engine then takes
    /// the new size, reallocates the canvas and repaints every cell of
    /// the unchanged grid; otherwise nothing changes at all.
    pub fn adopt_cell_size(&mut self, char_width: usize, char_height: usize) -> (applied: bool)
        requires
            old(self).wf(),
        ensures
            final(self).wf(),
            applied <==> dims_fit(
                char_width as int,
                old(self).buffer.width as int,
                char_height as int,
                old(self).buffer.height as int,
            ),
            final(self).cursor == old(self).cursor,
            final(self).cursor_pos == old(self).cursor_pos,
            final(self).blink_counter == old(self).blink_counter,
            final(self).blinking_fast == old(self).blinking_fast,
            final(self).blinking_slow == old(self).blinking_slow,
            final(self).buffer == old(self).buffer,
            applied ==> final(self).char_width == char_width && final(self).char_height
                == char_height && final(self).rgb_pixmap.width == char_width * old(
                self,
            ).buffer.width && final(self).rgb_pixmap.height == char_height * old(
                self,
            ).buffer.height,
            applied ==> forall|p: (u16, u16)|
                final(self).always_redraw_list.spec_contains(p) <==> (p.0 < old(self).buffer.width
                    && p.1 < old(self).buffer.height && modifier_blinks(
                    old(self).buffer.cell_at(p.0 as int, p.1 as int).modifier,
                )),
            applied ==> exists|pm0: RgbPixmap|
                #[trigger] fresh_black_pixmap(
                    pm0,
                    char_width * old(self).buffer.width,
                    char_height * old(self).buffer.height,
                ) && repaint_rendered(
                    pm0,
                    final(self).rgb_pixmap,
                    scan_order(old(self).buffer.width as int, old(self).buffer.height as int),
                    old(self).buffer,
                    char_width as int,
                    char_height as int,
                    old(self).blinking_slow,
                    old(self).blinking_fast,
                ),
            !applied ==> *final(self) == *old(self),
    {
        let pw = match char_width.checked_mul(self.buffer.width as usize) {
            Some(v) => v,
            None => {
                return false;
            },
        };
        let ph = match char_height.checked_mul(self.buffer.height as usize) {
            Some(v) => v,
            None => {
                return false;
            },
        };
        let area = match pw.checked_mul(ph) {
            Some(v) => v,
            None => {
                proof {
                    assert(!((char_width * self.buffer.width) * (char_height * self.buffer.height)
                        * 3 <= usize::MAX)) by (nonlinear_arith)
                        requires
                            pw == char_width * self.buffer.width && ph == char_height
                                * self.buffer.height && pw * ph > usize::MAX && 3 * (pw * ph) >= pw
                                * ph,
                    ;
                }
                return false;
            },
        };
        if area > usize::MAX / 3 {
            proof {
                assert(!((char_width * self.buffer.width) * (char_height * self.buffer.height) * 3
                    <= usize::MAX)) by (nonlinear_arith)
                    requires
                        pw == char_width * self.buffer.width && ph == char_height
                            * self.buffer.height && area == pw * ph && area > usize::MAX / 3,
                ;
            }
            return false;
        }
        self.char_width = char_width;
        self.char_height = char_height;
        proof {
            assert(pw * ph * 3 <= usize::MAX) by (nonlinear_arith)
                requires
                    0 <= pw * ph <= usize::MAX / 3,
            ;
        }
        let rgb_pixmap = RgbPixmap::new(pw, ph);
        self.rgb_pixmap = rgb_pixmap;
        let ghost pm0 = self.rgb_pixmap;
        self.redraw();
        proof {
            assert(fresh_black_pixmap(
                pm0,
                char_width * old(self).buffer.width,
                char_height * old(self).buffer.height,
            ));
        }
        true
    }

    /// Reconfigures the rasterizer backend for a new font size and, when
    /// the resulting canvas fits in memory limits, adopts the cell
    /// pixel size the backend answered with, reallocates the canvas
    /// and repaints every cell. Returns whether a new size was adopted;
    /// when none was, the engine's own state is unchanged.
    pub fn set_font_size(&mut self, font_size: i32) -> (applied: bool)
        requires
            old(self).wf(),
        ensures
            final(self).wf(),
            final(self).cursor == old(self).cursor,
            final(self).cursor_pos == old(self).cursor_pos,
            final(self).blink_counter == old(self).blink_counter,
            final(self).blinking_fast == old(self).blinking_fast,
            final(self).blinking_slow == old(self).blinking_slow,
            final(self).buffer == old(self).buffer,
            applied ==> dims_fit(
                final(self).char_width as int,
                old(self).buffer.width as int,
                final(self).char_height as int,
                old(self).buffer.height as int,
            ) && final(self).rgb_pixmap.width == final(self).char_width * old(self).buffer.width
                && final(self).rgb_pixmap.height == final(self).char_height * old(
                self,
            ).buffer.height,
            applied ==> forall|p: (u16, u16)|
                final(self).always_redraw_list.spec_contains(p) <==> (p.0 < old(self).buffer.width
                    && p.1 < old(self).buffer.height && modifier_blinks(
                    old(self).buffer.cell_at(p.0 as int, p.1 as int).modifier,
                )),
            applied ==> exists|pm0: RgbPixmap|
                #[trigger] fresh_black_pixmap(
                    pm0,
                    final(self).char_width * old(self).buffer.width,
                    final(self).char_height * old(self).buffer.height,
                ) && repaint_rendered(
                    pm0,
                    final(self).rgb_pixmap,
                    scan_order(old(self).buffer.width as int, old(self).buffer.height as int),
                    old(self).buffer,
                    final(self).char_width as int,
                    final(self).char_height as int,
                    old(self).blinking_slow,
                    old(self).blinking_fast,
                ),
            !applied ==> final(self).char_width == old(self).char_width && final(self).char_height
                == old(self).char_height && final(self).rgb_pixmap == old(self).rgb_pixmap
                && final(self).always_redraw_list == old(self).always_redraw_list,
    {
        let (cw, ch) = self.raster_backend.set_font_size(font_size);
        self.adopt_cell_size(cw, ch)
    }

    /// Creates an engine around an already-configured rasterizer
    /// backend, asking it once for the cell pixel size. Returns `None`
    /// when the resulting canvas would not fit in memory limits.
    pub fn with_rasterizer(raster_backend: RasterBackend, width: u16, height: u16) -> (r: Option<
        SoftBackend<RasterBackend>,
    >)
        ensures
            r is Some ==> exists|cw: usize, ch: usize|
                #[trigger] fresh_engine(r->Some_0, width, height, cw as int, ch as int),
    {
        let (cw, ch) = raster_backend.cell_size();
        SoftBackend::with_cell_size(raster_backend, width, height, cw, ch)
    }

    /// Creates an engine with an explicitly given cell pixel size.
    /// Returns `Some` exactly when the canvas fits in memory limits;
    /// the fresh engine starts with a default grid, a canvas filled
    /// with the default background color, and everything else zeroed.
    pub fn with_cell_size(
        raster_backend: RasterBackend,
        width: u16,
        height: u16,
        char_width: usize,
        char_height: usize,
    ) -> (r: Option<SoftBackend<RasterBackend>>)
        ensures
            r is Some <==> dims_fit(char_width as int, width as int, char_height as int, height as int),
            r is Some ==> fresh_engine(r->Some_0, width, height, char_width as int, char_height as int),
    {
        let pw = match char_width.checked_mul(width as usize) {
            Some(v) => v,
            None => {
                return None;
            },
        };
        let ph = match char_height.checked_mul(height as usize) {
            Some(v) => v,
            None => {
                return None;
            },
        };
        let area = match pw.checked_mul(ph) {
            Some(v) => v,
            None => {
                proof {
                    assert(!((char_width * width) * (char_height * height) * 3 <= usize::MAX))
                        by (nonlinear_arith)
                        requires
                            pw == char_width * width && ph == char_height * height && pw * ph
                                > usize::MAX && 3 * (pw * ph) >= pw * ph,
                    ;
                }
                return None;
            },
        };
        if area > usize::MAX / 3 {
            proof {
                assert(!((char_width * width) * (char_height * height) * 3 <= usize::MAX))
                    by (nonlinear_arith)
                    requires
                        pw == char_width * width && ph == char_height * height && area == pw * ph
                            && area > usize::MAX / 3,
                ;
            }
            return None;
        }
        proof {
            assert(pw * ph * 3 <= usize::MAX) by (nonlinear_arith)
                requires
                    0 <= pw * ph <= usize::MAX / 3,
            ;
        }
        let mut engine = SoftBackend {
            buffer: Grid::empty(width, height),
            cursor: false,
            cursor_pos: (0, 0),
            char_width,
            char_height,
            blink_counter: 0,
            blinking_fast: false,
            blinking_slow: false,
            rgb_pixmap: RgbPixmap::new(pw, ph),
            always_redraw_list: RedrawSet::new(),
            raster_backend,
        };
        let _ = engine.clear();
        Some(engine)
    }
}

/// The canvas implied by the given cell size and grid dimensions fits
/// in memory limits: each pixel dimension and the byte length of the
/// buffer stay within `usize`.
pub open spec fn dims_fit(cw: int, w: int, ch: int, h: int) -> bool {
    cw * w <= usize::MAX && ch * h <= usize::MAX && (cw * w) * (ch * h) * 3 <= usize::MAX
}

/// The state of a freshly constructed engine: a default grid, a canvas
/// of the right dimensions filled with the default background color,
/// the cursor hidden at the origin, the blink cycle at its start, and
/// an empty always-redraw set.
pub open spec fn fresh_engine<RasterBackend>(
    s: SoftBackend<RasterBackend>,
    width: u16,
    height: u16,
    cw: int,
    ch: int,
) -> bool {
    &&& s.wf()
    &&& s.buffer.width == width
    &&& s.buffer.height == height
    &&& forall|c: int, r: int|
        0 <= c < width && 0 <= r < height ==> #[trigger] s.buffer.cell_at(c, r)
            == Cell::spec_empty()
    &&& s.char_width == cw
    &&& s.char_height == ch
    &&& s.cursor == false
    &&& s.cursor_pos == (0u16, 0u16)
    &&& s.blink_counter == 0
    &&& s.blinking_fast == false
    &&& s.blinking_slow == false
    &&& s.always_redraw_list.items@ =~= Seq::<(u16, u16)>::empty()
    &&& forall|px: int, py: int|
        0 <= px < s.rgb_pixmap.width && 0 <= py < s.rgb_pixmap.height
            ==> #[trigger] s.rgb_pixmap.spec_pixel(px, py) == resolve_spec(
            crate::color::Color::Reset,
            false,
        )
}

/// Grid and canvas dimensions as a host needs them to size a window or
/// texture: cells and pixels.
#[derive(Clone, Copy, Debug, PartialEq, Eq, Structural)]
pub struct WindowSize {
    pub cols: u16,
    pub rows: u16,
    pub pixel_width: usize,
    pub pixel_height: usize,
}

impl<RasterBackend> SoftBackend<RasterBackend> {
    /// Returns the raw RGB data of the canvas as a flat slice.
    pub fn get_pixmap_data(&self) -> (r: &[u8])
        ensures
            r@ == self.rgb_pixmap.data@,
    {
        self.rgb_pixmap.data()
    }

    /// Returns the canvas in RGBA format as a flat vector, with alpha
    /// fixed at fully opaque.
    pub fn get_pixmap_data_as_rgba(&self) -> (r: Vec<u8>)
        requires
            self.wf(),
            self.rgb_pixmap.width * self.rgb_pixmap.height * 4 <= usize::MAX,
        ensures
            r.len() == self.rgb_pixmap.width * self.rgb_pixmap.height * 4,
            forall|q: int|
                0 <= q < self.rgb_pixmap.width * self.rgb_pixmap.height
                    ==> #[trigger] crate::pixmap::rgba_at(r@, self.rgb_pixmap.data@, q),
    {
        self.rgb_pixmap.to_rgba()
    }

    /// Returns the width of the canvas in pixels.
    pub fn get_pixmap_width(&self) -> (r: usize)
        ensures
            r == self.rgb_pixmap.width,
    {
        self.rgb_pixmap.width()
    }

    /// Returns the height of the canvas in pixels.
    pub fn get_pixmap_height(&self) -> (r: usize)
        ensures
            r == self.rgb_pixmap.height,
    {
        self.rgb_pixmap.height()
    }

    /// Returns a reference to the stored grid snapshot.
    pub fn buffer(&self) -> (r: &Grid)
        ensures
            *r == self.buffer,
    {
        &self.buffer
    }

    /// Stops tracking the cursor as visible. Pure bookkeeping: no cell
    /// or pixel changes.
    pub fn hide_cursor(&mut self)
        ensures
            final(self).cursor == false,
            *final(self) == (SoftBackend { cursor: false, ..*old(self) }),
    {
        self.cursor = false;
    }

    /// Tracks the cursor as visible. Pure bookkeeping: no cell or pixel
    /// changes.
    pub fn show_cursor(&mut self)
        ensures
            final(self).cursor == true,
            *final(self) == (SoftBackend { cursor: true, ..*old(self) }),
    {
        self.cursor = true;
    }

    /// Reads the last cursor position set.
    pub fn get_cursor_position(&self) -> (r: (u16, u16))
        ensures
            r == self.cursor_pos,
    {
        self.cursor_pos
    }

    /// Stores a new cursor position. Pure bookkeeping: no cell or pixel
    /// changes.
    pub fn set_cursor_position(&mut self, col: u16, row: u16)
        ensures
            final(self).cursor_pos == (col, row),
            *final(self) == (SoftBackend { cursor_pos: (col, row), ..*old(self) }),
    {
        self.cursor_pos = (col, row);
    }

    /// Returns the grid dimensions in cells.
    pub fn size(&self) -> (r: (u16, u16))
        ensures
            r == (self.buffer.width, self.buffer.height),
    {
        (self.buffer.width, self.buffer.height)
    }

    /// Returns the grid dimensions in cells together with the canvas
    /// dimensions in pixels.
    pub fn window_size(&self) -> (r: WindowSize)
        ensures
            r.cols == self.buffer.width,
            r.rows == self.buffer.height,
            r.pixel_width == self.rgb_pixmap.width,
            r.pixel_height == self.rgb_pixmap.height,
    {
        WindowSize {
            cols: self.buffer.width,
            rows: self.buffer.height,
            pixel_width: self.rgb_pixmap.width,
            pixel_height: self.rgb_pixmap.height,
        }
    }

    /// Does nothing: the canvas is always fully painted after a draw.
    pub fn flush(&mut self) -> (res: Result<(), RenderError>)
        ensures
            res is Ok,
            *final(self) == *old(self),
    {
        Ok(())
    }
}

} // verus!
