//! The glyph rasterizer capability: a coverage mask with its placement,
//! and the interface that interchangeable rasterizer backends satisfy.

use vstd::prelude::*;

verus! {

/// A rectangular coverage mask produced by a glyph rasterizer: one
/// alpha byte per sample in row-major order, placed at (`left`, `top`)
/// relative to the top-left pixel of the cell being drawn.
#[derive(Debug, Clone)]
pub struct GlyphMask {
    pub left: i32,
    pub top: i32,
    pub width: usize,
    pub height: usize,
    pub data: Vec<u8>,
}

impl GlyphMask {
    /// The mask holds exactly one coverage byte per sample.
    pub open spec fn wf(self) -> bool {
        self.data.len() == self.width * self.height
    }

    /// The coverage byte of sample (i, j), counted from the mask's own
    /// top-left corner.
    pub open spec fn coverage(self, i: int, j: int) -> u8 {
        self.data[j * self.width + i]
    }

    /// Tells whether the mask holds exactly one byte per sample. The
    /// engine checks this on every mask a rasterizer hands back, since
    /// backends outside this crate are not verified.
    pub fn is_well_formed(&self) -> (r: bool)
        ensures
            r == self.wf(),
    {
        match self.width.checked_mul(self.height) {
            Some(n) => self.data.len() == n,
            None => false,
        }
    }
}

/// The smallest placement left coordinate among the parts; meaningful
/// for a non-empty sequence.
pub open spec fn parts_min_left(parts: Seq<GlyphMask>) -> int
    decreases parts.len(),
{
    if parts.len() <= 1 {
        parts[0].left as int
    } else {
        let rest = parts_min_left(parts.drop_last());
        if (parts.last().left as int) < rest {
            parts.last().left as int
        } else {
            rest
        }
    }
}

/// The smallest placement top coordinate among the parts.
pub open spec fn parts_min_top(parts: Seq<GlyphMask>) -> int
    decreases parts.len(),
{
    if parts.len() <= 1 {
        parts[0].top as int
    } else {
        let rest = parts_min_top(parts.drop_last());
        if (parts.last().top as int) < rest {
            parts.last().top as int
        } else {
            rest
        }
    }
}

/// The largest right edge (left plus width) among the parts.
pub open spec fn parts_max_right(parts: Seq<GlyphMask>) -> int
    decreases parts.len(),
{
    if parts.len() <= 1 {
        parts[0].left + parts[0].width
    } else {
        let rest = parts_max_right(parts.drop_last());
        if parts.last().left + parts.last().width > rest {
            parts.last().left + parts.last().width
        } else {
            rest
        }
    }
}

/// The largest bottom edge (top plus height) among the parts.
pub open spec fn parts_max_bottom(parts: Seq<GlyphMask>) -> int
    decreases parts.len(),
{
    if parts.len() <= 1 {
        parts[0].top + parts[0].height
    } else {
        let rest = parts_max_bottom(parts.drop_last());
        if parts.last().top + parts.last().height > rest {
            parts.last().top + parts.last().height
        } else {
            rest
        }
    }
}

/// The width of the bounding box of the parts (zero when it is empty).
pub open spec fn merged_width(parts: Seq<GlyphMask>) -> int {
    if parts_max_right(parts) < parts_min_left(parts) {
        0
    } else {
        parts_max_right(parts) - parts_min_left(parts)
    }
}

/// The height of the bounding box of the parts.
pub open spec fn merged_height(parts: Seq<GlyphMask>) -> int {
    if parts_max_bottom(parts) < parts_min_top(parts) {
        0
    } else {
        parts_max_bottom(parts) - parts_min_top(parts)
    }
}

/// The bounding box of the parts fits in memory limits.
pub open spec fn merged_fits(parts: Seq<GlyphMask>) -> bool {
    merged_width(parts) <= usize::MAX && merged_height(parts) <= usize::MAX && merged_width(parts)
        * merged_height(parts) <= usize::MAX
}

/// The combined coverage of the parts at the point (gx, gy), with each
/// part placed absolutely by its own left/top: the largest coverage
/// byte of any part whose window holds the point, zero when none does.
pub open spec fn merged_cov(parts: Seq<GlyphMask>, gx: int, gy: int) -> u8
    decreases parts.len(),
{
    if parts.len() == 0 {
        0u8
    } else {
        let rest = merged_cov(parts.drop_last(), gx, gy);
        let p = parts.last();
        if p.left <= gx < p.left + p.width && p.top <= gy < p.top + p.height {
            let c = p.coverage(gx - p.left, gy - p.top);
            if c > rest {
                c
            } else {
                rest
            }
        } else {
            rest
        }
    }
}

/// Byte (i, j) of the merged mask being built holds the combined
/// coverage of the parts at the corresponding absolute point.
pub open spec fn merged_byte_ok(
    data: Seq<u8>,
    w: int,
    parts: Seq<GlyphMask>,
    min_l: int,
    min_t: int,
    i: int,
    j: int,
) -> bool {
    data[j * w + i] == merged_cov(parts, min_l + i, min_t + j)
}

/// Merges several absolutely-placed coverage masks (as one shaped text
/// fragment's glyph images) into a single mask over their bounding
/// box, combining overlapping samples by the larger coverage. Returns
/// `None` exactly when there are no parts or the bounding box does not
/// fit in memory limits.
pub fn merge_masks(parts: &Vec<GlyphMask>) -> (r: Option<GlyphMask>)
    requires
        forall|t: int| 0 <= t < parts.len() ==> (#[trigger] parts[t]).wf(),
    ensures
        r is Some <==> parts.len() > 0 && merged_fits(parts@),
        r is Some ==> {
            let k = r->Some_0;
            &&& k.wf()
            &&& k.left == parts_min_left(parts@)
            &&& k.top == parts_min_top(parts@)
            &&& k.width == merged_width(parts@)
            &&& k.height == merged_height(parts@)
            &&& forall|i: int, j: int|
                0 <= i < k.width && 0 <= j < k.height ==> #[trigger] k.coverage(i, j)
                    == merged_cov(parts@, parts_min_left(parts@) + i, parts_min_top(parts@) + j)
        },
{
    if parts.len() == 0 {
        return None;
    }
    let first = &parts[0];
    let mut min_l: i32 = first.left;
    let mut min_t: i32 = first.top;
    let mut max_r: i128 = first.left as i128 + first.width as i128;
    let mut max_b: i128 = first.top as i128 + first.height as i128;
    let mut t: usize = 1;
    while t < parts.len()
        invariant
            1 <= t <= parts.len(),
            min_l as int == parts_min_left(parts@.take(t as int)),
            min_t as int == parts_min_top(parts@.take(t as int)),
            max_r as int == parts_max_right(parts@.take(t as int)),
            max_b as int == parts_max_bottom(parts@.take(t as int)),
            max_r <= i32::MAX as i128 + usize::MAX as i128,
            max_b <= i32::MAX as i128 + usize::MAX as i128,
        decreases parts.len() - t,
    {
        let p = &parts[t];
        proof {
            assert(parts@.take(t as int + 1).drop_last() =~= parts@.take(t as int));
            assert(parts@.take(t as int + 1).last() == parts@[t as int]);
        }
        if p.left < min_l {
            min_l = p.left;
        }
        if p.top < min_t {
            min_t = p.top;
        }
        let pr: i128 = p.left as i128 + p.width as i128;
        if pr > max_r {
            max_r = pr;
        }
        let pb: i128 = p.top as i128 + p.height as i128;
        if pb > max_b {
            max_b = pb;
        }
        t = t + 1;
    }
    proof {
        assert(parts@.take(parts.len() as int) =~= parts@);
    }
    let w128: i128 = if max_r < min_l as i128 {
        0
    } else {
        max_r - min_l as i128
    };
    let h128: i128 = if max_b < min_t as i128 {
        0
    } else {
        max_b - min_t as i128
    };
    if w128 > usize::MAX as i128 || h128 > usize::MAX as i128 {
        return None;
    }
    let w = w128 as usize;
    let h = h128 as usize;
    if w.checked_mul(h).is_none() {
        return None;
    }
    let mut data: Vec<u8> = Vec::new();
    let mut j: usize = 0;
    while j < h
        invariant
            0 <= j <= h,
            w * h <= usize::MAX,
            data.len() == j * w,
            forall|t2: int| 0 <= t2 < parts.len() ==> (#[trigger] parts[t2]).wf(),
            min_l as int == parts_min_left(parts@),
            min_t as int == parts_min_top(parts@),
            w == merged_width(parts@),
            h == merged_height(parts@),
            forall|qi: int, qj: int|
                0 <= qi < w && 0 <= qj < j ==> #[trigger] merged_byte_ok(
                    data@,
                    w as int,
                    parts@,
                    min_l as int,
                    min_t as int,
                    qi,
                    qj,
                ),
        decreases h - j,
    {
        proof {
            assert((j + 1) * w <= h * w && h * w == w * h && (j + 1) * w == j * w + w)
                by (nonlinear_arith)
                requires
                    0 <= j < h && 0 <= w,
            ;
        }
        let mut i: usize = 0;
        while i < w
            invariant
                0 <= j < h,
                0 <= i <= w,
                w * h <= usize::MAX,
                j * w + w <= usize::MAX,
                data.len() == j * w + i,
                forall|t2: int| 0 <= t2 < parts.len() ==> (#[trigger] parts[t2]).wf(),
                min_l as int == parts_min_left(parts@),
                min_t as int == parts_min_top(parts@),
                w == merged_width(parts@),
                h == merged_height(parts@),
                forall|qi: int, qj: int|
                    0 <= qi < w && 0 <= qj < j ==> #[trigger] merged_byte_ok(
                        data@,
                        w as int,
                        parts@,
                        min_l as int,
                        min_t as int,
                        qi,
                        qj,
                    ),
                forall|qi: int|
                    0 <= qi < i ==> #[trigger] merged_byte_ok(
                        data@,
                        w as int,
                        parts@,
                        min_l as int,
                        min_t as int,
                        qi,
                        j as int,
                    ),
            decreases w - i,
        {
            let gx: i128 = min_l as i128 + i as i128;
            let gy: i128 = min_t as i128 + j as i128;
            let mut acc: u8 = 0;
            let mut t2: usize = 0;
            while t2 < parts.len()
                invariant
                    0 <= t2 <= parts.len(),
                    forall|q: int| 0 <= q < parts.len() ==> (#[trigger] parts[q]).wf(),
                    gx == min_l as int + i as int,
                    gy == min_t as int + j as int,
                    acc == merged_cov(parts@.take(t2 as int), gx as int, gy as int),
                decreases parts.len() - t2,
            {
                let p = &parts[t2];
                proof {
                    assert(parts@.take(t2 as int + 1).drop_last() =~= parts@.take(t2 as int));
                    assert(parts@.take(t2 as int + 1).last() == parts@[t2 as int]);
                }
                if p.left as i128 <= gx && gx < p.left as i128 + p.width as i128
                    && p.top as i128 <= gy && gy < p.top as i128 + p.height as i128 {
                    let dx: usize = (gx - p.left as i128) as usize;
                    let dy: usize = (gy - p.top as i128) as usize;
                    proof {
                        crate::pixmap::lemma_row_major_index_bound(
                            dx as int,
                            dy as int,
                            p.width as int,
                            p.height as int,
                        );
                    }
                    let c = p.data[dy * p.width + dx];
                    if c > acc {
                        acc = c;
                    }
                }
                t2 = t2 + 1;
            }
            proof {
                assert(parts@.take(parts.len() as int) =~= parts@);
            }
            let ghost pre = data@;
            data.push(acc);
            proof {
                assert forall|qi: int, qj: int|
                    0 <= qi < w && 0 <= qj < j implies #[trigger] merged_byte_ok(
                    data@,
                    w as int,
                    parts@,
                    min_l as int,
                    min_t as int,
                    qi,
                    qj,
                ) by {
                    crate::pixmap::lemma_row_major_index_bound(qi, qj, w as int, j as int);
                    assert(w as int * (j as int) == (j as int) * (w as int)) by (nonlinear_arith);
                    assert(merged_byte_ok(pre, w as int, parts@, min_l as int, min_t as int, qi, qj));
                    assert(qj * w + qi < pre.len());
                }
                assert forall|qi: int| 0 <= qi < i + 1 implies #[trigger] merged_byte_ok(
                    data@,
                    w as int,
                    parts@,
                    min_l as int,
                    min_t as int,
                    qi,
                    j as int,
                ) by {
                    if qi < i {
                        assert(merged_byte_ok(
                            pre,
                            w as int,
                            parts@,
                            min_l as int,
                            min_t as int,
                            qi,
                            j as int,
                        ));
                    }
                }
            }
            i = i + 1;
        }
        j = j + 1;
    }
    let k = GlyphMask { left: min_l, top: min_t, width: w, height: h, data };
    proof {
        assert(h as int * (w as int) == (w as int) * (h as int)) by (nonlinear_arith);
        assert forall|i2: int, j2: int| 0 <= i2 < w && 0 <= j2 < h implies #[trigger] k.coverage(
            i2,
            j2,
        ) == merged_cov(parts@, parts_min_left(parts@) + i2, parts_min_top(parts@) + j2) by {
            assert(merged_byte_ok(k.data@, w as int, parts@, min_l as int, min_t as int, i2, j2));
        }
    }
    Some(k)
}

/// A glyph rasterizer backend: given a text fragment and a style, it
/// may produce a coverage mask with a placement, or report that the
/// text has no glyph (which degrades to a background-only cell). It
/// also fixes the pixel size of one cell.
pub trait Rasterizer {
    /// The pixel dimensions (width, height) of one cell under the
    /// backend's current configuration.
    fn cell_size(&self) -> (usize, usize);

    /// Reconfigures the backend for a new font size and returns the new
    /// cell pixel dimensions. A fixed-size backend may ignore the
    /// request and return its fixed dimensions.
    fn set_font_size(&mut self, font_size: i32) -> (usize, usize);

    /// Rasterizes one (possibly decorated) text fragment with the given
    /// style, or returns `None` when no glyph is available.
    fn rasterize(&mut self, text: &[char], bold: bool, italic: bool) -> Option<GlyphMask>;
}

} // verus!
