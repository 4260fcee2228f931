//! A glyph rasterizer backend over BDF bitmap fonts. The font is
//! parsed and searched by the `bdf_parser` crate; decoding a glyph's
//! bitmap bits into a coverage mask is done and verified here.

use vstd::prelude::*;
use vstd::string::StringSliceAdditionalSpecFns;

use crate::backend::RenderError;
use crate::backend::SoftBackend;
use crate::backend::dims_fit;
use crate::backend::fresh_engine;
use crate::mask::GlyphMask;
use crate::mask::Rasterizer;

verus! {

#[verifier::external_type_specification]
#[verifier::external_body]
pub struct ExBdfFont(bdf_parser::BdfFont);

/// Whether BDF font data parses. Parsing is a function of the bytes
/// alone; which byte sequences parse is the outside parser's business,
/// so only the name is stated.
pub uninterp spec fn bdf_parses(data: Seq<u8>) -> bool;

/// The glyph a font holds for a character: its bounding-box width and
/// height and its bitmap bytes, or nothing. A lookup is a function of
/// the font value and the character alone.
pub uninterp spec fn glyph_of(font: bdf_parser::BdfFont, c: char) -> Option<(i32, i32, Seq<u8>)>;

/// Relies on bdf_parser::BdfFont::parse: parses BDF font data, which
/// succeeds exactly on the byte sequences that `bdf_parses` names.
#[verifier::external_body]
fn parse_bdf(data: &[u8]) -> (r: Option<bdf_parser::BdfFont>)
    ensures
        r is Some <==> bdf_parses(data@),
{
    bdf_parser::BdfFont::parse(data).ok()
}

/// Relies on bdf_parser::Glyphs::get: looks up the glyph encoded as
/// `c` and hands out its bounding-box size and bitmap bytes as the
/// plain values that `glyph_of` names; which glyphs a font holds is
/// the font's business.
#[verifier::external_body]
fn glyph_bitmap(font: &bdf_parser::BdfFont, c: char) -> (r: Option<(i32, i32, Vec<u8>)>)
    ensures
        r is Some <==> glyph_of(*font, c) is Some,
        r is Some ==> ((r->Some_0.0, r->Some_0.1, r->Some_0.2@) == glyph_of(*font, c)->Some_0),
{
    match font.glyphs.get(c) {
        Some(g) => Some((g.bounding_box.size.x, g.bounding_box.size.y, g.bitmap.clone())),
        None => None,
    }
}

/// Whether bit (x, y) of a BDF glyph bitmap is set: rows are stored
/// most-significant-bit first, padded to whole bytes of the bounding
/// box width `bbw`. Out-of-range positions read as unset.
pub open spec fn bdf_bit(bbw: int, bitmap: Seq<u8>, x: int, y: int) -> bool {
    if bbw < 0 {
        false
    } else {
        let bpr = (bbw + 7) / 8;
        let idx = x / 8 + bpr * y;
        0 <= idx < bitmap.len() && ((bitmap[idx] >> ((7 - (x % 8)) as u8)) & 1) == 1
    }
}

/// Reads one bit of a BDF glyph bitmap, treating out-of-range
/// positions as unset.
fn bdf_bit_exec(bbw: i32, bitmap: &Vec<u8>, x: usize, y: usize) -> (r: bool)
    ensures
        r == bdf_bit(bbw as int, bitmap@, x as int, y as int),
{
    let n = bitmap.len();
    if bbw < 0 {
        return false;
    }
    let bpr: usize = (bbw as usize + 7) / 8;
    let prod = match bpr.checked_mul(y) {
        Some(v) => v,
        None => {
            proof {
                assert(bpr * y >= n);
            }
            return false;
        },
    };
    let idx = match (x / 8).checked_add(prod) {
        Some(v) => v,
        None => {
            proof {
                assert(x as int / 8 + bpr * y >= n);
            }
            return false;
        },
    };
    if idx < bitmap.len() {
        let sh: u8 = 7 - (x % 8) as u8;
        ((bitmap[idx] >> sh) & 1) == 1
    } else {
        false
    }
}

/// The vertical placement of a BDF glyph mask: glyphs shorter than the
/// reference ascent of 13 rows are pushed down to sit on the baseline.
pub open spec fn bdf_top(bbh: int) -> int {
    if bbh >= 13 {
        0
    } else if 13 - bbh > i32::MAX {
        i32::MAX as int
    } else {
        13 - bbh
    }
}

/// Byte (i, j) of the mask being built equals full coverage where the
/// glyph bit is set and zero elsewhere.
pub open spec fn mask_byte_ok(
    data: Seq<u8>,
    cw: int,
    bbw: int,
    bitmap: Seq<u8>,
    i: int,
    j: int,
) -> bool {
    data[j * cw + i] == (if bdf_bit(bbw, bitmap, i, j) {
        255u8
    } else {
        0u8
    })
}

/// Builds the coverage mask of one BDF glyph for a cell of `cw` by
/// `ch` pixels: full coverage exactly on the set bits of the bitmap.
fn build_mask(bbw: i32, bbh: i32, bitmap: &Vec<u8>, cw: usize, ch: usize) -> (r: GlyphMask)
    requires
        cw * ch <= usize::MAX,
    ensures
        r.wf(),
        r.left == 0,
        r.top == bdf_top(bbh as int),
        r.width == cw,
        r.height == ch,
        forall|i: int, j: int|
            0 <= i < cw && 0 <= j < ch ==> #[trigger] r.coverage(i, j) == (if bdf_bit(
                bbw as int,
                bitmap@,
                i,
                j,
            ) {
                255u8
            } else {
                0u8
            }),
{
    let top: i32 = if bbh >= 13 {
        0
    } else {
        let t64: i64 = 13i64 - bbh as i64;
        if t64 > i32::MAX as i64 {
            i32::MAX
        } else {
            t64 as i32
        }
    };
    let mut data: Vec<u8> = Vec::new();
    let mut j: usize = 0;
    while j < ch
        invariant
            0 <= j <= ch,
            cw * ch <= usize::MAX,
            data.len() == j * cw,
            forall|qi: int, qj: int|
                0 <= qi < cw && 0 <= qj < j ==> #[trigger] mask_byte_ok(
                    data@,
                    cw as int,
                    bbw as int,
                    bitmap@,
                    qi,
                    qj,
                ),
        decreases ch - j,
    {
        proof {
            assert((j + 1) * cw <= ch * cw && ch * cw == cw * ch && (j + 1) * cw == j * cw + cw)
                by (nonlinear_arith)
                requires
                    0 <= j < ch && 0 <= cw,
            ;
        }
        let mut i: usize = 0;
        while i < cw
            invariant
                0 <= j < ch,
                0 <= i <= cw,
                cw * ch <= usize::MAX,
                j * cw + cw <= usize::MAX,
                data.len() == j * cw + i,
                forall|qi: int, qj: int|
                    0 <= qi < cw && 0 <= qj < j ==> #[trigger] mask_byte_ok(
                        data@,
                        cw as int,
                        bbw as int,
                        bitmap@,
                        qi,
                        qj,
                    ),
                forall|qi: int|
                    0 <= qi < i ==> #[trigger] mask_byte_ok(
                        data@,
                        cw as int,
                        bbw as int,
                        bitmap@,
                        qi,
                        j as int,
                    ),
            decreases cw - i,
        {
            let ghost pre = data@;
            let bit = bdf_bit_exec(bbw, bitmap, i, j);
            data.push(if bit {
                255
            } else {
                0
            });
            proof {
                assert forall|qi: int, qj: int|
                    0 <= qi < cw && 0 <= qj < j implies #[trigger] mask_byte_ok(
                    data@,
                    cw as int,
                    bbw as int,
                    bitmap@,
                    qi,
                    qj,
                ) by {
                    crate::pixmap::lemma_row_major_index_bound(qi, qj, cw as int, j as int);
                    assert(cw as int * (j as int) == (j as int) * (cw as int)) by (nonlinear_arith);
                    assert(mask_byte_ok(pre, cw as int, bbw as int, bitmap@, qi, qj));
                    assert(qj * cw + qi < pre.len());
                }
                assert forall|qi: int| 0 <= qi < i + 1 implies #[trigger] mask_byte_ok(
                    data@,
                    cw as int,
                    bbw as int,
                    bitmap@,
                    qi,
                    j as int,
                ) by {
                    if qi < i {
                        assert(mask_byte_ok(pre, cw as int, bbw as int, bitmap@, qi, j as int));
                    }
                }
            }
            i = i + 1;
        }
        j = j + 1;
    }
    let r = GlyphMask { left: 0, top, width: cw, height: ch, data };
    proof {
        assert(ch as int * (cw as int) == (cw as int) * (ch as int)) by (nonlinear_arith);
        assert forall|i: int, j2: int| 0 <= i < cw && 0 <= j2 < ch implies #[trigger] r.coverage(
            i,
            j2,
        ) == (if bdf_bit(bbw as int, bitmap@, i, j2) {
            255u8
        } else {
            0u8
        }) by {
            assert(mask_byte_ok(r.data@, cw as int, bbw as int, bitmap@, i, j2));
        }
    }
    r
}

/// A rasterizer backend over a parsed BDF bitmap font with a fixed
/// cell pixel size.
pub struct Bdf {
    pub font: bdf_parser::BdfFont,
    pub char_width: usize,
    pub char_height: usize,
}

impl Bdf {
    /// Parses BDF font data into a backend with the given fixed cell
    /// pixel size. Fails exactly when the font data does not parse.
    pub fn new(font_size: (usize, usize), font_data: &str) -> (r: Result<Bdf, RenderError>)
        ensures
            r is Ok <==> bdf_parses(font_data.spec_bytes()),
            r is Ok ==> (r->Ok_0).char_width == font_size.0 && (r->Ok_0).char_height
                == font_size.1,
            r is Err ==> r->Err_0 == RenderError::FontParse,
    {
        match parse_bdf(font_data.as_bytes()) {
            Option::Some(font) => Ok(
                Bdf { font, char_width: font_size.0, char_height: font_size.1 },
            ),
            Option::None => Err(RenderError::FontParse),
        }
    }
}

impl Rasterizer for Bdf {
    fn cell_size(&self) -> (usize, usize) {
        (self.char_width, self.char_height)
    }

    fn set_font_size(&mut self, font_size: i32) -> (usize, usize) {
        (self.char_width, self.char_height)
    }

    fn rasterize(&mut self, text: &[char], bold: bool, italic: bool) -> Option<GlyphMask> {
        if text.len() == 0 {
            return None;
        }
        let c = text[0];
        match glyph_bitmap(&self.font, c) {
            Option::Some((bbw, bbh, bitmap)) => {
                match self.char_width.checked_mul(self.char_height) {
                    Option::Some(_) => Some(
                        build_mask(bbw, bbh, &bitmap, self.char_width, self.char_height),
                    ),
                    Option::None => None,
                }
            },
            Option::None => None,
        }
    }
}

impl SoftBackend<Bdf> {
    /// Creates a software backend over a BDF bitmap font: parses the
    /// font data, fixes the cell pixel size from `font_size`, and
    /// builds a fresh engine. Succeeds exactly when the font data
    /// parses and the canvas fits in memory limits.
    pub fn new(width: u16, height: u16, font_size: (usize, usize), font_data: &str) -> (r: Result<
        SoftBackend<Bdf>,
        RenderError,
    >)
        ensures
            r is Ok <==> bdf_parses(font_data.spec_bytes()) && dims_fit(
                font_size.0 as int,
                width as int,
                font_size.1 as int,
                height as int,
            ),
            r is Ok ==> fresh_engine(
                r->Ok_0,
                width,
                height,
                font_size.0 as int,
                font_size.1 as int,
            ),
            r is Err ==> (r->Err_0 == RenderError::FontParse <==> !bdf_parses(
                font_data.spec_bytes(),
            )),
    {
        match Bdf::new(font_size, font_data) {
            Err(e) => Err(e),
            Ok(raster) => match SoftBackend::with_cell_size(
                raster,
                width,
                height,
                font_size.0,
                font_size.1,
            ) {
                Option::Some(engine) => Ok(engine),
                Option::None => Err(RenderError::TooLarge),
            },
        }
    }
}

} // verus!
