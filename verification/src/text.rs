//! Text decoration helpers: synthetic strikeout and underline are
//! produced by interleaving combining marks with the cell's characters.

use vstd::prelude::*;

verus! {

/// Position `i` of the decorated text holds the source character
/// followed by the combining mark.
pub open spec fn decor_at(r: Seq<char>, s: Seq<char>, mark: char, i: int) -> bool {
    r[2 * i] == s[i] && r[2 * i + 1] == mark
}

/// The decorated text interleaves every source character with the
/// combining mark.
pub open spec fn is_decorated(s: Seq<char>, mark: char, r: Seq<char>) -> bool {
    r.len() == 2 * s.len() && forall|i: int| 0 <= i < s.len() ==> #[trigger] decor_at(r, s, mark, i)
}

/// Interleaves each character of `text` with `mark`.
fn add_mark(text: &Vec<char>, mark: char) -> (r: Vec<char>)
    ensures
        is_decorated(text@, mark, r@),
{
    let mut r: Vec<char> = Vec::new();
    let mut i: usize = 0;
    while i < text.len()
        invariant
            0 <= i <= text.len(),
            r.len() == 2 * i,
            forall|q: int| 0 <= q < i ==> #[trigger] decor_at(r@, text@, mark, q),
        decreases text.len() - i,
    {
        let ghost pre = r@;
        r.push(text[i]);
        r.push(mark);
        proof {
            assert forall|q: int| 0 <= q < i + 1 implies #[trigger] decor_at(
                r@,
                text@,
                mark,
                q,
            ) by {
                if q < i {
                    assert(decor_at(pre, text@, mark, q));
                }
            }
        }
        i = i + 1;
    }
    r
}

/// Appends a combining long-stroke-overlay mark to every character, so
/// that a rasterizer draws the text struck through.
pub fn add_strikeout(text: &Vec<char>) -> (r: Vec<char>)
    ensures
        is_decorated(text@, '\u{0336}', r@),
{
    add_mark(text, '\u{0336}')
}

/// Appends a combining low-line mark to every character, so that a
/// rasterizer draws the text underlined.
pub fn add_underline(text: &Vec<char>) -> (r: Vec<char>)
    ensures
        is_decorated(text@, '\u{0332}', r@),
{
    add_mark(text, '\u{0332}')
}

/// The character lies in one of the Unicode ranges used for block
/// drawing, box drawing, geometric shapes, or arrows.
pub open spec fn is_block_drawing_spec(c: char) -> bool {
    (0x2580 <= c as u32 <= 0x259F) || (0x2500 <= c as u32 <= 0x257F) || (0x25A0 <= c as u32
        <= 0x25FF) || (0x2B00 <= c as u32 <= 0x2BFF) || (0x1F800 <= c as u32 <= 0x1F8FF)
}

/// Tells whether a character belongs to the Unicode block-drawing,
/// box-drawing, geometric-shape or arrow ranges.
pub fn is_unicode_block_drawing(c: char) -> (r: bool)
    ensures
        r == is_block_drawing_spec(c),
{
    let code = c as u32;
    (0x2580 <= code && code <= 0x259F) || (0x2500 <= code && code <= 0x257F) || (0x25A0 <= code
        && code <= 0x25FF) || (0x2B00 <= code && code <= 0x2BFF) || (0x1F800 <= code && code
        <= 0x1F8FF)
}

} // verus!
