//! A flat RGB pixel buffer with bounds-checked access.

use vstd::prelude::*;

verus! {

/// A pixmap with RGB pixels stored in a flat vector, three bytes per
/// pixel in row-major order.
#[derive(Debug, Clone)]
pub struct RgbPixmap {
    pub width: usize,
    pub height: usize,
    pub data: Vec<u8>,
}

/// On every (x, y) with `0 <= x < w` and `0 <= y < h`, the row-major
/// pixel index `y * w + x` stays below `w * h`.
pub proof fn lemma_row_major_index_bound(x: int, y: int, w: int, h: int)
    by (nonlinear_arith)
    requires
        0 <= x < w,
        0 <= y < h,
    ensures
        0 <= y * w + x < w * h,
{
}

/// Distinct in-range coordinates have distinct row-major pixel indices.
pub proof fn lemma_row_major_index_injective(x1: int, y1: int, x2: int, y2: int, w: int)
    by (nonlinear_arith)
    requires
        0 <= x1 < w,
        0 <= x2 < w,
        0 <= y1,
        0 <= y2,
        !(x1 == x2 && y1 == y2),
    ensures
        y1 * w + x1 != y2 * w + x2,
{
}

/// Pixel `q` of the flat RGB buffer `d` holds the color `c`.
pub open spec fn rgb_at(d: Seq<u8>, q: int, c: [u8; 3]) -> bool {
    d[3 * q] == c[0] && d[3 * q + 1] == c[1] && d[3 * q + 2] == c[2]
}

/// Pixel `q` of the RGBA buffer `r` holds the same color as pixel `q` of
/// the RGB buffer `d`, with alpha fixed at fully opaque.
pub open spec fn rgba_at(r: Seq<u8>, d: Seq<u8>, q: int) -> bool {
    r[4 * q] == d[3 * q] && r[4 * q + 1] == d[3 * q + 1] && r[4 * q + 2] == d[3 * q + 2] && r[4 * q
        + 3] == 255u8
}

impl RgbPixmap {
    /// The buffer holds exactly three bytes for each of the
    /// `width * height` pixels.
    pub open spec fn wf(self) -> bool {
        self.data.len() == self.width * self.height * 3
    }

    /// Byte offset of the first channel of pixel (x, y).
    pub open spec fn pixel_index(self, x: int, y: int) -> int {
        3 * (y * self.width + x)
    }

    /// The RGB triple stored at pixel (x, y).
    pub open spec fn spec_pixel(self, x: int, y: int) -> [u8; 3] {
        let i = self.pixel_index(x, y);
        [self.data[i], self.data[i + 1], self.data[i + 2]]
    }

    /// Creates a new pixmap, zero-filled (black).
    pub fn new(width: usize, height: usize) -> (r: RgbPixmap)
        requires
            width * height * 3 <= usize::MAX,
        ensures
            r.wf(),
            r.width == width,
            r.height == height,
            forall|x: int, y: int|
                0 <= x < width && 0 <= y < height ==> r.spec_pixel(x, y) == [0u8, 0u8, 0u8],
    {
        proof {
            assert(width * height * 3 == 3 * (width * height)) by (nonlinear_arith);
        }
        let n: usize = width * height;
        let data: Vec<u8> = vec![0u8; 3 * n];
        let r = RgbPixmap { width, height, data };
        proof {
            assert forall|x: int, y: int| 0 <= x < width && 0 <= y < height implies r.spec_pixel(
                x,
                y,
            ) == [0u8, 0u8, 0u8] by {
                lemma_row_major_index_bound(x, y, width as int, height as int);
            }
        }
        r
    }

    /// Returns the width of the pixmap in pixels.
    pub fn width(&self) -> (r: usize)
        ensures
            r == self.width,
    {
        self.width
    }

    /// Returns the height of the pixmap in pixels.
    pub fn height(&self) -> (r: usize)
        ensures
            r == self.height,
    {
        self.height
    }

    /// Returns the raw RGB data of the pixmap as a flat slice.
    pub fn data(&self) -> (r: &[u8])
        ensures
            r@ == self.data@,
    {
        self.data.as_slice()
    }

    /// Sets the RGB value of the pixel at (x, y).
    pub fn put_pixel(&mut self, x: usize, y: usize, color: [u8; 3])
        requires
            old(self).wf(),
            x < old(self).width,
            y < old(self).height,
        ensures
            final(self).wf(),
            final(self).width == old(self).width,
            final(self).height == old(self).height,
            final(self).spec_pixel(x as int, y as int) == color,
            forall|j: int|
                0 <= j < final(self).data.len() && !(old(self).pixel_index(x as int, y as int) <= j
                    < old(self).pixel_index(x as int, y as int) + 3)
                    ==> final(self).data[j] == old(self).data[j],
            forall|px: int, py: int|
                0 <= px < final(self).width && 0 <= py < final(self).height && !(px == x && py == y)
                    ==> #[trigger] final(self).spec_pixel(px, py) == old(self).spec_pixel(px, py),
    {
        proof {
            lemma_row_major_index_bound(x as int, y as int, self.width as int, self.height as int);
            assert(3 * (y * self.width + x) + 3 <= 3 * (self.width * self.height))
                by (nonlinear_arith)
                requires
                    y * self.width + x < self.width * self.height,
            ;
            assert(self.width * self.height * 3 == 3 * (self.width * self.height))
                by (nonlinear_arith);
        }
        let index: usize = 3 * (y * self.width + x);
        self.data.set(index, color[0]);
        self.data.set(index + 1, color[1]);
        self.data.set(index + 2, color[2]);
        proof {
            assert forall|px: int, py: int|
                0 <= px < self.width && 0 <= py < self.height && !(px == x && py == y) implies #[trigger] self.spec_pixel(px, py) == old(self).spec_pixel(px, py) by {
                lemma_row_major_index_bound(px, py, self.width as int, self.height as int);
                lemma_row_major_index_injective(px, py, x as int, y as int, self.width as int);
            }
        }
    }

    /// Returns the RGB value of the pixel at (x, y).
    pub fn get_pixel(&self, x: usize, y: usize) -> (r: [u8; 3])
        requires
            self.wf(),
            x < self.width,
            y < self.height,
        ensures
            r == self.spec_pixel(x as int, y as int),
    {
        proof {
            lemma_row_major_index_bound(x as int, y as int, self.width as int, self.height as int);
            assert(3 * (y * self.width + x) + 3 <= 3 * (self.width * self.height))
                by (nonlinear_arith)
                requires
                    y * self.width + x < self.width * self.height,
            ;
            assert(self.width * self.height * 3 == 3 * (self.width * self.height))
                by (nonlinear_arith);
        }
        let index: usize = 3 * (y * self.width + x);
        [self.data[index], self.data[index + 1], self.data[index + 2]]
    }

    /// Fills the entire pixmap with the specified RGB color.
    pub fn fill(&mut self, color: [u8; 3])
        requires
            old(self).wf(),
        ensures
            final(self).wf(),
            final(self).width == old(self).width,
            final(self).height == old(self).height,
            forall|x: int, y: int|
                0 <= x < final(self).width && 0 <= y < final(self).height
                    ==> final(self).spec_pixel(x, y) == color,
    {
        let mut p: usize = 0;
        let n: usize = self.width * self.height;
        proof {
            assert(self.width * self.height * 3 == 3 * (self.width * self.height))
                by (nonlinear_arith);
        }
        while p < n
            invariant
                0 <= p <= n,
                n == self.width * self.height,
                self.data.len() == 3 * n,
                self.width == old(self).width,
                self.height == old(self).height,
                forall|q: int| 0 <= q < p ==> #[trigger] rgb_at(self.data@, q, color),
            decreases n - p,
        {
            let ghost pre = self.data@;
            self.data.set(3 * p, color[0]);
            self.data.set(3 * p + 1, color[1]);
            self.data.set(3 * p + 2, color[2]);
            proof {
                assert forall|q: int| 0 <= q < p + 1 implies #[trigger] rgb_at(
                    self.data@,
                    q,
                    color,
                ) by {
                    if q < p {
                        assert(rgb_at(pre, q, color));
                    }
                }
            }
            p = p + 1;
        }
        proof {
            assert forall|x: int, y: int|
                0 <= x < self.width && 0 <= y < self.height implies self.spec_pixel(x, y)
                == color by {
                lemma_row_major_index_bound(x, y, self.width as int, self.height as int);
                assert(rgb_at(self.data@, y * self.width + x, color));
            }
        }
    }

    /// Outputs the RGB pixmap as an RGBA flat vector with alpha fixed at
    /// fully opaque, for consumers that do not take pure RGB data.
    pub fn to_rgba(&self) -> (r: Vec<u8>)
        requires
            self.wf(),
            self.width * self.height * 4 <= usize::MAX,
        ensures
            r.len() == self.width * self.height * 4,
            forall|q: int|
                0 <= q < self.width * self.height ==> #[trigger] rgba_at(r@, self.data@, q),
    {
        let n: usize = self.width * self.height;
        proof {
            assert(self.width * self.height * 3 == 3 * (self.width * self.height))
                by (nonlinear_arith);
            assert(self.width * self.height * 4 == 4 * (self.width * self.height))
                by (nonlinear_arith);
        }
        let mut rgba_data: Vec<u8> = Vec::new();
        let mut p: usize = 0;
        while p < n
            invariant
                0 <= p <= n,
                n == self.width * self.height,
                self.data.len() == 3 * n,
                4 * n <= usize::MAX,
                rgba_data.len() == 4 * p,
                forall|q: int| 0 <= q < p ==> #[trigger] rgba_at(rgba_data@, self.data@, q),
            decreases n - p,
        {
            let ghost pre = rgba_data@;
            rgba_data.push(self.data[3 * p]);
            rgba_data.push(self.data[3 * p + 1]);
            rgba_data.push(self.data[3 * p + 2]);
            rgba_data.push(255);
            proof {
                assert forall|q: int| 0 <= q < p + 1 implies #[trigger] rgba_at(
                    rgba_data@,
                    self.data@,
                    q,
                ) by {
                    if q < p {
                        assert(rgba_at(pre, self.data@, q));
                    }
                }
            }
            p = p + 1;
        }
        rgba_data
    }
}

} // verus!
