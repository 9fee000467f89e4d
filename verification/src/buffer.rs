//! A width × height grid of pixels, row-major, mutated in place by the
//! dithering algorithms.
//!
//! The well-formedness invariant ties the flat pixel vector to the
//! dimensions; every coordinate access is bounds-checked against them.

use vstd::prelude::*;
use crate::color::Pixel;

verus! {

/// A decoded image: `width * height` pixels in row-major order.
pub struct PixelBuffer {
    pub width: usize,
    pub height: usize,
    pub pixels: Vec<Pixel>,
}

impl PixelBuffer {
    /// The pixel vector holds exactly one pixel per grid cell.
    pub open spec fn wf(self) -> bool {
        self.pixels@.len() == self.width * self.height
    }

    /// The pixel at column `x`, row `y`.
    pub open spec fn pix(self, x: int, y: int) -> Pixel
        recommends
            self.wf(),
            0 <= x < self.width,
            0 <= y < self.height,
    {
        self.pixels@[y * self.width + x]
    }

    /// Builds a uniform buffer of the given dimensions.
    pub fn new(width: usize, height: usize, fill: Pixel) -> (buf: PixelBuffer)
        requires
            width * height <= usize::MAX,
        ensures
            buf.wf(),
            buf.width == width,
            buf.height == height,
            forall|i: int| 0 <= i < buf.pixels@.len() ==> buf.pixels@[i] == fill,
    {
        let n = width * height;
        PixelBuffer { width, height, pixels: vec![fill; n] }
    }

    /// Builds a buffer from a flat row-major pixel vector; `None` when the
    /// vector does not hold exactly `width * height` pixels.
    pub fn from_pixels(width: usize, height: usize, pixels: Vec<Pixel>) -> (r: Option<PixelBuffer>)
        ensures
            r is Some <==> pixels@.len() == width * height,
            r is Some ==> {
                let buf = r->0;
                buf.wf() && buf.width == width && buf.height == height && buf.pixels@ == pixels@
            },
    {
        let len = pixels.len();
        match width.checked_mul(height) {
            Some(n) => if len == n {
                Some(PixelBuffer { width, height, pixels })
            } else {
                None
            },
            None => None,
        }
    }

    /// Reads the pixel at `(x, y)`.
    pub fn get_pixel(&self, x: usize, y: usize) -> (p: Pixel)
        requires
            self.wf(),
            x < self.width,
            y < self.height,
        ensures
            p == self.pix(x as int, y as int),
    {
        // Reading the length bounds the raster index by usize::MAX.
        let _n = self.pixels.len();
        proof {
            lemma_index_raster(self.width as int, self.height as int, x as int, y as int);
        }
        self.pixels[y * self.width + x]
    }

    /// Writes the pixel at `(x, y)`.
    pub fn put_pixel(&mut self, x: usize, y: usize, p: Pixel)
        requires
            old(self).wf(),
            x < old(self).width,
            y < old(self).height,
        ensures
            final(self).wf(),
            final(self).width == old(self).width,
            final(self).height == old(self).height,
            final(self).pixels@ == old(self).pixels@.update(
                y * old(self).width + x,
                p,
            ),
    {
        // Reading the length bounds the raster index by usize::MAX.
        let _n = self.pixels.len();
        proof {
            lemma_index_raster(self.width as int, self.height as int, x as int, y as int);
        }
        let i = y * self.width + x;
        self.pixels[i] = p;
    }
}

/// A raster index below `width * height` decomposes into column
/// `n % width` and row `n / width`, both in bounds.
pub proof fn lemma_raster_coords(n: int, width: int, height: int)
    requires
        width > 0,
        0 <= n < width * height,
    ensures
        0 <= n % width < width,
        0 <= n / width < height,
        (n / width) * width + (n % width) == n,
{
    vstd::arithmetic::div_mod::lemma_fundamental_div_mod(n, width);
    vstd::arithmetic::div_mod::lemma_mod_pos_bound(n, width);
    vstd::arithmetic::div_mod::lemma_div_pos_is_pos(n, width);
    vstd::arithmetic::div_mod::lemma_multiply_divide_lt(n, width, height);
    assert(width * (n / width) == (n / width) * width) by (nonlinear_arith);
}

/// A raster index `y * width + x` is a valid index into a `width * height`
/// buffer whenever `(x, y)` is in bounds.
pub proof fn lemma_index_raster(width: int, height: int, x: int, y: int)
    requires
        0 <= x < width,
        0 <= y < height,
    ensures
        0 <= y * width + x < width * height,
{
    assert(y * width + x < width * height) by (nonlinear_arith)
        requires
            0 <= x < width,
            0 <= y < height,
    ;
    assert(y * width >= 0) by (nonlinear_arith)
        requires
            y >= 0,
            width > 0,
    ;
}

} // verus!
