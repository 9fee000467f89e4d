//! Color metric: pixels, perceptual brightness (luma) and Euclidean
//! distance in RGB space.
//!
//! Luma is the ITU-R BT.709 weighting `0.2126*R + 0.7152*G + 0.0722*B`.
//! To keep the arithmetic exact, the library works with the value scaled
//! by 10000: `2126*R + 7152*G + 722*B`, which ranges over `[0, 2_550_000]`.
//! Distances are compared through their squares, which orders colors
//! exactly as the Euclidean distance does.

use vstd::prelude::*;

verus! {

/// One 8-bit RGB pixel.  Alpha, if present on input, is discarded before
/// the engine sees the buffer.
#[derive(Clone, Copy, Debug, PartialEq, Eq, Structural)]
pub struct Pixel {
    pub r: u8,
    pub g: u8,
    pub b: u8,
}

/// Luma of the classic monochrome threshold (128), scaled by 10000.
pub const SEUIL_LUMA_SCALED: u32 = 1_280_000;

/// The largest scaled luma value, `10000 * 255`.
pub const LUMA_SCALED_MAX: u32 = 2_550_000;

/// BT.709 luma of `p`, scaled by 10000 so that it is an exact integer.
pub open spec fn luma_scaled_spec(p: Pixel) -> int {
    2126 * p.r + 7152 * p.g + 722 * p.b
}

/// Square of an integer.
pub open spec fn carre(x: int) -> int {
    x * x
}

/// Squared Euclidean distance between two colors in RGB space.
pub open spec fn dist_sq_spec(a: Pixel, b: Pixel) -> int {
    carre(a.r - b.r) + carre(a.g - b.g) + carre(a.b - b.b)
}

/// Full white.
pub open spec fn blanc() -> Pixel {
    Pixel { r: 255, g: 255, b: 255 }
}

/// Full black.
pub open spec fn noir() -> Pixel {
    Pixel { r: 0, g: 0, b: 0 }
}

impl Pixel {
    /// Builds a pixel from its three channels.
    pub fn new(r: u8, g: u8, b: u8) -> (p: Pixel)
        ensures
            p == (Pixel { r, g, b }),
    {
        Pixel { r, g, b }
    }
}

/// BT.709 luma of `p`, scaled by 10000.
pub fn luma_scaled(p: &Pixel) -> (l: u32)
    ensures
        l == luma_scaled_spec(*p),
        l <= LUMA_SCALED_MAX,
{
    2126 * (p.r as u32) + 7152 * (p.g as u32) + 722 * (p.b as u32)
}

/// Square of the difference of two channel values.
fn carre_diff(x: u8, y: u8) -> (s: u32)
    ensures
        s == carre(x - y),
        s <= 65025,
{
    let d = x as i32 - y as i32;
    proof {
        assert(d * d == carre(x - y) && 0 <= d * d <= 65025) by (nonlinear_arith)
            requires
                d == x - y,
                -255 <= d <= 255,
        ;
    }
    (d * d) as u32
}

/// Squared Euclidean distance between `a` and `b`.  Comparing squared
/// distances orders colors exactly as comparing the distances themselves.
pub fn euclidean_distance_sq(a: &Pixel, b: &Pixel) -> (d: u32)
    ensures
        d == dist_sq_spec(*a, *b),
{
    carre_diff(a.r, b.r) + carre_diff(a.g, b.g) + carre_diff(a.b, b.b)
}

/// The squared distance is never negative.
pub proof fn lemma_dist_sq_nonneg(a: Pixel, b: Pixel)
    ensures
        dist_sq_spec(a, b) >= 0,
{
    lemma_carre_nonneg(a.r - b.r);
    lemma_carre_nonneg(a.g - b.g);
    lemma_carre_nonneg(a.b - b.b);
}

/// The squared distance is zero exactly on equal colors.
pub proof fn lemma_dist_sq_zero_iff_eq(a: Pixel, b: Pixel)
    ensures
        dist_sq_spec(a, b) == 0 <==> a == b,
{
    lemma_carre_nonneg(a.r - b.r);
    lemma_carre_nonneg(a.g - b.g);
    lemma_carre_nonneg(a.b - b.b);
    if dist_sq_spec(a, b) == 0 {
        lemma_carre_zero(a.r - b.r);
        lemma_carre_zero(a.g - b.g);
        lemma_carre_zero(a.b - b.b);
    }
    assert(carre(0) == 0) by (nonlinear_arith);
}

proof fn lemma_carre_nonneg(x: int)
    ensures
        carre(x) >= 0,
{
    assert(x * x >= 0) by (nonlinear_arith);
}

proof fn lemma_carre_zero(x: int)
    requires
        carre(x) == 0,
    ensures
        x == 0,
{
    assert(x * x == 0 ==> x == 0) by (nonlinear_arith);
}

} // verus!
