//! Nearest-color lookup against a finite palette.
//!
//! The match minimizes the Euclidean RGB distance; on ties, the first
//! palette entry in iteration order wins, so the output is stable and
//! deterministic.  An empty palette is a precondition violation reported
//! as [`DitherError::EmptyPalette`].

use vstd::prelude::*;
use crate::color::{Pixel, dist_sq_spec, euclidean_distance_sq, lemma_dist_sq_nonneg,
    lemma_dist_sq_zero_iff_eq};
use crate::DitherError;

verus! {

/// Index of the palette entry nearest to `p`: the first index whose
/// squared distance to `p` no later entry strictly improves.
pub open spec fn nearest_idx_spec(palette: Seq<Pixel>, p: Pixel) -> int
    recommends
        palette.len() > 0,
    decreases palette.len(),
{
    if palette.len() <= 1 {
        0
    } else {
        let k = nearest_idx_spec(palette.drop_last(), p);
        if dist_sq_spec(palette.last(), p) < dist_sq_spec(palette[k], p) {
            palette.len() - 1
        } else {
            k
        }
    }
}

/// The palette entry nearest to `p`.
pub open spec fn nearest_spec(palette: Seq<Pixel>, p: Pixel) -> Pixel
    recommends
        palette.len() > 0,
{
    palette[nearest_idx_spec(palette, p)]
}

/// The nearest index is a valid index.
pub proof fn lemma_nearest_idx_bounds(palette: Seq<Pixel>, p: Pixel)
    requires
        palette.len() > 0,
    ensures
        0 <= nearest_idx_spec(palette, p) < palette.len(),
    decreases palette.len(),
{
    if palette.len() > 1 {
        lemma_nearest_idx_bounds(palette.drop_last(), p);
    }
}

/// The nearest entry minimizes the squared distance, and is the first
/// entry to reach that minimum.
pub proof fn lemma_nearest_is_first_min(palette: Seq<Pixel>, p: Pixel)
    requires
        palette.len() > 0,
    ensures
        forall|j: int| 0 <= j < palette.len()
            ==> dist_sq_spec(nearest_spec(palette, p), p) <= dist_sq_spec(#[trigger] palette[j], p),
        forall|j: int| 0 <= j < nearest_idx_spec(palette, p)
            ==> dist_sq_spec(#[trigger] palette[j], p) > dist_sq_spec(nearest_spec(palette, p), p),
    decreases palette.len(),
{
    lemma_nearest_idx_bounds(palette, p);
    if palette.len() > 1 {
        lemma_nearest_is_first_min(palette.drop_last(), p);
        lemma_nearest_idx_bounds(palette.drop_last(), p);
        assert(forall|j: int| 0 <= j < palette.len() - 1
            ==> palette.drop_last()[j] == #[trigger] palette[j]);
    }
}

/// Law: nearest-color lookup is idempotent.  Matching a color that is
/// already the result of a match returns that same color.
pub proof fn lemma_nearest_idempotent(palette: Seq<Pixel>, p: Pixel)
    requires
        palette.len() > 0,
    ensures
        nearest_spec(palette, nearest_spec(palette, p)) == nearest_spec(palette, p),
{
    let q = nearest_spec(palette, p);
    let k = nearest_idx_spec(palette, p);
    lemma_nearest_idx_bounds(palette, p);
    lemma_nearest_is_first_min(palette, q);
    lemma_nearest_idx_bounds(palette, q);
    let k2 = nearest_idx_spec(palette, q);
    lemma_dist_sq_zero_iff_eq(q, q);
    assert(dist_sq_spec(palette[k2], q) <= dist_sq_spec(palette[k], q));
    lemma_dist_sq_nonneg(palette[k2], q);
    lemma_dist_sq_zero_iff_eq(palette[k2], q);
}

/// Nearest palette entry, for a palette already known to be non-empty.
pub fn nearest_nonempty(pixel: &Pixel, palette: &Vec<Pixel>) -> (q: Pixel)
    requires
        palette@.len() > 0,
    ensures
        q == nearest_spec(palette@, *pixel),
{
    let mut min_d: u32 = euclidean_distance_sq(&palette[0], pixel);
    let mut min_couleur: Pixel = palette[0];
    let mut i: usize = 1;
    while i < palette.len()
        invariant
            1 <= i <= palette@.len(),
            min_couleur == nearest_spec(palette@.take(i as int), *pixel),
            min_d == dist_sq_spec(min_couleur, *pixel),
        decreases palette@.len() - i,
    {
        proof {
            lemma_nearest_idx_bounds(palette@.take(i as int), *pixel);
            assert(palette@.take(i + 1).drop_last() =~= palette@.take(i as int));
        }
        let d = euclidean_distance_sq(&palette[i], pixel);
        if d < min_d {
            min_d = d;
            min_couleur = palette[i];
        }
        i = i + 1;
    }
    proof {
        assert(palette@.take(palette@.len() as int) =~= palette@);
    }
    min_couleur
}

/// Returns the palette entry nearest to `pixel`, or
/// [`DitherError::EmptyPalette`] when the palette has no colors.
pub fn couleur_la_plus_proche(pixel: &Pixel, palette: &Vec<Pixel>) -> (r: Result<
    Pixel,
    DitherError,
>)
    ensures
        palette@.len() == 0 ==> r == Err::<Pixel, DitherError>(DitherError::EmptyPalette),
        palette@.len() > 0 ==> r == Ok::<Pixel, DitherError>(nearest_spec(palette@, *pixel)),
{
    if palette.len() == 0 {
        Err(DitherError::EmptyPalette)
    } else {
        Ok(nearest_nonempty(pixel, palette))
    }
}

} // verus!
