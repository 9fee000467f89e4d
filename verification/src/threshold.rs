//! Single-pass threshold ditherers: monochrome pair, palette
//! quantization, random threshold and ordered (Bayer) threshold.
//!
//! None of these propagates information between pixels, so each output
//! pixel is a pure function of the input pixel at the same position (and,
//! for the ordered variant, of the position itself).

use vstd::prelude::*;
use vstd::arithmetic::div_mod::lemma_fundamental_div_mod_converse;
use crate::color::{Pixel, blanc, noir, luma_scaled_spec, luma_scaled, SEUIL_LUMA_SCALED,
    LUMA_SCALED_MAX};
use crate::palette::{nearest_spec, nearest_nonempty};
use crate::buffer::{PixelBuffer, lemma_index_raster};
use crate::bayer::{MatriceBayer, bayer_value, lemma_bayer_value_bornes, pow2};
use crate::DitherError;

verus! {

/// Monochrome-pair decision: strictly brighter than luma 128 gives the
/// first color, everything else (the boundary included) the second.
pub open spec fn mono_spec(p: Pixel, couleur1: Pixel, couleur2: Pixel) -> Pixel {
    if luma_scaled_spec(p) > SEUIL_LUMA_SCALED {
        couleur1
    } else {
        couleur2
    }
}

/// Random-threshold decision for one pixel, given one uniform draw
/// `alea`: white when `luma/255 > alea/2^64`, black otherwise, compared
/// exactly by cross-multiplication.
pub open spec fn tramage_spec(p: Pixel, alea: u64) -> Pixel {
    if luma_scaled_spec(p) * 0x1_0000_0000_0000_0000 > alea * (LUMA_SCALED_MAX as int) {
        blanc()
    } else {
        noir()
    }
}

/// Ordered-dither decision for the pixel at `(x, y)` against the Bayer
/// matrix of side `taille`: white when `luma/255` strictly exceeds
/// `cell/taille²`, compared exactly by cross-multiplication.
pub open spec fn ordered_spec(p: Pixel, taille: int, x: int, y: int) -> Pixel {
    if luma_scaled_spec(p) * (taille * taille) > bayer_value(taille, x % taille, y % taille) * (
    LUMA_SCALED_MAX as int) {
        blanc()
    } else {
        noir()
    }
}

/// Replaces every pixel by `couleur1` when its luma strictly exceeds 128,
/// by `couleur2` otherwise.
pub fn monochrome_par_paire(buf: &mut PixelBuffer, couleur1: Pixel, couleur2: Pixel)
    requires
        old(buf).wf(),
    ensures
        final(buf).wf(),
        final(buf).width == old(buf).width,
        final(buf).height == old(buf).height,
        final(buf).pixels@.len() == old(buf).pixels@.len(),
        forall|i: int|
            0 <= i < old(buf).pixels@.len() ==> final(buf).pixels@[i] == mono_spec(
                #[trigger] old(buf).pixels@[i],
                couleur1,
                couleur2,
            ),
{
    let n = buf.pixels.len();
    let mut i: usize = 0;
    while i < n
        invariant
            i <= n,
            n == old(buf).pixels@.len(),
            buf.wf(),
            buf.width == old(buf).width,
            buf.height == old(buf).height,
            buf.pixels@.len() == n,
            forall|j: int|
                0 <= j < i ==> buf.pixels@[j] == mono_spec(
                    #[trigger] old(buf).pixels@[j],
                    couleur1,
                    couleur2,
                ),
            forall|j: int| i <= j < n ==> buf.pixels@[j] == #[trigger] old(buf).pixels@[j],
        decreases n - i,
    {
        let p = buf.pixels[i];
        let l = luma_scaled(&p);
        if l > SEUIL_LUMA_SCALED {
            buf.pixels[i] = couleur1;
        } else {
            buf.pixels[i] = couleur2;
        }
        i = i + 1;
    }
}

/// Quantizes every pixel to its nearest palette color, or reports
/// [`DitherError::EmptyPalette`] (leaving the buffer untouched) when the
/// palette has no colors.
pub fn passage_a_une_palette(buf: &mut PixelBuffer, palette: &Vec<Pixel>) -> (r: Result<
    (),
    DitherError,
>)
    requires
        old(buf).wf(),
    ensures
        final(buf).wf(),
        final(buf).width == old(buf).width,
        final(buf).height == old(buf).height,
        final(buf).pixels@.len() == old(buf).pixels@.len(),
        r is Ok <==> palette@.len() > 0,
        palette@.len() == 0 ==> r == Err::<(), DitherError>(DitherError::EmptyPalette) && final(buf).pixels@ == old(buf).pixels@,
        palette@.len() > 0 ==> forall|i: int|
            0 <= i < old(buf).pixels@.len() ==> final(buf).pixels@[i] == nearest_spec(
                palette@,
                #[trigger] old(buf).pixels@[i],
            ),
{
    if palette.len() == 0 {
        return Err(DitherError::EmptyPalette);
    }
    let n = buf.pixels.len();
    let mut i: usize = 0;
    while i < n
        invariant
            i <= n,
            n == old(buf).pixels@.len(),
            palette@.len() > 0,
            buf.wf(),
            buf.width == old(buf).width,
            buf.height == old(buf).height,
            buf.pixels@.len() == n,
            forall|j: int|
                0 <= j < i ==> buf.pixels@[j] == nearest_spec(
                    palette@,
                    #[trigger] old(buf).pixels@[j],
                ),
            forall|j: int| i <= j < n ==> buf.pixels@[j] == #[trigger] old(buf).pixels@[j],
        decreases n - i,
    {
        let p = buf.pixels[i];
        buf.pixels[i] = nearest_nonempty(&p, palette);
        i = i + 1;
    }
    Ok(())
}

/// Random-threshold decision for one pixel, taking the uniform draw as an
/// argument: white exactly when `luma/255 > alea/2^64`.
pub fn tramage_pixel(p: &Pixel, alea: u64) -> (q: Pixel)
    ensures
        q == tramage_spec(*p, alea),
{
    let l = luma_scaled(p);
    proof {
        assert((alea as int) * (LUMA_SCALED_MAX as int) <= 0xffff_ffff_ffff_ffff * 2_550_000)
            by (nonlinear_arith)
            requires
                0 <= alea <= 0xffff_ffff_ffff_ffff,
        ;
    }
    let gauche: u128 = (l as u128) * 0x1_0000_0000_0000_0000u128;
    let droite: u128 = (alea as u128) * (LUMA_SCALED_MAX as u128);
    if gauche > droite {
        Pixel::new(255, 255, 255)
    } else {
        Pixel::new(0, 0, 0)
    }
}

/// Relies on rand::random: one uniform draw over all of u64.  Nothing is
/// promised of the value; callers state what holds of every outcome.
#[verifier::external_body]
fn alea_u64() -> u64 {
    rand::random()
}

/// Random dithering: every pixel is thresholded against its own
/// independent uniform draw, so the output is noise-shaped and not
/// reproducible.  Whatever the draws, every output pixel is white or
/// black, a full-white input pixel stays white, and a full-black input
/// pixel stays black.
pub fn tramage_random(buf: &mut PixelBuffer)
    requires
        old(buf).wf(),
    ensures
        final(buf).wf(),
        final(buf).width == old(buf).width,
        final(buf).height == old(buf).height,
        final(buf).pixels@.len() == old(buf).pixels@.len(),
        forall|i: int|
            0 <= i < final(buf).pixels@.len() ==> #[trigger] final(buf).pixels@[i] == blanc()
                || final(buf).pixels@[i] == noir(),
        forall|i: int|
            0 <= i < old(buf).pixels@.len() && luma_scaled_spec(#[trigger] old(buf).pixels@[i])
                == LUMA_SCALED_MAX ==> final(buf).pixels@[i] == blanc(),
        forall|i: int|
            0 <= i < old(buf).pixels@.len() && luma_scaled_spec(#[trigger] old(buf).pixels@[i])
                == 0 ==> final(buf).pixels@[i] == noir(),
{
    let n = buf.pixels.len();
    let mut i: usize = 0;
    while i < n
        invariant
            i <= n,
            n == old(buf).pixels@.len(),
            buf.wf(),
            buf.width == old(buf).width,
            buf.height == old(buf).height,
            buf.pixels@.len() == n,
            forall|j: int|
                0 <= j < i ==> #[trigger] buf.pixels@[j] == blanc() || buf.pixels@[j] == noir(),
            forall|j: int|
                0 <= j < i && luma_scaled_spec(#[trigger] old(buf).pixels@[j]) == LUMA_SCALED_MAX
                    ==> buf.pixels@[j] == blanc(),
            forall|j: int|
                0 <= j < i && luma_scaled_spec(#[trigger] old(buf).pixels@[j]) == 0
                    ==> buf.pixels@[j] == noir(),
            forall|j: int| i <= j < n ==> buf.pixels@[j] == #[trigger] old(buf).pixels@[j],
        decreases n - i,
    {
        let p = buf.pixels[i];
        let alea = alea_u64();
        let q = tramage_pixel(&p, alea);
        proof {
            if luma_scaled_spec(p) == LUMA_SCALED_MAX {
                assert(alea * (LUMA_SCALED_MAX as int) < 0x1_0000_0000_0000_0000 * (
                LUMA_SCALED_MAX as int)) by (nonlinear_arith)
                    requires
                        alea < 0x1_0000_0000_0000_0000,
                ;
            }
            if luma_scaled_spec(p) == 0 {
                assert(alea * (LUMA_SCALED_MAX as int) >= 0) by (nonlinear_arith)
                    requires
                        alea >= 0,
                ;
            }
        }
        buf.pixels[i] = q;
        i = i + 1;
    }
}

/// Ordered dithering of order `ordre`: each pixel's normalized luma is
/// compared against the threshold of the Bayer cell at its position
/// (the matrix repeating over the image), white where it strictly
/// exceeds it, black otherwise.  Orders outside 1..=6 are rejected as
/// [`DitherError::InvalidOrder`] and leave the buffer untouched.
pub fn ordered_dithering(buf: &mut PixelBuffer, ordre: u32) -> (r: Result<(), DitherError>)
    requires
        old(buf).wf(),
    ensures
        final(buf).wf(),
        final(buf).width == old(buf).width,
        final(buf).height == old(buf).height,
        final(buf).pixels@.len() == old(buf).pixels@.len(),
        r is Ok <==> 1 <= ordre <= 6,
        !(1 <= ordre <= 6) ==> r == Err::<(), DitherError>(DitherError::InvalidOrder) && final(buf).pixels@ == old(buf).pixels@,
        1 <= ordre <= 6 ==> forall|x: int, y: int|
            0 <= x < old(buf).width && 0 <= y < old(buf).height ==> final(buf).pix(x, y)
                == ordered_spec(#[trigger] old(buf).pix(x, y), pow2(ordre as nat) as int, x, y),
{
    let bayer = match MatriceBayer::new_bayer_matrix(ordre) {
        Ok(m) => m,
        Err(e) => {
            return Err(e);
        },
    };
    let taille = bayer.taille;
    let taille2 = taille * taille;
    proof {
        assert(taille * taille <= 4096) by (nonlinear_arith)
            requires
                0 < taille <= 64,
        ;
    }
    let w = buf.width;
    let n = buf.pixels.len();
    proof {
        let h_int = old(buf).height as int;
        if w == 0 {
            assert(0int * h_int == 0) by (nonlinear_arith);
        }
    }
    let mut i: usize = 0;
    while i < n
        invariant
            i <= n,
            n == old(buf).pixels@.len(),
            buf.wf(),
            buf.width == old(buf).width,
            buf.height == old(buf).height,
            buf.pixels@.len() == n,
            w == buf.width,
            w > 0 || n == 0,
            bayer.est_bayer(),
            taille == bayer.taille,
            taille2 == taille * taille,
            taille2 <= 4096,
            forall|j: int|
                0 <= j < i ==> buf.pixels@[j] == ordered_spec(
                    #[trigger] old(buf).pixels@[j],
                    taille as int,
                    j % (w as int),
                    j / (w as int),
                ),
            forall|j: int| i <= j < n ==> buf.pixels@[j] == #[trigger] old(buf).pixels@[j],
        decreases n - i,
    {
        let x = i % w;
        let y = i / w;
        let p = buf.pixels[i];
        let l = luma_scaled(&p);
        let cellule: u32 = bayer.matrice[y % taille][x % taille];
        proof {
            assert(bayer.cellule((x % taille) as int, (y % taille) as int) == bayer_value(
                taille as int,
                (x % taille) as int,
                (y % taille) as int,
            ));
            lemma_bayer_value_bornes(taille as int, (x % taille) as int, (y % taille) as int);
            assert((l as int) * (taille2 as int) <= 2_550_000 * 4096) by (nonlinear_arith)
                requires
                    l <= 2_550_000,
                    0 <= taille2 <= 4096,
            ;
            assert((cellule as int) * 2_550_000 <= 4096 * 2_550_000) by (nonlinear_arith)
                requires
                    0 <= cellule <= 4096,
            ;
        }
        let gauche: u64 = (l as u64) * (taille2 as u64);
        let droite: u64 = (cellule as u64) * (LUMA_SCALED_MAX as u64);
        if gauche > droite {
            buf.pixels[i] = Pixel::new(255, 255, 255);
        } else {
            buf.pixels[i] = Pixel::new(0, 0, 0);
        }
        i = i + 1;
    }
    proof {
        let w_int = old(buf).width as int;
        let t = taille as int;
        assert forall|x: int, y: int|
            0 <= x < old(buf).width && 0 <= y < old(buf).height implies buf.pix(x, y)
            == ordered_spec(#[trigger] old(buf).pix(x, y), pow2(ordre as nat) as int, x, y) by {
            lemma_index_raster(w_int, old(buf).height as int, x, y);
            let j = y * w_int + x;
            lemma_fundamental_div_mod_converse(j, w_int, y, x);
            assert(buf.pixels@[j] == ordered_spec(old(buf).pixels@[j], t, j % w_int, j / w_int));
        }
    }
    Ok(())
}

} // verus!
