//! Error-diffusion quantization: each pixel is committed to its nearest
//! palette color in raster order (row by row, left to right inside a
//! row), and the per-channel quantization residual is propagated to the
//! not-yet-visited neighbors named by a diffusion kernel.
//!
//! A kernel is a grid of integer weights with a normalization factor; the
//! anchor sits at the center of each row, so the entry at column `dx` of
//! row `dy` targets the pixel at `(x + dx - len/2, y + dy)`.  A neighbor
//! receives `error * weight / factor` per channel (truncating division,
//! exactly as stated by [`div_tronquee`]), clamped to `[0, 255]`; targets
//! outside the buffer are skipped and their share of the error is lost.

use vstd::prelude::*;
use crate::color::{Pixel, luma_scaled_spec, luma_scaled, SEUIL_LUMA_SCALED, LUMA_SCALED_MAX};
use crate::palette::{nearest_spec, nearest_nonempty, lemma_nearest_idx_bounds};
use crate::buffer::{PixelBuffer, lemma_index_raster, lemma_raster_coords};
use crate::DitherError;

verus! {

/// A diffusion kernel: rows of weights below-and-around the current
/// pixel, and the factor the weights are normalized by.
pub struct DiffusionKernel {
    pub rangees: Vec<Vec<i32>>,
    pub facteur: i32,
}

impl DiffusionKernel {
    /// A kernel is usable when it has at least one row, no empty row, and
    /// a factor of at least one.
    pub open spec fn wf(self) -> bool {
        &&& self.rangees@.len() >= 1
        &&& forall|r: int| 0 <= r < self.rangees@.len() ==> #[trigger] self.rangees@[r]@.len() >= 1
        &&& self.facteur >= 1
    }

    /// The weights as a grid of mathematical integers.
    pub open spec fn poids(self) -> Seq<Seq<int>> {
        Seq::new(
            self.rangees@.len(),
            |r: int| Seq::new(self.rangees@[r]@.len(), |c: int| self.rangees@[r]@[c] as int),
        )
    }
}

/// Clamp to an 8-bit channel range.
pub open spec fn clamp255(v: int) -> int {
    if v < 0 {
        0
    } else if v > 255 {
        255
    } else {
        v
    }
}

/// Division truncating toward zero, as machine integer division does.
pub open spec fn div_tronquee(a: int, b: int) -> int
    recommends
        b >= 1,
{
    if a >= 0 {
        a / b
    } else {
        -((-a) / b)
    }
}

/// The share of one channel's error a kernel entry hands its target.
pub open spec fn part_erreur(err: int, poids: int, facteur: int) -> int
    recommends
        facteur >= 1,
{
    div_tronquee(err * poids, facteur)
}

/// One neighbor after receiving its share of the three channel errors.
pub open spec fn ajouter_erreur(p: Pixel, er: int, eg: int, eb: int, poids: int, facteur: int) -> Pixel {
    Pixel {
        r: clamp255(p.r + part_erreur(er, poids, facteur)) as u8,
        g: clamp255(p.g + part_erreur(eg, poids, facteur)) as u8,
        b: clamp255(p.b + part_erreur(eb, poids, facteur)) as u8,
    }
}

/// The buffer after the first `n` entries of kernel row `dy` have spread
/// the error of the pixel at `(x, y)`, entries applied left to right.
pub open spec fn appliquer_rangee(
    s: Seq<Pixel>,
    w: int,
    h: int,
    x: int,
    y: int,
    er: int,
    eg: int,
    eb: int,
    rangee: Seq<int>,
    dy: int,
    facteur: int,
    n: nat,
) -> Seq<Pixel>
    decreases n,
{
    if n == 0 {
        s
    } else {
        let s1 = appliquer_rangee(s, w, h, x, y, er, eg, eb, rangee, dy, facteur, (n - 1) as nat);
        let dx = n - 1;
        let nx = x + dx - rangee.len() / 2;
        let ny = y + dy;
        if 0 <= nx < w && 0 <= ny < h {
            s1.update(ny * w + nx, ajouter_erreur(s1[ny * w + nx], er, eg, eb, rangee[dx], facteur))
        } else {
            s1
        }
    }
}

/// The buffer after the first `m` rows of the kernel have spread the
/// error of the pixel at `(x, y)`, rows applied top to bottom.
pub open spec fn appliquer_noyau(
    s: Seq<Pixel>,
    w: int,
    h: int,
    x: int,
    y: int,
    er: int,
    eg: int,
    eb: int,
    rangees: Seq<Seq<int>>,
    facteur: int,
    m: nat,
) -> Seq<Pixel>
    decreases m,
{
    if m == 0 {
        s
    } else {
        let s1 = appliquer_noyau(s, w, h, x, y, er, eg, eb, rangees, facteur, (m - 1) as nat);
        appliquer_rangee(
            s1,
            w,
            h,
            x,
            y,
            er,
            eg,
            eb,
            rangees[m - 1],
            m - 1,
            facteur,
            rangees[m - 1].len(),
        )
    }
}

/// One step of the engine: the pixel at `(x, y)` is committed to its
/// nearest palette color and its residual is spread by the kernel.
pub open spec fn traiter_pixel(
    s: Seq<Pixel>,
    w: int,
    h: int,
    x: int,
    y: int,
    palette: Seq<Pixel>,
    rangees: Seq<Seq<int>>,
    facteur: int,
) -> Seq<Pixel>
    recommends
        palette.len() > 0,
        0 <= x < w,
        0 <= y < h,
        s.len() == w * h,
{
    let ancien = s[y * w + x];
    let nouveau = nearest_spec(palette, ancien);
    let s1 = s.update(y * w + x, nouveau);
    appliquer_noyau(
        s1,
        w,
        h,
        x,
        y,
        ancien.r - nouveau.r,
        ancien.g - nouveau.g,
        ancien.b - nouveau.b,
        rangees,
        facteur,
        rangees.len(),
    )
}

/// The buffer after the first `n` pixels in raster order have been
/// processed.
pub open spec fn diffuser_prefixe(
    s: Seq<Pixel>,
    w: int,
    h: int,
    palette: Seq<Pixel>,
    rangees: Seq<Seq<int>>,
    facteur: int,
    n: nat,
) -> Seq<Pixel>
    decreases n,
{
    if n == 0 {
        s
    } else {
        let s1 = diffuser_prefixe(s, w, h, palette, rangees, facteur, (n - 1) as nat);
        traiter_pixel(s1, w, h, (n - 1) % w, (n - 1) / w, palette, rangees, facteur)
    }
}

/// The whole image, error-diffused in raster order.
pub open spec fn diffusion_spec(
    s: Seq<Pixel>,
    w: int,
    h: int,
    palette: Seq<Pixel>,
    rangees: Seq<Seq<int>>,
    facteur: int,
) -> Seq<Pixel>
    recommends
        palette.len() > 0,
        s.len() == w * h,
{
    diffuser_prefixe(s, w, h, palette, rangees, facteur, (w * h) as nat)
}

/// Weights of the naive two-tap kernel: half the error to the right
/// neighbor, half to the one below.
pub open spec fn rangees_simple() -> Seq<Seq<int>> {
    seq![seq![0, 0, 1], seq![0, 1, 0]]
}

/// Weights of the Floyd–Steinberg kernel (factor 16).
pub open spec fn rangees_floyd_steinberg() -> Seq<Seq<int>> {
    seq![seq![0, 0, 7], seq![3, 5, 1]]
}

/// Weights of the Jarvis-Judice-Ninke kernel (factor 48).
pub open spec fn rangees_jarvis_judice_ninke() -> Seq<Seq<int>> {
    seq![seq![0, 0, 0, 7, 5], seq![3, 5, 7, 5, 3], seq![1, 3, 5, 3, 1]]
}

/// Weights of the Atkinson kernel (factor 8): the six taps sum to 6, so
/// a quarter of the error is deliberately discarded to keep edges crisp.
pub open spec fn rangees_atkinson() -> Seq<Seq<int>> {
    seq![seq![0, 0, 0, 1, 1], seq![0, 1, 1, 1, 0], seq![0, 0, 1, 0, 0]]
}

/// Checks that a kernel is usable: at least one row, no empty row, and a
/// factor of at least one.
pub fn noyau_valide(noyau: &DiffusionKernel) -> (b: bool)
    ensures
        b == noyau.wf(),
{
    if noyau.facteur < 1 {
        return false;
    }
    let m = noyau.rangees.len();
    if m == 0 {
        return false;
    }
    let mut r: usize = 0;
    while r < m
        invariant
            r <= m,
            m == noyau.rangees@.len(),
            forall|j: int| 0 <= j < r ==> #[trigger] noyau.rangees@[j]@.len() >= 1,
        decreases m - r,
    {
        if noyau.rangees[r].len() == 0 {
            return false;
        }
        r = r + 1;
    }
    true
}

/// One channel of a neighbor after receiving its error share
/// `err * poids / facteur` (truncating division), clamped to `[0, 255]`.
fn canal_diffuse(courant: u8, err: i32, poids: i32, facteur: i32) -> (v: u8)
    requires
        -255 <= err <= 255,
        facteur >= 1,
    ensures
        v == clamp255(courant + part_erreur(err as int, poids as int, facteur as int)),
{
    proof {
        assert(-0x8000_0000_0000i64 <= (err as int) * (poids as int) <= 0x8000_0000_0000i64)
            by (nonlinear_arith)
            requires
                -255 <= err <= 255,
                -0x8000_0000 <= poids < 0x8000_0000,
        ;
    }
    let produit: i64 = (err as i64) * (poids as i64);
    let grandeur: u64 = if produit >= 0 {
        produit as u64
    } else {
        (-produit) as u64
    };
    let quotient: u64 = grandeur / (facteur as u64);
    proof {
        vstd::arithmetic::div_mod::lemma_div_nonincreasing(grandeur as int, facteur as int);
        vstd::arithmetic::div_mod::lemma_div_pos_is_pos(grandeur as int, facteur as int);
    }
    if produit >= 0 {
        let somme: u64 = (courant as u64) + quotient;
        if somme >= 255 {
            255
        } else {
            somme as u8
        }
    } else {
        if quotient >= (courant as u64) {
            0
        } else {
            courant - (quotient as u8)
        }
    }
}

/// Spreads the error of the pixel at `(x, y)` to every kernel target
/// that falls inside the buffer; targets outside it are skipped.
fn appliquer_noyau_exec(
    buf: &mut PixelBuffer,
    x: usize,
    y: usize,
    er: i32,
    eg: i32,
    eb: i32,
    noyau: &DiffusionKernel,
)
    requires
        old(buf).wf(),
        x < old(buf).width,
        y < old(buf).height,
        noyau.wf(),
        -255 <= er <= 255,
        -255 <= eg <= 255,
        -255 <= eb <= 255,
    ensures
        final(buf).wf(),
        final(buf).width == old(buf).width,
        final(buf).height == old(buf).height,
        final(buf).pixels@ == appliquer_noyau(
            old(buf).pixels@,
            old(buf).width as int,
            old(buf).height as int,
            x as int,
            y as int,
            er as int,
            eg as int,
            eb as int,
            noyau.poids(),
            noyau.facteur as int,
            noyau.poids().len(),
        ),
{
    let w = buf.width;
    let h = buf.height;
    let m = noyau.rangees.len();
    let mut dy: usize = 0;
    while dy < m
        invariant
            dy <= m,
            m == noyau.rangees@.len(),
            noyau.wf(),
            buf.wf(),
            buf.width == old(buf).width,
            buf.height == old(buf).height,
            w == buf.width,
            h == buf.height,
            x < w,
            y < h,
            -255 <= er <= 255,
            -255 <= eg <= 255,
            -255 <= eb <= 255,
            buf.pixels@ == appliquer_noyau(
                old(buf).pixels@,
                w as int,
                h as int,
                x as int,
                y as int,
                er as int,
                eg as int,
                eb as int,
                noyau.poids(),
                noyau.facteur as int,
                dy as nat,
            ),
        decreases m - dy,
    {
        let longueur = noyau.rangees[dy].len();
        let demi = longueur / 2;
        let ghost s0 = buf.pixels@;
        let mut dx: usize = 0;
        while dx < longueur
            invariant
                dx <= longueur,
                dy < m,
                m == noyau.rangees@.len(),
                longueur == noyau.rangees@[dy as int]@.len(),
                demi == longueur / 2,
                noyau.wf(),
                buf.wf(),
                buf.width == old(buf).width,
                buf.height == old(buf).height,
                w == buf.width,
                h == buf.height,
                x < w,
                y < h,
                -255 <= er <= 255,
                -255 <= eg <= 255,
                -255 <= eb <= 255,
                s0.len() == (w as int) * (h as int),
                buf.pixels@ == appliquer_rangee(
                    s0,
                    w as int,
                    h as int,
                    x as int,
                    y as int,
                    er as int,
                    eg as int,
                    eb as int,
                    noyau.poids()[dy as int],
                    dy as int,
                    noyau.facteur as int,
                    dx as nat,
                ),
            decreases longueur - dx,
        {
            let poids = noyau.rangees[dy][dx];
            let cx: u128 = x as u128 + dx as u128;
            let demi128: u128 = demi as u128;
            if cx >= demi128 && cx - demi128 < w as u128 && (y as u128) + (dy as u128) < (
            h as u128) {
                let nx = (cx - demi128) as usize;
                let ny = y + dy;
                let p = buf.get_pixel(nx, ny);
                let nr = canal_diffuse(p.r, er, poids, noyau.facteur);
                let ng = canal_diffuse(p.g, eg, poids, noyau.facteur);
                let nb = canal_diffuse(p.b, eb, poids, noyau.facteur);
                buf.put_pixel(nx, ny, Pixel { r: nr, g: ng, b: nb });
            }
            dx = dx + 1;
        }
        dy = dy + 1;
    }
}

/// Quantizes every pixel to its nearest palette color in raster order,
/// spreading each residual through the kernel.
fn diffuser(buf: &mut PixelBuffer, palette: &Vec<Pixel>, noyau: &DiffusionKernel)
    requires
        old(buf).wf(),
        palette@.len() > 0,
        noyau.wf(),
    ensures
        final(buf).wf(),
        final(buf).width == old(buf).width,
        final(buf).height == old(buf).height,
        final(buf).pixels@ == diffusion_spec(
            old(buf).pixels@,
            old(buf).width as int,
            old(buf).height as int,
            palette@,
            noyau.poids(),
            noyau.facteur as int,
        ),
{
    let w = buf.width;
    let h = buf.height;
    let n = buf.pixels.len();
    proof {
        let h_int = old(buf).height as int;
        if w == 0 {
            assert(0int * h_int == 0) by (nonlinear_arith);
        }
    }
    let mut i: usize = 0;
    while i < n
        invariant
            i <= n,
            n == old(buf).pixels@.len(),
            buf.wf(),
            buf.width == old(buf).width,
            buf.height == old(buf).height,
            w == buf.width,
            h == buf.height,
            buf.pixels@.len() == n,
            palette@.len() > 0,
            noyau.wf(),
            w > 0 || n == 0,
            n == (w as int) * (h as int),
            buf.pixels@ == diffuser_prefixe(
                old(buf).pixels@,
                w as int,
                h as int,
                palette@,
                noyau.poids(),
                noyau.facteur as int,
                i as nat,
            ),
        decreases n - i,
    {
        proof {
            lemma_raster_coords(i as int, w as int, h as int);
        }
        let x = i % w;
        let y = i / w;
        let ancien = buf.get_pixel(x, y);
        let nouveau = nearest_nonempty(&ancien, palette);
        buf.put_pixel(x, y, nouveau);
        let er = ancien.r as i32 - nouveau.r as i32;
        let eg = ancien.g as i32 - nouveau.g as i32;
        let eb = ancien.b as i32 - nouveau.b as i32;
        appliquer_noyau_exec(buf, x, y, er, eg, eb, noyau);
        i = i + 1;
    }
}

/// Generic error diffusion over a palette with an arbitrary kernel.
/// An empty palette is reported as [`DitherError::EmptyPalette`] and an
/// unusable kernel as [`DitherError::InvalidKernel`] (in that order of
/// precedence), each leaving the buffer untouched.
pub fn diffusion_d_erreur_palette_matrice(
    buf: &mut PixelBuffer,
    palette: &Vec<Pixel>,
    noyau: &DiffusionKernel,
) -> (r: Result<(), DitherError>)
    requires
        old(buf).wf(),
    ensures
        final(buf).wf(),
        final(buf).width == old(buf).width,
        final(buf).height == old(buf).height,
        r is Ok <==> palette@.len() > 0 && noyau.wf(),
        palette@.len() == 0 ==> r == Err::<(), DitherError>(DitherError::EmptyPalette) && final(buf).pixels@ == old(buf).pixels@,
        palette@.len() > 0 && !noyau.wf() ==> r == Err::<(), DitherError>(DitherError::InvalidKernel) && final(buf).pixels@ == old(buf).pixels@,
        palette@.len() > 0 && noyau.wf() ==> final(buf).pixels@ == diffusion_spec(
            old(buf).pixels@,
            old(buf).width as int,
            old(buf).height as int,
            palette@,
            noyau.poids(),
            noyau.facteur as int,
        ),
{
    if palette.len() == 0 {
        return Err(DitherError::EmptyPalette);
    }
    if !noyau_valide(noyau) {
        return Err(DitherError::InvalidKernel);
    }
    diffuser(buf, palette, noyau);
    Ok(())
}

/// The Floyd–Steinberg kernel: weights 7, 3, 5, 1 over factor 16.
pub fn noyau_floyd_steinberg() -> (k: DiffusionKernel)
    ensures
        k.wf(),
        k.facteur == 16,
        k.poids() == rangees_floyd_steinberg(),
{
    let mut r0: Vec<i32> = Vec::new();
    r0.push(0);
    r0.push(0);
    r0.push(7);
    let mut r1: Vec<i32> = Vec::new();
    r1.push(3);
    r1.push(5);
    r1.push(1);
    let mut rangees: Vec<Vec<i32>> = Vec::new();
    rangees.push(r0);
    rangees.push(r1);
    let k = DiffusionKernel { rangees, facteur: 16 };
    proof {
        assert(k.poids() =~~= rangees_floyd_steinberg());
    }
    k
}

/// The naive two-tap kernel: half the error right, half below.
pub fn noyau_simple() -> (k: DiffusionKernel)
    ensures
        k.wf(),
        k.facteur == 2,
        k.poids() == rangees_simple(),
{
    let mut r0: Vec<i32> = Vec::new();
    r0.push(0);
    r0.push(0);
    r0.push(1);
    let mut r1: Vec<i32> = Vec::new();
    r1.push(0);
    r1.push(1);
    r1.push(0);
    let mut rangees: Vec<Vec<i32>> = Vec::new();
    rangees.push(r0);
    rangees.push(r1);
    let k = DiffusionKernel { rangees, facteur: 2 };
    proof {
        assert(k.poids() =~~= rangees_simple());
    }
    k
}

/// The Jarvis-Judice-Ninke kernel: a 5-wide, 3-deep spread over factor 48.
pub fn noyau_jarvis_judice_ninke() -> (k: DiffusionKernel)
    ensures
        k.wf(),
        k.facteur == 48,
        k.poids() == rangees_jarvis_judice_ninke(),
{
    let mut r0: Vec<i32> = Vec::new();
    r0.push(0);
    r0.push(0);
    r0.push(0);
    r0.push(7);
    r0.push(5);
    let mut r1: Vec<i32> = Vec::new();
    r1.push(3);
    r1.push(5);
    r1.push(7);
    r1.push(5);
    r1.push(3);
    let mut r2: Vec<i32> = Vec::new();
    r2.push(1);
    r2.push(3);
    r2.push(5);
    r2.push(3);
    r2.push(1);
    let mut rangees: Vec<Vec<i32>> = Vec::new();
    rangees.push(r0);
    rangees.push(r1);
    rangees.push(r2);
    let k = DiffusionKernel { rangees, facteur: 48 };
    proof {
        assert(k.poids() =~~= rangees_jarvis_judice_ninke());
    }
    k
}

/// The Atkinson kernel: six unit taps over factor 8, deliberately
/// discarding a quarter of the error.
pub fn noyau_atkinson() -> (k: DiffusionKernel)
    ensures
        k.wf(),
        k.facteur == 8,
        k.poids() == rangees_atkinson(),
{
    let mut r0: Vec<i32> = Vec::new();
    r0.push(0);
    r0.push(0);
    r0.push(0);
    r0.push(1);
    r0.push(1);
    let mut r1: Vec<i32> = Vec::new();
    r1.push(0);
    r1.push(1);
    r1.push(1);
    r1.push(1);
    r1.push(0);
    let mut r2: Vec<i32> = Vec::new();
    r2.push(0);
    r2.push(0);
    r2.push(1);
    r2.push(0);
    r2.push(0);
    let mut rangees: Vec<Vec<i32>> = Vec::new();
    rangees.push(r0);
    rangees.push(r1);
    rangees.push(r2);
    let k = DiffusionKernel { rangees, facteur: 8 };
    proof {
        assert(k.poids() =~~= rangees_atkinson());
    }
    k
}

/// Floyd–Steinberg error diffusion over a palette.  An empty palette is
/// reported as [`DitherError::EmptyPalette`], leaving the buffer
/// untouched.
pub fn diffusion_d_erreur_floyd_steinberg_palette(
    buf: &mut PixelBuffer,
    palette: &Vec<Pixel>,
) -> (r: Result<(), DitherError>)
    requires
        old(buf).wf(),
    ensures
        final(buf).wf(),
        final(buf).width == old(buf).width,
        final(buf).height == old(buf).height,
        r is Ok <==> palette@.len() > 0,
        palette@.len() == 0 ==> r == Err::<(), DitherError>(DitherError::EmptyPalette) && final(buf).pixels@ == old(buf).pixels@,
        palette@.len() > 0 ==> final(buf).pixels@ == diffusion_spec(
            old(buf).pixels@,
            old(buf).width as int,
            old(buf).height as int,
            palette@,
            rangees_floyd_steinberg(),
            16,
        ),
{
    if palette.len() == 0 {
        return Err(DitherError::EmptyPalette);
    }
    let noyau = noyau_floyd_steinberg();
    diffuser(buf, palette, &noyau);
    Ok(())
}

/// Naive two-tap error diffusion over a palette: half the residual to
/// the right neighbor, half to the one below.  An empty palette is
/// reported as [`DitherError::EmptyPalette`], leaving the buffer
/// untouched.
pub fn diffusion_d_erreur_simple_palette(buf: &mut PixelBuffer, palette: &Vec<Pixel>) -> (r: Result<
    (),
    DitherError,
>)
    requires
        old(buf).wf(),
    ensures
        final(buf).wf(),
        final(buf).width == old(buf).width,
        final(buf).height == old(buf).height,
        r is Ok <==> palette@.len() > 0,
        palette@.len() == 0 ==> r == Err::<(), DitherError>(DitherError::EmptyPalette) && final(buf).pixels@ == old(buf).pixels@,
        palette@.len() > 0 ==> final(buf).pixels@ == diffusion_spec(
            old(buf).pixels@,
            old(buf).width as int,
            old(buf).height as int,
            palette@,
            rangees_simple(),
            2,
        ),
{
    if palette.len() == 0 {
        return Err(DitherError::EmptyPalette);
    }
    let noyau = noyau_simple();
    diffuser(buf, palette, &noyau);
    Ok(())
}

/// Brightness the simple (luma) diffusion commits a pixel to: full white
/// above luma 128, full black otherwise.
pub open spec fn valeur_simple(p: Pixel) -> int {
    if luma_scaled_spec(p) > SEUIL_LUMA_SCALED {
        255
    } else {
        0
    }
}

/// The gray pixel of brightness `v`.
pub open spec fn gris(v: int) -> Pixel
    recommends
        0 <= v <= 255,
{
    Pixel { r: v as u8, g: v as u8, b: v as u8 }
}

/// A neighbor of the simple diffusion after receiving half the scaled
/// luma error: its own luma plus the share, clamped to the luma range,
/// rewritten as a gray pixel.
pub open spec fn voisin_simple(q: Pixel, err: int) -> Pixel {
    let nouveau = luma_scaled_spec(q) + div_tronquee(err, 2);
    let borne: int = if nouveau < 0 {
        0
    } else if nouveau > LUMA_SCALED_MAX {
        LUMA_SCALED_MAX as int
    } else {
        nouveau
    };
    gris(borne / 10000)
}

/// One step of the simple diffusion: the pixel at `(x, y)` is committed
/// to white or black, and half its scaled luma residual goes to the right
/// neighbor and half to the one below, each when it exists.
pub open spec fn traiter_pixel_simple(s: Seq<Pixel>, w: int, h: int, x: int, y: int) -> Seq<Pixel>
    recommends
        0 <= x < w,
        0 <= y < h,
        s.len() == w * h,
{
    let p = s[y * w + x];
    let v = valeur_simple(p);
    let err = luma_scaled_spec(p) - v * 10000;
    let s1 = s.update(y * w + x, gris(v));
    let s2: Seq<Pixel> = if x + 1 < w {
        s1.update(y * w + x + 1, voisin_simple(s1[y * w + x + 1], err))
    } else {
        s1
    };
    if y + 1 < h {
        s2.update((y + 1) * w + x, voisin_simple(s2[(y + 1) * w + x], err))
    } else {
        s2
    }
}

/// The buffer after the first `n` pixels in raster order have gone
/// through the simple diffusion.
pub open spec fn diffusion_simple_prefixe(s: Seq<Pixel>, w: int, h: int, n: nat) -> Seq<Pixel>
    decreases n,
{
    if n == 0 {
        s
    } else {
        let s1 = diffusion_simple_prefixe(s, w, h, (n - 1) as nat);
        traiter_pixel_simple(s1, w, h, (n - 1) % w, (n - 1) / w)
    }
}

/// The whole image under the simple (luma) diffusion, in raster order.
pub open spec fn diffusion_simple_spec(s: Seq<Pixel>, w: int, h: int) -> Seq<Pixel>
    recommends
        s.len() == w * h,
{
    diffusion_simple_prefixe(s, w, h, (w * h) as nat)
}

/// A neighbor's update of the simple diffusion, the signed scaled error
/// split into its size `grandeur` and sign `negatif`.
fn voisin_simple_exec(q: &Pixel, grandeur: u32, negatif: bool) -> (p2: Pixel)
    requires
        grandeur <= LUMA_SCALED_MAX,
    ensures
        p2 == voisin_simple(
            *q,
            if negatif {
                -(grandeur as int)
            } else {
                grandeur as int
            },
        ),
{
    let l = luma_scaled(q);
    let delta = grandeur / 2;
    let nouveau: u32 = if negatif {
        if delta >= l {
            0
        } else {
            l - delta
        }
    } else {
        if l + delta > LUMA_SCALED_MAX {
            LUMA_SCALED_MAX
        } else {
            l + delta
        }
    };
    let v = nouveau / 10000;
    proof {
        vstd::arithmetic::div_mod::lemma_div_is_ordered(nouveau as int, 2_550_000, 10000);
    }
    Pixel::new(v as u8, v as u8, v as u8)
}

/// Simple error diffusion: each pixel is thresholded on its luma to full
/// white or full black, and half the scaled luma residual goes to the
/// right neighbor and half to the one below, each rewritten as the gray
/// of its updated luma.  An edge pixel lacking one of the two neighbors
/// keeps that share undiffused — a known boundary bias this variant
/// preserves.
pub fn diffusion_d_erreur_simple(buf: &mut PixelBuffer)
    requires
        old(buf).wf(),
    ensures
        final(buf).wf(),
        final(buf).width == old(buf).width,
        final(buf).height == old(buf).height,
        final(buf).pixels@ == diffusion_simple_spec(
            old(buf).pixels@,
            old(buf).width as int,
            old(buf).height as int,
        ),
{
    let w = buf.width;
    let h = buf.height;
    let n = buf.pixels.len();
    proof {
        let h_int = old(buf).height as int;
        if w == 0 {
            assert(0int * h_int == 0) by (nonlinear_arith);
        }
    }
    let mut i: usize = 0;
    while i < n
        invariant
            i <= n,
            n == old(buf).pixels@.len(),
            buf.wf(),
            buf.width == old(buf).width,
            buf.height == old(buf).height,
            w == buf.width,
            h == buf.height,
            buf.pixels@.len() == n,
            w > 0 || n == 0,
            n == (w as int) * (h as int),
            buf.pixels@ == diffusion_simple_prefixe(
                old(buf).pixels@,
                w as int,
                h as int,
                i as nat,
            ),
        decreases n - i,
    {
        proof {
            lemma_raster_coords(i as int, w as int, h as int);
        }
        let x = i % w;
        let y = i / w;
        let p = buf.get_pixel(x, y);
        let l = luma_scaled(&p);
        let v: u32 = if l > SEUIL_LUMA_SCALED {
            255
        } else {
            0
        };
        let vs: u32 = v * 10000;
        let grandeur: u32 = if l >= vs {
            l - vs
        } else {
            vs - l
        };
        let negatif: bool = l < vs;
        buf.put_pixel(x, y, Pixel::new(v as u8, v as u8, v as u8));
        if x + 1 < w {
            let q = buf.get_pixel(x + 1, y);
            let nv = voisin_simple_exec(&q, grandeur, negatif);
            buf.put_pixel(x + 1, y, nv);
        }
        if y + 1 < h {
            let q = buf.get_pixel(x, y + 1);
            let nv = voisin_simple_exec(&q, grandeur, negatif);
            buf.put_pixel(x, y + 1, nv);
        }
        i = i + 1;
    }
}

/// A kernel entry hands out no share of a zero error.
proof fn lemma_part_erreur_nulle(poids: int, facteur: int)
    requires
        facteur >= 1,
    ensures
        part_erreur(0, poids, facteur) == 0,
{
    assert(0 * poids == 0) by (nonlinear_arith);
    vstd::arithmetic::div_mod::lemma_div_of0(facteur);
}

/// A zero-weight kernel entry hands out no share of any error.
proof fn lemma_part_erreur_poids_nul(err: int, facteur: int)
    requires
        facteur >= 1,
    ensures
        part_erreur(err, 0, facteur) == 0,
{
    assert(err * 0 == 0) by (nonlinear_arith);
    vstd::arithmetic::div_mod::lemma_div_of0(facteur);
}

/// Receiving a zero share on every channel leaves a pixel unchanged.
proof fn lemma_ajouter_rien(p: Pixel, er: int, eg: int, eb: int, poids: int, facteur: int)
    requires
        facteur >= 1,
        part_erreur(er, poids, facteur) == 0,
        part_erreur(eg, poids, facteur) == 0,
        part_erreur(eb, poids, facteur) == 0,
    ensures
        ajouter_erreur(p, er, eg, eb, poids, facteur) == p,
{
}

/// A kernel row spreading a zero error changes nothing.
proof fn lemma_rangee_erreur_nulle(
    s: Seq<Pixel>,
    w: int,
    h: int,
    x: int,
    y: int,
    rangee: Seq<int>,
    dy: int,
    facteur: int,
    n: nat,
)
    requires
        facteur >= 1,
        s.len() == w * h,
    ensures
        appliquer_rangee(s, w, h, x, y, 0, 0, 0, rangee, dy, facteur, n) == s,
    decreases n,
{
    if n > 0 {
        lemma_rangee_erreur_nulle(s, w, h, x, y, rangee, dy, facteur, (n - 1) as nat);
        let nx = x + (n - 1) - rangee.len() / 2;
        let ny = y + dy;
        if 0 <= nx < w && 0 <= ny < h {
            lemma_index_raster(w, h, nx, ny);
            lemma_part_erreur_nulle(rangee[n - 1], facteur);
            lemma_ajouter_rien(s[ny * w + nx], 0, 0, 0, rangee[n - 1], facteur);
            assert(s.update(ny * w + nx, s[ny * w + nx]) =~= s);
        }
    }
}

/// A kernel spreading a zero error changes nothing.
proof fn lemma_noyau_erreur_nulle(
    s: Seq<Pixel>,
    w: int,
    h: int,
    x: int,
    y: int,
    rangees: Seq<Seq<int>>,
    facteur: int,
    m: nat,
)
    requires
        facteur >= 1,
        s.len() == w * h,
    ensures
        appliquer_noyau(s, w, h, x, y, 0, 0, 0, rangees, facteur, m) == s,
    decreases m,
{
    if m > 0 {
        lemma_noyau_erreur_nulle(s, w, h, x, y, rangees, facteur, (m - 1) as nat);
        lemma_rangee_erreur_nulle(
            s,
            w,
            h,
            x,
            y,
            rangees[m - 1],
            m - 1,
            facteur,
            rangees[m - 1].len(),
        );
    }
}

/// The duplicated one-color palette matches its color to itself.
proof fn lemma_nearest_palette_double(c: Pixel)
    ensures
        nearest_spec(seq![c, c], c) == c,
{
    let pal = seq![c, c];
    lemma_nearest_idx_bounds(pal, c);
}

/// The identity holds prefix by prefix on a uniform image.
proof fn lemma_prefixe_triviale(
    s: Seq<Pixel>,
    w: int,
    h: int,
    rangees: Seq<Seq<int>>,
    facteur: int,
    c: Pixel,
    n: nat,
)
    requires
        w >= 0,
        h >= 0,
        s.len() == w * h,
        forall|i: int| 0 <= i < s.len() ==> s[i] == c,
        facteur >= 1,
        n <= w * h,
    ensures
        diffuser_prefixe(s, w, h, seq![c, c], rangees, facteur, n) == s,
    decreases n,
{
    if n > 0 {
        lemma_prefixe_triviale(s, w, h, rangees, facteur, c, (n - 1) as nat);
        assert(w > 0) by (nonlinear_arith)
            requires
                n >= 1,
                n <= w * h,
                w >= 0,
        ;
        lemma_raster_coords(n - 1, w, h);
        let x = (n - 1) % w;
        let y = (n - 1) / w;
        lemma_index_raster(w, h, x, y);
        lemma_nearest_palette_double(c);
        assert(s[y * w + x] == c);
        assert(s.update(y * w + x, c) =~= s);
        lemma_noyau_erreur_nulle(s, w, h, x, y, rangees, facteur, rangees.len());
    }
}

/// Law: error diffusion with the trivial palette — a uniform image's own
/// color twice over — matches every pixel exactly, propagates a zero
/// residual, and returns the image unchanged.
pub proof fn lemma_diffusion_palette_triviale(
    s: Seq<Pixel>,
    w: int,
    h: int,
    rangees: Seq<Seq<int>>,
    facteur: int,
    c: Pixel,
)
    requires
        w >= 0,
        h >= 0,
        s.len() == w * h,
        forall|i: int| 0 <= i < s.len() ==> s[i] == c,
        facteur >= 1,
    ensures
        diffusion_spec(s, w, h, seq![c, c], rangees, facteur) == s,
{
    lemma_prefixe_triviale(s, w, h, rangees, facteur, c, (w * h) as nat);
}

/// On a one-pixel image, a kernel row either misses the buffer entirely
/// (rows below the anchor) or hits only the anchor cell, whose weight is
/// required to be zero.
proof fn lemma_rangee_un_pixel(
    s: Seq<Pixel>,
    er: int,
    eg: int,
    eb: int,
    rangee: Seq<int>,
    dy: int,
    facteur: int,
    n: nat,
)
    requires
        s.len() == 1,
        facteur >= 1,
        dy >= 1 || rangee[rangee.len() as int / 2] == 0,
    ensures
        appliquer_rangee(s, 1, 1, 0, 0, er, eg, eb, rangee, dy, facteur, n) == s,
    decreases n,
{
    if n > 0 {
        lemma_rangee_un_pixel(s, er, eg, eb, rangee, dy, facteur, (n - 1) as nat);
        let nx = 0 + (n - 1) - rangee.len() / 2;
        let ny = 0 + dy;
        if 0 <= nx < 1 && 0 <= ny < 1 {
            lemma_part_erreur_poids_nul(er, facteur);
            lemma_part_erreur_poids_nul(eg, facteur);
            lemma_part_erreur_poids_nul(eb, facteur);
            lemma_ajouter_rien(s[0], er, eg, eb, 0, facteur);
            assert(s.update(0, s[0]) =~= s);
        }
    }
}

/// On a one-pixel image the whole kernel changes nothing, provided the
/// anchor entry of the top row carries weight zero.
proof fn lemma_noyau_un_pixel(
    s: Seq<Pixel>,
    er: int,
    eg: int,
    eb: int,
    rangees: Seq<Seq<int>>,
    facteur: int,
    m: nat,
)
    requires
        s.len() == 1,
        facteur >= 1,
        m <= rangees.len(),
        rangees.len() >= 1 ==> rangees[0][rangees[0].len() as int / 2] == 0,
    ensures
        appliquer_noyau(s, 1, 1, 0, 0, er, eg, eb, rangees, facteur, m) == s,
    decreases m,
{
    if m > 0 {
        lemma_noyau_un_pixel(s, er, eg, eb, rangees, facteur, (m - 1) as nat);
        lemma_rangee_un_pixel(
            s,
            er,
            eg,
            eb,
            rangees[m - 1],
            m - 1,
            facteur,
            rangees[m - 1].len(),
        );
    }
}

/// Law: diffusing a one-pixel image skips every kernel target outside
/// the buffer — the only in-bounds target is the anchor cell, whose
/// weight is zero in every preset — so the result is exactly the one
/// pixel quantized to its nearest palette color.
pub proof fn lemma_diffusion_un_pixel(
    s: Seq<Pixel>,
    palette: Seq<Pixel>,
    rangees: Seq<Seq<int>>,
    facteur: int,
)
    requires
        s.len() == 1,
        palette.len() > 0,
        facteur >= 1,
        rangees.len() >= 1 ==> rangees[0][rangees[0].len() as int / 2] == 0,
    ensures
        diffusion_spec(s, 1, 1, palette, rangees, facteur) == seq![nearest_spec(palette, s[0])],
{
    lemma_zero_sur_un();
    let nouveau = nearest_spec(palette, s[0]);
    let s1 = s.update(0, nouveau);
    lemma_noyau_un_pixel(
        s1,
        s[0].r - nouveau.r,
        s[0].g - nouveau.g,
        s[0].b - nouveau.b,
        rangees,
        facteur,
        rangees.len(),
    );
    let p0 = diffuser_prefixe(s, 1, 1, palette, rangees, facteur, 0);
    assert(p0 == s);
    let p1 = diffuser_prefixe(s, 1, 1, palette, rangees, facteur, 1);
    assert(p1 == traiter_pixel(p0, 1, 1, 0int % 1, 0int / 1, palette, rangees, facteur));
    assert(p1 == traiter_pixel(s, 1, 1, 0, 0, palette, rangees, facteur));
    assert((1int * 1) as nat == 1nat);
    assert(p1 =~= seq![nouveau]);
}

/// Zero divided by one, in quotient and remainder form.
proof fn lemma_zero_sur_un()
    ensures
        0int % 1 == 0,
        0int / 1 == 0,
{
    vstd::arithmetic::div_mod::lemma_fundamental_div_mod_converse(0, 1, 0, 0);
}

} // verus!
