//! Verified dithering and palette-quantization engine.
//!
//! The library turns a decoded RGB pixel buffer into a reduced-palette
//! rendition of itself, using classic halftoning techniques: monochrome
//! thresholding, random and ordered (Bayer-matrix) dithering, and a family
//! of error-diffusion algorithms.  All brightness and distance arithmetic
//! is exact fixed-point integer arithmetic, so every algorithm has a fully
//! deterministic mathematical model stated in its contract.

use vstd::prelude::*;
use vstd::string::StrSliceExecFns;
use vstd::string::StringExecFns;

pub mod bayer;
pub mod buffer;
pub mod color;
pub mod diffusion;
pub mod palette;
pub mod threshold;

verus! {

/// The error taxonomy of the engine.  Every failure is a precondition
/// violation detected before any buffer mutation begins.
#[derive(Clone, Copy, Debug, PartialEq, Eq, Structural)]
pub enum DitherError {
    /// A palette-dependent operation was invoked with zero colors.
    EmptyPalette,
    /// A diffusion kernel with zero rows, an empty row, or a factor below one.
    InvalidKernel,
    /// A Bayer-matrix order outside the supported range.
    InvalidOrder,
}

/// Normalizes a directory path so that it ends with exactly one `/`:
/// a path that already does is returned unchanged, any other (the empty
/// one included) gets a single `/` appended.
pub fn format_dossier(chemin_dossier: &str) -> (r: String)
    ensures
        chemin_dossier@.len() > 0 && chemin_dossier@.last() == '/' ==> r@ == chemin_dossier@,
        !(chemin_dossier@.len() > 0 && chemin_dossier@.last() == '/') ==> r@ == chemin_dossier@.push(
            '/',
        ),
{
    let n = chemin_dossier.unicode_len();
    if n > 0 && chemin_dossier.get_char(n - 1) == '/' {
        chemin_dossier.to_owned()
    } else {
        let mut s = chemin_dossier.to_owned();
        s.append("/");
        proof {
            reveal_strlit("/");
            assert(s@ =~= chemin_dossier@.push('/'));
        }
        s
    }
}

} // verus!

