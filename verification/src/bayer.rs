//! Recursive construction of Bayer threshold matrices for ordered
//! dithering.
//!
//! An order-`k` matrix has side `2^k` and its cells hold every threshold
//! level in `{0, ..., side² - 1}` exactly once — the dispersed-dot pattern
//! that gives ordered dithering its even gradient.  The construction
//! subdivides into quadrants in the fixed order top-left, bottom-right,
//! top-right, bottom-left; that visitation order is load-bearing for the
//! visual texture of the dither pattern.

use vstd::prelude::*;
use vstd::arithmetic::div_mod::lemma_fundamental_div_mod_converse;
use crate::DitherError;

verus! {

/// `2^k`.
pub open spec fn pow2(k: nat) -> nat
    decreases k,
{
    if k == 0 {
        1
    } else {
        2 * pow2((k - 1) as nat)
    }
}

/// The matrix sides the generator can produce: `2^k` for orders `k` from
/// 0 to 6 (order 0 only arises as the base case of the recursion).
pub open spec fn taille_valide(taille: int) -> bool {
    ||| taille == 1
    ||| taille == 2
    ||| taille == 4
    ||| taille == 8
    ||| taille == 16
    ||| taille == 32
    ||| taille == 64
}

/// Quadrant code of the recursive subdivision: top-left 0, bottom-right 1,
/// top-right 2, bottom-left 3.
pub open spec fn bayer_code(droite: bool, bas: bool) -> int {
    if !droite && !bas {
        0
    } else if droite && bas {
        1
    } else if droite && !bas {
        2
    } else {
        3
    }
}

/// Threshold level at column `i`, row `j` of the matrix of side `taille`:
/// the quadrant code of the coarsest subdivision, refined by the same
/// construction on the half-size quadrant, each level weighted four times
/// the previous one.
pub open spec fn bayer_value(taille: int, i: int, j: int) -> int
    recommends
        taille_valide(taille),
        0 <= i < taille,
        0 <= j < taille,
    decreases taille,
{
    if taille <= 1 {
        0
    } else {
        let moitie = taille / 2;
        bayer_code(i >= moitie, j >= moitie) + 4 * bayer_value(moitie, i % moitie, j % moitie)
    }
}

/// Column of the cell holding threshold level `v` in the matrix of side
/// `taille` — the inverse of [`bayer_value`] in its first coordinate.
pub open spec fn bayer_inv_x(taille: int, v: int) -> int
    decreases taille,
{
    if taille <= 1 {
        0
    } else {
        let c = v % 4;
        (if c == 1 || c == 2 {
            taille / 2
        } else {
            0
        }) + bayer_inv_x(taille / 2, v / 4)
    }
}

/// Row of the cell holding threshold level `v` in the matrix of side
/// `taille` — the inverse of [`bayer_value`] in its second coordinate.
pub open spec fn bayer_inv_y(taille: int, v: int) -> int
    decreases taille,
{
    if taille <= 1 {
        0
    } else {
        let c = v % 4;
        (if c == 1 || c == 3 {
            taille / 2
        } else {
            0
        }) + bayer_inv_y(taille / 2, v / 4)
    }
}

/// Position of `i` within a size-`2m` segment split in halves: its offset
/// into its half, and which half it falls in.
proof fn lemma_position_moitie(i: int, m: int)
    requires
        m >= 1,
        0 <= i < 2 * m,
    ensures
        i % m == if i < m {
            i
        } else {
            i - m
        },
{
    if i < m {
        lemma_fundamental_div_mod_converse(i, m, 0, i);
    } else {
        lemma_fundamental_div_mod_converse(i, m, 1, i - m);
    }
}

/// Threshold levels lie in `[0, taille²)`.
pub proof fn lemma_bayer_value_bornes(taille: int, i: int, j: int)
    requires
        taille_valide(taille),
        0 <= i < taille,
        0 <= j < taille,
    ensures
        0 <= bayer_value(taille, i, j) < taille * taille,
    decreases taille,
{
    if taille <= 1 {
    } else {
        let m = taille / 2;
        lemma_position_moitie(i, m);
        lemma_position_moitie(j, m);
        lemma_bayer_value_bornes(m, i % m, j % m);
        assert(taille * taille == 4 * (m * m)) by (nonlinear_arith)
            requires
                taille == 2 * m,
        ;
    }
}

/// [`bayer_inv_x`] and [`bayer_inv_y`] recover the cell coordinates from
/// the threshold level: the construction never writes one level twice.
pub proof fn lemma_bayer_roundtrip(taille: int, i: int, j: int)
    requires
        taille_valide(taille),
        0 <= i < taille,
        0 <= j < taille,
    ensures
        bayer_inv_x(taille, bayer_value(taille, i, j)) == i,
        bayer_inv_y(taille, bayer_value(taille, i, j)) == j,
    decreases taille,
{
    if taille <= 1 {
    } else {
        let m = taille / 2;
        lemma_position_moitie(i, m);
        lemma_position_moitie(j, m);
        let c = bayer_code(i >= m, j >= m);
        let v2 = bayer_value(m, i % m, j % m);
        lemma_bayer_value_bornes(m, i % m, j % m);
        let v = c + 4 * v2;
        lemma_fundamental_div_mod_converse(v, 4, v2, c);
        lemma_bayer_roundtrip(m, i % m, j % m);
    }
}

/// The inverse coordinates of a level in range are themselves in range.
pub proof fn lemma_bayer_inv_bornes(taille: int, v: int)
    requires
        taille_valide(taille),
        0 <= v < taille * taille,
    ensures
        0 <= bayer_inv_x(taille, v) < taille,
        0 <= bayer_inv_y(taille, v) < taille,
    decreases taille,
{
    if taille <= 1 {
    } else {
        let m = taille / 2;
        let c = v % 4;
        let v2 = v / 4;
        vstd::arithmetic::div_mod::lemma_fundamental_div_mod(v, 4);
        assert(0 <= c < 4);
        assert(taille * taille == 4 * (m * m)) by (nonlinear_arith)
            requires
                taille == 2 * m,
        ;
        assert(0 <= v2 < m * m);
        lemma_bayer_inv_bornes(m, v2);
    }
}

/// Every level in `[0, taille²)` is reached: [`bayer_value`] at the
/// inverse coordinates gives the level back.
pub proof fn lemma_bayer_surjective(taille: int, v: int)
    requires
        taille_valide(taille),
        0 <= v < taille * taille,
    ensures
        bayer_value(taille, bayer_inv_x(taille, v), bayer_inv_y(taille, v)) == v,
    decreases taille,
{
    if taille <= 1 {
    } else {
        let m = taille / 2;
        let c = v % 4;
        let v2 = v / 4;
        vstd::arithmetic::div_mod::lemma_fundamental_div_mod(v, 4);
        assert(taille * taille == 4 * (m * m)) by (nonlinear_arith)
            requires
                taille == 2 * m,
        ;
        assert(0 <= v2 < m * m);
        lemma_bayer_inv_bornes(m, v2);
        lemma_bayer_surjective(m, v2);
        let x = bayer_inv_x(taille, v);
        let y = bayer_inv_y(taille, v);
        lemma_position_moitie(x, m);
        lemma_position_moitie(y, m);
        assert(bayer_code(x >= m, y >= m) == c);
        assert(x % m == bayer_inv_x(m, v2));
        assert(y % m == bayer_inv_y(m, v2));
    }
}

/// Law: the threshold levels of a Bayer matrix of side `taille` form a
/// permutation of `{0, ..., taille² - 1}` — each cell's level is in range,
/// no two cells share a level, and every level occurs.
pub proof fn lemma_bayer_permutation(taille: int)
    requires
        taille_valide(taille),
    ensures
        forall|i: int, j: int|
            0 <= i < taille && 0 <= j < taille ==> 0 <= #[trigger] bayer_value(taille, i, j)
                < taille * taille,
        forall|i: int, j: int, i2: int, j2: int|
            0 <= i < taille && 0 <= j < taille && 0 <= i2 < taille && 0 <= j2 < taille && !(i == i2
                && j == j2) ==> #[trigger] bayer_value(taille, i, j) != #[trigger] bayer_value(
                taille,
                i2,
                j2,
            ),
        forall|v: int|
            0 <= v < taille * taille ==> 0 <= #[trigger] bayer_inv_x(taille, v) < taille && 0
                <= bayer_inv_y(taille, v) < taille && bayer_value(
                taille,
                bayer_inv_x(taille, v),
                bayer_inv_y(taille, v),
            ) == v,
{
    assert forall|i: int, j: int| 0 <= i < taille && 0 <= j < taille implies 0
        <= #[trigger] bayer_value(taille, i, j) < taille * taille by {
        lemma_bayer_value_bornes(taille, i, j);
    }
    assert forall|i: int, j: int, i2: int, j2: int|
        0 <= i < taille && 0 <= j < taille && 0 <= i2 < taille && 0 <= j2 < taille && !(i == i2 && j
            == j2) implies #[trigger] bayer_value(taille, i, j) != #[trigger] bayer_value(
        taille,
        i2,
        j2,
    ) by {
        lemma_bayer_roundtrip(taille, i, j);
        lemma_bayer_roundtrip(taille, i2, j2);
    }
    assert forall|v: int| 0 <= v < taille * taille implies 0 <= #[trigger] bayer_inv_x(taille, v)
        < taille && 0 <= bayer_inv_y(taille, v) < taille && bayer_value(
        taille,
        bayer_inv_x(taille, v),
        bayer_inv_y(taille, v),
    ) == v by {
        lemma_bayer_inv_bornes(taille, v);
        lemma_bayer_surjective(taille, v);
    }
}

/// A Bayer threshold matrix: a square grid of side `2^order`, generated
/// once and then read as a repeating threshold table.
pub struct MatriceBayer {
    pub taille: usize,
    pub matrice: Vec<Vec<u32>>,
}

impl MatriceBayer {
    /// The grid is square with side `taille`.
    pub open spec fn wf(self) -> bool {
        &&& self.taille >= 1
        &&& self.matrice@.len() == self.taille
        &&& forall|j: int|
            0 <= j < self.taille ==> #[trigger] self.matrice@[j]@.len() == self.taille
    }

    /// The cell at column `i`, row `j`.
    pub open spec fn cellule(self, i: int, j: int) -> int
        recommends
            self.wf(),
            0 <= i < self.taille,
            0 <= j < self.taille,
    {
        self.matrice@[j]@[i] as int
    }

    /// The grid holds exactly the recursive Bayer construction.
    pub open spec fn est_bayer(self) -> bool {
        &&& self.wf()
        &&& taille_valide(self.taille as int)
        &&& forall|i: int, j: int|
            0 <= i < self.taille && 0 <= j < self.taille ==> #[trigger] self.cellule(i, j)
                == bayer_value(self.taille as int, i, j)
    }

    /// Generates the Bayer matrix of order `ordre`, of side `2^ordre`.
    /// Orders outside 1..=6 are rejected as [`DitherError::InvalidOrder`]:
    /// order 0 would give a single-cell table with a constant threshold,
    /// and larger orders give no visible refinement on 8-bit input.
    pub fn new_bayer_matrix(ordre: u32) -> (r: Result<MatriceBayer, DitherError>)
        ensures
            r is Ok <==> 1 <= ordre <= 6,
            !(1 <= ordre <= 6) ==> r == Err::<MatriceBayer, DitherError>(DitherError::InvalidOrder),
            r matches Ok(m) ==> m.est_bayer() && m.taille == pow2(ordre as nat),
    {
        if ordre < 1 || ordre > 6 {
            return Err(DitherError::InvalidOrder);
        }
        let taille: usize = match ordre {
            1 => 2,
            2 => 4,
            3 => 8,
            4 => 16,
            5 => 32,
            _ => 64,
        };
        proof {
            assert(pow2(0) == 1);
            assert(pow2(1) == 2);
            assert(pow2(2) == 4);
            assert(pow2(3) == 8);
            assert(pow2(4) == 16);
            assert(pow2(5) == 32);
            assert(pow2(6) == 64);
        }
        let rangee: Vec<u32> = vec![0u32; taille];
        let mut matrice: Vec<Vec<u32>> = vec![rangee; taille];
        MatriceBayer::calculer_bayer(&mut matrice, 0, 0, taille, 1, 0);
        proof {
            assert forall|i: int, j: int|
                0 <= i < taille && 0 <= j < taille implies #[trigger] matrice@[j]@[i]
                == bayer_value(taille as int, i, j) by {
                assert(matrice@[0 + j]@[0 + i] == 0 + 1 * bayer_value(taille as int, i, j));
            }
        }
        Ok(MatriceBayer { taille, matrice })
    }

    /// Recursively fills the square quadrant of side `taille` at origin
    /// `(x, y)`: side 1 writes `valeur`; otherwise the four half-size
    /// quadrants are filled in the order top-left, bottom-right,
    /// top-right, bottom-left, with bases `valeur + etape * code` and the
    /// step multiplied by four.
    pub fn calculer_bayer(
        matrice: &mut Vec<Vec<u32>>,
        x: usize,
        y: usize,
        taille: usize,
        etape: u32,
        valeur: u32,
    )
        requires
            taille_valide(taille as int),
            y + taille <= old(matrice)@.len(),
            forall|r: int|
                0 <= r < old(matrice)@.len() ==> x + taille <= #[trigger] old(matrice)@[r]@.len(),
            etape >= 1,
            etape * taille * taille <= u32::MAX,
            valeur + etape * (taille * taille - 1) <= u32::MAX,
        ensures
            final(matrice)@.len() == old(matrice)@.len(),
            forall|r: int|
                0 <= r < old(matrice)@.len() ==> #[trigger] final(matrice)@[r]@.len() == old(
                    matrice,
                )@[r]@.len(),
            forall|r: int, c: int|
                0 <= r < old(matrice)@.len() && 0 <= c < old(matrice)@[r]@.len() && !(y <= r < y
                    + taille && x <= c < x + taille) ==> #[trigger] final(matrice)@[r]@[c] == old(
                    matrice,
                )@[r]@[c],
            forall|i: int, j: int|
                0 <= i < taille && 0 <= j < taille ==> #[trigger] final(matrice)@[y + j]@[x + i]
                    == valeur + etape * bayer_value(taille as int, i, j),
        decreases taille,
    {
        // Reading the lengths bounds the quadrant arithmetic by usize::MAX.
        let _n_rangees = matrice.len();
        let _longueur_rangee = matrice[y].len();
        if taille == 1 {
            matrice[y][x] = valeur;
            assert(bayer_value(1, 0, 0) == 0);
            return ;
        }
        let milieu = taille / 2;
        proof {
            lemma_sous_appels(taille as int, etape as int, valeur as int);
        }
        Self::calculer_bayer(matrice, x, y, milieu, etape * 4, valeur);
        let ghost s1 = matrice@;
        Self::calculer_bayer(matrice, x + milieu, y + milieu, milieu, etape * 4, valeur + etape);
        let ghost s2 = matrice@;
        Self::calculer_bayer(matrice, x + milieu, y, milieu, etape * 4, valeur + etape * 2);
        let ghost s3 = matrice@;
        Self::calculer_bayer(matrice, x, y + milieu, milieu, etape * 4, valeur + etape * 3);
        proof {
            let t = taille as int;
            let m = milieu as int;
            assert forall|i: int, j: int| 0 <= i < t && 0 <= j < t implies #[trigger] matrice@[y
                + j]@[x + i] == valeur + etape * bayer_value(t, i, j) by {
                lemma_position_moitie(i, m);
                lemma_position_moitie(j, m);
                lemma_bayer_value_bornes(m, i % m, j % m);
                let c = bayer_code(i >= m, j >= m);
                let v2 = bayer_value(m, i % m, j % m);
                assert(bayer_value(t, i, j) == c + 4 * v2);
                if i < m && j < m {
                    assert(s1[y + j]@[x + i] == valeur + (etape * 4) * v2);
                    assert(s2[y + j]@[x + i] == s1[y + j]@[x + i]);
                    assert(s3[y + j]@[x + i] == s2[y + j]@[x + i]);
                    assert(matrice@[y + j]@[x + i] == s3[y + j]@[x + i]);
                } else if i >= m && j >= m {
                    assert(s1[y + j]@[x + i] == old(matrice)@[y + j]@[x + i]);
                    assert(s2[(y + m) + (j - m)]@[(x + m) + (i - m)] == (valeur + etape) + (etape
                        * 4) * v2);
                    assert(s3[y + j]@[x + i] == s2[y + j]@[x + i]);
                    assert(matrice@[y + j]@[x + i] == s3[y + j]@[x + i]);
                } else if i >= m && j < m {
                    assert(s3[y + j]@[(x + m) + (i - m)] == (valeur + etape * 2) + (etape * 4)
                        * v2);
                    assert(matrice@[y + j]@[x + i] == s3[y + j]@[x + i]);
                } else {
                    assert(matrice@[(y + m) + (j - m)]@[x + i] == (valeur + etape * 3) + (etape * 4)
                        * v2);
                }
                assert(etape * (c + 4 * v2) == c * etape + (etape * 4) * v2) by (nonlinear_arith);
            }
        }
    }
}

/// Arithmetic bounds that let each quadrant sub-call of the construction
/// meet its overflow preconditions.
proof fn lemma_sous_appels(taille: int, etape: int, valeur: int)
    requires
        taille_valide(taille),
        taille >= 2,
        etape >= 1,
        etape * taille * taille <= u32::MAX,
        valeur + etape * (taille * taille - 1) <= u32::MAX,
        valeur >= 0,
    ensures
        4 * etape <= u32::MAX,
        (4 * etape) * (taille / 2) * (taille / 2) <= u32::MAX,
        valeur + etape <= u32::MAX,
        valeur + etape * 2 <= u32::MAX,
        valeur + etape * 3 <= u32::MAX,
        valeur + (4 * etape) * ((taille / 2) * (taille / 2) - 1) <= u32::MAX,
        valeur + etape + (4 * etape) * ((taille / 2) * (taille / 2) - 1) <= u32::MAX,
        valeur + etape * 2 + (4 * etape) * ((taille / 2) * (taille / 2) - 1) <= u32::MAX,
        valeur + etape * 3 + (4 * etape) * ((taille / 2) * (taille / 2) - 1) <= u32::MAX,
{
    let m = taille / 2;
    assert(taille * taille == 4 * (m * m) && m >= 1) by (nonlinear_arith)
        requires
            taille == 2 * m,
            m >= 1,
    ;
    assert(etape * taille * taille == etape * (taille * taille)) by (nonlinear_arith);
    assert((4 * etape) * m * m == etape * (4 * (m * m))) by (nonlinear_arith);
    assert(4 * etape <= etape * (4 * (m * m))) by (nonlinear_arith)
        requires
            etape >= 1,
            m >= 1,
    ;
    assert((4 * etape) * (m * m - 1) >= 0 && etape * 3 + (4 * etape) * (m * m - 1) <= etape * (4 * (
    m * m) - 1)) by (nonlinear_arith)
        requires
            etape >= 1,
            m >= 1,
    ;
    assert(etape * (4 * (m * m) - 1) == etape * (taille * taille) - etape) by (nonlinear_arith)
        requires
            taille * taille == 4 * (m * m),
    ;
}

} // verus!
