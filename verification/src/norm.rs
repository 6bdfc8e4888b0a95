//! Matrix norms: a strategy trait and the L-infinity norm.

use vstd::prelude::*;
use crate::fp::{
    Fp, ONE_BITS, POS_ZERO, SIGN_MASK, abs_bits, add_bits, div_bits, fp_abs, fp_add, fp_div,
    fp_lt, fp_mul, fp_sub, is_finite_bits, is_nan_bits, is_zero_bits, lt_bits, mul_bits, sub_bits,
};
use crate::invert::{AugmentedMat, Invert};
use crate::mat::{Mat, apply_bits, cmb_row_bits, id_grid, scale_row_bits};
use crate::reduce_upper::{BasicReduceUpper, ReduceUpper, cmb_above, red_from, reduce_spec, scale_steps};
use crate::upper_triangle::{Gaussian, UpperTriangle, cmb_below, find_pivot, gauss_spec, gauss_upto, gauss_step};

verus! {

/// Left fold of the absolute values of the first k entries of column c,
/// starting from `+0.0`.
pub open spec fn col_abs_sum(g: Seq<Seq<u64>>, c: int, k: int) -> u64
    decreases k,
{
    if k <= 0 {
        POS_ZERO
    } else {
        add_bits(col_abs_sum(g, c, k - 1), abs_bits(g[k - 1][c]))
    }
}

/// The running maximum over the first k column sums, starting from
/// `+0.0`: a column's sum replaces the running value when strictly
/// greater.
pub open spec fn linf_prefix(g: Seq<Seq<u64>>, k: int) -> u64
    decreases k,
{
    if k <= 0 {
        POS_ZERO
    } else {
        let prev = linf_prefix(g, k - 1);
        let curr = col_abs_sum(g, k - 1, g.len() as int);
        if lt_bits(prev, curr) {
            curr
        } else {
            prev
        }
    }
}

/// The L-infinity norm of a grid: the greatest column sum of entry
/// magnitudes, folded left to right.
pub open spec fn linf_norm_bits(g: Seq<Seq<u64>>) -> u64 {
    linf_prefix(g, g[0].len() as int)
}

/// A method of computing a norm of a matrix.
pub trait Norm {
    /// The norm of a grid.
    spec fn spec_norm(g: Seq<Seq<u64>>) -> u64;

    /// Compute the norm of a matrix.
    fn norm(m: &Mat) -> (r: Fp)
        requires
            m.wf(),
        ensures
            r.bits == Self::spec_norm(m@),
    ;
}

/// The L-infinity norm.
pub struct LInf;

impl Norm for LInf {
    open spec fn spec_norm(g: Seq<Seq<u64>>) -> u64 {
        linf_norm_bits(g)
    }

    fn norm(m: &Mat) -> (r: Fp) {
        let rows = m.rows();
        let cols = m.cols();
        let mut res = Fp::zero();
        for c in 0..cols
            invariant
                m.wf(),
                rows == m@.len(),
                cols == m@[0].len(),
                res.bits == linf_prefix(m@, c as int),
        {
            let mut curr = Fp::zero();
            for r in 0..rows
                invariant
                    m.wf(),
                    c < cols,
                    rows == m@.len(),
                    cols == m@[0].len(),
                    curr.bits == col_abs_sum(m@, c as int, r as int),
            {
                curr = fp_add(curr, fp_abs(m.get(r, c)));
            }
            if fp_lt(res, curr) {
                res = curr;
            }
        }
        res
    }
}

/// The bit-level classifications of the two patterns the identity
/// grid holds: `+0.0` and `1.0`.
pub proof fn lemma_id_entry_bits()
    ensures
        is_zero_bits(POS_ZERO),
        !is_zero_bits(ONE_BITS),
        !is_nan_bits(POS_ZERO),
        !is_nan_bits(ONE_BITS),
        is_finite_bits(POS_ZERO),
        is_finite_bits(ONE_BITS),
        abs_bits(POS_ZERO) == POS_ZERO,
        abs_bits(ONE_BITS) == ONE_BITS,
        POS_ZERO & SIGN_MASK == 0,
        ONE_BITS & SIGN_MASK == 0,
        lt_bits(POS_ZERO, ONE_BITS),
        !lt_bits(ONE_BITS, ONE_BITS),
{
    assert(0u64 & 0x7FFF_FFFF_FFFF_FFFFu64 == 0) by (bit_vector);
    assert(0x3FF0_0000_0000_0000u64 & 0x7FFF_FFFF_FFFF_FFFFu64 == 0x3FF0_0000_0000_0000u64)
        by (bit_vector);
    assert(0u64 & 0x7FF0_0000_0000_0000u64 == 0) by (bit_vector);
    assert(0x3FF0_0000_0000_0000u64 & 0x7FF0_0000_0000_0000u64 == 0x3FF0_0000_0000_0000u64)
        by (bit_vector);
    assert(0u64 & 0x8000_0000_0000_0000u64 == 0) by (bit_vector);
    assert(0x3FF0_0000_0000_0000u64 & 0x8000_0000_0000_0000u64 == 0) by (bit_vector);
    assert(0u64 & 0x000F_FFFF_FFFF_FFFFu64 == 0) by (bit_vector);
    assert(0x3FF0_0000_0000_0000u64 & 0x000F_FFFF_FFFF_FFFFu64 == 0) by (bit_vector);
}

/// The exact-arithmetic identities on `+0.0` and `1.0` that the
/// identity-grid laws lean on, as one predicate: each is an ensured
/// fact of the corresponding trusted wrapper, learned by calling it.
pub open spec fn id_arith_facts() -> bool {
    &&& div_bits(POS_ZERO, ONE_BITS) == POS_ZERO
    &&& div_bits(ONE_BITS, ONE_BITS) == ONE_BITS
    &&& mul_bits(POS_ZERO, POS_ZERO) == POS_ZERO
    &&& mul_bits(POS_ZERO, ONE_BITS) == POS_ZERO
    &&& mul_bits(ONE_BITS, ONE_BITS) == ONE_BITS
    &&& sub_bits(POS_ZERO, POS_ZERO) == POS_ZERO
    &&& sub_bits(ONE_BITS, POS_ZERO) == ONE_BITS
    &&& add_bits(POS_ZERO, POS_ZERO) == POS_ZERO
    &&& add_bits(POS_ZERO, ONE_BITS) == ONE_BITS
    &&& add_bits(ONE_BITS, POS_ZERO) == ONE_BITS
}

/// A combine whose scale is zero leaves every row of the identity grid
/// unchanged.
proof fn lemma_cmb_below_id(n: int, i: int, j: int)
    requires
        id_arith_facts(),
        1 <= n <= usize::MAX,
        0 <= i < n,
        i < j,
    ensures
        cmb_below(id_grid(n), i, j).1 == id_grid(n),
    decreases n - j,
{
    lemma_id_entry_bits();
    let id = id_grid(n);
    if 0 <= j < n {
        assert(id[j][i] == POS_ZERO);
        assert(id[i][i] == ONE_BITS);
        let op = crate::mat::RowOperation::Cmb {
            src: i as usize,
            scale: Fp { bits: div_bits(id[j][i], id[i][i]) },
            dest: j as usize,
        };
        assert(div_bits(id[j][i], id[i][i]) == POS_ZERO);
        assert(cmb_row_bits(id[j], id[i], POS_ZERO) =~= id[j]) by {
            assert forall|c: int| 0 <= c < n implies cmb_row_bits(id[j], id[i], POS_ZERO)[c]
                == id[j][c] by {
                if i == c {
                    assert(mul_bits(POS_ZERO, id[i][c]) == POS_ZERO);
                } else {
                    assert(mul_bits(POS_ZERO, id[i][c]) == POS_ZERO);
                }
            }
        }
        assert(apply_bits(id, op) =~~= id);
        lemma_cmb_below_id(n, i, j + 1);
    }
}

/// Each Gaussian pivot step leaves the identity grid unchanged: the
/// pivot is found on the diagonal at once, no swap is needed, and the
/// eliminations subtract zero.
proof fn lemma_gauss_step_id(n: int, i: int)
    requires
        id_arith_facts(),
        1 <= n <= usize::MAX,
        0 <= i < n,
    ensures
        gauss_step(id_grid(n), i) == (gauss_step(id_grid(n), i).0, id_grid(n), true),
{
    lemma_id_entry_bits();
    let id = id_grid(n);
    assert(id[i][i] == ONE_BITS);
    assert(find_pivot(id, i, i) == i);
    lemma_cmb_below_id(n, i, i + 1);
}

/// Gaussian elimination leaves the identity grid unchanged through
/// every step.
proof fn lemma_gauss_upto_id(n: int, i: int)
    requires
        id_arith_facts(),
        1 <= n <= usize::MAX,
        0 <= i < n,
    ensures
        gauss_upto(id_grid(n), i) == (gauss_upto(id_grid(n), i).0, id_grid(n), true),
    decreases i,
{
    if i > 0 {
        lemma_gauss_upto_id(n, i - 1);
        lemma_gauss_step_id(n, i - 1);
    }
}

/// Law: Gaussian triangularization of the identity grid succeeds and
/// leaves it unchanged.
pub proof fn lemma_gauss_id(n: int)
    requires
        id_arith_facts(),
        1 <= n <= usize::MAX,
    ensures
        gauss_spec(id_grid(n)).1 == id_grid(n),
        gauss_spec(id_grid(n)).2,
{
    lemma_id_entry_bits();
    lemma_gauss_upto_id(n, n - 1);
    assert(id_grid(n)[n - 1][n - 1] == ONE_BITS);
}

/// The eliminations above each pivot leave the identity grid
/// unchanged.
proof fn lemma_cmb_above_id(n: int, i: int, j: int)
    requires
        id_arith_facts(),
        1 <= n <= usize::MAX,
        0 <= i < n,
        0 <= j,
    ensures
        cmb_above(id_grid(n), i, j).1 == id_grid(n),
    decreases i - j,
{
    lemma_id_entry_bits();
    let id = id_grid(n);
    if j < i {
        assert(id[j][i] == POS_ZERO);
        assert(id[i][i] == ONE_BITS);
        let op = crate::mat::RowOperation::Cmb {
            src: i as usize,
            scale: Fp { bits: div_bits(id[j][i], id[i][i]) },
            dest: j as usize,
        };
        assert(cmb_row_bits(id[j], id[i], POS_ZERO) =~= id[j]) by {
            assert forall|c: int| 0 <= c < n implies cmb_row_bits(id[j], id[i], POS_ZERO)[c]
                == id[j][c] by {
                assert(mul_bits(POS_ZERO, id[i][c]) == POS_ZERO);
            }
        }
        assert(apply_bits(id, op) =~~= id);
        lemma_cmb_above_id(n, i, j + 1);
    }
}

/// The back-elimination passes leave the identity grid unchanged.
proof fn lemma_red_from_id(n: int, i: int)
    requires
        id_arith_facts(),
        1 <= n <= usize::MAX,
        i < n,
    ensures
        red_from(id_grid(n), i).1 == id_grid(n),
    decreases i + 1,
{
    if i >= 0 {
        lemma_cmb_above_id(n, i, 0);
        lemma_red_from_id(n, i - 1);
    }
}

/// The scalings leave the identity grid unchanged: each scale is one
/// over a diagonal entry of one.
proof fn lemma_scale_steps_id(n: int, i: int)
    requires
        id_arith_facts(),
        1 <= n <= usize::MAX,
        0 <= i,
    ensures
        scale_steps(id_grid(n), i).1 == id_grid(n),
    decreases n - i,
{
    lemma_id_entry_bits();
    let id = id_grid(n);
    if i < n {
        assert(id[i][i] == ONE_BITS);
        let op = crate::mat::RowOperation::Scale {
            row: i as usize,
            scale: Fp { bits: div_bits(ONE_BITS, id[i][i]) },
        };
        assert(div_bits(ONE_BITS, id[i][i]) == ONE_BITS);
        assert(scale_row_bits(id[i], ONE_BITS) =~= id[i]) by {
            assert forall|c: int| 0 <= c < n implies scale_row_bits(id[i], ONE_BITS)[c] == id[i][c]
                by {
                if i == c {
                    assert(mul_bits(ONE_BITS, ONE_BITS) == ONE_BITS);
                } else {
                    assert(mul_bits(POS_ZERO, ONE_BITS) == POS_ZERO);
                }
            }
        }
        assert(apply_bits(id, op) =~~= id);
        lemma_scale_steps_id(n, i + 1);
    }
}

/// Law: the reduction strategy leaves the identity grid unchanged.
pub proof fn lemma_reduce_id(n: int)
    requires
        id_arith_facts(),
        1 <= n <= usize::MAX,
    ensures
        reduce_spec(id_grid(n)).1 == id_grid(n),
{
    lemma_red_from_id(n, n - 1);
    lemma_scale_steps_id(n, 0);
}

/// One column of the identity grid sums, in absolute value, to one
/// once the diagonal row has been passed, and to zero before.
proof fn lemma_col_abs_sum_id(n: int, c: int, k: int)
    requires
        id_arith_facts(),
        1 <= n <= usize::MAX,
        0 <= c < n,
        0 <= k <= n,
    ensures
        col_abs_sum(id_grid(n), c, k) == if k > c {
            ONE_BITS
        } else {
            POS_ZERO
        },
    decreases k,
{
    lemma_id_entry_bits();
    if k > 0 {
        lemma_col_abs_sum_id(n, c, k - 1);
    }
}

/// The running L-infinity maximum over the identity grid's columns is
/// one from the first column on.
proof fn lemma_linf_prefix_id(n: int, k: int)
    requires
        id_arith_facts(),
        1 <= n <= usize::MAX,
        0 <= k <= n,
    ensures
        linf_prefix(id_grid(n), k) == if k >= 1 {
            ONE_BITS
        } else {
            POS_ZERO
        },
    decreases k,
{
    lemma_id_entry_bits();
    if k > 0 {
        lemma_linf_prefix_id(n, k - 1);
        lemma_col_abs_sum_id(n, k - 1, n);
    }
}

/// Law: the L-infinity norm of the identity grid is exactly one.
pub proof fn lemma_linf_id(n: int)
    requires
        id_arith_facts(),
        1 <= n <= usize::MAX,
    ensures
        linf_norm_bits(id_grid(n)) == ONE_BITS,
{
    lemma_linf_prefix_id(n, n);
}

/// Law: the condition number of the identity matrix is exactly `1.0`,
/// at every size. The identity inverts to itself exactly — every
/// elimination scale is zero and every row scale is one — its
/// L-infinity norm is exactly one, and k, the product of the two
/// norms, is exactly one.
pub fn identity_condition_number(n: usize) -> (r: Fp)
    requires
        1 <= n,
    ensures
        AugmentedMat::<Gaussian, BasicReduceUpper>::spec_invert(id_grid(n as int)) == Result::<
            Seq<Seq<u64>>,
            (),
        >::Ok(id_grid(n as int)),
        linf_norm_bits(id_grid(n as int)) == ONE_BITS,
        r.bits == mul_bits(linf_norm_bits(id_grid(n as int)), linf_norm_bits(id_grid(n as int))),
        r.bits == ONE_BITS,
{
    proof {
        lemma_id_entry_bits();
    }
    // the exact results of the rounding operations on the constants in
    // play, each an ensured fact of its trusted wrapper
    let f01 = fp_div(Fp::zero(), Fp::one());
    let f11 = fp_div(Fp::one(), Fp::one());
    let m00 = fp_mul(Fp::zero(), Fp::zero());
    let m01 = fp_mul(Fp::zero(), Fp::one());
    let m11 = fp_mul(Fp::one(), Fp::one());
    let s00 = fp_sub(Fp::zero(), Fp::zero());
    let s10 = fp_sub(Fp::one(), Fp::zero());
    let a00 = fp_add(Fp::zero(), Fp::zero());
    let a01 = fp_add(Fp::zero(), Fp::one());
    let a10 = fp_add(Fp::one(), Fp::zero());
    proof {
        assert(id_arith_facts());
        lemma_gauss_id(n as int);
        lemma_reduce_id(n as int);
        Gaussian::lemma_replay(id_grid(n as int));
        BasicReduceUpper::lemma_replay(id_grid(n as int));
        lemma_linf_id(n as int);
    }
    let ident = Mat::new_i(n);
    let inv = match AugmentedMat::<Gaussian, BasicReduceUpper>::invert(ident.duplicate()) {
        Ok(i) => i,
        Err(()) => {
            proof {
                assert(false);
            }
            Mat::new_i(n)
        },
    };
    proof {
        assert(inv@ == id_grid(n as int));
    }
    ident.k::<LInf>(&inv)
}

} // verus!
