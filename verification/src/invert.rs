//! Inversion: triangularize a working copy, then reduce it to the
//! identity, replaying every emitted operation onto a companion
//! identity matrix, which then holds the inverse.
//!
//! This is algebraically Gauss-Jordan elimination on the augmented
//! matrix, without physically concatenating the two matrices. Any
//! singularity failure of either strategy propagates unchanged.

use vstd::prelude::*;
use core::marker::PhantomData;
use crate::mat::{Mat, apply_ops_bits, id_grid, lemma_apply_ops_push, op_valid, ops_valid};
use crate::reduce_upper::ReduceUpper;
use crate::upper_triangle::UpperTriangle;

verus! {

/// The inverse of a square grid by a triangularization strategy and a
/// reduction strategy: when both succeed, their operation logs are
/// replayed, in order, onto the identity grid of the same size.
pub open spec fn invert_grids<T: UpperTriangle, R: ReduceUpper>(g: Seq<Seq<u64>>) -> Result<
    Seq<Seq<u64>>,
    (),
> {
    if T::spec_ok(g) && R::spec_ok(T::spec_grid(g)) {
        Ok(
            apply_ops_bits(
                apply_ops_bits(id_grid(g.len() as int), T::spec_ops(g)),
                R::spec_ops(T::spec_grid(g)),
            ),
        )
    } else {
        Err(())
    }
}

/// A method of inverting a square matrix.
pub trait Invert {
    /// The inverse grid this method computes, or the error.
    spec fn spec_invert(g: Seq<Seq<u64>>) -> Result<Seq<Seq<u64>>, ()>;

    /// Invert the matrix, consuming it as the working copy.
    fn invert(m: Mat) -> (r: Result<Mat, ()>)
        requires
            m.wf(),
            m@.len() == m@[0].len(),
        ensures
            r is Ok <==> Self::spec_invert(m@) is Ok,
            r matches Ok(inv) ==> inv.wf() && Self::spec_invert(m@) == Result::<
                Seq<Seq<u64>>,
                (),
            >::Ok(inv@) && inv@.len() == m@.len() && inv@[0].len() == m@.len(),
    ;
}

/// Inversion by a companion identity matrix that receives every
/// operation the two strategies emit.
pub struct AugmentedMat<T: UpperTriangle, R: ReduceUpper> {
    t: PhantomData<T>,
    r: PhantomData<R>,
}

impl<T: UpperTriangle, R: ReduceUpper> Invert for AugmentedMat<T, R> {
    open spec fn spec_invert(g: Seq<Seq<u64>>) -> Result<Seq<Seq<u64>>, ()> {
        invert_grids::<T, R>(g)
    }

    fn invert(m: Mat) -> (r: Result<Mat, ()>) {
        let ghost g0 = m@;
        let rows = m.rows();
        let mut work = m;
        let mut res = Mat::new_i(rows);
        proof {
            T::lemma_replay(g0);
        }
        let t_ops = match T::run(&mut work) {
            Ok(o) => o,
            Err(()) => {
                return Err(());
            },
        };
        for k in 0..t_ops.len()
            invariant
                res.wf(),
                res@.len() == rows,
                res@[0].len() == rows,
                1 <= rows,
                rows == g0.len(),
                t_ops@ == T::spec_ops(g0),
                ops_valid(t_ops@, rows as int),
                res@ == apply_ops_bits(id_grid(rows as int), t_ops@.subrange(0, k as int)),
        {
            proof {
                assert(op_valid(t_ops@[k as int], rows as int));
            }
            res.apply(&t_ops[k]);
            proof {
                assert(t_ops@.subrange(0, k + 1 as int) =~= t_ops@.subrange(0, k as int).push(
                    t_ops@[k as int],
                ));
                lemma_apply_ops_push(
                    id_grid(rows as int),
                    t_ops@.subrange(0, k as int),
                    t_ops@[k as int],
                );
            }
        }
        proof {
            assert(t_ops@.subrange(0, t_ops@.len() as int) =~= t_ops@);
            R::lemma_replay(T::spec_grid(g0));
        }
        let ghost g1 = work@;
        let r_ops = match R::run(&mut work) {
            Ok(o) => o,
            Err(()) => {
                return Err(());
            },
        };
        let ghost base = apply_ops_bits(id_grid(rows as int), T::spec_ops(g0));
        for k in 0..r_ops.len()
            invariant
                res.wf(),
                res@.len() == rows,
                res@[0].len() == rows,
                1 <= rows,
                rows == g0.len(),
                r_ops@ == R::spec_ops(g1),
                g1 == T::spec_grid(g0),
                ops_valid(r_ops@, rows as int),
                base == apply_ops_bits(id_grid(rows as int), T::spec_ops(g0)),
                res@ == apply_ops_bits(base, r_ops@.subrange(0, k as int)),
        {
            proof {
                assert(op_valid(r_ops@[k as int], rows as int));
            }
            res.apply(&r_ops[k]);
            proof {
                assert(r_ops@.subrange(0, k + 1 as int) =~= r_ops@.subrange(0, k as int).push(
                    r_ops@[k as int],
                ));
                lemma_apply_ops_push(base, r_ops@.subrange(0, k as int), r_ops@[k as int]);
            }
        }
        proof {
            assert(r_ops@.subrange(0, r_ops@.len() as int) =~= r_ops@);
        }
        Ok(res)
    }
}

/// Every candidate row of a pivot search that sees only zero entries
/// passes the whole column by.
proof fn lemma_find_pivot_all_zero(g: Seq<Seq<u64>>, col: int, p: int)
    requires
        0 <= p <= g.len(),
        forall|r: int| p <= r < g.len() ==> crate::fp::is_zero_bits(#[trigger] g[r][col]),
    ensures
        crate::upper_triangle::find_pivot(g, col, p) == g.len(),
    decreases g.len() - p,
{
    if p < g.len() {
        lemma_find_pivot_all_zero(g, col, p + 1);
    }
}

/// Law: a square grid whose first column is exactly zero in every row
/// cannot be inverted by Gaussian elimination: the first pivot search
/// finds no nonzero entry, and the failure propagates unchanged
/// through inversion, whatever reduction strategy follows.
pub proof fn lemma_zero_pivot_column_fails<R: ReduceUpper>(g: Seq<Seq<u64>>)
    requires
        crate::mat::wf_grid(g),
        g.len() <= usize::MAX,
        g.len() == g[0].len(),
        forall|r: int| 0 <= r < g.len() ==> crate::fp::is_zero_bits(#[trigger] g[r][0]),
    ensures
        AugmentedMat::<crate::upper_triangle::Gaussian, R>::spec_invert(g) is Err,
{
    let n = g.len() as int;
    lemma_find_pivot_all_zero(g, 0, 0);
    if n == 1 {
        assert(crate::upper_triangle::gauss_upto(g, 0) == (
            Seq::<crate::mat::RowOperation>::empty(),
            g,
            true,
        ));
        assert(crate::fp::is_zero_bits(g[0][0]));
        assert(!crate::upper_triangle::gauss_spec(g).2);
    } else {
        assert(crate::upper_triangle::gauss_upto(g, 0) == (
            Seq::<crate::mat::RowOperation>::empty(),
            g,
            true,
        ));
        assert(crate::upper_triangle::find_pivot(g, 0, 0) == g.len());
        assert(crate::upper_triangle::gauss_step(g, 0) == (
            Seq::<crate::mat::RowOperation>::empty(),
            g,
            false,
        ));
        assert(!crate::upper_triangle::gauss_upto(g, 1).2);
        crate::upper_triangle::lemma_gauss_upto_fail(g, 1, n - 1);
        assert(!crate::upper_triangle::gauss_spec(g).2);
    }
}

} // verus!
