//! Solving a linear system: a strategy trait and two methods, one that
//! triangularizes while replaying each operation onto the right-hand
//! side and then back-substitutes, and one that decomposes into lower
//! and upper factors and substitutes forward, then backward.
//!
//! Substitution divides by diagonal entries without a zero check: an
//! exactly-zero divisor propagates IEEE-754 infinities or NaNs through
//! the returned vector rather than raising a typed error.

use vstd::prelude::*;
use core::marker::PhantomData;
use crate::fp::{Fp, POS_ZERO, add_bits, div_bits, fp_add, fp_div, fp_mul, fp_sub, mul_bits, sub_bits};
use crate::lu_dec::LuDec;
use crate::mat::{Mat, RowOperation, op_valid, ops_valid, seq_bits};
use crate::upper_triangle::UpperTriangle;

verus! {

/// One elementary operation applied to a right-hand-side vector, in
/// lock-step with the matrix: a swap permutes two entries, a combine
/// subtracts the scaled source entry from the destination entry, and a
/// scaling multiplies one entry.
pub open spec fn vec_apply_op(b: Seq<u64>, op: RowOperation) -> Seq<u64> {
    match op {
        RowOperation::Swap(r1, r2) => b.update(r1 as int, b[r2 as int]).update(
            r2 as int,
            b[r1 as int],
        ),
        RowOperation::Cmb { src, scale, dest } => b.update(
            dest as int,
            sub_bits(b[dest as int], mul_bits(scale.bits, b[src as int])),
        ),
        RowOperation::Scale { row, scale } => b.update(
            row as int,
            mul_bits(b[row as int], scale.bits),
        ),
    }
}

/// A sequence of elementary operations applied to a vector in order.
pub open spec fn vec_apply_ops(b: Seq<u64>, ops: Seq<RowOperation>) -> Seq<u64>
    decreases ops.len(),
{
    if ops.len() == 0 {
        b
    } else {
        vec_apply_ops(vec_apply_op(b, ops[0]), ops.subrange(1, ops.len() as int))
    }
}

/// Replaying one more operation is the replay followed by that
/// operation.
pub proof fn lemma_vec_apply_ops_push(b: Seq<u64>, ops: Seq<RowOperation>, op: RowOperation)
    ensures
        vec_apply_ops(b, ops.push(op)) == vec_apply_op(vec_apply_ops(b, ops), op),
    decreases ops.len(),
{
    let snoc = ops.push(op);
    assert(snoc.len() == ops.len() + 1);
    if ops.len() == 0 {
        assert(snoc[0] == op);
        assert(snoc.subrange(1, snoc.len() as int) =~= Seq::<RowOperation>::empty());
        assert(vec_apply_ops(b, snoc) == vec_apply_ops(
            vec_apply_op(b, op),
            snoc.subrange(1, snoc.len() as int),
        ));
        assert(vec_apply_ops(vec_apply_op(b, op), Seq::<RowOperation>::empty()) == vec_apply_op(
            b,
            op,
        ));
    } else {
        assert(snoc[0] == ops[0]);
        assert(snoc.subrange(1, snoc.len() as int) =~= ops.subrange(1, ops.len() as int).push(op));
        lemma_vec_apply_ops_push(vec_apply_op(b, ops[0]), ops.subrange(1, ops.len() as int), op);
        assert(vec_apply_ops(b, snoc) == vec_apply_ops(
            vec_apply_op(b, ops[0]),
            snoc.subrange(1, snoc.len() as int),
        ));
        assert(vec_apply_ops(b, ops) == vec_apply_ops(
            vec_apply_op(b, ops[0]),
            ops.subrange(1, ops.len() as int),
        ));
    }
}

/// Apply one elementary operation to a right-hand-side vector in
/// place.
pub fn apply_vec(b: &mut Vec<Fp>, op: &RowOperation)
    requires
        op_valid(*op, old(b)@.len() as int),
    ensures
        final(b)@.len() == old(b)@.len(),
        seq_bits(final(b)@) == vec_apply_op(seq_bits(old(b)@), *op),
{
    match *op {
        RowOperation::Swap(r1, r2) => {
            let t1 = b[r1];
            let t2 = b[r2];
            b[r1] = t2;
            b[r2] = t1;
        },
        RowOperation::Cmb { src, scale, dest } => {
            let v = fp_sub(b[dest], fp_mul(scale, b[src]));
            b[dest] = v;
        },
        RowOperation::Scale { row, scale } => {
            let v = fp_mul(b[row], scale);
            b[row] = v;
        },
    }
    proof {
        assert(seq_bits(b@) =~= vec_apply_op(seq_bits(old(b)@), *op));
    }
}

/// Left fold, from `+0.0`, of the products of a row's entries with a
/// vector's entries over the index range `from..to`, the row's entry
/// standing first in each product.
pub open spec fn sum_prods(row: Seq<u64>, x: Seq<u64>, from: int, to: int) -> u64
    decreases to - from,
{
    if from >= to {
        POS_ZERO
    } else {
        add_bits(sum_prods(row, x, from, to - 1), mul_bits(row[to - 1], x[to - 1]))
    }
}

/// Back substitution from row i downward: the entries at positions i
/// and beyond hold solved values, while the entries before i are still
/// the zero fill.
pub open spec fn back_sub_from(g: Seq<Seq<u64>>, b: Seq<u64>, i: int) -> Seq<u64>
    decreases g.len() - i,
{
    if i < 0 || i >= g.len() {
        Seq::new(g.len(), |k: int| POS_ZERO)
    } else {
        let rest = back_sub_from(g, b, i + 1);
        rest.update(
            i,
            div_bits(sub_bits(b[i], sum_prods(g[i], rest, i + 1, g.len() as int)), g[i][i]),
        )
    }
}

/// Back substitution over a whole upper-triangular system: from the
/// last row upward, each unknown is the right-hand side minus the
/// already-solved tail, divided by the diagonal entry.
pub open spec fn back_sub_bits(g: Seq<Seq<u64>>, b: Seq<u64>) -> Seq<u64> {
    back_sub_from(g, b, 0)
}

/// Forward substitution for the first i rows of a lower-triangular
/// system, in ascending order; the first unknown is divided directly,
/// without the subtraction of an empty sum.
pub open spec fn forward_sub_upto(l: Seq<Seq<u64>>, b: Seq<u64>, i: int) -> Seq<u64>
    decreases i,
{
    if i <= 0 {
        Seq::new(l.len(), |k: int| POS_ZERO)
    } else {
        let prev = forward_sub_upto(l, b, i - 1);
        let v = if i - 1 == 0 {
            div_bits(b[0], l[0][0])
        } else {
            div_bits(sub_bits(b[i - 1], sum_prods(l[i - 1], prev, 0, i - 1)), l[i - 1][i - 1])
        };
        prev.update(i - 1, v)
    }
}

/// Forward substitution over a whole lower-triangular system.
pub open spec fn forward_sub_bits(l: Seq<Seq<u64>>, b: Seq<u64>) -> Seq<u64> {
    forward_sub_upto(l, b, l.len() as int)
}

/// Back-substitute an upper-triangular system in place of the zero
/// fill, from the last row upward.
fn back_substitute(m: &Mat, b: &Vec<Fp>) -> (r: Vec<Fp>)
    requires
        m.wf(),
        m@.len() == m@[0].len(),
        b@.len() == m@.len(),
    ensures
        seq_bits(r@) == back_sub_bits(m@, seq_bits(b@)),
        r@.len() == m@.len(),
{
    let rows = m.rows();
    let mut res: Vec<Fp> = Vec::new();
    for t in 0..rows
        invariant
            res@.len() == t,
            forall|k: int| 0 <= k < t ==> (#[trigger] res@[k]).bits == POS_ZERO,
    {
        res.push(Fp::zero());
    }
    proof {
        assert(seq_bits(res@) =~= Seq::new(m@.len(), |k: int| POS_ZERO));
    }
    let mut ii = rows;
    while ii > 0
        invariant
            m.wf(),
            m@.len() == rows,
            m@[0].len() == rows,
            b@.len() == rows,
            1 <= rows,
            ii <= rows,
            res@.len() == rows,
            seq_bits(res@) == back_sub_from(m@, seq_bits(b@), ii as int),
        decreases ii,
    {
        let i = ii - 1;
        let ghost tail = seq_bits(res@);
        let mut acc = Fp::zero();
        let mut j = i + 1;
        while j < rows
            invariant
                m.wf(),
                m@.len() == rows,
                m@[0].len() == rows,
                i < rows,
                i + 1 <= j <= rows,
                res@.len() == rows,
                seq_bits(res@) == tail,
                acc.bits == sum_prods(m@[i as int], tail, i + 1 as int, j as int),
            decreases rows - j,
        {
            acc = fp_add(acc, fp_mul(m.get(i, j), res[j]));
            j += 1;
        }
        let v = fp_div(fp_sub(b[i], acc), m.get(i, i));
        res[i] = v;
        proof {
            assert(seq_bits(res@) =~= tail.update(
                i as int,
                div_bits(
                    sub_bits(seq_bits(b@)[i as int], sum_prods(m@[i as int], tail, i + 1 as int, rows as int)),
                    m@[i as int][i as int],
                ),
            ));
            assert(seq_bits(res@) == back_sub_from(m@, seq_bits(b@), i as int));
        }
        ii = i;
    }
    res
}

/// A method of solving the square linear system m times x equals b.
pub trait MatEqnSolver {
    /// Whether solving succeeds on this grid and right-hand side.
    spec fn spec_ok(g: Seq<Seq<u64>>, b: Seq<u64>) -> bool;

    /// The solution vector.
    spec fn spec_x(g: Seq<Seq<u64>>, b: Seq<u64>) -> Seq<u64>;

    /// Solve the system, consuming the matrix and the right-hand side
    /// as working copies.
    fn solve(m: Mat, b: Vec<Fp>) -> (r: Result<Vec<Fp>, ()>)
        requires
            m.wf(),
            m@.len() == m@[0].len(),
            b@.len() == m@.len(),
        ensures
            r is Ok <==> Self::spec_ok(m@, seq_bits(b@)),
            r matches Ok(x) ==> seq_bits(x@) == Self::spec_x(m@, seq_bits(b@)) && x@.len()
                == m@.len(),
    ;
}

/// Triangularize, replaying every emitted operation onto the
/// right-hand side in lock-step, then back-substitute.
pub struct ReverseSub<T: UpperTriangle> {
    t: PhantomData<T>,
}

impl<T: UpperTriangle> MatEqnSolver for ReverseSub<T> {
    open spec fn spec_ok(g: Seq<Seq<u64>>, b: Seq<u64>) -> bool {
        T::spec_ok(g)
    }

    open spec fn spec_x(g: Seq<Seq<u64>>, b: Seq<u64>) -> Seq<u64> {
        back_sub_bits(T::spec_grid(g), vec_apply_ops(b, T::spec_ops(g)))
    }

    fn solve(m: Mat, b: Vec<Fp>) -> (r: Result<Vec<Fp>, ()>) {
        let ghost g0 = m@;
        let ghost b0 = seq_bits(b@);
        let rows = m.rows();
        let mut work = m;
        let mut rhs = b;
        proof {
            T::lemma_replay(g0);
        }
        let ops = match T::run(&mut work) {
            Ok(o) => o,
            Err(()) => {
                return Err(());
            },
        };
        for k in 0..ops.len()
            invariant
                rhs@.len() == rows,
                rows == g0.len(),
                1 <= rows,
                ops@ == T::spec_ops(g0),
                ops_valid(ops@, rows as int),
                seq_bits(rhs@) == vec_apply_ops(b0, ops@.subrange(0, k as int)),
        {
            proof {
                assert(op_valid(ops@[k as int], rows as int));
            }
            apply_vec(&mut rhs, &ops[k]);
            proof {
                assert(ops@.subrange(0, k + 1 as int) =~= ops@.subrange(0, k as int).push(
                    ops@[k as int],
                ));
                lemma_vec_apply_ops_push(b0, ops@.subrange(0, k as int), ops@[k as int]);
            }
        }
        proof {
            assert(ops@.subrange(0, ops@.len() as int) =~= ops@);
        }
        let x = back_substitute(&work, &rhs);
        Ok(x)
    }
}

/// Decompose into lower and upper factors, then substitute forward
/// through the lower factor and backward through the upper one.
pub struct LuDecompSolver<D: LuDec> {
    d: PhantomData<D>,
}

impl<D: LuDec> MatEqnSolver for LuDecompSolver<D> {
    open spec fn spec_ok(g: Seq<Seq<u64>>, b: Seq<u64>) -> bool {
        D::spec_ok(g)
    }

    open spec fn spec_x(g: Seq<Seq<u64>>, b: Seq<u64>) -> Seq<u64> {
        back_sub_bits(D::spec_u(g), forward_sub_bits(D::spec_l(g), b))
    }

    fn solve(m: Mat, b: Vec<Fp>) -> (r: Result<Vec<Fp>, ()>) {
        let ghost g0 = m@;
        let ghost b0 = seq_bits(b@);
        let rows = m.rows();
        let lu = match D::dec(m) {
            Ok(p) => p,
            Err(()) => {
                return Err(());
            },
        };
        let (l, u) = lu;
        let mut y: Vec<Fp> = Vec::new();
        for t in 0..rows
            invariant
                y@.len() == t,
                forall|k: int| 0 <= k < t ==> (#[trigger] y@[k]).bits == POS_ZERO,
        {
            y.push(Fp::zero());
        }
        proof {
            assert(seq_bits(y@) =~= Seq::new(l@.len(), |k: int| POS_ZERO));
        }
        let mut i: usize = 0;
        while i < rows
            invariant
                l.wf(),
                l@.len() == rows,
                l@[0].len() == rows,
                b@.len() == rows,
                1 <= rows,
                i <= rows,
                y@.len() == rows,
                b0 == seq_bits(b@),
                seq_bits(y@) == forward_sub_upto(l@, b0, i as int),
            decreases rows - i,
        {
            let ghost prev = seq_bits(y@);
            let v = if i == 0 {
                fp_div(b[0], l.get(0, 0))
            } else {
                let mut acc = Fp::zero();
                let mut j: usize = 0;
                while j < i
                    invariant
                        l.wf(),
                        l@.len() == rows,
                        l@[0].len() == rows,
                        b@.len() == rows,
                        i < rows,
                        j <= i,
                        y@.len() == rows,
                        seq_bits(y@) == prev,
                        acc.bits == sum_prods(l@[i as int], prev, 0, j as int),
                    decreases i - j,
                {
                    acc = fp_add(acc, fp_mul(l.get(i, j), y[j]));
                    j += 1;
                }
                fp_div(fp_sub(b[i], acc), l.get(i, i))
            };
            y[i] = v;
            proof {
                assert(seq_bits(y@) =~= prev.update(i as int, v.bits));
                assert(seq_bits(y@) == forward_sub_upto(l@, b0, i + 1 as int));
            }
            i += 1;
        }
        let x = back_substitute(&u, &y);
        Ok(x)
    }
}

} // verus!
