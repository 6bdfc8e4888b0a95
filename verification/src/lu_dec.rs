//! LU decomposition by the Doolittle scheme: run a triangularization
//! strategy on the working copy, and capture every emitted combine's
//! scale into a lower-triangular factor.
//!
//! Emitted swap and scale operations are not applied to the lower
//! factor: they are ignored, so the factorization reconstructs the
//! input only when the strategy performs combine eliminations alone.
//! A swap-requiring input silently yields a lower factor that does not
//! reconstruct it; that is this decomposition's documented limitation.

use vstd::prelude::*;
use core::marker::PhantomData;
use crate::fp::{ONE_BITS, POS_ZERO};
use crate::mat::{Mat, RowOperation, id_grid, op_valid, ops_valid, wf_grid};
use crate::upper_triangle::{UpperTriangle, Gaussian, cmb_below, gauss_spec, gauss_step, gauss_upto};

verus! {

/// One operation folded into the lower factor: a combine writes its
/// scale at (destination, source); swaps and scalings change nothing.
pub open spec fn l_step(l: Seq<Seq<u64>>, op: RowOperation) -> Seq<Seq<u64>> {
    match op {
        RowOperation::Cmb { src, scale, dest } => l.update(
            dest as int,
            l[dest as int].update(src as int, scale.bits),
        ),
        _ => l,
    }
}

/// The whole operation log folded into the lower factor, in order.
pub open spec fn l_capture(l: Seq<Seq<u64>>, ops: Seq<RowOperation>) -> Seq<Seq<u64>>
    decreases ops.len(),
{
    if ops.len() == 0 {
        l
    } else {
        l_capture(l_step(l, ops[0]), ops.subrange(1, ops.len() as int))
    }
}

/// Capturing one more operation is capturing the log, then that
/// operation.
pub proof fn lemma_l_capture_push(l: Seq<Seq<u64>>, ops: Seq<RowOperation>, op: RowOperation)
    ensures
        l_capture(l, ops.push(op)) == l_step(l_capture(l, ops), op),
    decreases ops.len(),
{
    let snoc = ops.push(op);
    assert(snoc.len() == ops.len() + 1);
    if ops.len() == 0 {
        assert(snoc[0] == op);
        assert(snoc.subrange(1, snoc.len() as int) =~= Seq::<RowOperation>::empty());
        assert(l_capture(l, snoc) == l_capture(
            l_step(l, op),
            snoc.subrange(1, snoc.len() as int),
        ));
        assert(l_capture(l_step(l, op), Seq::<RowOperation>::empty()) == l_step(l, op));
        assert(l_capture(l, ops) == l);
    } else {
        assert(snoc[0] == ops[0]);
        assert(snoc.subrange(1, snoc.len() as int) =~= ops.subrange(1, ops.len() as int).push(op));
        lemma_l_capture_push(l_step(l, ops[0]), ops.subrange(1, ops.len() as int), op);
        assert(l_capture(l, snoc) == l_capture(
            l_step(l, ops[0]),
            snoc.subrange(1, snoc.len() as int),
        ));
        assert(l_capture(l, ops) == l_capture(
            l_step(l, ops[0]),
            ops.subrange(1, ops.len() as int),
        ));
    }
}

/// A method of decomposing a square matrix into lower and upper
/// factors.
pub trait LuDec {
    /// The lower factor.
    spec fn spec_l(g: Seq<Seq<u64>>) -> Seq<Seq<u64>>;

    /// The upper factor.
    spec fn spec_u(g: Seq<Seq<u64>>) -> Seq<Seq<u64>>;

    /// Whether decomposition succeeds.
    spec fn spec_ok(g: Seq<Seq<u64>>) -> bool;

    /// Decompose the matrix, consuming it as the working copy of the
    /// upper factor.
    fn dec(m: Mat) -> (r: Result<(Mat, Mat), ()>)
        requires
            m.wf(),
            m@.len() == m@[0].len(),
        ensures
            r is Ok <==> Self::spec_ok(m@),
            r matches Ok(lu) ==> lu.0.wf() && lu.1.wf() && lu.0@ == Self::spec_l(m@) && lu.1@
                == Self::spec_u(m@) && lu.0@.len() == m@.len() && lu.0@[0].len() == m@.len()
                && lu.1@.len() == m@.len() && lu.1@[0].len() == m@.len(),
    ;
}

/// The Doolittle algorithm over a pluggable triangularization
/// strategy.
pub struct Doolittle<T: UpperTriangle> {
    t: PhantomData<T>,
}

impl<T: UpperTriangle> LuDec for Doolittle<T> {
    open spec fn spec_l(g: Seq<Seq<u64>>) -> Seq<Seq<u64>> {
        l_capture(id_grid(g.len() as int), T::spec_ops(g))
    }

    open spec fn spec_u(g: Seq<Seq<u64>>) -> Seq<Seq<u64>> {
        T::spec_grid(g)
    }

    open spec fn spec_ok(g: Seq<Seq<u64>>) -> bool {
        T::spec_ok(g)
    }

    fn dec(m: Mat) -> (r: Result<(Mat, Mat), ()>) {
        let ghost g0 = m@;
        let rows = m.rows();
        let mut u = m;
        let mut l = Mat::new_i(rows);
        proof {
            T::lemma_replay(g0);
        }
        let ops = match T::run(&mut u) {
            Ok(o) => o,
            Err(()) => {
                return Err(());
            },
        };
        for k in 0..ops.len()
            invariant
                l.wf(),
                l@.len() == rows,
                l@[0].len() == rows,
                1 <= rows,
                rows == g0.len(),
                ops@ == T::spec_ops(g0),
                ops_valid(ops@, rows as int),
                l@ == l_capture(id_grid(rows as int), ops@.subrange(0, k as int)),
        {
            proof {
                assert(op_valid(ops@[k as int], rows as int));
            }
            let op = ops[k];
            match op {
                RowOperation::Cmb { src, scale, dest } => {
                    l.set(dest, src, scale);
                },
                RowOperation::Swap(..) => {},
                RowOperation::Scale { .. } => {},
            }
            proof {
                assert(ops@.subrange(0, k + 1 as int) =~= ops@.subrange(0, k as int).push(
                    ops@[k as int],
                ));
                let opk = ops@[k as int];
                lemma_l_capture_push(id_grid(rows as int), ops@.subrange(0, k as int), opk);
            }
        }
        proof {
            assert(ops@.subrange(0, ops@.len() as int) =~= ops@);
        }
        Ok((l, u))
    }
}

/// Every combine in a log writes strictly below the diagonal: its
/// source row index is less than its destination row index.
pub open spec fn cmbs_strictly_lower(ops: Seq<RowOperation>) -> bool {
    forall|k: int| 0 <= k < ops.len() ==> ((#[trigger] ops[k]) matches RowOperation::Cmb {
        src,
        dest,
        ..
    } ==> src < dest)
}

/// A grid is unit lower-triangular when its diagonal is exactly one
/// and everything above the diagonal is exactly zero.
pub open spec fn unit_lower_triangular(l: Seq<Seq<u64>>) -> bool {
    &&& forall|i: int| 0 <= i < l.len() ==> #[trigger] l[i][i] == ONE_BITS
    &&& forall|i: int, j: int| 0 <= i < l.len() && i < j < l[i].len() ==> #[trigger] l[i][j]
        == POS_ZERO
}

/// Capturing a log whose combines all write strictly below the
/// diagonal keeps a unit lower-triangular factor unit
/// lower-triangular.
pub proof fn lemma_l_capture_lower(l: Seq<Seq<u64>>, ops: Seq<RowOperation>)
    requires
        wf_grid(l),
        l.len() == l[0].len(),
        ops_valid(ops, l.len() as int),
        unit_lower_triangular(l),
        cmbs_strictly_lower(ops),
    ensures
        unit_lower_triangular(l_capture(l, ops)),
        wf_grid(l_capture(l, ops)),
        l_capture(l, ops).len() == l.len(),
        l_capture(l, ops)[0].len() == l[0].len(),
    decreases ops.len(),
{
    if ops.len() > 0 {
        assert(op_valid(ops[0], l.len() as int));
        assert(ops[0] matches RowOperation::Cmb { src, dest, .. } ==> src < dest);
        let l1 = l_step(l, ops[0]);
        assert(wf_grid(l1) && l1.len() == l.len() && l1[0].len() == l[0].len()) by {
            match ops[0] {
                RowOperation::Cmb { src, scale, dest } => {
                    assert forall|r: int| 0 <= r < l1.len() implies (#[trigger] l1[r]).len()
                        == l[0].len() by {}
                },
                _ => {},
            }
        }
        assert(unit_lower_triangular(l1));
        assert(ops_valid(ops.subrange(1, ops.len() as int), l.len() as int)) by {
            assert forall|k: int| 0 <= k < ops.len() - 1 implies op_valid(
                #[trigger] ops.subrange(1, ops.len() as int)[k],
                l.len() as int,
            ) by {
                assert(ops.subrange(1, ops.len() as int)[k] == ops[k + 1]);
            }
        }
        assert(cmbs_strictly_lower(ops.subrange(1, ops.len() as int))) by {
            assert forall|k: int| 0 <= k < ops.len() - 1 implies ((#[trigger] ops.subrange(
                1,
                ops.len() as int,
            )[k]) matches RowOperation::Cmb { src, dest, .. } ==> src < dest) by {
                assert(ops.subrange(1, ops.len() as int)[k] == ops[k + 1]);
            }
        }
        lemma_l_capture_lower(l1, ops.subrange(1, ops.len() as int));
    }
}

/// Gaussian combine-below steps write strictly below the diagonal.
proof fn lemma_cmb_below_lower(g: Seq<Seq<u64>>, i: int, j: int)
    requires
        g.len() <= usize::MAX,
        0 <= i,
        i < j,
    ensures
        cmbs_strictly_lower(cmb_below(g, i, j).0),
    decreases g.len() - j,
{
    if 0 <= j < g.len() {
        let op = RowOperation::Cmb {
            src: i as usize,
            scale: crate::fp::Fp { bits: crate::fp::div_bits(g[j][i], g[i][i]) },
            dest: j as usize,
        };
        let g1 = crate::mat::apply_bits(g, op);
        lemma_cmb_below_lower(g1, i, j + 1);
        let rest = cmb_below(g1, i, j + 1);
        assert forall|k: int| 0 <= k < (seq![op] + rest.0).len() implies ((#[trigger] (seq![op]
            + rest.0)[k]) matches RowOperation::Cmb { src, dest, .. } ==> src < dest) by {
            if k > 0 {
                assert((seq![op] + rest.0)[k] == rest.0[k - 1]);
            }
        }
    }
}

/// Every Gaussian pivot step's combines write strictly below the
/// diagonal.
proof fn lemma_gauss_step_lower(g: Seq<Seq<u64>>, i: int)
    requires
        g.len() <= usize::MAX,
        0 <= i < g.len(),
    ensures
        cmbs_strictly_lower(gauss_step(g, i).0),
{
    crate::upper_triangle::lemma_find_pivot_bounds(g, i, i);
    let p = crate::upper_triangle::find_pivot(g, i, i);
    if p == g.len() {
    } else if p != i {
        let op = RowOperation::Swap(i as usize, p as usize);
        let g1 = crate::mat::apply_bits(g, op);
        assert(g1.len() == g.len());
        lemma_cmb_below_lower(g1, i, i + 1);
        let rest = cmb_below(g1, i, i + 1);
        assert forall|k: int| 0 <= k < (seq![op] + rest.0).len() implies ((#[trigger] (seq![op]
            + rest.0)[k]) matches RowOperation::Cmb { src, dest, .. } ==> src < dest) by {
            if k > 0 {
                assert((seq![op] + rest.0)[k] == rest.0[k - 1]);
            }
        }
    } else {
        lemma_cmb_below_lower(g, i, i + 1);
    }
}

/// Every combine Gaussian triangularization emits writes strictly
/// below the diagonal.
proof fn lemma_gauss_upto_lower(g: Seq<Seq<u64>>, i: int)
    requires
        wf_grid(g),
        g.len() <= usize::MAX,
        g.len() == g[0].len(),
        0 <= i < g.len(),
    ensures
        cmbs_strictly_lower(gauss_upto(g, i).0),
    decreases i,
{
    if i <= 0 {
    } else {
        lemma_gauss_upto_lower(g, i - 1);
        let prev = gauss_upto(g, i - 1);
        if prev.2 {
            crate::upper_triangle::lemma_gauss_upto_props(g, i - 1);
            lemma_gauss_step_lower(prev.1, i - 1);
            let step = gauss_step(prev.1, i - 1);
            assert forall|k: int| 0 <= k < (prev.0 + step.0).len() implies ((#[trigger] (prev.0
                + step.0)[k]) matches RowOperation::Cmb { src, dest, .. } ==> src < dest) by {
                if k < prev.0.len() {
                    assert((prev.0 + step.0)[k] == prev.0[k]);
                } else {
                    assert((prev.0 + step.0)[k] == step.0[k - prev.0.len()]);
                }
            }
        }
    }
}

/// Law: the lower factor of a Doolittle decomposition over Gaussian
/// elimination is unit lower-triangular — ones on its diagonal, zeros
/// above it — whatever square grid is decomposed.
pub proof fn lemma_doolittle_l_unit_lower_triangular(g: Seq<Seq<u64>>)
    requires
        wf_grid(g),
        g.len() <= usize::MAX,
        g.len() == g[0].len(),
    ensures
        unit_lower_triangular(Doolittle::<Gaussian>::spec_l(g)),
        Doolittle::<Gaussian>::spec_l(g).len() == g.len(),
{
    let n = g.len() as int;
    let id = id_grid(n);
    assert(unit_lower_triangular(id));
    assert(wf_grid(id) && id.len() == n && id[0].len() == n);
    if n > 1 {
        lemma_gauss_upto_lower(g, n - 1);
    }
    assert(Gaussian::spec_ops(g) == gauss_spec(g).0);
    assert(gauss_spec(g).0 == gauss_upto(g, n - 1).0);
    Gaussian::lemma_replay(g);
    lemma_l_capture_lower(id, Gaussian::spec_ops(g));
}

} // verus!
