//! Reduction to the identity: a strategy trait and the basic
//! back-elimination procedure for a square, already upper-triangular
//! matrix.
//!
//! From the last row upward, entries above each diagonal entry are
//! eliminated by combine operations; afterwards every row is scaled by
//! the reciprocal of its diagonal entry, in ascending row order. The
//! emitted operations, replayed onto a companion structure, complete
//! what inversion needs.

use vstd::prelude::*;
use crate::fp::{Fp, ONE_BITS, div_bits, fp_div};
use crate::mat::{
    Mat, RowOperation, apply_bits, apply_ops_bits, lemma_apply_ops_concat, lemma_apply_ops_one,
    lemma_apply_shape, op_valid, ops_valid, wf_grid,
};

verus! {

/// The combine steps above one pivot row: for each row j before the
/// pivot, in ascending order, the scale is the current entry over the
/// diagonal entry, and the scaled pivot row is subtracted from row j.
pub open spec fn cmb_above(g: Seq<Seq<u64>>, i: int, j: int) -> (Seq<RowOperation>, Seq<Seq<u64>>)
    decreases i - j,
{
    if j < 0 || j >= i {
        (Seq::<RowOperation>::empty(), g)
    } else {
        let op = RowOperation::Cmb {
            src: i as usize,
            scale: Fp { bits: div_bits(g[j][i], g[i][i]) },
            dest: j as usize,
        };
        let rest = cmb_above(apply_bits(g, op), i, j + 1);
        (seq![op] + rest.0, rest.1)
    }
}

/// The elimination passes for pivots i, i - 1, ..., 0, in that order.
pub open spec fn red_from(g: Seq<Seq<u64>>, i: int) -> (Seq<RowOperation>, Seq<Seq<u64>>)
    decreases i + 1,
{
    if i < 0 {
        (Seq::<RowOperation>::empty(), g)
    } else {
        let step = cmb_above(g, i, 0);
        let rest = red_from(step.1, i - 1);
        (step.0 + rest.0, rest.1)
    }
}

/// The scaling steps from row i upward in index order: each row is
/// multiplied by one over its current diagonal entry.
pub open spec fn scale_steps(g: Seq<Seq<u64>>, i: int) -> (Seq<RowOperation>, Seq<Seq<u64>>)
    decreases g.len() - i,
{
    if i < 0 || i >= g.len() {
        (Seq::<RowOperation>::empty(), g)
    } else {
        let op = RowOperation::Scale {
            row: i as usize,
            scale: Fp { bits: div_bits(ONE_BITS, g[i][i]) },
        };
        let rest = scale_steps(apply_bits(g, op), i + 1);
        (seq![op] + rest.0, rest.1)
    }
}

/// The whole reduction: eliminate above every diagonal entry from the
/// last row upward, then scale every row.
pub open spec fn reduce_spec(g: Seq<Seq<u64>>) -> (Seq<RowOperation>, Seq<Seq<u64>>) {
    let a = red_from(g, g.len() as int - 1);
    let b = scale_steps(a.1, 0);
    (a.0 + b.0, b.1)
}

/// The combine steps above a pivot emit valid operations, keep the
/// grid's shape, and replay to the grid they produce.
pub proof fn lemma_cmb_above_props(g: Seq<Seq<u64>>, i: int, j: int)
    requires
        wf_grid(g),
        g.len() <= usize::MAX,
        0 <= i < g.len(),
        0 <= j,
    ensures
        ops_valid(cmb_above(g, i, j).0, g.len() as int),
        wf_grid(cmb_above(g, i, j).1),
        cmb_above(g, i, j).1.len() == g.len(),
        cmb_above(g, i, j).1[0].len() == g[0].len(),
        apply_ops_bits(g, cmb_above(g, i, j).0) == cmb_above(g, i, j).1,
    decreases i - j,
{
    if j >= i {
        assert(apply_ops_bits(g, Seq::<RowOperation>::empty()) == g);
    } else {
        let op = RowOperation::Cmb {
            src: i as usize,
            scale: Fp { bits: div_bits(g[j][i], g[i][i]) },
            dest: j as usize,
        };
        assert(op_valid(op, g.len() as int));
        lemma_apply_shape(g, op);
        let g1 = apply_bits(g, op);
        lemma_cmb_above_props(g1, i, j + 1);
        let rest = cmb_above(g1, i, j + 1);
        assert forall|k: int| 0 <= k < (seq![op] + rest.0).len() implies op_valid(
            #[trigger] (seq![op] + rest.0)[k],
            g.len() as int,
        ) by {
            if k > 0 {
                assert((seq![op] + rest.0)[k] == rest.0[k - 1]);
            }
        }
        lemma_apply_ops_concat(g, seq![op], rest.0);
        lemma_apply_ops_one(g, op);
    }
}

/// The elimination passes emit valid operations, keep the grid's
/// shape, and replay to the grid they produce.
pub proof fn lemma_red_from_props(g: Seq<Seq<u64>>, i: int)
    requires
        wf_grid(g),
        g.len() <= usize::MAX,
        i < g.len(),
    ensures
        ops_valid(red_from(g, i).0, g.len() as int),
        wf_grid(red_from(g, i).1),
        red_from(g, i).1.len() == g.len(),
        red_from(g, i).1[0].len() == g[0].len(),
        apply_ops_bits(g, red_from(g, i).0) == red_from(g, i).1,
    decreases i + 1,
{
    if i < 0 {
        assert(apply_ops_bits(g, Seq::<RowOperation>::empty()) == g);
    } else {
        lemma_cmb_above_props(g, i, 0);
        let step = cmb_above(g, i, 0);
        lemma_red_from_props(step.1, i - 1);
        let rest = red_from(step.1, i - 1);
        assert forall|k: int| 0 <= k < (step.0 + rest.0).len() implies op_valid(
            #[trigger] (step.0 + rest.0)[k],
            g.len() as int,
        ) by {
            if k < step.0.len() {
                assert((step.0 + rest.0)[k] == step.0[k]);
            } else {
                assert((step.0 + rest.0)[k] == rest.0[k - step.0.len()]);
            }
        }
        lemma_apply_ops_concat(g, step.0, rest.0);
    }
}

/// The scaling steps emit valid operations, keep the grid's shape, and
/// replay to the grid they produce.
pub proof fn lemma_scale_steps_props(g: Seq<Seq<u64>>, i: int)
    requires
        wf_grid(g),
        g.len() <= usize::MAX,
        0 <= i,
    ensures
        ops_valid(scale_steps(g, i).0, g.len() as int),
        wf_grid(scale_steps(g, i).1),
        scale_steps(g, i).1.len() == g.len(),
        scale_steps(g, i).1[0].len() == g[0].len(),
        apply_ops_bits(g, scale_steps(g, i).0) == scale_steps(g, i).1,
    decreases g.len() - i,
{
    if i >= g.len() {
        assert(apply_ops_bits(g, Seq::<RowOperation>::empty()) == g);
    } else {
        let op = RowOperation::Scale {
            row: i as usize,
            scale: Fp { bits: div_bits(ONE_BITS, g[i][i]) },
        };
        assert(op_valid(op, g.len() as int));
        lemma_apply_shape(g, op);
        let g1 = apply_bits(g, op);
        lemma_scale_steps_props(g1, i + 1);
        let rest = scale_steps(g1, i + 1);
        assert forall|k: int| 0 <= k < (seq![op] + rest.0).len() implies op_valid(
            #[trigger] (seq![op] + rest.0)[k],
            g.len() as int,
        ) by {
            if k > 0 {
                assert((seq![op] + rest.0)[k] == rest.0[k - 1]);
            }
        }
        lemma_apply_ops_concat(g, seq![op], rest.0);
        lemma_apply_ops_one(g, op);
    }
}

/// A strategy that normalizes a square, already upper-triangular
/// matrix to the identity, emitting the operations it performs.
pub trait ReduceUpper {
    /// The ordered log of operations the strategy emits on this grid.
    spec fn spec_ops(g: Seq<Seq<u64>>) -> Seq<RowOperation>;

    /// The grid the strategy leaves behind.
    spec fn spec_grid(g: Seq<Seq<u64>>) -> Seq<Seq<u64>>;

    /// Whether the strategy succeeds on this grid.
    spec fn spec_ok(g: Seq<Seq<u64>>) -> bool;

    /// The emitted operations are valid for the grid's row count, and
    /// replaying them on the input grid gives the final grid.
    proof fn lemma_replay(g: Seq<Seq<u64>>)
        requires
            wf_grid(g),
            g.len() <= usize::MAX,
            g.len() == g[0].len(),
        ensures
            ops_valid(Self::spec_ops(g), g.len() as int),
            apply_ops_bits(g, Self::spec_ops(g)) == Self::spec_grid(g),
            wf_grid(Self::spec_grid(g)),
            Self::spec_grid(g).len() == g.len(),
            Self::spec_grid(g)[0].len() == g[0].len(),
    ;

    /// Reduce the matrix in place, returning the ordered operation
    /// log, or an error.
    fn run(m: &mut Mat) -> (r: Result<Vec<RowOperation>, ()>)
        requires
            old(m).wf(),
            old(m)@.len() == old(m)@[0].len(),
        ensures
            final(m).wf(),
            final(m)@ == Self::spec_grid(old(m)@),
            r is Ok <==> Self::spec_ok(old(m)@),
            r matches Ok(ops) ==> ops@ == Self::spec_ops(old(m)@),
    ;
}

/// The basic reduction: back-elimination, then row scaling.
pub struct BasicReduceUpper;

impl ReduceUpper for BasicReduceUpper {
    open spec fn spec_ops(g: Seq<Seq<u64>>) -> Seq<RowOperation> {
        reduce_spec(g).0
    }

    open spec fn spec_grid(g: Seq<Seq<u64>>) -> Seq<Seq<u64>> {
        reduce_spec(g).1
    }

    open spec fn spec_ok(g: Seq<Seq<u64>>) -> bool {
        true
    }

    proof fn lemma_replay(g: Seq<Seq<u64>>) {
        lemma_red_from_props(g, g.len() as int - 1);
        let a = red_from(g, g.len() as int - 1);
        lemma_scale_steps_props(a.1, 0);
        let b = scale_steps(a.1, 0);
        assert forall|k: int| 0 <= k < (a.0 + b.0).len() implies op_valid(
            #[trigger] (a.0 + b.0)[k],
            g.len() as int,
        ) by {
            if k < a.0.len() {
                assert((a.0 + b.0)[k] == a.0[k]);
            } else {
                assert((a.0 + b.0)[k] == b.0[k - a.0.len()]);
            }
        }
        lemma_apply_ops_concat(g, a.0, b.0);
    }

    fn run(m: &mut Mat) -> (r: Result<Vec<RowOperation>, ()>) {
        let ghost g_init = m@;
        let rows = m.rows();
        let mut ops: Vec<RowOperation> = Vec::new();
        let mut ii = rows;
        while ii > 0
            invariant
                m.wf(),
                g_init == old(m)@,
                wf_grid(g_init),
                g_init.len() == rows,
                g_init[0].len() == rows,
                1 <= rows,
                ii <= rows,
                m@.len() == rows,
                m@[0].len() == rows,
                red_from(g_init, rows as int - 1).0 == ops@ + red_from(m@, ii as int - 1).0,
                red_from(g_init, rows as int - 1).1 == red_from(m@, ii as int - 1).1,
            decreases ii,
        {
            let i = ii - 1;
            let ghost h_entry = m@;
            let ghost ops_entry = ops@;
            let mut j: usize = 0;
            while j < i
                invariant
                    m.wf(),
                    m@.len() == rows,
                    m@[0].len() == rows,
                    i < rows,
                    j <= i,
                    wf_grid(h_entry),
                    h_entry.len() == rows,
                    h_entry[0].len() == rows,
                    ops@.len() >= ops_entry.len(),
                    ops@.subrange(0, ops_entry.len() as int) == ops_entry,
                    cmb_above(h_entry, i as int, 0).0 == ops@.subrange(
                        ops_entry.len() as int,
                        ops@.len() as int,
                    ) + cmb_above(m@, i as int, j as int).0,
                    cmb_above(h_entry, i as int, 0).1 == cmb_above(m@, i as int, j as int).1,
                decreases i - j,
            {
                let ghost h = m@;
                let ghost done = ops@.subrange(ops_entry.len() as int, ops@.len() as int);
                let sc = fp_div(m.get(j, i), m.get(i, i));
                let op = RowOperation::Cmb { src: i, scale: sc, dest: j };
                m.apply(&op);
                ops.push(op);
                proof {
                    let rest = cmb_above(m@, i as int, j + 1 as int);
                    assert(cmb_above(h, i as int, j as int).0 == seq![op] + rest.0);
                    assert(cmb_above(h, i as int, j as int).1 == rest.1);
                    assert(ops@.subrange(ops_entry.len() as int, ops@.len() as int) =~= done.push(
                        op,
                    ));
                    assert(done + (seq![op] + rest.0) =~= done.push(op) + rest.0);
                }
                j += 1;
            }
            proof {
                assert(cmb_above(m@, i as int, i as int).0 == Seq::<RowOperation>::empty());
                assert(cmb_above(m@, i as int, i as int).1 == m@);
                let step = cmb_above(h_entry, i as int, 0);
                assert(step.1 == m@);
                assert(ops@ =~= ops_entry + ops@.subrange(ops_entry.len() as int, ops@.len() as int));
                assert(ops@ =~= ops_entry + step.0);
                let rest = red_from(m@, i as int - 1);
                assert(red_from(h_entry, i as int).0 == step.0 + rest.0);
                assert(red_from(h_entry, i as int).1 == rest.1);
                assert(ops_entry + (step.0 + rest.0) =~= (ops_entry + step.0) + rest.0);
            }
            ii = i;
        }
        proof {
            assert(red_from(m@, -1).0 == Seq::<RowOperation>::empty());
            assert(red_from(m@, -1).1 == m@);
            assert(red_from(g_init, rows as int - 1).0 =~= ops@);
            assert(red_from(g_init, rows as int - 1).1 == m@);
        }
        let ghost g_mid = m@;
        let ghost ops_mid = ops@;
        let mut i: usize = 0;
        while i < rows
            invariant
                m.wf(),
                g_init == old(m)@,
                wf_grid(g_init),
                g_init.len() == rows,
                g_init[0].len() == rows,
                1 <= rows,
                i <= rows,
                m@.len() == rows,
                m@[0].len() == rows,
                red_from(g_init, rows as int - 1).0 == ops_mid,
                red_from(g_init, rows as int - 1).1 == g_mid,
                ops@.len() >= ops_mid.len(),
                ops@.subrange(0, ops_mid.len() as int) == ops_mid,
                scale_steps(g_mid, 0).0 == ops@.subrange(ops_mid.len() as int, ops@.len() as int)
                    + scale_steps(m@, i as int).0,
                scale_steps(g_mid, 0).1 == scale_steps(m@, i as int).1,
            decreases rows - i,
        {
            let ghost h = m@;
            let ghost done = ops@.subrange(ops_mid.len() as int, ops@.len() as int);
            let sc = fp_div(Fp::one(), m.get(i, i));
            let op = RowOperation::Scale { row: i, scale: sc };
            m.apply(&op);
            ops.push(op);
            proof {
                let rest = scale_steps(m@, i + 1 as int);
                assert(scale_steps(h, i as int).0 == seq![op] + rest.0);
                assert(scale_steps(h, i as int).1 == rest.1);
                assert(ops@.subrange(ops_mid.len() as int, ops@.len() as int) =~= done.push(op));
                assert(done + (seq![op] + rest.0) =~= done.push(op) + rest.0);
            }
            i += 1;
        }
        proof {
            assert(scale_steps(m@, rows as int).0 == Seq::<RowOperation>::empty());
            assert(scale_steps(m@, rows as int).1 == m@);
            assert(scale_steps(g_mid, 0).1 == m@);
            assert(ops@ =~= ops_mid + ops@.subrange(ops_mid.len() as int, ops@.len() as int));
            assert(ops@ =~= ops_mid + scale_steps(g_mid, 0).0);
            assert(reduce_spec(g_init).0 == red_from(g_init, rows as int - 1).0 + scale_steps(
                g_mid,
                0,
            ).0);
            assert(reduce_spec(g_init).1 == m@);
        }
        Ok(ops)
    }
}

} // verus!
