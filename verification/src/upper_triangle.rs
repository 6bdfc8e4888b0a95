//! Upper triangularization: a strategy trait and the Gaussian
//! elimination procedure with first-nonzero pivot search.
//!
//! A strategy reduces a square matrix in place and returns the ordered
//! log of the elementary operations it performed, so that a caller can
//! replay the identical sequence onto a companion structure. The log,
//! the final grid and the success of a run are each given exactly by
//! associated spec functions, and replaying the log on the input grid
//! is proved to give the final grid.

use vstd::prelude::*;
use crate::fp::{Fp, div_bits, fp_div, fp_is_zero, is_zero_bits};
use crate::mat::{
    Mat, RowOperation, apply_bits, apply_ops_bits, lemma_apply_ops_concat, lemma_apply_ops_one,
    lemma_apply_shape, op_valid, ops_valid, wf_grid,
};

verus! {

/// The first row at or below `p` whose entry in column `col` is not a
/// zero pattern (a NaN counts as nonzero, as IEEE-754 `!=` does); the
/// row count when every candidate row is zero there.
pub open spec fn find_pivot(g: Seq<Seq<u64>>, col: int, p: int) -> int
    decreases g.len() - p,
{
    if p < 0 || p >= g.len() {
        g.len() as int
    } else if !is_zero_bits(g[p][col]) {
        p
    } else {
        find_pivot(g, col, p + 1)
    }
}

/// The combine steps of one pivot column: for each row below the
/// pivot, the scale is the current entry under the pivot divided by
/// the pivot, and the scaled pivot row is subtracted from that row.
/// Returns the emitted operations and the resulting grid.
pub open spec fn cmb_below(g: Seq<Seq<u64>>, i: int, j: int) -> (Seq<RowOperation>, Seq<Seq<u64>>)
    decreases g.len() - j,
{
    if j < 0 || j >= g.len() {
        (Seq::<RowOperation>::empty(), g)
    } else {
        let op = RowOperation::Cmb {
            src: i as usize,
            scale: Fp { bits: div_bits(g[j][i], g[i][i]) },
            dest: j as usize,
        };
        let rest = cmb_below(apply_bits(g, op), i, j + 1);
        (seq![op] + rest.0, rest.1)
    }
}

/// One pivot step: search the rows at or below the diagonal for the
/// first nonzero entry in the pivot column; when none exists the step
/// fails; otherwise swap it up if needed and eliminate below.
pub open spec fn gauss_step(g: Seq<Seq<u64>>, i: int) -> (Seq<RowOperation>, Seq<Seq<u64>>, bool) {
    let p = find_pivot(g, i, i);
    if p == g.len() {
        (Seq::<RowOperation>::empty(), g, false)
    } else if p != i {
        let op = RowOperation::Swap(i as usize, p as usize);
        let rest = cmb_below(apply_bits(g, op), i, i + 1);
        (seq![op] + rest.0, rest.1, true)
    } else {
        let rest = cmb_below(g, i, i + 1);
        (rest.0, rest.1, true)
    }
}

/// The first `i` pivot steps, applied in order; a failed step stops
/// the run, keeping the operations and grid reached so far.
pub open spec fn gauss_upto(g: Seq<Seq<u64>>, i: int) -> (Seq<RowOperation>, Seq<Seq<u64>>, bool)
    decreases i,
{
    if i <= 0 {
        (Seq::<RowOperation>::empty(), g, true)
    } else {
        let prev = gauss_upto(g, i - 1);
        if !prev.2 {
            prev
        } else {
            let step = gauss_step(prev.1, i - 1);
            (prev.0 + step.0, step.1, step.2)
        }
    }
}

/// Gaussian triangularization of a square grid: one pivot step for
/// each column up to the second to last, and a run that reaches the
/// end still fails if the final diagonal entry is exactly zero.
pub open spec fn gauss_spec(g: Seq<Seq<u64>>) -> (Seq<RowOperation>, Seq<Seq<u64>>, bool) {
    let n = g.len() as int - 1;
    let run = gauss_upto(g, n);
    (run.0, run.1, run.2 && !is_zero_bits(run.1[n][n]))
}

/// The pivot search stays within bounds, skips only zero entries, and
/// lands on a nonzero entry when it lands at all.
pub proof fn lemma_find_pivot_bounds(g: Seq<Seq<u64>>, col: int, p: int)
    requires
        0 <= p <= g.len(),
    ensures
        p <= find_pivot(g, col, p) <= g.len(),
        find_pivot(g, col, p) < g.len() ==> !is_zero_bits(g[find_pivot(g, col, p)][col]),
    decreases g.len() - p,
{
    if p < g.len() && is_zero_bits(g[p][col]) {
        lemma_find_pivot_bounds(g, col, p + 1);
    }
}

/// The combine steps of one pivot column emit valid operations, keep
/// the grid's shape, and replay to the grid they produce.
pub proof fn lemma_cmb_below_props(g: Seq<Seq<u64>>, i: int, j: int)
    requires
        wf_grid(g),
        g.len() <= usize::MAX,
        0 <= i < g.len(),
        i + 1 <= j,
    ensures
        ops_valid(cmb_below(g, i, j).0, g.len() as int),
        wf_grid(cmb_below(g, i, j).1),
        cmb_below(g, i, j).1.len() == g.len(),
        cmb_below(g, i, j).1[0].len() == g[0].len(),
        apply_ops_bits(g, cmb_below(g, i, j).0) == cmb_below(g, i, j).1,
    decreases g.len() - j,
{
    if j >= g.len() {
        assert(apply_ops_bits(g, Seq::<RowOperation>::empty()) == g);
    } else {
        let op = RowOperation::Cmb {
            src: i as usize,
            scale: Fp { bits: div_bits(g[j][i], g[i][i]) },
            dest: j as usize,
        };
        assert(op_valid(op, g.len() as int));
        lemma_apply_shape(g, op);
        let g1 = apply_bits(g, op);
        lemma_cmb_below_props(g1, i, j + 1);
        let rest = cmb_below(g1, i, j + 1);
        assert(cmb_below(g, i, j).0 == seq![op] + rest.0);
        assert forall|k: int| 0 <= k < (seq![op] + rest.0).len() implies op_valid(
            #[trigger] (seq![op] + rest.0)[k],
            g.len() as int,
        ) by {
            if k > 0 {
                assert((seq![op] + rest.0)[k] == rest.0[k - 1]);
            }
        }
        lemma_apply_ops_concat(g, seq![op], rest.0);
        lemma_apply_ops_one(g, op);
    }
}

/// One pivot step emits valid operations, keeps the grid's shape, and
/// replays to the grid it produces.
pub proof fn lemma_gauss_step_props(g: Seq<Seq<u64>>, i: int)
    requires
        wf_grid(g),
        g.len() <= usize::MAX,
        0 <= i < g.len(),
    ensures
        ops_valid(gauss_step(g, i).0, g.len() as int),
        wf_grid(gauss_step(g, i).1),
        gauss_step(g, i).1.len() == g.len(),
        gauss_step(g, i).1[0].len() == g[0].len(),
        apply_ops_bits(g, gauss_step(g, i).0) == gauss_step(g, i).1,
{
    lemma_find_pivot_bounds(g, i, i);
    let p = find_pivot(g, i, i);
    if p == g.len() {
        assert(apply_ops_bits(g, Seq::<RowOperation>::empty()) == g);
    } else if p != i {
        let op = RowOperation::Swap(i as usize, p as usize);
        assert(op_valid(op, g.len() as int));
        lemma_apply_shape(g, op);
        let g1 = apply_bits(g, op);
        lemma_cmb_below_props(g1, i, i + 1);
        let rest = cmb_below(g1, i, i + 1);
        assert forall|k: int| 0 <= k < (seq![op] + rest.0).len() implies op_valid(
            #[trigger] (seq![op] + rest.0)[k],
            g.len() as int,
        ) by {
            if k > 0 {
                assert((seq![op] + rest.0)[k] == rest.0[k - 1]);
            }
        }
        lemma_apply_ops_concat(g, seq![op], rest.0);
        lemma_apply_ops_one(g, op);
    } else {
        lemma_cmb_below_props(g, i, i + 1);
    }
}

/// The first `i` pivot steps emit valid operations, keep the grid's
/// shape, and replay to the grid they produce.
pub proof fn lemma_gauss_upto_props(g: Seq<Seq<u64>>, i: int)
    requires
        wf_grid(g),
        g.len() <= usize::MAX,
        0 <= i < g.len(),
    ensures
        ops_valid(gauss_upto(g, i).0, g.len() as int),
        wf_grid(gauss_upto(g, i).1),
        gauss_upto(g, i).1.len() == g.len(),
        gauss_upto(g, i).1[0].len() == g[0].len(),
        apply_ops_bits(g, gauss_upto(g, i).0) == gauss_upto(g, i).1,
    decreases i,
{
    if i <= 0 {
        assert(apply_ops_bits(g, Seq::<RowOperation>::empty()) == g);
    } else {
        lemma_gauss_upto_props(g, i - 1);
        let prev = gauss_upto(g, i - 1);
        if prev.2 {
            lemma_gauss_step_props(prev.1, i - 1);
            let step = gauss_step(prev.1, i - 1);
            assert forall|k: int| 0 <= k < (prev.0 + step.0).len() implies op_valid(
                #[trigger] (prev.0 + step.0)[k],
                g.len() as int,
            ) by {
                if k < prev.0.len() {
                    assert((prev.0 + step.0)[k] == prev.0[k]);
                } else {
                    assert((prev.0 + step.0)[k] == step.0[k - prev.0.len()]);
                }
            }
            lemma_apply_ops_concat(g, prev.0, step.0);
        }
    }
}

/// Once a pivot step has failed, every longer run returns the same
/// operations, grid and failure.
pub proof fn lemma_gauss_upto_fail(g: Seq<Seq<u64>>, i: int, k: int)
    requires
        0 <= i <= k,
        !gauss_upto(g, i).2,
    ensures
        gauss_upto(g, k) == gauss_upto(g, i),
    decreases k - i,
{
    if k > i {
        lemma_gauss_upto_fail(g, i, k - 1);
    }
}

/// A strategy that reduces a square matrix to row-echelon form by
/// elementary row operations, emitting the operations it performs.
pub trait UpperTriangle {
    /// The ordered log of operations the strategy emits on this grid.
    spec fn spec_ops(g: Seq<Seq<u64>>) -> Seq<RowOperation>;

    /// The grid the strategy leaves behind.
    spec fn spec_grid(g: Seq<Seq<u64>>) -> Seq<Seq<u64>>;

    /// Whether the strategy succeeds on this grid.
    spec fn spec_ok(g: Seq<Seq<u64>>) -> bool;

    /// The emitted operations are valid for the grid's row count, and
    /// replaying them on the input grid gives the final grid: the
    /// guarantee that lets a caller mirror the run on a companion
    /// structure.
    proof fn lemma_replay(g: Seq<Seq<u64>>)
        requires
            wf_grid(g),
            g.len() <= usize::MAX,
            g.len() == g[0].len(),
        ensures
            ops_valid(Self::spec_ops(g), g.len() as int),
            apply_ops_bits(g, Self::spec_ops(g)) == Self::spec_grid(g),
            wf_grid(Self::spec_grid(g)),
            Self::spec_grid(g).len() == g.len(),
            Self::spec_grid(g)[0].len() == g[0].len(),
    ;

    /// Reduce the matrix in place, returning the ordered operation
    /// log, or the singularity error.
    fn run(m: &mut Mat) -> (r: Result<Vec<RowOperation>, ()>)
        requires
            old(m).wf(),
            old(m)@.len() == old(m)@[0].len(),
        ensures
            final(m).wf(),
            final(m)@ == Self::spec_grid(old(m)@),
            r is Ok <==> Self::spec_ok(old(m)@),
            r matches Ok(ops) ==> ops@ == Self::spec_ops(old(m)@),
    ;
}

/// Gaussian elimination with first-nonzero pivot search.
pub struct Gaussian;

impl UpperTriangle for Gaussian {
    open spec fn spec_ops(g: Seq<Seq<u64>>) -> Seq<RowOperation> {
        gauss_spec(g).0
    }

    open spec fn spec_grid(g: Seq<Seq<u64>>) -> Seq<Seq<u64>> {
        gauss_spec(g).1
    }

    open spec fn spec_ok(g: Seq<Seq<u64>>) -> bool {
        gauss_spec(g).2
    }

    proof fn lemma_replay(g: Seq<Seq<u64>>) {
        lemma_gauss_upto_props(g, g.len() as int - 1);
    }

    fn run(m: &mut Mat) -> (r: Result<Vec<RowOperation>, ()>) {
        let ghost g_init = m@;
        let rows = m.rows();
        let n = rows - 1;
        let mut ops: Vec<RowOperation> = Vec::new();
        for i in 0..n
            invariant
                m.wf(),
                g_init == old(m)@,
                wf_grid(g_init),
                g_init.len() == rows,
                g_init[0].len() == rows,
                1 <= rows,
                n == rows - 1,
                m@.len() == rows,
                m@[0].len() == rows,
                gauss_upto(g_init, i as int).0 == ops@,
                gauss_upto(g_init, i as int).1 == m@,
                gauss_upto(g_init, i as int).2,
        {
            let ghost g1 = m@;
            let ghost ops_outer = ops@;
            // scan for the first row with a nonzero entry in column i
            let mut p = i;
            while p < rows && fp_is_zero(m.get(p, i))
                invariant
                    m.wf(),
                    m@ == g1,
                    m@.len() == rows,
                    m@[0].len() == rows,
                    i < rows,
                    i <= p <= rows,
                    find_pivot(g1, i as int, p as int) == find_pivot(g1, i as int, i as int),
                decreases rows - p,
            {
                p += 1;
            }
            proof {
                lemma_find_pivot_bounds(g1, i as int, i as int);
            }
            if p == rows {
                proof {
                    assert(find_pivot(g1, i as int, i as int) == rows);
                    assert(gauss_step(g1, i as int) == (
                        Seq::<RowOperation>::empty(),
                        g1,
                        false,
                    ));
                    assert(gauss_upto(g_init, i + 1 as int).0 =~= ops@);
                    assert(gauss_upto(g_init, i + 1 as int).1 == m@);
                    assert(!gauss_upto(g_init, i + 1 as int).2);
                    lemma_gauss_upto_fail(g_init, i + 1 as int, n as int);
                    assert(gauss_spec(g_init).1 == m@);
                    assert(!gauss_spec(g_init).2);
                }
                return Err(());
            }
            proof {
                assert(find_pivot(g1, i as int, p as int) == p);
                assert(find_pivot(g1, i as int, i as int) == p);
            }
            if i != p {
                let op = RowOperation::Swap(i, p);
                m.apply(&op);
                ops.push(op);
                proof {
                    assert(ops@ =~= ops_outer + seq![op]);
                }
            }
            let ghost g0 = m@;
            let ghost ops0 = ops@;
            let mut j = i + 1;
            while j < rows
                invariant
                    m.wf(),
                    m@.len() == rows,
                    m@[0].len() == rows,
                    i < rows,
                    i + 1 <= j <= rows,
                    wf_grid(g0),
                    g0.len() == rows,
                    g0[0].len() == rows,
                    ops@.len() >= ops0.len(),
                    ops@.subrange(0, ops0.len() as int) == ops0,
                    cmb_below(g0, i as int, i + 1 as int).0 == ops@.subrange(
                        ops0.len() as int,
                        ops@.len() as int,
                    ) + cmb_below(m@, i as int, j as int).0,
                    cmb_below(g0, i as int, i + 1 as int).1 == cmb_below(m@, i as int, j as int).1,
                decreases rows - j,
            {
                let ghost h = m@;
                let ghost done = ops@.subrange(ops0.len() as int, ops@.len() as int);
                let sc = fp_div(m.get(j, i), m.get(i, i));
                let op = RowOperation::Cmb { src: i, scale: sc, dest: j };
                m.apply(&op);
                ops.push(op);
                proof {
                    let rest = cmb_below(m@, i as int, j + 1 as int);
                    assert(cmb_below(h, i as int, j as int).0 == seq![op] + rest.0);
                    assert(cmb_below(h, i as int, j as int).1 == rest.1);
                    assert(ops@.subrange(ops0.len() as int, ops@.len() as int) =~= done.push(op));
                    assert(done + (seq![op] + rest.0) =~= done.push(op) + rest.0);
                }
                j += 1;
            }
            proof {
                assert(cmb_below(m@, i as int, rows as int).0
                    == Seq::<RowOperation>::empty());
                assert(cmb_below(m@, i as int, rows as int).1 == m@);
                let step = gauss_step(g1, i as int);
                assert(step.1 == m@);
                assert(step.2);
                assert(ops@.subrange(0, ops0.len() as int) == ops0);
                assert(ops@ =~= ops0 + ops@.subrange(ops0.len() as int, ops@.len() as int));
                if i != p {
                    let swop = RowOperation::Swap(i, p);
                    assert(step.0 == seq![swop] + cmb_below(g0, i as int, i + 1 as int).0);
                    assert(ops0 =~= ops_outer + seq![swop]);
                    assert(ops@ =~= ops_outer + step.0);
                } else {
                    assert(step.0 == cmb_below(g0, i as int, i + 1 as int).0);
                    assert(ops@ =~= ops_outer + step.0);
                }
                assert(gauss_upto(g_init, i + 1 as int).0 == ops_outer + step.0);
                assert(gauss_upto(g_init, i + 1 as int).1 == m@);
                assert(gauss_upto(g_init, i + 1 as int).2);
            }
        }
        if fp_is_zero(m.get(n, n)) {
            return Err(());
        }
        Ok(ops)
    }
}

} // verus!
