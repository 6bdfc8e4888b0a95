//! Dense row-major matrix of binary64 scalars, with elementary row
//! operations and arithmetic.
//!
//! The model of a matrix is a sequence of rows, each a sequence of bit
//! patterns; every operation is specified exactly over that model, with
//! the rounding arithmetic expressed through the named softfloat
//! operations of [`crate::fp`].

use vstd::prelude::*;
use crate::fp::{
    Fp, NEG_INF_BITS, ONE_BITS, POS_ZERO, add_bits, div_bits, from_u64_bits, mul_bits, sub_bits,
    fp_div,
    fp_from_u64, fp_mul, fp_sub, fp_add, fp_abs, fp_max, abs_bits, max_bits,
};

verus! {

/// An elementary row operation: swap two rows, subtract a scaled source
/// row from a destination row, or scale a row in place.
#[derive(Clone, Copy, PartialEq, Eq, Structural, Debug)]
pub enum RowOperation {
    Swap(usize, usize),
    Cmb { src: usize, scale: Fp, dest: usize },
    Scale { row: usize, scale: Fp },
}

/// A grid is well-formed when it has at least one row, at least one
/// column, and every row has the same length.
pub open spec fn wf_grid(g: Seq<Seq<u64>>) -> bool {
    &&& g.len() >= 1
    &&& g[0].len() >= 1
    &&& forall|r: int| 0 <= r < g.len() ==> (#[trigger] g[r]).len() == g[0].len()
}

/// The row indices an operation touches are in bounds, and a combine
/// never reads the row it writes.
pub open spec fn op_valid(op: RowOperation, rows: int) -> bool {
    match op {
        RowOperation::Swap(r1, r2) => r1 < rows && r2 < rows,
        RowOperation::Cmb { src, dest, .. } => src < rows && dest < rows && src != dest,
        RowOperation::Scale { row, .. } => row < rows,
    }
}

/// Every operation of a sequence is valid for the given row count.
pub open spec fn ops_valid(ops: Seq<RowOperation>, rows: int) -> bool {
    forall|k: int| 0 <= k < ops.len() ==> op_valid(#[trigger] ops[k], rows)
}

/// The destination row of a combine: entry by entry, the destination
/// minus the scaled source.
pub open spec fn cmb_row_bits(dst: Seq<u64>, src: Seq<u64>, scale: u64) -> Seq<u64> {
    Seq::new(dst.len(), |i: int| sub_bits(dst[i], mul_bits(scale, src[i])))
}

/// A row scaled entry by entry.
pub open spec fn scale_row_bits(row: Seq<u64>, scale: u64) -> Seq<u64> {
    Seq::new(row.len(), |i: int| mul_bits(row[i], scale))
}

/// One elementary operation applied to a grid.
pub open spec fn apply_bits(g: Seq<Seq<u64>>, op: RowOperation) -> Seq<Seq<u64>> {
    match op {
        RowOperation::Swap(r1, r2) => g.update(r1 as int, g[r2 as int]).update(
            r2 as int,
            g[r1 as int],
        ),
        RowOperation::Cmb { src, scale, dest } => g.update(
            dest as int,
            cmb_row_bits(g[dest as int], g[src as int], scale.bits),
        ),
        RowOperation::Scale { row, scale } => g.update(
            row as int,
            scale_row_bits(g[row as int], scale.bits),
        ),
    }
}

/// A sequence of elementary operations applied in order.
pub open spec fn apply_ops_bits(g: Seq<Seq<u64>>, ops: Seq<RowOperation>) -> Seq<Seq<u64>>
    decreases ops.len(),
{
    if ops.len() == 0 {
        g
    } else {
        apply_ops_bits(apply_bits(g, ops[0]), ops.subrange(1, ops.len() as int))
    }
}

/// Applying one operation keeps the shape of a well-formed grid.
pub proof fn lemma_apply_shape(g: Seq<Seq<u64>>, op: RowOperation)
    requires
        wf_grid(g),
        op_valid(op, g.len() as int),
    ensures
        wf_grid(apply_bits(g, op)),
        apply_bits(g, op).len() == g.len(),
        apply_bits(g, op)[0].len() == g[0].len(),
{
    let h = apply_bits(g, op);
    assert forall|r: int| 0 <= r < h.len() implies (#[trigger] h[r]).len() == g[0].len() by {
        match op {
            RowOperation::Swap(r1, r2) => {},
            RowOperation::Cmb { src, scale, dest } => {},
            RowOperation::Scale { row, scale } => {},
        }
    }
}

/// Appending one operation to a replay is the replay followed by that
/// operation.
pub proof fn lemma_apply_ops_push(g: Seq<Seq<u64>>, ops: Seq<RowOperation>, op: RowOperation)
    ensures
        apply_ops_bits(g, ops.push(op)) == apply_bits(apply_ops_bits(g, ops), op),
    decreases ops.len(),
{
    let snoc = ops.push(op);
    assert(snoc.len() == ops.len() + 1);
    if ops.len() == 0 {
        assert(snoc[0] == op);
        assert(snoc.subrange(1, snoc.len() as int) =~= Seq::<RowOperation>::empty());
        assert(apply_ops_bits(g, snoc) == apply_ops_bits(
            apply_bits(g, op),
            snoc.subrange(1, snoc.len() as int),
        ));
        assert(apply_ops_bits(apply_bits(g, op), Seq::<RowOperation>::empty()) == apply_bits(
            g,
            op,
        ));
        assert(apply_ops_bits(g, ops) == g);
    } else {
        assert(snoc[0] == ops[0]);
        assert(snoc.subrange(1, snoc.len() as int) =~= ops.subrange(1, ops.len() as int).push(op));
        lemma_apply_ops_push(apply_bits(g, ops[0]), ops.subrange(1, ops.len() as int), op);
        assert(apply_ops_bits(g, snoc) == apply_ops_bits(
            apply_bits(g, ops[0]),
            snoc.subrange(1, snoc.len() as int),
        ));
        assert(apply_ops_bits(g, ops) == apply_ops_bits(
            apply_bits(g, ops[0]),
            ops.subrange(1, ops.len() as int),
        ));
    }
}

/// Replaying a concatenation is replaying the first part, then the
/// second.
pub proof fn lemma_apply_ops_concat(g: Seq<Seq<u64>>, a: Seq<RowOperation>, b: Seq<RowOperation>)
    ensures
        apply_ops_bits(g, a + b) == apply_ops_bits(apply_ops_bits(g, a), b),
    decreases a.len(),
{
    if a.len() == 0 {
        assert(a + b =~= b);
    } else {
        assert((a + b)[0] == a[0]);
        assert((a + b).subrange(1, (a + b).len() as int) =~= a.subrange(1, a.len() as int) + b);
        lemma_apply_ops_concat(apply_bits(g, a[0]), a.subrange(1, a.len() as int), b);
        assert(apply_ops_bits(g, a + b) == apply_ops_bits(
            apply_bits(g, a[0]),
            (a + b).subrange(1, (a + b).len() as int),
        ));
    }
}

/// Replaying a single operation.
pub proof fn lemma_apply_ops_one(g: Seq<Seq<u64>>, op: RowOperation)
    ensures
        apply_ops_bits(g, seq![op]) == apply_bits(g, op),
{
    let s = seq![op];
    assert(s.len() == 1);
    assert(s[0] == op);
    assert(s.subrange(1, 1) =~= Seq::<RowOperation>::empty());
    assert(apply_ops_bits(g, s) == apply_ops_bits(apply_bits(g, op), s.subrange(1, 1)));
    assert(apply_ops_bits(apply_bits(g, op), Seq::<RowOperation>::empty()) == apply_bits(g, op));
}

/// Replaying a valid sequence of operations keeps the shape of a
/// well-formed grid.
pub proof fn lemma_apply_ops_shape(g: Seq<Seq<u64>>, ops: Seq<RowOperation>)
    requires
        wf_grid(g),
        ops_valid(ops, g.len() as int),
    ensures
        wf_grid(apply_ops_bits(g, ops)),
        apply_ops_bits(g, ops).len() == g.len(),
        apply_ops_bits(g, ops)[0].len() == g[0].len(),
    decreases ops.len(),
{
    if ops.len() > 0 {
        assert(op_valid(ops[0], g.len() as int));
        lemma_apply_shape(g, ops[0]);
        assert(ops_valid(ops.subrange(1, ops.len() as int), g.len() as int)) by {
            assert forall|k: int| 0 <= k < ops.len() - 1 implies op_valid(
                #[trigger] ops.subrange(1, ops.len() as int)[k],
                g.len() as int,
            ) by {
                assert(ops.subrange(1, ops.len() as int)[k] == ops[k + 1]);
            }
        }
        lemma_apply_ops_shape(apply_bits(g, ops[0]), ops.subrange(1, ops.len() as int));
    }
}

/// A rows-by-cols grid holding one value everywhere.
pub open spec fn const_grid(rows: int, cols: int, v: u64) -> Seq<Seq<u64>> {
    Seq::new(rows as nat, |r: int| Seq::new(cols as nat, |c: int| v))
}

/// The identity grid: ones on the diagonal, zeros elsewhere.
pub open spec fn id_grid(n: int) -> Seq<Seq<u64>> {
    Seq::new(
        n as nat,
        |r: int| Seq::new(n as nat, |c: int| if r == c { ONE_BITS } else { POS_ZERO }),
    )
}

/// The Hilbert grid: entry (i, j) is one divided by i + j + 1.
pub open spec fn hilbert_grid(n: int) -> Seq<Seq<u64>> {
    Seq::new(
        n as nat,
        |r: int| Seq::new(
            n as nat,
            |c: int| div_bits(ONE_BITS, from_u64_bits((r + c + 1) as u64)),
        ),
    )
}

/// The patterns of a sequence of scalars.
pub open spec fn seq_bits(s: Seq<Fp>) -> Seq<u64> {
    Seq::new(s.len(), |i: int| s[i].bits)
}

/// Left fold of the first k products of paired entries, starting from
/// `+0.0`: the order in which an iterator sum accumulates.
pub open spec fn dot_prefix(a: Seq<u64>, b: Seq<u64>, k: int) -> u64
    decreases k,
{
    if k <= 0 {
        POS_ZERO
    } else {
        add_bits(dot_prefix(a, b, k - 1), mul_bits(a[k - 1], b[k - 1]))
    }
}

/// One column of a grid, top to bottom.
pub open spec fn col_of(g: Seq<Seq<u64>>, c: int) -> Seq<u64> {
    Seq::new(g.len(), |r: int| g[r][c])
}

/// Matrix times matrix: entry (r, c) is the dot product of row r of the
/// left operand with column c of the right operand.
pub open spec fn mat_mul_bits(a: Seq<Seq<u64>>, b: Seq<Seq<u64>>) -> Seq<Seq<u64>> {
    Seq::new(
        a.len(),
        |r: int| Seq::new(b[0].len(), |c: int| dot_prefix(a[r], col_of(b, c), a[r].len() as int)),
    )
}

/// Matrix times vector: entry r is the dot product of the vector with
/// row r, the vector's entries standing first in each product.
pub open spec fn mat_vec_bits(a: Seq<Seq<u64>>, x: Seq<u64>) -> Seq<u64> {
    Seq::new(a.len(), |r: int| dot_prefix(x, a[r], x.len() as int))
}

/// Matrix minus matrix, entry by entry.
pub open spec fn mat_sub_bits(a: Seq<Seq<u64>>, b: Seq<Seq<u64>>) -> Seq<Seq<u64>> {
    Seq::new(
        a.len(),
        |r: int| Seq::new(a[0].len(), |c: int| sub_bits(a[r][c], b[r][c])),
    )
}

/// Scalar times matrix: each entry multiplied by the scalar, the entry
/// standing first in the product.
pub open spec fn scalar_mul_bits(g: Seq<Seq<u64>>, s: u64) -> Seq<Seq<u64>> {
    Seq::new(
        g.len(),
        |r: int| Seq::new(g[0].len(), |c: int| mul_bits(g[r][c], s)),
    )
}

/// NaN-ignoring maximum folded over the absolute values of the first k
/// entries of a row, from a running value.
pub open spec fn max_row_prefix(row: Seq<u64>, acc: u64, k: int) -> u64
    decreases k,
{
    if k <= 0 {
        acc
    } else {
        max_bits(max_row_prefix(row, acc, k - 1), abs_bits(row[k - 1]))
    }
}

/// NaN-ignoring maximum folded over the absolute values of the first r
/// rows of a grid, from a running value.
pub open spec fn max_grid_prefix(g: Seq<Seq<u64>>, acc: u64, r: int) -> u64
    decreases r,
{
    if r <= 0 {
        acc
    } else {
        max_row_prefix(g[r - 1], max_grid_prefix(g, acc, r - 1), g[r - 1].len() as int)
    }
}

/// The maximum magnitude of any entry, folded in row-major order from
/// negative infinity.
pub open spec fn mat_max_bits(g: Seq<Seq<u64>>) -> u64 {
    max_grid_prefix(g, NEG_INF_BITS, g.len() as int)
}

/// An entry-for-entry copy of a vector of scalars.
pub fn clone_vec(v: &Vec<Fp>) -> (r: Vec<Fp>)
    ensures
        r@ == v@,
{
    let mut res: Vec<Fp> = Vec::new();
    let n = v.len();
    for i in 0..n
        invariant
            n == v@.len(),
            res@.len() == i,
            forall|k: int| 0 <= k < i ==> res@[k] == v@[k],
    {
        res.push(v[i]);
    }
    proof {
        assert(res@ =~= v@);
    }
    res
}

/// Dense row-major matrix of binary64 scalars.
#[derive(Clone, Debug)]
pub struct Mat {
    data: Vec<Vec<Fp>>,
}

impl View for Mat {
    type V = Seq<Seq<u64>>;

    closed spec fn view(&self) -> Seq<Seq<u64>> {
        Seq::new(
            self.data@.len(),
            |r: int| Seq::new(self.data@[r]@.len(), |c: int| self.data@[r]@[c].bits),
        )
    }
}

impl Mat {
    /// Dimensions never change after construction and are at least one
    /// by one; only entries mutate.
    pub open spec fn wf(&self) -> bool {
        wf_grid(self@)
    }

    /// Construct a matrix of the given dimensions, zero-filled.
    pub fn new(rows: usize, cols: usize) -> (r: Mat)
        requires
            1 <= rows,
            1 <= cols,
        ensures
            r.wf(),
            r@ == const_grid(rows as int, cols as int, POS_ZERO),
    {
        let mut data: Vec<Vec<Fp>> = Vec::new();
        for i in 0..rows
            invariant
                data@.len() == i,
                forall|r: int| 0 <= r < i ==> (#[trigger] data@[r])@.len() == cols,
                forall|r: int, c: int| 0 <= r < i && 0 <= c < cols ==> (#[trigger] data@[r]@[c]).bits
                    == POS_ZERO,
        {
            let mut row: Vec<Fp> = Vec::new();
            for j in 0..cols
                invariant
                    row@.len() == j,
                    forall|c: int| 0 <= c < j ==> (#[trigger] row@[c]).bits == POS_ZERO,
            {
                row.push(Fp::zero());
            }
            data.push(row);
        }
        let m = Mat { data };
        proof {
            let target = const_grid(rows as int, cols as int, POS_ZERO);
            assert(m@.len() == target.len());
            assert forall|r: int| 0 <= r < m@.len() implies m@[r] =~= target[r] by {
                assert(m@[r].len() == m.data@[r]@.len());
            }
            assert(m@ =~= target);
        }
        m
    }

    /// Number of rows.
    pub fn rows(&self) -> (r: usize)
        ensures
            r == self@.len(),
    {
        proof {
            assert(self@.len() == self.data@.len());
        }
        self.data.len()
    }

    /// Number of columns.
    pub fn cols(&self) -> (r: usize)
        requires
            self.wf(),
        ensures
            r == self@[0].len(),
    {
        proof {
            assert(self@.len() == self.data@.len());
            assert(self@[0].len() == self.data@[0]@.len());
        }
        self.data[0].len()
    }

    /// Is the matrix square?
    pub fn is_square(&self) -> (r: bool)
        requires
            self.wf(),
        ensures
            r == (self@.len() == self@[0].len()),
    {
        self.rows() == self.cols()
    }

    /// Read the entry at the given row and column; the indices must be
    /// in bounds.
    pub fn get(&self, row: usize, col: usize) -> (r: Fp)
        requires
            self.wf(),
            row < self@.len(),
            col < self@[0].len(),
        ensures
            r.bits == self@[row as int][col as int],
    {
        proof {
            assert(self@.len() == self.data@.len());
            assert(self@[row as int].len() == self.data@[row as int]@.len());
        }
        self.data[row][col]
    }

    /// Write the entry at the given row and column; the indices must be
    /// in bounds.
    pub fn set(&mut self, row: usize, col: usize, val: Fp)
        requires
            old(self).wf(),
            row < old(self)@.len(),
            col < old(self)@[0].len(),
        ensures
            final(self).wf(),
            final(self)@ == old(self)@.update(
                row as int,
                old(self)@[row as int].update(col as int, val.bits),
            ),
    {
        proof {
            assert(self@.len() == self.data@.len());
            assert(self@[row as int].len() == self.data@[row as int]@.len());
        }
        self.data[row][col] = val;
        proof {
            let target = old(self)@.update(
                row as int,
                old(self)@[row as int].update(col as int, val.bits),
            );
            assert(self@.len() == target.len());
            assert forall|r: int| 0 <= r < self@.len() implies self@[r] =~= target[r] by {
                assert(self@[r].len() == self.data@[r]@.len());
                assert(old(self)@[r].len() == old(self).data@[r]@.len());
            }
            assert(self@ =~= target);
        }
    }

    /// Construct the identity matrix of the given size.
    pub fn new_i(size: usize) -> (r: Mat)
        requires
            1 <= size,
        ensures
            r.wf(),
            r@ == id_grid(size as int),
    {
        let mut res = Mat::new(size, size);
        for i in 0..size
            invariant
                res.wf(),
                res@.len() == size,
                res@[0].len() == size,
                forall|r: int, c: int| 0 <= r < size && 0 <= c < size ==> #[trigger] res@[r][c]
                    == if r == c && r < i { ONE_BITS } else { POS_ZERO },
        {
            res.set(i, i, Fp::one());
        }
        assert(res@ =~~= id_grid(size as int));
        res
    }

    /// Construct the Hilbert matrix of the given size: entry (i, j) is
    /// one divided by i + j + 1.
    pub fn new_hilbert(size: usize) -> (r: Mat)
        requires
            1 <= size,
            size <= usize::MAX / 2,
        ensures
            r.wf(),
            r@ == hilbert_grid(size as int),
    {
        let mut res = Mat::new(size, size);
        for i in 0..size
            invariant
                res.wf(),
                res@.len() == size,
                res@[0].len() == size,
                size <= usize::MAX / 2,
                forall|r: int, c: int| 0 <= r < size && 0 <= c < size ==> #[trigger] res@[r][c]
                    == if r < i {
                        div_bits(ONE_BITS, from_u64_bits((r + c + 1) as u64))
                    } else {
                        POS_ZERO
                    },
        {
            for j in 0..size
                invariant
                    res.wf(),
                    res@.len() == size,
                    res@[0].len() == size,
                    size <= usize::MAX / 2,
                    i < size,
                    forall|r: int, c: int| 0 <= r < size && 0 <= c < size ==> #[trigger] res@[r][c]
                        == if r < i || (r == i && c < j) {
                            div_bits(ONE_BITS, from_u64_bits((r + c + 1) as u64))
                        } else {
                            POS_ZERO
                        },
            {
                let denom = fp_from_u64((i + j + 1) as u64);
                let v = fp_div(Fp::one(), denom);
                res.set(i, j, v);
            }
        }
        assert(res@ =~~= hilbert_grid(size as int));
        res
    }

    /// Apply one elementary row operation in place.
    pub fn apply(&mut self, op: &RowOperation)
        requires
            old(self).wf(),
            op_valid(*op, old(self)@.len() as int),
        ensures
            final(self).wf(),
            final(self)@ == apply_bits(old(self)@, *op),
    {
        match *op {
            RowOperation::Cmb { src, scale, dest } => self.cmb_rows(src, scale, dest),
            RowOperation::Swap(r1, r2) => self.swap_rows(r1, r2),
            RowOperation::Scale { row, scale } => self.scale_row(row, scale),
        }
    }

    /// Exchange two rows, entry by entry.
    fn swap_rows(&mut self, r1: usize, r2: usize)
        requires
            old(self).wf(),
            r1 < old(self)@.len(),
            r2 < old(self)@.len(),
        ensures
            final(self).wf(),
            final(self)@ == apply_bits(old(self)@, RowOperation::Swap(r1, r2)),
    {
        let cols = self.cols();
        let mut c: usize = 0;
        while c < cols
            invariant
                self.wf(),
                self@.len() == old(self)@.len(),
                self@[0].len() == old(self)@[0].len(),
                r1 < self@.len(),
                r2 < self@.len(),
                c <= cols,
                cols == self@[0].len(),
                forall|r: int| 0 <= r < self@.len() && r != r1 && r != r2 ==> #[trigger] self@[r]
                    == old(self)@[r],
                forall|j: int| 0 <= j < cols ==> #[trigger] self@[r1 as int][j] == if j < c {
                    old(self)@[r2 as int][j]
                } else {
                    old(self)@[r1 as int][j]
                },
                forall|j: int| 0 <= j < cols ==> #[trigger] self@[r2 as int][j] == if j < c {
                    old(self)@[r1 as int][j]
                } else {
                    old(self)@[r2 as int][j]
                },
            decreases cols - c,
        {
            let t1 = self.get(r1, c);
            let t2 = self.get(r2, c);
            self.set(r1, c, t2);
            self.set(r2, c, t1);
            c += 1;
        }
        proof {
            let target = apply_bits(old(self)@, RowOperation::Swap(r1, r2));
            assert forall|r: int| 0 <= r < self@.len() implies self@[r] =~= target[r] by {}
            assert(self@ =~= target);
        }
    }

    /// Subtract the scaled source row from the destination row, entry
    /// by entry.
    fn cmb_rows(&mut self, src: usize, scale: Fp, dest: usize)
        requires
            old(self).wf(),
            src < old(self)@.len(),
            dest < old(self)@.len(),
            src != dest,
        ensures
            final(self).wf(),
            final(self)@ == apply_bits(
                old(self)@,
                RowOperation::Cmb { src, scale, dest },
            ),
    {
        let cols = self.cols();
        let mut c: usize = 0;
        while c < cols
            invariant
                self.wf(),
                self@.len() == old(self)@.len(),
                self@[0].len() == old(self)@[0].len(),
                src < self@.len(),
                dest < self@.len(),
                src != dest,
                c <= cols,
                cols == self@[0].len(),
                forall|r: int| 0 <= r < self@.len() && r != dest ==> #[trigger] self@[r] == old(
                    self,
                )@[r],
                forall|j: int| 0 <= j < cols ==> #[trigger] self@[dest as int][j] == if j < c {
                    sub_bits(
                        old(self)@[dest as int][j],
                        mul_bits(scale.bits, old(self)@[src as int][j]),
                    )
                } else {
                    old(self)@[dest as int][j]
                },
            decreases cols - c,
        {
            let a = self.get(dest, c);
            let b = self.get(src, c);
            self.set(dest, c, fp_sub(a, fp_mul(scale, b)));
            c += 1;
        }
        proof {
            let target = apply_bits(old(self)@, RowOperation::Cmb { src, scale, dest });
            assert forall|r: int| 0 <= r < self@.len() implies self@[r] =~= target[r] by {}
            assert(self@ =~= target);
        }
    }

    /// Multiply a row by a scalar, entry by entry.
    fn scale_row(&mut self, row: usize, scale: Fp)
        requires
            old(self).wf(),
            row < old(self)@.len(),
        ensures
            final(self).wf(),
            final(self)@ == apply_bits(old(self)@, RowOperation::Scale { row, scale }),
    {
        let cols = self.cols();
        let mut c: usize = 0;
        while c < cols
            invariant
                self.wf(),
                self@.len() == old(self)@.len(),
                self@[0].len() == old(self)@[0].len(),
                row < self@.len(),
                c <= cols,
                cols == self@[0].len(),
                forall|r: int| 0 <= r < self@.len() && r != row ==> #[trigger] self@[r] == old(
                    self,
                )@[r],
                forall|j: int| 0 <= j < cols ==> #[trigger] self@[row as int][j] == if j < c {
                    mul_bits(old(self)@[row as int][j], scale.bits)
                } else {
                    old(self)@[row as int][j]
                },
            decreases cols - c,
        {
            let a = self.get(row, c);
            self.set(row, c, fp_mul(a, scale));
            c += 1;
        }
        proof {
            let target = apply_bits(old(self)@, RowOperation::Scale { row, scale });
            assert forall|r: int| 0 <= r < self@.len() implies self@[r] =~= target[r] by {}
            assert(self@ =~= target);
        }
    }

    /// The entries of one row, left to right.
    pub fn iter_row(&self, row: usize) -> (r: Vec<Fp>)
        requires
            self.wf(),
            row < self@.len(),
        ensures
            seq_bits(r@) == self@[row as int],
    {
        let cols = self.cols();
        let mut res: Vec<Fp> = Vec::new();
        for j in 0..cols
            invariant
                self.wf(),
                row < self@.len(),
                cols == self@[0].len(),
                res@.len() == j,
                forall|c: int| 0 <= c < j ==> (#[trigger] res@[c]).bits == self@[row as int][c],
        {
            res.push(self.get(row, j));
        }
        proof {
            assert(seq_bits(res@) =~= self@[row as int]);
        }
        res
    }

    /// The entries of one column, top to bottom. Costs a full pass over
    /// the rows.
    pub fn iter_col(&self, col: usize) -> (r: Vec<Fp>)
        requires
            self.wf(),
            col < self@[0].len(),
        ensures
            seq_bits(r@) == col_of(self@, col as int),
    {
        let rows = self.rows();
        let mut res: Vec<Fp> = Vec::new();
        for i in 0..rows
            invariant
                self.wf(),
                col < self@[0].len(),
                rows == self@.len(),
                res@.len() == i,
                forall|c: int| 0 <= c < i ==> (#[trigger] res@[c]).bits == self@[c][col as int],
        {
            res.push(self.get(i, col));
        }
        proof {
            assert(seq_bits(res@) =~= col_of(self@, col as int));
        }
        res
    }

    /// All rows, top to bottom, each a copy.
    pub fn iter(&self) -> (r: Vec<Vec<Fp>>)
        requires
            self.wf(),
        ensures
            r@.len() == self@.len(),
            forall|i: int| 0 <= i < self@.len() ==> seq_bits((#[trigger] r@[i])@) == self@[i],
    {
        let rows = self.rows();
        let mut res: Vec<Vec<Fp>> = Vec::new();
        for i in 0..rows
            invariant
                self.wf(),
                rows == self@.len(),
                res@.len() == i,
                forall|k: int| 0 <= k < i ==> seq_bits((#[trigger] res@[k])@) == self@[k],
        {
            res.push(self.iter_row(i));
        }
        res
    }

    /// Matrix times matrix; the inner dimensions must match.
    pub fn mul(&self, rhs: &Mat) -> (r: Mat)
        requires
            self.wf(),
            rhs.wf(),
            self@[0].len() == rhs@.len(),
        ensures
            r.wf(),
            r@ == mat_mul_bits(self@, rhs@),
    {
        let rows = self.rows();
        let inner = self.cols();
        let cols = rhs.cols();
        let mut res = Mat::new(rows, cols);
        for i in 0..rows
            invariant
                self.wf(),
                rhs.wf(),
                res.wf(),
                rows == self@.len(),
                inner == self@[0].len(),
                inner == rhs@.len(),
                cols == rhs@[0].len(),
                res@.len() == rows,
                res@[0].len() == cols,
                forall|a: int, b: int| 0 <= a < rows && 0 <= b < cols ==> #[trigger] res@[a][b]
                    == if a < i {
                        dot_prefix(self@[a], col_of(rhs@, b), inner as int)
                    } else {
                        POS_ZERO
                    },
        {
            for j in 0..cols
                invariant
                    self.wf(),
                    rhs.wf(),
                    res.wf(),
                    i < rows,
                    rows == self@.len(),
                    inner == self@[0].len(),
                    inner == rhs@.len(),
                    cols == rhs@[0].len(),
                    res@.len() == rows,
                    res@[0].len() == cols,
                    forall|a: int, b: int| 0 <= a < rows && 0 <= b < cols ==> #[trigger] res@[a][b]
                        == if a < i || (a == i && b < j) {
                            dot_prefix(self@[a], col_of(rhs@, b), inner as int)
                        } else {
                            POS_ZERO
                        },
            {
                let mut acc = Fp::zero();
                for t in 0..inner
                    invariant
                        self.wf(),
                        rhs.wf(),
                        i < rows,
                        j < cols,
                        rows == self@.len(),
                        inner == self@[0].len(),
                        inner == rhs@.len(),
                        cols == rhs@[0].len(),
                        acc.bits == dot_prefix(self@[i as int], col_of(rhs@, j as int), t as int),
                {
                    acc = fp_add(acc, fp_mul(self.get(i, t), rhs.get(t, j)));
                }
                res.set(i, j, acc);
            }
        }
        proof {
            let target = mat_mul_bits(self@, rhs@);
            assert forall|a: int| 0 <= a < res@.len() implies res@[a] =~= target[a] by {}
            assert(res@ =~= target);
        }
        res
    }

    /// Matrix times vector; the vector's length must match the column
    /// count.
    pub fn mul_vec(&self, rhs: &Vec<Fp>) -> (r: Vec<Fp>)
        requires
            self.wf(),
            rhs@.len() == self@[0].len(),
        ensures
            seq_bits(r@) == mat_vec_bits(self@, seq_bits(rhs@)),
    {
        let rows = self.rows();
        let cols = self.cols();
        let mut res: Vec<Fp> = Vec::new();
        for i in 0..rows
            invariant
                self.wf(),
                rows == self@.len(),
                cols == self@[0].len(),
                rhs@.len() == cols,
                res@.len() == i,
                forall|a: int| 0 <= a < i ==> (#[trigger] res@[a]).bits == dot_prefix(
                    seq_bits(rhs@),
                    self@[a],
                    cols as int,
                ),
        {
            let mut acc = Fp::zero();
            for t in 0..cols
                invariant
                    self.wf(),
                    i < rows,
                    rows == self@.len(),
                    cols == self@[0].len(),
                    rhs@.len() == cols,
                    acc.bits == dot_prefix(seq_bits(rhs@), self@[i as int], t as int),
            {
                acc = fp_add(acc, fp_mul(rhs[t], self.get(i, t)));
            }
            res.push(acc);
        }
        proof {
            assert(seq_bits(res@) =~= mat_vec_bits(self@, seq_bits(rhs@)));
        }
        res
    }

    /// Matrix minus matrix; the dimensions must match exactly.
    pub fn sub(&self, rhs: &Mat) -> (r: Mat)
        requires
            self.wf(),
            rhs.wf(),
            self@.len() == rhs@.len(),
            self@[0].len() == rhs@[0].len(),
        ensures
            r.wf(),
            r@ == mat_sub_bits(self@, rhs@),
    {
        let rows = self.rows();
        let cols = self.cols();
        let mut res = Mat::new(rows, cols);
        for i in 0..rows
            invariant
                self.wf(),
                rhs.wf(),
                res.wf(),
                rows == self@.len(),
                cols == self@[0].len(),
                rhs@.len() == rows,
                rhs@[0].len() == cols,
                res@.len() == rows,
                res@[0].len() == cols,
                forall|a: int, b: int| 0 <= a < rows && 0 <= b < cols ==> #[trigger] res@[a][b]
                    == if a < i {
                        sub_bits(self@[a][b], rhs@[a][b])
                    } else {
                        POS_ZERO
                    },
        {
            for j in 0..cols
                invariant
                    self.wf(),
                    rhs.wf(),
                    res.wf(),
                    i < rows,
                    rows == self@.len(),
                    cols == self@[0].len(),
                    rhs@.len() == rows,
                    rhs@[0].len() == cols,
                    res@.len() == rows,
                    res@[0].len() == cols,
                    forall|a: int, b: int| 0 <= a < rows && 0 <= b < cols ==> #[trigger] res@[a][b]
                        == if a < i || (a == i && b < j) {
                            sub_bits(self@[a][b], rhs@[a][b])
                        } else {
                            POS_ZERO
                        },
            {
                let v = fp_sub(self.get(i, j), rhs.get(i, j));
                res.set(i, j, v);
            }
        }
        proof {
            let target = mat_sub_bits(self@, rhs@);
            assert forall|a: int| 0 <= a < res@.len() implies res@[a] =~= target[a] by {}
            assert(res@ =~= target);
        }
        res
    }

    /// Scalar times matrix: every entry multiplied by the scalar.
    pub fn scalar_mul(&self, s: Fp) -> (r: Mat)
        requires
            self.wf(),
        ensures
            r.wf(),
            r@ == scalar_mul_bits(self@, s.bits),
    {
        let rows = self.rows();
        let cols = self.cols();
        let mut res = Mat::new(rows, cols);
        for i in 0..rows
            invariant
                self.wf(),
                res.wf(),
                rows == self@.len(),
                cols == self@[0].len(),
                res@.len() == rows,
                res@[0].len() == cols,
                forall|a: int, b: int| 0 <= a < rows && 0 <= b < cols ==> #[trigger] res@[a][b]
                    == if a < i {
                        mul_bits(self@[a][b], s.bits)
                    } else {
                        POS_ZERO
                    },
        {
            for j in 0..cols
                invariant
                    self.wf(),
                    res.wf(),
                    i < rows,
                    rows == self@.len(),
                    cols == self@[0].len(),
                    res@.len() == rows,
                    res@[0].len() == cols,
                    forall|a: int, b: int| 0 <= a < rows && 0 <= b < cols ==> #[trigger] res@[a][b]
                        == if a < i || (a == i && b < j) {
                            mul_bits(self@[a][b], s.bits)
                        } else {
                            POS_ZERO
                        },
            {
                let v = fp_mul(self.get(i, j), s);
                res.set(i, j, v);
            }
        }
        proof {
            let target = scalar_mul_bits(self@, s.bits);
            assert forall|a: int| 0 <= a < res@.len() implies res@[a] =~= target[a] by {}
            assert(res@ =~= target);
        }
        res
    }

    /// The maximum magnitude of any entry, folded in row-major order
    /// from negative infinity, ignoring NaN entries.
    pub fn max(&self) -> (r: Fp)
        requires
            self.wf(),
        ensures
            r.bits == mat_max_bits(self@),
    {
        let rows = self.rows();
        let cols = self.cols();
        let mut acc = Fp::from_bits(NEG_INF_BITS);
        for i in 0..rows
            invariant
                self.wf(),
                rows == self@.len(),
                cols == self@[0].len(),
                acc.bits == max_grid_prefix(self@, NEG_INF_BITS, i as int),
        {
            for j in 0..cols
                invariant
                    self.wf(),
                    i < rows,
                    rows == self@.len(),
                    cols == self@[0].len(),
                    acc.bits == max_row_prefix(
                        self@[i as int],
                        max_grid_prefix(self@, NEG_INF_BITS, i as int),
                        j as int,
                    ),
            {
                acc = fp_max(acc, fp_abs(self.get(i, j)));
            }
        }
        acc
    }

    /// An entry-for-entry copy of the matrix.
    pub fn duplicate(&self) -> (r: Mat)
        requires
            self.wf(),
        ensures
            r.wf(),
            r@ == self@,
    {
        let rows = self.rows();
        let cols = self.cols();
        let mut res = Mat::new(rows, cols);
        for i in 0..rows
            invariant
                self.wf(),
                res.wf(),
                rows == self@.len(),
                cols == self@[0].len(),
                res@.len() == rows,
                res@[0].len() == cols,
                forall|a: int, b: int| 0 <= a < rows && 0 <= b < cols ==> #[trigger] res@[a][b]
                    == if a < i {
                        self@[a][b]
                    } else {
                        POS_ZERO
                    },
        {
            for j in 0..cols
                invariant
                    self.wf(),
                    res.wf(),
                    i < rows,
                    rows == self@.len(),
                    cols == self@[0].len(),
                    res@.len() == rows,
                    res@[0].len() == cols,
                    forall|a: int, b: int| 0 <= a < rows && 0 <= b < cols ==> #[trigger] res@[a][b]
                        == if a < i || (a == i && b < j) {
                            self@[a][b]
                        } else {
                            POS_ZERO
                        },
            {
                let v = self.get(i, j);
                res.set(i, j, v);
            }
        }
        proof {
            assert forall|a: int| 0 <= a < res@.len() implies res@[a] =~= self@[a] by {}
            assert(res@ =~= self@);
        }
        res
    }

    /// The condition number estimate for this matrix, given its
    /// inverse: the product of the two norms.
    pub fn k<N: crate::norm::Norm>(&self, inv: &Mat) -> (r: Fp)
        requires
            self.wf(),
            inv.wf(),
        ensures
            r.bits == mul_bits(N::spec_norm(self@), N::spec_norm(inv@)),
    {
        fp_mul(N::norm(self), N::norm(inv))
    }
}

} // verus!
