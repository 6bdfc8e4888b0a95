//! Iterative eigenvalue solvers: power iteration for the dominant
//! eigenvalue, and shifted inverse iteration for the eigenvalue
//! nearest a given shift.
//!
//! Both loop until two successive estimates differ by less than the
//! given accuracy, capped at a fixed iteration budget. The initial
//! guess vector is an explicit parameter, so that a caller owns the
//! randomness and runs are reproducible; the contract holds for every
//! guess.

use vstd::prelude::*;
use core::marker::PhantomData;
use crate::fp::{
    Fp, ONE_BITS, POS_ZERO, abs_bits, add_bits, div_bits, eq_bits, fp_abs, fp_add, fp_div, fp_eq,
    fp_lt, fp_max, fp_sub, lt_bits, max_bits, sub_bits,
};
use crate::mat::{Mat, clone_vec, id_grid, mat_sub_bits, mat_vec_bits, scalar_mul_bits, seq_bits};
use crate::mat_eqn_solver::MatEqnSolver;

verus! {

/// The iteration budget of both solvers.
pub const MAX_ITER: usize = 10000;

/// The index the comparison fold keeps after seeing the first t
/// entries: the running index is kept when the NaN-ignoring maximum of
/// the two magnitudes compares equal to the running magnitude, and
/// moves to the newer entry otherwise — so ties keep the earlier
/// index.
pub open spec fn max_mag_upto(x: Seq<u64>, t: int) -> int
    decreases t,
{
    if t <= 1 {
        0
    } else {
        let acc = max_mag_upto(x, t - 1);
        if eq_bits(max_bits(abs_bits(x[acc]), abs_bits(x[t - 1])), abs_bits(x[acc])) {
            acc
        } else {
            t - 1
        }
    }
}

/// The index of the entry of largest magnitude, by the fold above.
pub open spec fn max_mag_index(x: Seq<u64>) -> int {
    max_mag_upto(x, x.len() as int)
}

/// One power-iteration state, unwound: with no budget left the run has
/// failed; otherwise the estimate is the entry of the matrix-vector
/// product at the position where the current vector peaks, the run
/// converges when the estimate moved less than the accuracy, and
/// otherwise continues from the product normalized by its own peak
/// entry.
pub open spec fn power_iter(
    g: Seq<Seq<u64>>,
    x: Seq<u64>,
    u_prev: u64,
    acc: u64,
    fuel: nat,
) -> Result<u64, ()>
    decreases fuel,
{
    if fuel == 0 {
        Err(())
    } else {
        let p = max_mag_index(x);
        let y = mat_vec_bits(g, x);
        let u = y[p];
        if lt_bits(abs_bits(sub_bits(u, u_prev)), acc) {
            Ok(u)
        } else {
            let q = max_mag_index(y);
            let x1 = Seq::new(y.len(), |k: int| div_bits(y[k], y[q]));
            power_iter(g, x1, u, acc, (fuel - 1) as nat)
        }
    }
}

/// One shifted-inverse-iteration state, unwound: each step solves the
/// shifted system instead of multiplying, a failed solve fails the
/// run, and the estimate is the reciprocal of the solution's entry at
/// the current vector's peak, plus the shift.
pub open spec fn inverse_power_iter<S: MatEqnSolver>(
    gm: Seq<Seq<u64>>,
    q: u64,
    x: Seq<u64>,
    u_prev: u64,
    acc: u64,
    fuel: nat,
) -> Result<u64, ()>
    decreases fuel,
{
    if fuel == 0 {
        Err(())
    } else {
        let p = max_mag_index(x);
        if !S::spec_ok(gm, x) {
            Err(())
        } else {
            let y = S::spec_x(gm, x);
            let u = add_bits(div_bits(ONE_BITS, y[p]), q);
            if lt_bits(abs_bits(sub_bits(u, u_prev)), acc) {
                Ok(u)
            } else {
                let qi = max_mag_index(y);
                let x1 = Seq::new(y.len(), |k: int| div_bits(y[k], y[qi]));
                inverse_power_iter::<S>(gm, q, x1, u, acc, (fuel - 1) as nat)
            }
        }
    }
}

/// The index of the entry of largest magnitude of a nonempty vector,
/// ties keeping the earliest.
pub fn find_max_mag(v: &Vec<Fp>) -> (r: usize)
    requires
        v@.len() >= 1,
    ensures
        r as int == max_mag_index(seq_bits(v@)),
        r < v@.len(),
{
    let n = v.len();
    let mut acc: usize = 0;
    for t in 1..n
        invariant
            n == v@.len(),
            1 <= n,
            acc < t,
            acc as int == max_mag_upto(seq_bits(v@), t as int),
    {
        let ma = fp_max(fp_abs(v[acc]), fp_abs(v[t]));
        if fp_eq(ma, fp_abs(v[acc])) {
        } else {
            acc = t;
        }
    }
    acc
}

/// A method of estimating one eigenvalue of a square matrix.
pub trait EigenSolve {
    /// The estimate the method returns from this grid, shift,
    /// accuracy and initial guess, or the failure.
    spec fn spec_eigen(g: Seq<Seq<u64>>, q: u64, acc: u64, x0: Seq<u64>) -> Result<u64, ()>;

    /// Estimate an eigenvalue: `q` is the shift (ignored by methods
    /// that seek the dominant eigenvalue), `accuracy` the convergence
    /// bound, and `guess` the initial vector, one entry per row.
    fn eigen_solve(mat: &Mat, q: Fp, accuracy: Fp, guess: Vec<Fp>) -> (r: Result<Fp, ()>)
        requires
            mat.wf(),
            mat@.len() == mat@[0].len(),
            guess@.len() == mat@.len(),
        ensures
            r is Ok <==> Self::spec_eigen(mat@, q.bits, accuracy.bits, seq_bits(guess@)) is Ok,
            r matches Ok(u) ==> Self::spec_eigen(mat@, q.bits, accuracy.bits, seq_bits(guess@))
                == Result::<u64, ()>::Ok(u.bits),
    ;
}

/// Power iteration: converges toward the eigenvalue of largest
/// magnitude.
pub struct PowerMethod;

impl EigenSolve for PowerMethod {
    open spec fn spec_eigen(g: Seq<Seq<u64>>, q: u64, acc: u64, x0: Seq<u64>) -> Result<u64, ()> {
        power_iter(g, x0, POS_ZERO, acc, MAX_ITER as nat)
    }

    fn eigen_solve(mat: &Mat, q: Fp, accuracy: Fp, guess: Vec<Fp>) -> (r: Result<Fp, ()>) {
        let ghost x0 = seq_bits(guess@);
        let rows = mat.rows();
        let mut x = guess;
        let mut u_prev = Fp::zero();
        let mut left: usize = MAX_ITER;
        loop
            invariant
                mat.wf(),
                mat@.len() == rows,
                mat@[0].len() == rows,
                1 <= rows,
                x@.len() == rows,
                left <= MAX_ITER,
                x0 == seq_bits(guess@),
                power_iter(mat@, x0, POS_ZERO, accuracy.bits, MAX_ITER as nat) == power_iter(
                    mat@,
                    seq_bits(x@),
                    u_prev.bits,
                    accuracy.bits,
                    left as nat,
                ),
            decreases left,
        {
            if left == 0 {
                return Err(());
            }
            let p = find_max_mag(&x);
            let y = mat.mul_vec(&x);
            let u = y[p];
            if fp_lt(fp_abs(fp_sub(u, u_prev)), accuracy) {
                return Ok(u);
            }
            let qi = find_max_mag(&y);
            let ypk = y[qi];
            let mut x1: Vec<Fp> = Vec::new();
            let ylen = y.len();
            for k in 0..ylen
                invariant
                    ylen == y@.len(),
                    x1@.len() == k,
                    ypk == y@[qi as int],
                    qi < ylen,
                    forall|t: int| 0 <= t < k ==> (#[trigger] x1@[t]).bits == div_bits(
                        seq_bits(y@)[t],
                        seq_bits(y@)[max_mag_index(seq_bits(y@))],
                    ),
                    qi as int == max_mag_index(seq_bits(y@)),
            {
                x1.push(fp_div(y[k], ypk));
            }
            proof {
                let ybits = seq_bits(y@);
                assert(seq_bits(x1@) =~= Seq::new(
                    ybits.len(),
                    |k: int| div_bits(ybits[k], ybits[max_mag_index(ybits)]),
                ));
            }
            x = x1;
            u_prev = u;
            left = left - 1;
        }
    }
}

/// Shifted inverse iteration over a pluggable equation solver:
/// converges toward the eigenvalue nearest the shift.
pub struct InversePowerMethod<S: MatEqnSolver> {
    s: PhantomData<S>,
}

impl<S: MatEqnSolver> EigenSolve for InversePowerMethod<S> {
    open spec fn spec_eigen(g: Seq<Seq<u64>>, q: u64, acc: u64, x0: Seq<u64>) -> Result<u64, ()> {
        let gm = mat_sub_bits(g, scalar_mul_bits(id_grid(g.len() as int), q));
        inverse_power_iter::<S>(gm, q, x0, POS_ZERO, acc, MAX_ITER as nat)
    }

    fn eigen_solve(mat: &Mat, q: Fp, accuracy: Fp, guess: Vec<Fp>) -> (r: Result<Fp, ()>) {
        let ghost x0 = seq_bits(guess@);
        let rows = mat.rows();
        let ident = Mat::new_i(rows);
        let shifted = ident.scalar_mul(q);
        let mm = mat.sub(&shifted);
        let ghost gm = mm@;
        let mut x = guess;
        let mut u_prev = Fp::zero();
        let mut left: usize = MAX_ITER;
        loop
            invariant
                mm.wf(),
                mm@ == gm,
                gm.len() == rows,
                gm[0].len() == rows,
                1 <= rows,
                rows == mat@.len(),
                x@.len() == rows,
                left <= MAX_ITER,
                x0 == seq_bits(guess@),
                gm == mat_sub_bits(mat@, scalar_mul_bits(id_grid(mat@.len() as int), q.bits)),
                inverse_power_iter::<S>(gm, q.bits, x0, POS_ZERO, accuracy.bits, MAX_ITER as nat)
                    == inverse_power_iter::<S>(
                    gm,
                    q.bits,
                    seq_bits(x@),
                    u_prev.bits,
                    accuracy.bits,
                    left as nat,
                ),
            decreases left,
        {
            if left == 0 {
                return Err(());
            }
            let p = find_max_mag(&x);
            let y = match S::solve(mm.duplicate(), clone_vec(&x)) {
                Ok(y) => y,
                Err(()) => {
                    return Err(());
                },
            };
            let u = fp_add(fp_div(Fp::one(), y[p]), q);
            if fp_lt(fp_abs(fp_sub(u, u_prev)), accuracy) {
                return Ok(u);
            }
            let qi = find_max_mag(&y);
            let ypk = y[qi];
            let mut x1: Vec<Fp> = Vec::new();
            let ylen = y.len();
            for k in 0..ylen
                invariant
                    ylen == y@.len(),
                    x1@.len() == k,
                    ypk == y@[qi as int],
                    qi < ylen,
                    forall|t: int| 0 <= t < k ==> (#[trigger] x1@[t]).bits == div_bits(
                        seq_bits(y@)[t],
                        seq_bits(y@)[max_mag_index(seq_bits(y@))],
                    ),
                    qi as int == max_mag_index(seq_bits(y@)),
            {
                x1.push(fp_div(y[k], ypk));
            }
            proof {
                let ybits = seq_bits(y@);
                assert(seq_bits(x1@) =~= Seq::new(
                    ybits.len(),
                    |k: int| div_bits(ybits[k], ybits[max_mag_index(ybits)]),
                ));
            }
            x = x1;
            u_prev = u;
            left = left - 1;
        }
    }
}

} // verus!
