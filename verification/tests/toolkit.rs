//! End-to-end tests of the linear-algebra toolkit, driven through the
//! public API with ordinary floating-point values.

use linalg::eigenvalue::{EigenSolve, InversePowerMethod, PowerMethod, find_max_mag};
use linalg::fp::{Fp, fp_abs, fp_add, fp_div, fp_eq, fp_lt, fp_max, fp_mul, fp_sub};
use linalg::invert::{AugmentedMat, Invert};
use linalg::lu_dec::{Doolittle, LuDec};
use linalg::mat::{Mat, RowOperation};
use linalg::mat_eqn_solver::{LuDecompSolver, MatEqnSolver, ReverseSub};
use linalg::norm::{LInf, Norm, identity_condition_number};
use linalg::reduce_upper::BasicReduceUpper;
use linalg::upper_triangle::{Gaussian, UpperTriangle};

fn fp(x: f64) -> Fp {
    Fp::from_bits(x.to_bits())
}

fn val(x: Fp) -> f64 {
    f64::from_bits(x.to_bits())
}

fn mat_from(rows: &[&[f64]]) -> Mat {
    let mut m = Mat::new(rows.len(), rows[0].len());
    for (i, row) in rows.iter().enumerate() {
        for (j, v) in row.iter().enumerate() {
            m.set(i, j, fp(*v));
        }
    }
    m
}

fn vec_from(xs: &[f64]) -> Vec<Fp> {
    xs.iter().map(|v| fp(*v)).collect()
}

fn entry(m: &Mat, i: usize, j: usize) -> f64 {
    val(m.get(i, j))
}

fn assert_close(a: f64, b: f64, tol: f64) {
    assert!(
        (a - b).abs() <= tol,
        "expected {} to be within {} of {}",
        a,
        tol,
        b
    );
}

fn assert_mat_close(m: &Mat, rows: &[&[f64]], tol: f64) {
    assert_eq!(m.rows(), rows.len());
    assert_eq!(m.cols(), rows[0].len());
    for (i, row) in rows.iter().enumerate() {
        for (j, v) in row.iter().enumerate() {
            assert_close(entry(m, i, j), *v, tol);
        }
    }
}

#[test]
fn scalar_helpers_round_trip() {
    assert_eq!(val(fp(1.5)), 1.5);
    assert_eq!(val(Fp::zero()), 0.0);
    assert_eq!(val(Fp::one()), 1.0);
    assert_eq!(Fp::from_bits(42).to_bits(), 42);
}

#[test]
fn scalar_arithmetic_matches_hardware() {
    assert_eq!(val(fp_add(fp(1.25), fp(2.5))), 3.75);
    assert_eq!(val(fp_sub(fp(1.0), fp(3.0))), -2.0);
    assert_eq!(val(fp_mul(fp(1.5), fp(-2.0))), -3.0);
    assert_eq!(val(fp_div(fp(1.0), fp(3.0))), 1.0 / 3.0);
    assert_eq!(val(fp_div(fp(1.0), fp(0.0))), f64::INFINITY);
    assert_eq!(val(fp_abs(fp(-7.5))), 7.5);
    assert_eq!(val(fp_max(fp(2.0), fp(-3.0))), 2.0);
    assert!(fp_lt(fp(-1.0), fp(0.5)));
    assert!(!fp_lt(fp(0.5), fp(0.5)));
    assert!(fp_eq(fp(0.0), fp(-0.0)));
    assert!(!fp_eq(fp(f64::NAN), fp(f64::NAN)));
}

#[test]
fn scalar_comparisons_match_hardware_on_edge_values() {
    let samples = [
        0.0,
        -0.0,
        1.0,
        -1.0,
        0.5,
        1.5,
        f64::INFINITY,
        f64::NEG_INFINITY,
        f64::MIN_POSITIVE,
        -f64::MIN_POSITIVE,
        5e-324,
        f64::MAX,
        f64::NAN,
    ];
    for a in samples {
        for b in samples {
            assert_eq!(fp_lt(fp(a), fp(b)), a < b, "lt on {} {}", a, b);
            assert_eq!(fp_eq(fp(a), fp(b)), a == b, "eq on {} {}", a, b);
        }
    }
}

#[test]
fn max_ignores_nan_entries() {
    let m = mat_from(&[&[f64::NAN, 3.0]]);
    assert_eq!(val(m.max()), 3.0);
}

#[test]
fn find_max_mag_passes_nan_by() {
    assert_eq!(find_max_mag(&vec_from(&[f64::NAN, 2.0])), 1);
}

#[test]
fn matrix_construction_and_accessors() {
    let mut m = Mat::new(2, 3);
    assert_eq!(m.rows(), 2);
    assert_eq!(m.cols(), 3);
    assert!(!m.is_square());
    assert_eq!(entry(&m, 1, 2), 0.0);
    m.set(1, 2, fp(4.5));
    assert_eq!(entry(&m, 1, 2), 4.5);

    let i3 = Mat::new_i(3);
    assert!(i3.is_square());
    for r in 0..3 {
        for c in 0..3 {
            assert_eq!(entry(&i3, r, c), if r == c { 1.0 } else { 0.0 });
        }
    }
}

#[test]
fn hilbert_entries_are_exact_reciprocals() {
    let h = Mat::new_hilbert(3);
    assert_eq!(entry(&h, 0, 0), 1.0);
    assert_eq!(entry(&h, 0, 1), 0.5);
    assert_eq!(entry(&h, 1, 2), 0.25);
    assert_eq!(entry(&h, 2, 2), 1.0 / 5.0);
}

#[test]
fn row_operations_apply_exactly() {
    let mut m = mat_from(&[&[1.0, 2.0], &[3.0, 4.0]]);
    m.apply(&RowOperation::Swap(0, 1));
    assert_mat_close(&m, &[&[3.0, 4.0], &[1.0, 2.0]], 0.0);
    m.apply(&RowOperation::Scale {
        row: 0,
        scale: fp(2.0),
    });
    assert_mat_close(&m, &[&[6.0, 8.0], &[1.0, 2.0]], 0.0);
    m.apply(&RowOperation::Cmb {
        src: 1,
        scale: fp(2.0),
        dest: 0,
    });
    assert_mat_close(&m, &[&[4.0, 4.0], &[1.0, 2.0]], 0.0);
}

#[test]
fn iteration_returns_rows_and_columns() {
    let m = mat_from(&[&[1.0, 2.0, 3.0], &[4.0, 5.0, 6.0]]);
    let row = m.iter_row(1);
    assert_eq!(row.iter().map(|v| val(*v)).collect::<Vec<_>>(), vec![
        4.0, 5.0, 6.0
    ]);
    let col = m.iter_col(2);
    assert_eq!(col.iter().map(|v| val(*v)).collect::<Vec<_>>(), vec![
        3.0, 6.0
    ]);
    let all = m.iter();
    assert_eq!(all.len(), 2);
    assert_eq!(val(all[0][1]), 2.0);
}

#[test]
fn matrix_arithmetic_exact_values() {
    let a = mat_from(&[&[1.0, 2.0], &[3.0, 4.0]]);
    let b = mat_from(&[&[5.0, 6.0], &[7.0, 8.0]]);
    let p = a.mul(&b);
    assert_mat_close(&p, &[&[19.0, 22.0], &[43.0, 50.0]], 0.0);

    let d = a.sub(&b);
    assert_mat_close(&d, &[&[-4.0, -4.0], &[-4.0, -4.0]], 0.0);

    let s = a.scalar_mul(fp(2.0));
    assert_mat_close(&s, &[&[2.0, 4.0], &[6.0, 8.0]], 0.0);

    let y = a.mul_vec(&vec_from(&[1.0, -1.0]));
    assert_eq!(val(y[0]), -1.0);
    assert_eq!(val(y[1]), -1.0);

    let rect = mat_from(&[&[1.0, 0.0, 2.0], &[0.0, 1.0, 1.0]]);
    let tall = mat_from(&[&[1.0], &[2.0], &[3.0]]);
    let rp = rect.mul(&tall);
    assert_mat_close(&rp, &[&[7.0], &[5.0]], 0.0);
}

#[test]
fn max_magnitude_entry() {
    let m = mat_from(&[&[1.0, -9.5], &[3.0, 4.0]]);
    assert_eq!(val(m.max()), 9.5);
}

#[test]
fn find_max_mag_prefers_first_of_ties() {
    assert_eq!(find_max_mag(&vec_from(&[1.0, -3.0, 2.0])), 1);
    assert_eq!(find_max_mag(&vec_from(&[-2.0, 2.0, 1.0])), 0);
    assert_eq!(find_max_mag(&vec_from(&[0.0])), 0);
}

#[test]
fn linf_norm_is_greatest_column_sum() {
    let m = mat_from(&[&[1.0, -2.0], &[3.0, 4.0]]);
    assert_eq!(val(LInf::norm(&m)), 6.0);
}

#[test]
fn gaussian_triangularizes_and_logs_operations() {
    let mut m = mat_from(&[&[2.0, 1.0], &[4.0, 5.0]]);
    let ops = Gaussian::run(&mut m).expect("regular matrix triangularizes");
    assert_eq!(ops.len(), 1);
    assert!(matches!(ops[0], RowOperation::Cmb { src: 0, dest: 1, .. }));
    assert_eq!(entry(&m, 0, 0), 2.0);
    assert_eq!(entry(&m, 0, 1), 1.0);
    assert_eq!(entry(&m, 1, 1), 3.0);
}

#[test]
fn gaussian_fails_on_zero_pivot_column() {
    let mut m = mat_from(&[&[0.0, 0.0], &[0.0, 1.0]]);
    assert!(Gaussian::run(&mut m).is_err());
}

#[test]
fn gaussian_fails_on_zero_final_diagonal() {
    let mut m = mat_from(&[&[1.0, 1.0], &[1.0, 1.0]]);
    assert!(Gaussian::run(&mut m).is_err());
}

#[test]
fn invert_times_original_is_identity() {
    let a = mat_from(&[&[1.0, 1.0, 1.0], &[0.0, 2.0, 5.0], &[2.0, 5.0, -1.0]]);
    let inv = AugmentedMat::<Gaussian, BasicReduceUpper>::invert(a.duplicate())
        .expect("invertible matrix inverts");
    let prod = a.mul(&inv);
    assert_mat_close(
        &prod,
        &[
            &[1.0, 0.0, 0.0],
            &[0.0, 1.0, 0.0],
            &[0.0, 0.0, 1.0],
        ],
        1e-9,
    );
}

#[test]
fn invert_one_by_one_is_exact() {
    let a = mat_from(&[&[2.0]]);
    let inv = AugmentedMat::<Gaussian, BasicReduceUpper>::invert(a).expect("invertible");
    assert_eq!(entry(&inv, 0, 0), 0.5);
}

#[test]
fn invert_fails_on_zero_pivot_column() {
    let a = mat_from(&[&[0.0, 0.0], &[0.0, 1.0]]);
    let r = AugmentedMat::<Gaussian, BasicReduceUpper>::invert(a);
    assert!(r.is_err(), "a structurally singular matrix must be refused");
}

#[test]
fn lu_reconstructs_swap_free_matrix() {
    let a = mat_from(&[&[1.0, 1.0, 1.0], &[0.0, 2.0, 5.0], &[2.0, 5.0, -1.0]]);
    let (l, u) = Doolittle::<Gaussian>::dec(a.duplicate()).expect("swap-free matrix decomposes");
    let prod = l.mul(&u);
    for i in 0..3 {
        for j in 0..3 {
            assert_close(entry(&prod, i, j), entry(&a, i, j), 1e-9);
        }
    }
}

#[test]
fn lu_lower_factor_is_unit_lower_triangular() {
    let a = mat_from(&[&[4.0, 3.0], &[6.0, 3.0]]);
    let (l, u) = Doolittle::<Gaussian>::dec(a).expect("decomposes");
    assert_eq!(entry(&l, 0, 0), 1.0);
    assert_eq!(entry(&l, 1, 1), 1.0);
    assert_eq!(entry(&l, 0, 1), 0.0);
    assert_eq!(entry(&l, 1, 0), 1.5);
    assert_eq!(entry(&u, 0, 0), 4.0);
    assert_eq!(entry(&u, 1, 1), -1.5);
}

#[test]
fn lu_with_required_swap_does_not_reconstruct() {
    // a known limitation: swaps are ignored by the lower-factor
    // capture, so the product of the factors differs from the input
    let a = mat_from(&[&[0.0, 1.0], &[1.0, 0.0]]);
    let (l, u) = Doolittle::<Gaussian>::dec(a.duplicate()).expect("pivoting finds a nonzero row");
    let prod = l.mul(&u);
    let diff = a.sub(&prod);
    assert!(
        val(diff.max()) > 0.5,
        "the swapped factorization must not reconstruct the input"
    );
}

#[test]
fn lu_fails_on_singular_matrix() {
    let a = mat_from(&[&[1.0, 2.0], &[2.0, 4.0]]);
    assert!(Doolittle::<Gaussian>::dec(a).is_err());
}

#[test]
fn both_solvers_agree_on_swap_free_system() {
    let m = mat_from(&[&[2.0, 1.0], &[1.0, 3.0]]);
    let b = [3.0, 5.0];
    let x1 = ReverseSub::<Gaussian>::solve(m.duplicate(), vec_from(&b)).expect("solvable");
    let x2 = LuDecompSolver::<Doolittle<Gaussian>>::solve(m.duplicate(), vec_from(&b))
        .expect("solvable");
    // the exact solution is x = [0.8, 1.4]
    assert_close(val(x1[0]), 0.8, 1e-12);
    assert_close(val(x1[1]), 1.4, 1e-12);
    for k in 0..2 {
        assert_close(val(x1[k]), val(x2[k]), 1e-12);
    }
}

#[test]
fn solvers_fail_on_singular_system() {
    let m = mat_from(&[&[1.0, 1.0], &[1.0, 1.0]]);
    assert!(ReverseSub::<Gaussian>::solve(m.duplicate(), vec_from(&[1.0, 2.0])).is_err());
    assert!(
        LuDecompSolver::<Doolittle<Gaussian>>::solve(m, vec_from(&[1.0, 2.0])).is_err()
    );
}

#[test]
fn identity_condition_number_is_exactly_one() {
    for n in 1..6 {
        assert_eq!(val(identity_condition_number(n)), 1.0);
    }
}

#[test]
fn identity_condition_number_through_invert_is_exactly_one() {
    let i4 = Mat::new_i(4);
    let inv = AugmentedMat::<Gaussian, BasicReduceUpper>::invert(i4.duplicate())
        .expect("the identity inverts");
    assert_eq!(val(i4.k::<LInf>(&inv)), 1.0);
}

#[test]
fn hilbert_condition_number_strictly_increases() {
    let mut prev = 0.0_f64;
    for order in 2..=6 {
        let h = Mat::new_hilbert(order);
        let inv = AugmentedMat::<Gaussian, BasicReduceUpper>::invert(h.duplicate())
            .expect("hilbert matrices invert");
        let k = val(h.k::<LInf>(&inv));
        assert!(
            k > prev,
            "condition number of order {} ({}) must exceed that of order {} ({})",
            order,
            k,
            order - 1,
            prev
        );
        prev = k;
    }
}

#[test]
fn power_iteration_finds_dominant_eigenvalue() {
    let a = mat_from(&[&[2.0, 1.0, 1.0], &[1.0, 2.0, 1.0], &[1.0, 1.0, 2.0]]);
    let guess = vec_from(&[0.3, -0.7, 0.5]);
    let e = PowerMethod::eigen_solve(&a, fp(0.0), fp(1e-9), guess).expect("converges");
    assert_close(val(e), 4.0, 1e-6);
}

#[test]
fn power_iteration_exceeding_cap_fails() {
    let a = mat_from(&[&[1.0]]);
    // a negative accuracy can never be met, so the cap must trip
    let r = PowerMethod::eigen_solve(&a, fp(0.0), fp(-1.0), vec_from(&[1.0]));
    assert!(r.is_err());
}

#[test]
fn inverse_power_iteration_finds_nearest_eigenvalue() {
    let a = mat_from(&[&[2.0, 0.0], &[0.0, 1.0]]);
    let guess = vec_from(&[0.4, 0.6]);
    let e = InversePowerMethod::<LuDecompSolver<Doolittle<Gaussian>>>::eigen_solve(
        &a,
        fp(0.9),
        fp(1e-9),
        guess,
    )
    .expect("converges");
    assert_close(val(e), 1.0, 1e-6);
}

#[test]
fn inverse_power_iteration_fails_on_exact_eigenvalue_shift() {
    let a = mat_from(&[&[1.0, 0.0], &[0.0, 2.0]]);
    let r = InversePowerMethod::<LuDecompSolver<Doolittle<Gaussian>>>::eigen_solve(
        &a,
        fp(1.0),
        fp(1e-9),
        vec_from(&[0.5, 0.5]),
    );
    assert!(r.is_err(), "a shift equal to an eigenvalue makes the shifted system singular");
}
