//! Dense linear algebra over IEEE-754 double-precision scalars:
//! elementary row operations, Gaussian triangularization, reduction to
//! the identity, LU decomposition, inversion, linear-system solving,
//! norms and condition numbers, and iterative eigenvalue solvers.
//!
//! Scalars are carried as their 64-bit patterns ([`fp::Fp`]), so that
//! every algorithm has an exact specification: comparisons, absolute
//! value and maxima are verified bit logic, and the four rounding
//! operations are named softfloat functions of the operand patterns.
//! The strategies (triangularization, reduction) return the ordered
//! log of the elementary operations they performed, and replaying that
//! log is proved to reproduce their result — the mechanism that
//! inversion, LU capture and equation solving share.

pub mod eigenvalue;
pub mod fp;
pub mod invert;
pub mod lu_dec;
pub mod mat_eqn_solver;
pub mod mat;
pub mod norm;
pub mod reduce_upper;
pub mod upper_triangle;
