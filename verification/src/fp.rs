//! IEEE-754 binary64 scalars, carried as their 64-bit patterns.
//!
//! Comparison, absolute value, maximum and the zero test are pure bit
//! logic, implemented here and verified against exact specifications.
//! Rounding arithmetic (add, sub, mul, div, conversion from an integer)
//! goes through trusted wrappers over `rustc_apfloat`, a software
//! implementation of IEEE-754 whose result is a function of the operand
//! bit patterns alone; each wrapper's result is named by an
//! uninterpreted spec function over those patterns.

use vstd::prelude::*;
use rustc_apfloat::Float;

verus! {

/// Sign bit of a binary64 pattern.
pub const SIGN_MASK: u64 = 0x8000_0000_0000_0000;
/// Everything but the sign bit: exponent and significand.
pub const MAG_MASK: u64 = 0x7FFF_FFFF_FFFF_FFFF;
/// Exponent field of a binary64 pattern.
pub const EXP_MASK: u64 = 0x7FF0_0000_0000_0000;
/// Significand field of a binary64 pattern.
pub const FRAC_MASK: u64 = 0x000F_FFFF_FFFF_FFFF;
/// The pattern of `+0.0`.
pub const POS_ZERO: u64 = 0;
/// The pattern of `-0.0`.
pub const NEG_ZERO: u64 = 0x8000_0000_0000_0000;
/// The pattern of `1.0`.
pub const ONE_BITS: u64 = 0x3FF0_0000_0000_0000;
/// The pattern of negative infinity.
pub const NEG_INF_BITS: u64 = 0xFFF0_0000_0000_0000;

/// An IEEE-754 binary64 scalar, represented by its bit pattern.
#[derive(Clone, Copy, PartialEq, Eq, Structural, Debug)]
pub struct Fp {
    pub bits: u64,
}

/// A pattern is a NaN when its exponent field is all ones and its
/// significand field is not zero.
pub open spec fn is_nan_bits(a: u64) -> bool {
    a & EXP_MASK == EXP_MASK && a & FRAC_MASK != 0
}

/// A pattern is a zero (of either sign) when everything but the sign is clear.
pub open spec fn is_zero_bits(a: u64) -> bool {
    a & MAG_MASK == 0
}

/// A pattern is finite when its exponent field is not all ones.
pub open spec fn is_finite_bits(a: u64) -> bool {
    a & EXP_MASK != EXP_MASK
}

/// The pattern of the absolute value: the sign bit cleared.
pub open spec fn abs_bits(a: u64) -> u64 {
    a & MAG_MASK
}

/// IEEE-754 `<` on two binary64 patterns: false on any NaN, the two
/// zeros are equal, and otherwise patterns of equal sign order by
/// magnitude (the encoding is monotone within a sign).
pub open spec fn lt_bits(a: u64, b: u64) -> bool {
    if is_nan_bits(a) || is_nan_bits(b) {
        false
    } else if is_zero_bits(a) && is_zero_bits(b) {
        false
    } else if (a & SIGN_MASK) != (b & SIGN_MASK) {
        a & SIGN_MASK != 0
    } else if a & SIGN_MASK == 0 {
        (a & MAG_MASK) < (b & MAG_MASK)
    } else {
        (a & MAG_MASK) > (b & MAG_MASK)
    }
}

/// IEEE-754 `==` on two binary64 patterns: false on any NaN, the two
/// zeros are equal, and otherwise the patterns must coincide.
pub open spec fn eq_bits(a: u64, b: u64) -> bool {
    !is_nan_bits(a) && !is_nan_bits(b) && (a == b || (is_zero_bits(a) && is_zero_bits(b)))
}

/// The maximum that ignores NaN: if one operand is NaN the other is
/// returned; otherwise the larger of the two, preferring the first
/// when neither is less than the other.
pub open spec fn max_bits(a: u64, b: u64) -> u64 {
    if is_nan_bits(a) {
        b
    } else if is_nan_bits(b) {
        a
    } else if lt_bits(a, b) {
        b
    } else {
        a
    }
}

impl Fp {
    /// Wrap a bit pattern.
    pub fn from_bits(bits: u64) -> (r: Fp)
        ensures
            r.bits == bits,
    {
        Fp { bits }
    }

    /// The bit pattern.
    pub fn to_bits(self) -> (r: u64)
        ensures
            r == self.bits,
    {
        self.bits
    }

    /// The scalar `+0.0`.
    pub fn zero() -> (r: Fp)
        ensures
            r.bits == POS_ZERO,
    {
        Fp { bits: POS_ZERO }
    }

    /// The scalar `1.0`.
    pub fn one() -> (r: Fp)
        ensures
            r.bits == ONE_BITS,
    {
        Fp { bits: ONE_BITS }
    }
}

/// Is the scalar a zero (of either sign)?
pub fn fp_is_zero(a: Fp) -> (r: bool)
    ensures
        r == is_zero_bits(a.bits),
{
    a.bits & MAG_MASK == 0
}

/// Is the scalar a NaN?
pub fn fp_is_nan(a: Fp) -> (r: bool)
    ensures
        r == is_nan_bits(a.bits),
{
    a.bits & EXP_MASK == EXP_MASK && a.bits & FRAC_MASK != 0
}

/// Absolute value: clears the sign bit.
pub fn fp_abs(a: Fp) -> (r: Fp)
    ensures
        r.bits == abs_bits(a.bits),
{
    Fp { bits: a.bits & MAG_MASK }
}

/// IEEE-754 `<`.
pub fn fp_lt(a: Fp, b: Fp) -> (r: bool)
    ensures
        r == lt_bits(a.bits, b.bits),
{
    if fp_is_nan(a) || fp_is_nan(b) {
        false
    } else if fp_is_zero(a) && fp_is_zero(b) {
        false
    } else if (a.bits & SIGN_MASK) != (b.bits & SIGN_MASK) {
        a.bits & SIGN_MASK != 0
    } else if a.bits & SIGN_MASK == 0 {
        (a.bits & MAG_MASK) < (b.bits & MAG_MASK)
    } else {
        (a.bits & MAG_MASK) > (b.bits & MAG_MASK)
    }
}

/// IEEE-754 `==`.
pub fn fp_eq(a: Fp, b: Fp) -> (r: bool)
    ensures
        r == eq_bits(a.bits, b.bits),
{
    !fp_is_nan(a) && !fp_is_nan(b) && (a.bits == b.bits || (fp_is_zero(a) && fp_is_zero(b)))
}

/// The NaN-ignoring maximum of two scalars.
pub fn fp_max(a: Fp, b: Fp) -> (r: Fp)
    ensures
        r.bits == max_bits(a.bits, b.bits),
{
    if fp_is_nan(a) {
        b
    } else if fp_is_nan(b) {
        a
    } else if fp_lt(a, b) {
        b
    } else {
        a
    }
}

/// The pattern of the rounded IEEE-754 sum of two patterns.
pub uninterp spec fn add_bits(a: u64, b: u64) -> u64;

/// The pattern of the rounded IEEE-754 difference of two patterns.
pub uninterp spec fn sub_bits(a: u64, b: u64) -> u64;

/// The pattern of the rounded IEEE-754 product of two patterns.
pub uninterp spec fn mul_bits(a: u64, b: u64) -> u64;

/// The pattern of the rounded IEEE-754 quotient of two patterns.
pub uninterp spec fn div_bits(a: u64, b: u64) -> u64;

/// The pattern of the integer rounded to the nearest binary64 value.
pub uninterp spec fn from_u64_bits(n: u64) -> u64;

/// Relies on `rustc_apfloat`'s binary64 addition, rounding to nearest,
/// ties to even: a pure function of the operand patterns. Adding `+0.0`
/// to a value other than NaN and `-0.0` returns that value exactly.
#[verifier::external_body]
pub fn fp_add(a: Fp, b: Fp) -> (r: Fp)
    ensures
        r.bits == add_bits(a.bits, b.bits),
        a.bits == POS_ZERO && !is_nan_bits(b.bits) && b.bits != NEG_ZERO ==> r.bits == b.bits,
        b.bits == POS_ZERO && !is_nan_bits(a.bits) && a.bits != NEG_ZERO ==> r.bits == a.bits,
{
    let x = rustc_apfloat::ieee::Double::from_bits(a.bits as u128);
    let y = rustc_apfloat::ieee::Double::from_bits(b.bits as u128);
    Fp { bits: (x + y).value.to_bits() as u64 }
}

/// Relies on `rustc_apfloat`'s binary64 subtraction, rounding to nearest,
/// ties to even: a pure function of the operand patterns. Subtracting
/// `+0.0` from a value other than NaN returns that value exactly.
#[verifier::external_body]
pub fn fp_sub(a: Fp, b: Fp) -> (r: Fp)
    ensures
        r.bits == sub_bits(a.bits, b.bits),
        b.bits == POS_ZERO && !is_nan_bits(a.bits) ==> r.bits == a.bits,
{
    let x = rustc_apfloat::ieee::Double::from_bits(a.bits as u128);
    let y = rustc_apfloat::ieee::Double::from_bits(b.bits as u128);
    Fp { bits: (x - y).value.to_bits() as u64 }
}

/// Relies on `rustc_apfloat`'s binary64 multiplication, rounding to
/// nearest, ties to even: a pure function of the operand patterns.
/// Multiplying a value other than NaN by `1.0` returns that value
/// exactly, and `+0.0` times a finite positive value is `+0.0`.
#[verifier::external_body]
pub fn fp_mul(a: Fp, b: Fp) -> (r: Fp)
    ensures
        r.bits == mul_bits(a.bits, b.bits),
        b.bits == ONE_BITS && !is_nan_bits(a.bits) ==> r.bits == a.bits,
        a.bits == ONE_BITS && !is_nan_bits(b.bits) ==> r.bits == b.bits,
        a.bits == POS_ZERO && is_finite_bits(b.bits) && b.bits & SIGN_MASK == 0 ==> r.bits
            == POS_ZERO,
{
    let x = rustc_apfloat::ieee::Double::from_bits(a.bits as u128);
    let y = rustc_apfloat::ieee::Double::from_bits(b.bits as u128);
    Fp { bits: (x * y).value.to_bits() as u64 }
}

/// Relies on `rustc_apfloat`'s binary64 division, rounding to nearest,
/// ties to even: a pure function of the operand patterns. Dividing a
/// value other than NaN by `1.0` returns that value exactly.
#[verifier::external_body]
pub fn fp_div(a: Fp, b: Fp) -> (r: Fp)
    ensures
        r.bits == div_bits(a.bits, b.bits),
        b.bits == ONE_BITS && !is_nan_bits(a.bits) ==> r.bits == a.bits,
{
    let x = rustc_apfloat::ieee::Double::from_bits(a.bits as u128);
    let y = rustc_apfloat::ieee::Double::from_bits(b.bits as u128);
    Fp { bits: (x / y).value.to_bits() as u64 }
}

/// Relies on `rustc_apfloat`'s conversion of an unsigned integer to
/// binary64, rounding to nearest, ties to even: a pure function of the
/// integer.
#[verifier::external_body]
pub fn fp_from_u64(n: u64) -> (r: Fp)
    ensures
        r.bits == from_u64_bits(n),
{
    let x = rustc_apfloat::ieee::Double::from_u128(n as u128).value;
    Fp { bits: x.to_bits() as u64 }
}

} // verus!
