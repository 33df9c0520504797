//! The complex-point value type and its arithmetic.
//!
//! A `Complex` holds the real and imaginary components as IEEE-754 double
//! bit patterns, so the verifier reasons about plain 64-bit values.  The
//! complex arithmetic of the escape-time recurrence is done by the `num`
//! crate through trusted wrappers; each operation's result is named by an
//! uninterpreted spec function of the operand bit patterns.

use vstd::prelude::*;
use crate::float_ops::ZERO_BITS;

verus! {

/// A point of the complex plane: real and imaginary components, each the
/// 64-bit IEEE-754 encoding of a double-precision number.
#[derive(Clone, Copy, PartialEq, Eq, Structural, Debug)]
pub struct Complex {
    pub re: u64,
    pub im: u64,
}

/// The origin `0 + 0i`.
pub open spec fn complex_zero() -> Complex {
    Complex { re: ZERO_BITS, im: ZERO_BITS }
}

pub uninterp spec fn cmul_bits(ar: u64, ai: u64, br: u64, bi: u64) -> (u64, u64);

pub uninterp spec fn cadd_bits(ar: u64, ai: u64, br: u64, bi: u64) -> (u64, u64);

pub uninterp spec fn norm_sqr_bits(re: u64, im: u64) -> u64;

/// The product of two complex points, by the operand bit patterns alone.
pub open spec fn spec_cmul(a: Complex, b: Complex) -> Complex {
    let (re, im) = cmul_bits(a.re, a.im, b.re, b.im);
    Complex { re, im }
}

/// The sum of two complex points, by the operand bit patterns alone.
pub open spec fn spec_cadd(a: Complex, b: Complex) -> Complex {
    let (re, im) = cadd_bits(a.re, a.im, b.re, b.im);
    Complex { re, im }
}

/// Relies on `num`'s `Mul` for `Complex<f64>`:
/// `(a.re * b.re - a.im * b.im, a.re * b.im + a.im * b.re)`.
/// The one stated fact beyond the name: the product of two origins is the
/// origin, since every component is then a product or sum of positive zeros.
#[verifier::external_body]
pub(crate) fn complex_mul(a: Complex, b: Complex) -> (r: Complex)
    ensures
        (r.re, r.im) == cmul_bits(a.re, a.im, b.re, b.im),
        a == complex_zero() && b == complex_zero() ==> r == complex_zero(),
{
    let x: num::complex::Complex64 = num::Complex { re: bytemuck::cast(a.re), im: bytemuck::cast(a.im) };
    let y: num::complex::Complex64 = num::Complex { re: bytemuck::cast(b.re), im: bytemuck::cast(b.im) };
    let p = x * y;
    Complex { re: p.re.to_bits(), im: p.im.to_bits() }
}

/// Relies on `num`'s `Add` for `Complex<f64>`: componentwise addition.
/// The one stated fact beyond the name: the sum of two origins is the
/// origin, since `+0` plus `+0` is `+0`.
#[verifier::external_body]
pub(crate) fn complex_add(a: Complex, b: Complex) -> (r: Complex)
    ensures
        (r.re, r.im) == cadd_bits(a.re, a.im, b.re, b.im),
        a == complex_zero() && b == complex_zero() ==> r == complex_zero(),
{
    let x: num::complex::Complex64 = num::Complex { re: bytemuck::cast(a.re), im: bytemuck::cast(a.im) };
    let y: num::complex::Complex64 = num::Complex { re: bytemuck::cast(b.re), im: bytemuck::cast(b.im) };
    let s = x + y;
    Complex { re: s.re.to_bits(), im: s.im.to_bits() }
}

/// Relies on `num`'s `Complex::norm_sqr`: `re * re + im * im`.
/// The one stated fact beyond the name: the squared norm of the origin is
/// `+0`, since both squares and their sum are positive zeros.
#[verifier::external_body]
pub(crate) fn complex_norm_sqr(a: Complex) -> (r: u64)
    ensures
        r == norm_sqr_bits(a.re, a.im),
        a == complex_zero() ==> r == ZERO_BITS,
{
    let x: num::complex::Complex64 = num::Complex { re: bytemuck::cast(a.re), im: bytemuck::cast(a.im) };
    x.norm_sqr().to_bits()
}

} // verus!
