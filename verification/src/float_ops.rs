//! Double-precision scalar arithmetic on IEEE-754 bit patterns.
//!
//! The library stores every double-precision value as its 64-bit IEEE-754
//! encoding, so contracts speak of plain `u64` values.  The arithmetic itself
//! is performed by the hardware through small trusted wrappers; its results
//! are named by uninterpreted spec functions, since each operation is a
//! deterministic function of the operand bit patterns.

use vstd::prelude::*;

verus! {

/// Bit pattern of the IEEE-754 double `+0`.
pub const ZERO_BITS: u64 = 0;

/// Bit pattern of the IEEE-754 double four, the divergence threshold of the
/// escape-time recurrence.
pub const FOUR_BITS: u64 = 0x4010_0000_0000_0000;

pub uninterp spec fn add_bits(a: u64, b: u64) -> u64;

pub uninterp spec fn sub_bits(a: u64, b: u64) -> u64;

pub uninterp spec fn mul_bits(a: u64, b: u64) -> u64;

pub uninterp spec fn div_bits(a: u64, b: u64) -> u64;

pub uninterp spec fn gt_bits(a: u64, b: u64) -> bool;

pub uninterp spec fn usize_bits(n: usize) -> u64;

/// Relies on primitive double addition: the sum of the doubles encoded by
/// `a` and `b`, as a bit pattern.  `num::complex::Complex64` only carries the
/// two operands; `bytemuck::cast` reinterprets bits.
#[verifier::external_body]
pub(crate) fn float_add(a: u64, b: u64) -> (r: u64)
    ensures
        r == add_bits(a, b),
{
    let p: num::complex::Complex64 = num::Complex { re: bytemuck::cast(a), im: bytemuck::cast(b) };
    (p.re + p.im).to_bits()
}

/// Relies on primitive double subtraction, as `float_add` does on addition.
#[verifier::external_body]
pub(crate) fn float_sub(a: u64, b: u64) -> (r: u64)
    ensures
        r == sub_bits(a, b),
{
    let p: num::complex::Complex64 = num::Complex { re: bytemuck::cast(a), im: bytemuck::cast(b) };
    (p.re - p.im).to_bits()
}

/// Relies on primitive double multiplication, as `float_add` does on addition.
#[verifier::external_body]
pub(crate) fn float_mul(a: u64, b: u64) -> (r: u64)
    ensures
        r == mul_bits(a, b),
{
    let p: num::complex::Complex64 = num::Complex { re: bytemuck::cast(a), im: bytemuck::cast(b) };
    (p.re * p.im).to_bits()
}

/// Relies on primitive double division, as `float_add` does on addition.
/// Division of doubles is total (a zero divisor yields an infinity or NaN),
/// so no input is excluded.
#[verifier::external_body]
pub(crate) fn float_div(a: u64, b: u64) -> (r: u64)
    ensures
        r == div_bits(a, b),
{
    let p: num::complex::Complex64 = num::Complex { re: bytemuck::cast(a), im: bytemuck::cast(b) };
    (p.re / p.im).to_bits()
}

/// Relies on the primitive `>` comparison of doubles.  The one stated fact
/// beyond the name: `+0` is not greater than four.
#[verifier::external_body]
pub(crate) fn float_gt(a: u64, b: u64) -> (r: bool)
    ensures
        r == gt_bits(a, b),
        a == ZERO_BITS && b == FOUR_BITS ==> !r,
{
    let p: num::complex::Complex64 = num::Complex { re: bytemuck::cast(a), im: bytemuck::cast(b) };
    p.re > p.im
}

/// Relies on `num::ToPrimitive::to_f64` for `usize`, which rounds the integer
/// to the nearest representable double and never fails.
#[verifier::external_body]
pub(crate) fn float_of_usize(n: usize) -> (r: u64)
    ensures
        r == usize_bits(n),
{
    match num::ToPrimitive::to_f64(&n) {
        Some(v) => {
            let p: num::complex::Complex64 = num::Complex { re: v, im: v };
            p.re.to_bits()
        }
        None => 0,
    }
}

} // verus!
