//! The escape-time evaluator: does the quadratic recurrence diverge?

use vstd::prelude::*;
use crate::complex::{Complex, complex_zero, spec_cmul, spec_cadd, norm_sqr_bits};
use crate::complex::{complex_mul, complex_add, complex_norm_sqr};
use crate::float_ops::{gt_bits, FOUR_BITS};
use crate::float_ops::float_gt;

verus! {

/// One step of the recurrence: `z * z + c` on double-precision bit patterns.
pub open spec fn escape_step(z: Complex, c: Complex) -> Complex {
    spec_cadd(spec_cmul(z, z), c)
}

/// Whether the squared norm of `z` lies beyond the divergence threshold.
pub open spec fn beyond_threshold(z: Complex, threshold: u64) -> bool {
    gt_bits(norm_sqr_bits(z.re, z.im), threshold)
}

/// The result of running the recurrence from `z` with `fuel` iterations
/// left, `taken` iterations already taken: the index of the first iteration
/// whose updated value lies beyond the threshold, or `None` when the fuel
/// runs out first.
pub open spec fn escape_from(z: Complex, c: Complex, taken: int, fuel: int, threshold: u64) -> Option<int>
    decreases fuel,
{
    if fuel <= 0 {
        None
    } else {
        let next = escape_step(z, c);
        if beyond_threshold(next, threshold) {
            Some(taken)
        } else {
            escape_from(next, c, taken + 1, fuel - 1, threshold)
        }
    }
}

/// The escape time of `c`: the 0-based index of the first iteration of
/// `z <- z * z + c` (from `z = 0`) after which the squared norm exceeds the
/// threshold, or `None` when that does not happen within `limit` iterations.
pub open spec fn escape_spec(c: Complex, limit: int, threshold: u64) -> Option<int> {
    escape_from(complex_zero(), c, 0, limit, threshold)
}

proof fn lemma_escape_from_index_bounded(z: Complex, c: Complex, taken: int, fuel: int, threshold: u64)
    ensures
        escape_from(z, c, taken, fuel, threshold) matches Some(i) ==> taken <= i < taken + fuel,
    decreases fuel,
{
    if fuel > 0 {
        let next = escape_step(z, c);
        if !beyond_threshold(next, threshold) {
            lemma_escape_from_index_bounded(next, c, taken + 1, fuel - 1, threshold);
        }
    }
}

/// An escape index is always a 0-based iteration count below the limit.
pub proof fn lemma_escape_index_bounded(c: Complex, limit: int, threshold: u64)
    ensures
        escape_spec(c, limit, threshold) matches Some(i) ==> 0 <= i < limit,
{
    lemma_escape_from_index_bounded(complex_zero(), c, 0, limit, threshold);
}

/// Runs the quadratic recurrence `z <- z * z + c` from the origin for at
/// most `limit` iterations.  After each iteration the squared norm of `z` is
/// tested against the divergence threshold; the first iteration (0-based)
/// that crosses it is returned as soon as it is detected.  `None` says that
/// no divergence was detected within the budget.
///
/// For the origin itself with the standard threshold of four the recurrence
/// never leaves the origin, so the result is `None` whatever the limit.
pub fn escape_time(c: Complex, limit: usize, threshold: u64) -> (r: Option<usize>)
    ensures
        r matches Some(i) ==> Some(i as int) == escape_spec(c, limit as int, threshold),
        r is None <==> escape_spec(c, limit as int, threshold) is None,
        c == complex_zero() && threshold == FOUR_BITS ==> r is None,
{
    let mut z = Complex { re: 0u64, im: 0u64 };
    let mut i: usize = 0;
    while i < limit
        invariant
            0 <= i <= limit,
            escape_from(z, c, i as int, limit - i, threshold) == escape_spec(c, limit as int, threshold),
            c == complex_zero() && threshold == FOUR_BITS ==> z == complex_zero(),
        decreases limit - i,
    {
        let squared = complex_mul(z, z);
        let next = complex_add(squared, c);
        let norm = complex_norm_sqr(next);
        if float_gt(norm, threshold) {
            return Some(i);
        }
        z = next;
        i = i + 1;
    }
    None
}

} // verus!
