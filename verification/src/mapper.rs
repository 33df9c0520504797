//! The coordinate mapper: from a pixel location to its complex-plane point.

use vstd::prelude::*;
use crate::complex::Complex;
use crate::float_ops::{add_bits, sub_bits, mul_bits, div_bits, usize_bits};
use crate::float_ops::{float_add, float_sub, float_mul, float_div, float_of_usize};

verus! {

/// The point that a pixel represents, by linear interpolation between the
/// two corners of the plane rectangle:
/// horizontally `ul.re + column * ((lr.re - ul.re) / width)`, vertically
/// `ul.im - row * ((ul.im - lr.im) / height)`, each step a double-precision
/// operation on the bit patterns.
pub open spec fn point_at(
    bounds: (usize, usize),
    pixel: (usize, usize),
    upper_left: Complex,
    lower_right: Complex,
) -> Complex {
    Complex {
        re: add_bits(
            upper_left.re,
            mul_bits(
                usize_bits(pixel.0),
                div_bits(sub_bits(lower_right.re, upper_left.re), usize_bits(bounds.0)),
            ),
        ),
        im: sub_bits(
            upper_left.im,
            mul_bits(
                usize_bits(pixel.1),
                div_bits(sub_bits(upper_left.im, lower_right.im), usize_bits(bounds.1)),
            ),
        ),
    }
}

/// Maps a pixel of an image with the given bounds onto the complex plane.
///
/// The caller keeps the bounds positive; with a zero dimension the division
/// would still be defined on doubles but would map every pixel onto an
/// infinity, which no caller wants.
pub fn pixel_to_point(
    bounds: (usize, usize),
    pixel: (usize, usize),
    upper_left: Complex,
    lower_right: Complex,
) -> (r: Complex)
    requires
        bounds.0 >= 1,
        bounds.1 >= 1,
    ensures
        r == point_at(bounds, pixel, upper_left, lower_right),
{
    let plane_width = float_sub(lower_right.re, upper_left.re);
    let plane_height = float_sub(upper_left.im, lower_right.im);
    let re_step = float_div(plane_width, float_of_usize(bounds.0));
    let im_step = float_div(plane_height, float_of_usize(bounds.1));
    Complex {
        re: float_add(upper_left.re, float_mul(float_of_usize(pixel.0), re_step)),
        im: float_sub(upper_left.im, float_mul(float_of_usize(pixel.1), im_step)),
    }
}

} // verus!
