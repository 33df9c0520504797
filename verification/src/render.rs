//! The sequential renderer: filling a pixel buffer from the mapper and the
//! evaluator.
//!
//! Its contract pins every byte of the buffer to `pixel_byte`, the
//! spec-level composition of the coordinate mapper and the escape-time
//! evaluator, so a rendered buffer is a function of the inputs alone.

use vstd::prelude::*;
use vstd::pervasive::VecAdditionalExecFns;
use vstd::arithmetic::div_mod::lemma_fundamental_div_mod;
use crate::complex::Complex;
use crate::escape::{escape_spec, escape_time};
use crate::mapper::{point_at, pixel_to_point};

verus! {

/// The standard per-pixel iteration budget of the escape-time evaluator.
pub const ITERATION_LIMIT: usize = 255;

/// The intensity written for one pixel: `255 - i` when the point escapes at
/// iteration `i`, darkest when it does not escape within the limit.
pub open spec fn pixel_byte(
    bounds: (usize, usize),
    pixel: (usize, usize),
    upper_left: Complex,
    lower_right: Complex,
    limit: int,
    threshold: u64,
) -> u8 {
    match escape_spec(point_at(bounds, pixel, upper_left, lower_right), limit, threshold) {
        None => 0,
        Some(count) => (255 - count) as u8,
    }
}

/// The buffer holds exactly the sequential rendering of the given bounds and
/// plane rectangle: row-major, every byte pinned to its pixel.
pub open spec fn rendered(
    buf: Seq<u8>,
    bounds: (usize, usize),
    upper_left: Complex,
    lower_right: Complex,
    limit: int,
    threshold: u64,
) -> bool {
    &&& buf.len() == bounds.0 * bounds.1
    &&& forall|row: int, col: int|
        0 <= row < bounds.1 && 0 <= col < bounds.0 ==> buf[row * bounds.0 + col] == #[trigger] pixel_byte(
            bounds,
            (col as usize, row as usize),
            upper_left,
            lower_right,
            limit,
            threshold,
        )
}

/// Two distinct pixels of one image occupy distinct row-major indices.
proof fn lemma_row_major_injective(w: int, r1: int, c1: int, r2: int, c2: int)
    requires
        w >= 1,
        0 <= c1 < w,
        0 <= c2 < w,
        r1 >= 0,
        r2 >= 0,
        r1 * w + c1 == r2 * w + c2,
    ensures
        r1 == r2 && c1 == c2,
{
    assert(r1 == r2 && c1 == c2) by (nonlinear_arith)
        requires
            w >= 1,
            0 <= c1 < w,
            0 <= c2 < w,
            r1 >= 0,
            r2 >= 0,
            r1 * w + c1 == r2 * w + c2,
    ;
}

/// A pixel's row-major index lies inside the buffer.
pub(crate) proof fn lemma_row_major_in_range(w: int, h: int, row: int, col: int)
    requires
        w >= 1,
        h >= 1,
        0 <= row < h,
        0 <= col < w,
    ensures
        0 <= row * w + col < w * h,
{
    assert(0 <= row * w + col < w * h) by (nonlinear_arith)
        requires
            w >= 1,
            h >= 1,
            0 <= row < h,
            0 <= col < w,
    ;
}

/// Fills the whole buffer: for every pixel in row-major order, the point it
/// represents is mapped and evaluated, and the resulting intensity written
/// at `row * width + column`.  The buffer must already have exactly
/// `width * height` bytes; every one of them is overwritten.
pub fn render(
    pixels: &mut Vec<u8>,
    bounds: (usize, usize),
    upper_left: Complex,
    lower_right: Complex,
    limit: usize,
    threshold: u64,
)
    requires
        old(pixels).len() == bounds.0 * bounds.1,
        bounds.0 >= 1,
        bounds.1 >= 1,
        limit <= 256,
    ensures
        rendered(final(pixels)@, bounds, upper_left, lower_right, limit as int, threshold),
{
    let width = bounds.0;
    let height = bounds.1;
    let mut row: usize = 0;
    while row < height
        invariant
            pixels.len() == width * height,
            bounds == (width, height),
            width >= 1,
            height >= 1,
            limit <= 256,
            0 <= row <= height,
            forall|r: int, c: int|
                0 <= r < row && 0 <= c < width ==> pixels@[r * width + c] == #[trigger] pixel_byte(
                    bounds,
                    (c as usize, r as usize),
                    upper_left,
                    lower_right,
                    limit as int,
                    threshold,
                ),
        decreases height - row,
    {
        let mut col: usize = 0;
        while col < width
            invariant
                pixels.len() == width * height,
                bounds == (width, height),
                width >= 1,
                height >= 1,
                limit <= 256,
                0 <= row < height,
                0 <= col <= width,
                forall|r: int, c: int|
                    0 <= r < row && 0 <= c < width ==> pixels@[r * width + c]
                        == #[trigger] pixel_byte(
                        bounds,
                        (c as usize, r as usize),
                        upper_left,
                        lower_right,
                        limit as int,
                        threshold,
                    ),
                forall|c: int|
                    0 <= c < col ==> pixels@[row as int * width + c] == #[trigger] pixel_byte(
                        bounds,
                        (c as usize, row as usize),
                        upper_left,
                        lower_right,
                        limit as int,
                        threshold,
                    ),
            decreases width - col,
        {
            let point = pixel_to_point(bounds, (col, row), upper_left, lower_right);
            let value: u8 = match escape_time(point, limit, threshold) {
                None => 0,
                Some(count) => {
                    proof {
                        assert(escape_spec(point, limit as int, threshold) matches Some(i) && 0
                            <= i < limit) by {
                            crate::escape::lemma_escape_index_bounded(
                                point,
                                limit as int,
                                threshold,
                            );
                        }
                    }
                    (255 - count) as u8
                },
            };
            proof {
                lemma_row_major_in_range(width as int, height as int, row as int, col as int);
            }
            let index = row * width + col;
            let ghost before = pixels@;
            pixels.set(index, value);
            proof {
                assert forall|r: int, c: int| 0 <= r < row && 0 <= c < width implies pixels@[r
                    * width + c] == #[trigger] pixel_byte(
                    bounds,
                    (c as usize, r as usize),
                    upper_left,
                    lower_right,
                    limit as int,
                    threshold,
                ) by {
                    lemma_row_major_in_range(width as int, height as int, r, c);
                    if r * width + c == index {
                        lemma_row_major_injective(
                            width as int,
                            r,
                            c,
                            row as int,
                            col as int,
                        );
                    }
                }
                assert forall|c: int| 0 <= c < col + 1 implies pixels@[row as int * width + c]
                    == #[trigger] pixel_byte(
                    bounds,
                    (c as usize, row as usize),
                    upper_left,
                    lower_right,
                    limit as int,
                    threshold,
                ) by {
                    lemma_row_major_in_range(width as int, height as int, row as int, c);
                    if c < col {
                        assert(pixels@[row as int * width + c] == before[row as int * width + c]);
                    }
                }
            }
            col = col + 1;
        }
        row = row + 1;
    }
}

/// A fresh buffer of `count` darkest-intensity bytes, for a renderer to
/// overwrite.
pub(crate) fn zeroed(count: usize) -> (r: Vec<u8>)
    ensures
        r@.len() == count,
{
    let mut pixels: Vec<u8> = Vec::new();
    let mut i: usize = 0;
    while i < count
        invariant
            pixels.len() == i,
            0 <= i <= count,
        decreases count - i,
    {
        pixels.push(0);
        i = i + 1;
    }
    pixels
}

/// Renders a whole image sequentially into a fresh buffer of
/// `width * height` intensity bytes.
pub fn sequential_pixels(
    bounds: (usize, usize),
    upper_left: Complex,
    lower_right: Complex,
    limit: usize,
    threshold: u64,
) -> (r: Vec<u8>)
    requires
        bounds.0 >= 1,
        bounds.1 >= 1,
        bounds.0 * bounds.1 <= usize::MAX,
        limit <= 256,
    ensures
        rendered(r@, bounds, upper_left, lower_right, limit as int, threshold),
{
    let mut pixels = zeroed(bounds.0 * bounds.1);
    render(&mut pixels, bounds, upper_left, lower_right, limit, threshold);
    pixels
}

/// Rendering is deterministic: two sequentially rendered buffers of the same
/// bounds, rectangle, limit and threshold are byte-identical.
pub proof fn lemma_sequential_render_deterministic(
    a: Seq<u8>,
    b: Seq<u8>,
    bounds: (usize, usize),
    upper_left: Complex,
    lower_right: Complex,
    limit: int,
    threshold: u64,
)
    requires
        bounds.0 >= 1,
        bounds.1 >= 1,
        rendered(a, bounds, upper_left, lower_right, limit, threshold),
        rendered(b, bounds, upper_left, lower_right, limit, threshold),
    ensures
        a == b,
{
    let w = bounds.0 as int;
    let h = bounds.1 as int;
    assert forall|k: int| 0 <= k < a.len() implies a[k] == b[k] by {
        lemma_fundamental_div_mod(k, w);
        let row = k / w;
        let col = k % w;
        assert(0 <= col < w) by (nonlinear_arith)
            requires
                w >= 1,
                col == k % w,
        ;
        assert(0 <= row < h) by (nonlinear_arith)
            requires
                w >= 1,
                h >= 1,
                0 <= k < w * h,
                k == w * row + col,
                0 <= col < w,
        ;
        assert(k == row * w + col) by (nonlinear_arith)
            requires
                k == w * row + col,
        ;
        assert(a[row * w + col] == pixel_byte(
            bounds,
            (col as usize, row as usize),
            upper_left,
            lower_right,
            limit,
            threshold,
        ));
        assert(b[row * w + col] == pixel_byte(
            bounds,
            (col as usize, row as usize),
            upper_left,
            lower_right,
            limit,
            threshold,
        ));
    }
    assert(a =~= b);
}

} // verus!
