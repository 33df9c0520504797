//! The parallel renderer: partitioning the image into row-bands.
//!
//! The image is cut into contiguous row-bands, every band as tall as
//! `rows_per_band` except possibly a shorter last one.  Each band's plane
//! sub-rectangle is found by mapping the band's top-left and bottom-right
//! pixels against the full bounds and rectangle, and the band is then
//! rendered exactly as the sequential renderer renders an image of the
//! band's own bounds.  Each band depends on the inputs alone, so the bands
//! may be computed concurrently into their disjoint regions; `band_pixels`
//! is that per-band unit of work, and `parallel_pixels` assembles the bands
//! in row order.

use vstd::prelude::*;
use vstd::arithmetic::div_mod::{
    lemma_fundamental_div_mod,
    lemma_fundamental_div_mod_converse,
    lemma_mod_division_less_than_divisor,
};
use crate::complex::Complex;
use crate::mapper::{point_at, pixel_to_point};
use crate::render::{pixel_byte, rendered, render, zeroed};

verus! {

/// The number of bands a render is cut into when the caller does not choose
/// one.
pub const DEFAULT_THREAD_COUNT: usize = 8;

/// Rows in every band but possibly the last: the image height divided by
/// the requested band count, rounded up.
pub open spec fn spec_rows_per_band(height: int, threads: int) -> int {
    if height % threads == 0 {
        height / threads
    } else {
        height / threads + 1
    }
}

/// How many bands the partition produces: the height divided by the rows
/// per band, rounded up.
pub open spec fn spec_band_count(height: int, rows_per_band: int) -> int {
    if height % rows_per_band == 0 {
        height / rows_per_band
    } else {
        height / rows_per_band + 1
    }
}

/// The first row of a band.
pub open spec fn spec_band_top(rows_per_band: int, i: int) -> int {
    i * rows_per_band
}

/// The rows a band actually covers: the remaining rows, for the last band
/// of an unevenly divided image.
pub open spec fn spec_band_height(height: int, rows_per_band: int, i: int) -> int {
    if height - i * rows_per_band < rows_per_band {
        height - i * rows_per_band
    } else {
        rows_per_band
    }
}

/// A band's own image bounds: full width, the band's rows.
pub open spec fn spec_band_bounds(bounds: (usize, usize), rows_per_band: int, i: int) -> (
    usize,
    usize,
) {
    (bounds.0, spec_band_height(bounds.1 as int, rows_per_band, i) as usize)
}

/// A band's upper-left corner: its top-left pixel mapped against the full
/// bounds and rectangle.
pub open spec fn spec_band_upper_left(
    bounds: (usize, usize),
    upper_left: Complex,
    lower_right: Complex,
    rows_per_band: int,
    i: int,
) -> Complex {
    point_at(bounds, (0usize, spec_band_top(rows_per_band, i) as usize), upper_left, lower_right)
}

/// A band's lower-right corner: the pixel one past its bottom-right mapped
/// against the full bounds and rectangle.
pub open spec fn spec_band_lower_right(
    bounds: (usize, usize),
    upper_left: Complex,
    lower_right: Complex,
    rows_per_band: int,
    i: int,
) -> Complex {
    point_at(
        bounds,
        (
            bounds.0,
            (spec_band_top(rows_per_band, i) + spec_band_height(
                bounds.1 as int,
                rows_per_band,
                i,
            )) as usize,
        ),
        upper_left,
        lower_right,
    )
}

/// Every band before `upto` lies in the buffer as the sequential rendering
/// of that band's bounds and sub-rectangle, at the band's rows of the full
/// image.
pub open spec fn bands_rendered_upto(
    buf: Seq<u8>,
    bounds: (usize, usize),
    upper_left: Complex,
    lower_right: Complex,
    limit: int,
    threshold: u64,
    rpb: int,
    upto: int,
) -> bool {
    forall|i: int, row: int, col: int|
        0 <= i < upto && 0 <= row < spec_band_height(bounds.1 as int, rpb, i) && 0 <= col
            < bounds.0 as int ==> buf[(spec_band_top(rpb, i) + row) * (bounds.0 as int) + col]
            == #[trigger] pixel_byte(
            spec_band_bounds(bounds, rpb, i),
            (col as usize, row as usize),
            spec_band_upper_left(bounds, upper_left, lower_right, rpb, i),
            spec_band_lower_right(bounds, upper_left, lower_right, rpb, i),
            limit,
            threshold,
        )
}

/// The buffer holds exactly the banded rendering of the image: every byte
/// of every band is the sequential rendering of that band's bounds and
/// sub-rectangle, laid out at the band's rows of the full buffer.
pub open spec fn parallel_rendered(
    buf: Seq<u8>,
    bounds: (usize, usize),
    upper_left: Complex,
    lower_right: Complex,
    limit: int,
    threshold: u64,
    threads: int,
) -> bool {
    let h = bounds.1 as int;
    let rpb = spec_rows_per_band(h, threads);
    let n = spec_band_count(h, rpb);
    &&& buf.len() == bounds.0 * bounds.1
    &&& bands_rendered_upto(buf, bounds, upper_left, lower_right, limit, threshold, rpb, n)
}

/// Rows in every band but possibly the last, for the given image height and
/// requested band count.
pub fn rows_per_band(height: usize, threads: usize) -> (r: usize)
    requires
        height >= 1,
        threads >= 1,
    ensures
        r == spec_rows_per_band(height as int, threads as int),
        1 <= r <= height,
{
    let q = height / threads;
    let rem = height % threads;
    proof {
        lemma_fundamental_div_mod(height as int, threads as int);
        lemma_mod_division_less_than_divisor(height as int, threads as int);
        if rem == 0 {
            assert(q >= 1) by (nonlinear_arith)
                requires
                    height as int == threads as int * q as int,
                    height >= 1,
                    threads >= 1,
                    q >= 0,
            ;
        } else {
            assert(q + 1 <= height) by (nonlinear_arith)
                requires
                    height as int == threads as int * q as int + rem as int,
                    1 <= rem as int,
                    (rem as int) < (threads as int),
                    q >= 0,
            ;
        }
    }
    if rem == 0 {
        q
    } else {
        q + 1
    }
}

/// The rows-per-band figure is always between one row and the whole image.
pub proof fn lemma_rows_per_band_bounds(height: int, threads: int)
    requires
        height >= 1,
        threads >= 1,
    ensures
        1 <= spec_rows_per_band(height, threads),
        spec_rows_per_band(height, threads) <= height,
{
    let q = height / threads;
    let rem = height % threads;
    lemma_fundamental_div_mod(height, threads);
    lemma_mod_division_less_than_divisor(height, threads);
    if rem == 0 {
        assert(q >= 1 && q <= height) by (nonlinear_arith)
            requires
                height == threads * q + rem,
                rem == 0,
                height >= 1,
                threads >= 1,
                q >= 0,
        ;
    } else {
        assert(q + 1 >= 1 && q + 1 <= height) by (nonlinear_arith)
            requires
                height == threads * q + rem,
                1 <= rem,
                rem < threads,
                q >= 0,
        ;
    }
}

/// The band partition reaches the last row and not further: there is at
/// least one band, the bands before the last end short of the last row, and
/// all the bands together reach it.
pub proof fn lemma_band_count_covers(height: int, rows_per_band: int)
    requires
        height >= 1,
        rows_per_band >= 1,
    ensures
        spec_band_count(height, rows_per_band) >= 1,
        spec_band_count(height, rows_per_band) <= height,
        (spec_band_count(height, rows_per_band) - 1) * rows_per_band < height,
        spec_band_count(height, rows_per_band) * rows_per_band >= height,
{
    let q = height / rows_per_band;
    let rem = height % rows_per_band;
    lemma_fundamental_div_mod(height, rows_per_band);
    lemma_mod_division_less_than_divisor(height, rows_per_band);
    if rem == 0 {
        assert(q >= 1 && q <= height && (q - 1) * rows_per_band < height && q * rows_per_band
            >= height) by (nonlinear_arith)
            requires
                height == rows_per_band * q + rem,
                rem == 0,
                height >= 1,
                rows_per_band >= 1,
                q >= 0,
        ;
    } else {
        assert((q + 1) >= 1 && q + 1 <= height && q * rows_per_band < height && (q + 1)
            * rows_per_band >= height) by (nonlinear_arith)
            requires
                height == rows_per_band * q + rem,
                0 < rem,
                rem < rows_per_band,
                height >= 1,
                rows_per_band >= 1,
                q >= 0,
        ;
    }
}

/// The two corners of a band's plane sub-rectangle, mapped against the full
/// image bounds and the full plane rectangle so that the sub-rectangles of
/// consecutive bands tile the rectangle without seams.
pub fn band_corners(
    bounds: (usize, usize),
    top: usize,
    band_height: usize,
    upper_left: Complex,
    lower_right: Complex,
) -> (r: (Complex, Complex))
    requires
        bounds.0 >= 1,
        bounds.1 >= 1,
        top + band_height <= bounds.1,
    ensures
        r.0 == point_at(bounds, (0usize, top), upper_left, lower_right),
        r.1 == point_at(bounds, (bounds.0, (top + band_height) as usize), upper_left, lower_right),
{
    let band_upper_left = pixel_to_point(bounds, (0, top), upper_left, lower_right);
    let band_lower_right = pixel_to_point(
        bounds,
        (bounds.0, top + band_height),
        upper_left,
        lower_right,
    );
    (band_upper_left, band_lower_right)
}

/// Renders one band into a fresh buffer of its own: the unit of work that a
/// concurrent execution gives each thread.  `top` must be a band boundary
/// reached by whole bands of `rows_per_band` rows.
pub fn band_pixels(
    bounds: (usize, usize),
    top: usize,
    band_height: usize,
    upper_left: Complex,
    lower_right: Complex,
    limit: usize,
    threshold: u64,
) -> (r: Vec<u8>)
    requires
        bounds.0 >= 1,
        bounds.1 >= 1,
        bounds.0 * bounds.1 <= usize::MAX,
        band_height >= 1,
        top + band_height <= bounds.1,
        limit <= 256,
    ensures
        rendered(
            r@,
            (bounds.0, band_height),
            point_at(bounds, (0usize, top), upper_left, lower_right),
            point_at(bounds, (bounds.0, (top + band_height) as usize), upper_left, lower_right),
            limit as int,
            threshold,
        ),
{
    let corners = band_corners(bounds, top, band_height, upper_left, lower_right);
    proof {
        assert(bounds.0 * band_height <= bounds.0 * bounds.1) by (nonlinear_arith)
            requires
                bounds.0 >= 1,
                band_height <= bounds.1,
        ;
    }
    let mut band = zeroed(bounds.0 * band_height);
    render(&mut band, (bounds.0, band_height), corners.0, corners.1, limit, threshold);
    band
}

/// A whole row-band of rows before `toprows` lies before the row-major
/// index `toprows * w`.
proof fn lemma_index_before(w: int, trow: int, col: int, toprows: int)
    requires
        w >= 1,
        0 <= col < w,
        0 <= trow,
        trow < toprows,
    ensures
        0 <= trow * w + col,
        trow * w + col < toprows * w,
{
    assert(0 <= trow * w + col && trow * w + col < toprows * w) by (nonlinear_arith)
        requires
            w >= 1,
            0 <= col < w,
            0 <= trow,
            trow < toprows,
    ;
}

/// Renders the whole image band by band and joins the bands in row order:
/// the buffer that the concurrent execution of `band_pixels` over all bands
/// assembles, deterministic because every band is a function of the inputs
/// alone.
pub fn parallel_pixels(
    bounds: (usize, usize),
    upper_left: Complex,
    lower_right: Complex,
    limit: usize,
    threshold: u64,
    threads: usize,
) -> (r: Vec<u8>)
    requires
        bounds.0 >= 1,
        bounds.1 >= 1,
        bounds.0 * bounds.1 <= usize::MAX,
        limit <= 256,
        threads >= 1,
    ensures
        parallel_rendered(
            r@,
            bounds,
            upper_left,
            lower_right,
            limit as int,
            threshold,
            threads as int,
        ),
{
    let width = bounds.0;
    let height = bounds.1;
    let rpb = rows_per_band(height, threads);
    let ghost n = spec_band_count(height as int, rpb as int);
    proof {
        lemma_band_count_covers(height as int, rpb as int);
    }
    let mut out: Vec<u8> = Vec::new();
    let mut top: usize = 0;
    let mut i: usize = 0;
    while top < height
        invariant
            bounds == (width, height),
            width >= 1,
            height >= 1,
            limit <= 256,
            width * height <= usize::MAX,
            rpb == spec_rows_per_band(height as int, threads as int),
            1 <= rpb <= height,
            n == spec_band_count(height as int, rpb as int),
            n >= 1,
            n <= height,
            (n - 1) * rpb < height,
            n * rpb >= height,
            0 <= i <= n,
            i < n ==> top == i * rpb,
            i == n ==> top == height,
            top <= height,
            out.len() == top * width,
            bands_rendered_upto(
                out@,
                bounds,
                upper_left,
                lower_right,
                limit as int,
                threshold,
                rpb as int,
                i as int,
            ),
        decreases height - top,
    {
        proof {
            if i >= n {
                assert(false);
            }
        }
        let bh = if height - top < rpb {
            height - top
        } else {
            rpb
        };
        proof {
            assert(bh == spec_band_height(height as int, rpb as int, i as int));
        }
        let mut band = band_pixels(bounds, top, bh, upper_left, lower_right, limit, threshold);
        let ghost out_before = out@;
        let ghost band_seq = band@;
        proof {
            assert(band_seq.len() == width * bh);
        }
        out.append(&mut band);
        proof {
            let w = width as int;
            let h = height as int;
            let rp = rpb as int;
            let t = top as int;
            assert(t * w + w * (bh as int) == (t + bh as int) * w) by (nonlinear_arith);
            assert forall|j: int, row: int, col: int|
                0 <= j < i + 1 && 0 <= row < spec_band_height(h, rp, j) && 0 <= col
                    < w implies out@[(spec_band_top(rp, j) + row) * w + col] == #[trigger] pixel_byte(
                spec_band_bounds(bounds, rp, j),
                (col as usize, row as usize),
                spec_band_upper_left(bounds, upper_left, lower_right, rp, j),
                spec_band_lower_right(bounds, upper_left, lower_right, rp, j),
                limit as int,
                threshold,
            ) by {
                if j < i {
                    let bh_j = spec_band_height(h, rp, j);
                    assert(bh_j <= rp);
                    assert(j * rp + row < i * rp) by (nonlinear_arith)
                        requires
                            j + 1 <= i,
                            rp >= 1,
                            0 <= row,
                            row < bh_j,
                            bh_j <= rp,
                            j >= 0,
                    ;
                    lemma_index_before(w, j * rp + row, col, t);
                    assert(out@[(spec_band_top(rp, j) + row) * w + col] == out_before[(
                    spec_band_top(rp, j) + row) * w + col]);
                } else {
                    assert(j == i);
                    assert(spec_band_top(rp, j) == t);
                    crate::render::lemma_row_major_in_range(w, bh as int, row, col);
                    assert((t + row) * w + col == t * w + (row * w + col)) by (nonlinear_arith);
                    assert(out@[t * w + (row * w + col)] == band_seq[row * w + col]);
                    assert(band_seq[row * w + col] == pixel_byte(
                        (width, bh),
                        (col as usize, row as usize),
                        point_at(bounds, (0usize, top), upper_left, lower_right),
                        point_at(
                            bounds,
                            (width, (top + bh) as usize),
                            upper_left,
                            lower_right,
                        ),
                        limit as int,
                        threshold,
                    ));
                    assert(spec_band_bounds(bounds, rp, j) == (width, bh));
                    assert(spec_band_upper_left(bounds, upper_left, lower_right, rp, j)
                        == point_at(bounds, (0usize, top), upper_left, lower_right));
                    assert(spec_band_lower_right(bounds, upper_left, lower_right, rp, j)
                        == point_at(
                        bounds,
                        (width, (top + bh) as usize),
                        upper_left,
                        lower_right,
                    ));
                }
            }
            if (bh as int) < rp {
                // a short band is the last one: the next row index is the height
                assert(h < (i as int + 1) * rp) by (nonlinear_arith)
                    requires
                        h == i as int * rp + bh as int,
                        (bh as int) < rp,
                        i >= 0,
                        rp >= 1,
                ;
                if i as int + 1 < n {
                    assert((i as int + 1) * rp <= (n - 1) * rp) by (nonlinear_arith)
                        requires
                            i as int + 1 <= n - 1,
                            rp >= 1,
                    ;
                    assert(false);
                }
            } else {
                assert(t + bh as int == (i as int + 1) * rp) by (nonlinear_arith)
                    requires
                        t == i as int * rp,
                        bh as int == rp,
                ;
                if i as int + 1 == n {
                    assert(t + bh as int == h);
                }
            }
        }
        top = top + bh;
        i = i + 1;
    }
    proof {
        if i < n {
            assert(i * rpb <= (n - 1) * rpb) by (nonlinear_arith)
                requires
                    i as int <= n - 1,
                    rpb >= 1,
                    i >= 0,
            ;
            assert(false);
        }
        assert(out.len() == bounds.0 * bounds.1) by (nonlinear_arith)
            requires
                out.len() == (bounds.1 as int) * (bounds.0 as int),
        ;
    }
    out
}

/// Tiling correctness: for any requested band count, every row of the image
/// lies in exactly one band, so the bands' pixel mappings together cover
/// every pixel exactly once, none skipped and none computed twice.
pub proof fn lemma_bands_tile(height: int, threads: int, row: int)
    requires
        height >= 1,
        threads >= 1,
        0 <= row < height,
    ensures
        ({
            let rpb = spec_rows_per_band(height, threads);
            let n = spec_band_count(height, rpb);
            let i = row / rpb;
            &&& 0 <= i < n
            &&& spec_band_top(rpb, i) <= row
            &&& row < spec_band_top(rpb, i) + spec_band_height(height, rpb, i)
            &&& forall|j: int|
                0 <= j < n && spec_band_top(rpb, j) <= row && row < spec_band_top(rpb, j)
                    + spec_band_height(height, rpb, j) ==> j == row / rpb
        }),
{
    lemma_rows_per_band_bounds(height, threads);
    let rpb = spec_rows_per_band(height, threads);
    let n = spec_band_count(height, rpb);
    lemma_band_count_covers(height, rpb);
    lemma_fundamental_div_mod(row, rpb);
    lemma_mod_division_less_than_divisor(row, rpb);
    let i = row / rpb;
    let rem = row % rpb;
    assert(0 <= i && i < n) by (nonlinear_arith)
        requires
            row == rpb * i + rem,
            0 <= rem,
            rem < rpb,
            rpb >= 1,
            0 <= row,
            row < height,
            n * rpb >= height,
    ;
    assert(spec_band_top(rpb, i) <= row && row < i * rpb + rpb) by (nonlinear_arith)
        requires
            row == rpb * i + rem,
            0 <= rem,
            rem < rpb,
    ;
    assert forall|j: int|
        0 <= j < n && spec_band_top(rpb, j) <= row && row < spec_band_top(rpb, j)
            + spec_band_height(height, rpb, j) implies j == row / rpb by {
        assert(spec_band_height(height, rpb, j) <= rpb);
        assert(0 <= row - j * rpb && row - j * rpb < rpb) by (nonlinear_arith)
            requires
                j * rpb <= row,
                row < j * rpb + spec_band_height(height, rpb, j),
                spec_band_height(height, rpb, j) <= rpb,
        ;
        lemma_fundamental_div_mod_converse(row, rpb, j, row - j * rpb);
    }
}

/// Band partitioning does not alter results: within any band, the slice of
/// the buffer the parallel renderer produces is byte-identical to what the
/// sequential renderer produces for that band's own bounds and plane
/// sub-rectangle.
pub proof fn lemma_band_matches_sequential(
    parallel_buf: Seq<u8>,
    band_buf: Seq<u8>,
    bounds: (usize, usize),
    upper_left: Complex,
    lower_right: Complex,
    limit: int,
    threshold: u64,
    threads: int,
    i: int,
)
    requires
        bounds.0 >= 1,
        bounds.1 >= 1,
        threads >= 1,
        parallel_rendered(parallel_buf, bounds, upper_left, lower_right, limit, threshold, threads),
        0 <= i < spec_band_count(
            bounds.1 as int,
            spec_rows_per_band(bounds.1 as int, threads),
        ),
        rendered(
            band_buf,
            spec_band_bounds(bounds, spec_rows_per_band(bounds.1 as int, threads), i),
            spec_band_upper_left(
                bounds,
                upper_left,
                lower_right,
                spec_rows_per_band(bounds.1 as int, threads),
                i,
            ),
            spec_band_lower_right(
                bounds,
                upper_left,
                lower_right,
                spec_rows_per_band(bounds.1 as int, threads),
                i,
            ),
            limit,
            threshold,
        ),
    ensures
        ({
            let w = bounds.0 as int;
            let h = bounds.1 as int;
            let rpb = spec_rows_per_band(h, threads);
            let top = spec_band_top(rpb, i);
            let bh = spec_band_height(h, rpb, i);
            parallel_buf.subrange(top * w, (top + bh) * w) == band_buf
        }),
{
    let w = bounds.0 as int;
    let h = bounds.1 as int;
    let rpb = spec_rows_per_band(h, threads);
    let n = spec_band_count(h, rpb);
    let top = spec_band_top(rpb, i);
    let bh = spec_band_height(h, rpb, i);
    lemma_rows_per_band_bounds(h, threads);
    lemma_band_count_covers(h, rpb);
    assert(1 <= bh && bh <= rpb && 0 <= top && top + bh <= h) by (nonlinear_arith)
        requires
            top == i * rpb,
            bh == if h - i * rpb < rpb { h - i * rpb } else { rpb },
            0 <= i,
            i <= n - 1,
            (n - 1) * rpb < h,
            rpb >= 1,
    ;
    assert(0 <= top * w && top * w <= (top + bh) * w && (top + bh) * w <= (bounds.0 as int) * (
    bounds.1 as int)) by (nonlinear_arith)
        requires
            top + bh <= h,
            w >= 1,
            0 <= top,
            0 <= bh,
            w == bounds.0 as int,
            h == bounds.1 as int,
    ;
    assert((bh as usize) as int == bh);
    assert(band_buf.len() == w * bh);
    let part = parallel_buf.subrange(top * w, (top + bh) * w);
    assert(part.len() == bh * w) by (nonlinear_arith)
        requires
            part.len() == (top + bh) * w - top * w,
    ;
    assert forall|k: int| 0 <= k < part.len() implies part[k] == band_buf[k] by {
        lemma_fundamental_div_mod(k, w);
        lemma_mod_division_less_than_divisor(k, w);
        let row = k / w;
        let col = k % w;
        assert(0 <= row && row < bh && k == row * w + col) by (nonlinear_arith)
            requires
                k == w * row + col,
                0 <= col,
                col < w,
                0 <= k,
                k < bh * w,
                w >= 1,
        ;
        assert(parallel_buf[(spec_band_top(rpb, i) + row) * w + col] == pixel_byte(
            spec_band_bounds(bounds, rpb, i),
            (col as usize, row as usize),
            spec_band_upper_left(bounds, upper_left, lower_right, rpb, i),
            spec_band_lower_right(bounds, upper_left, lower_right, rpb, i),
            limit,
            threshold,
        ));
        assert(band_buf[row * w + col] == pixel_byte(
            spec_band_bounds(bounds, rpb, i),
            (col as usize, row as usize),
            spec_band_upper_left(bounds, upper_left, lower_right, rpb, i),
            spec_band_lower_right(bounds, upper_left, lower_right, rpb, i),
            limit,
            threshold,
        ));
        assert((top + row) * w + col == top * w + k) by (nonlinear_arith)
            requires
                k == row * w + col,
        ;
        assert(part[k] == parallel_buf[top * w + k]);
    }
    assert(part.len() == band_buf.len()) by (nonlinear_arith)
        requires
            part.len() == bh * w,
            band_buf.len() == w * bh,
    ;
    assert(part =~= band_buf);
}

/// The parallel renderer is deterministic: two buffers rendered with the
/// same bounds, rectangle, limit, threshold and thread count are
/// byte-identical, whatever order the bands were computed in.
pub proof fn lemma_parallel_render_deterministic(
    a: Seq<u8>,
    b: Seq<u8>,
    bounds: (usize, usize),
    upper_left: Complex,
    lower_right: Complex,
    limit: int,
    threshold: u64,
    threads: int,
)
    requires
        bounds.0 >= 1,
        bounds.1 >= 1,
        threads >= 1,
        parallel_rendered(a, bounds, upper_left, lower_right, limit, threshold, threads),
        parallel_rendered(b, bounds, upper_left, lower_right, limit, threshold, threads),
    ensures
        a == b,
{
    let w = bounds.0 as int;
    let h = bounds.1 as int;
    let rpb = spec_rows_per_band(h, threads);
    lemma_rows_per_band_bounds(h, threads);
    lemma_band_count_covers(h, rpb);
    assert forall|k: int| 0 <= k < a.len() implies a[k] == b[k] by {
        lemma_fundamental_div_mod(k, w);
        lemma_mod_division_less_than_divisor(k, w);
        let row = k / w;
        let col = k % w;
        assert(0 <= row && row < h && k == row * w + col) by (nonlinear_arith)
            requires
                k == w * row + col,
                0 <= col,
                col < w,
                0 <= k,
                k < (bounds.0 as int) * (bounds.1 as int),
                w == bounds.0 as int,
                h == bounds.1 as int,
                w >= 1,
                h >= 1,
        ;
        lemma_bands_tile(h, threads, row);
        let i = row / rpb;
        let local = row - spec_band_top(rpb, i);
        assert(a[(spec_band_top(rpb, i) + local) * w + col] == pixel_byte(
            spec_band_bounds(bounds, rpb, i),
            (col as usize, local as usize),
            spec_band_upper_left(bounds, upper_left, lower_right, rpb, i),
            spec_band_lower_right(bounds, upper_left, lower_right, rpb, i),
            limit,
            threshold,
        ));
        assert(b[(spec_band_top(rpb, i) + local) * w + col] == pixel_byte(
            spec_band_bounds(bounds, rpb, i),
            (col as usize, local as usize),
            spec_band_upper_left(bounds, upper_left, lower_right, rpb, i),
            spec_band_lower_right(bounds, upper_left, lower_right, rpb, i),
            limit,
            threshold,
        ));
    }
    assert(a =~= b);
}

} // verus!
