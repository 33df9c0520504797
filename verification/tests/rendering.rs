use mandelbrot_set::complex::Complex;
use mandelbrot_set::escape::escape_time;
use mandelbrot_set::float_ops::FOUR_BITS;
use mandelbrot_set::mapper::pixel_to_point;
use mandelbrot_set::parallel::{parallel_pixels, rows_per_band, DEFAULT_THREAD_COUNT};
use mandelbrot_set::render::{sequential_pixels, ITERATION_LIMIT};

fn c(re: f64, im: f64) -> Complex {
    Complex {
        re: re.to_bits(),
        im: im.to_bits(),
    }
}

#[test]
fn test_pixel_to_point() {
    assert_eq!(
        pixel_to_point((100, 200), (25, 175), c(-1.0, 1.0), c(1.0, -1.0)),
        c(-0.5, -0.75)
    );
}

#[test]
fn mapper_matches_closed_form_on_border_and_center() {
    let bounds = (100usize, 200usize);
    let (ul_re, ul_im) = (-1.0f64, 1.0f64);
    let (lr_re, lr_im) = (1.0f64, -1.0f64);
    let upper_left = c(ul_re, ul_im);
    let lower_right = c(lr_re, lr_im);
    for &(col, row) in &[(0usize, 0usize), (99, 0), (0, 199), (99, 199), (50, 100)] {
        let expected_re = ul_re + col as f64 * ((lr_re - ul_re) / bounds.0 as f64);
        let expected_im = ul_im - row as f64 * ((ul_im - lr_im) / bounds.1 as f64);
        assert_eq!(
            pixel_to_point(bounds, (col, row), upper_left, lower_right),
            c(expected_re, expected_im)
        );
    }
}

#[test]
fn origin_never_escapes() {
    for limit in [1usize, 7, 255] {
        assert_eq!(escape_time(c(0.0, 0.0), limit, FOUR_BITS), None);
    }
}

#[test]
fn far_point_escapes_immediately() {
    assert_eq!(escape_time(c(5.0, 5.0), 255, FOUR_BITS), Some(0));
}

#[test]
fn escape_counts_on_known_points() {
    // 1: the orbit is 1, 2, 5, and 5 is the first value past the threshold
    assert_eq!(escape_time(c(1.0, 0.0), 255, FOUR_BITS), Some(2));
    // -1: the orbit cycles between -1 and 0 and never escapes
    assert_eq!(escape_time(c(-1.0, 0.0), 255, FOUR_BITS), None);
}

#[test]
fn rendering_twice_is_byte_identical() {
    let bounds = (32usize, 24usize);
    let upper_left = c(-1.0, 1.0);
    let lower_right = c(1.0, -1.0);
    let first = sequential_pixels(bounds, upper_left, lower_right, ITERATION_LIMIT, FOUR_BITS);
    let second = sequential_pixels(bounds, upper_left, lower_right, ITERATION_LIMIT, FOUR_BITS);
    assert_eq!(first.len(), bounds.0 * bounds.1);
    assert_eq!(first, second);
}

#[test]
fn sequential_and_parallel_agree() {
    let bounds = (100usize, 200usize);
    let upper_left = c(-1.0, 1.0);
    let lower_right = c(1.0, -1.0);
    let sequential = sequential_pixels(bounds, upper_left, lower_right, ITERATION_LIMIT, FOUR_BITS);
    for threads in [1usize, 7, 8] {
        let parallel = parallel_pixels(
            bounds,
            upper_left,
            lower_right,
            ITERATION_LIMIT,
            FOUR_BITS,
            threads,
        );
        assert_eq!(sequential, parallel);
    }
}

#[test]
fn every_pixel_escapes_far_from_the_set() {
    let bounds = (40usize, 30usize);
    let upper_left = c(5.0, 5.0);
    let lower_right = c(6.0, 4.0);
    let sequential = sequential_pixels(bounds, upper_left, lower_right, ITERATION_LIMIT, FOUR_BITS);
    assert!(sequential.iter().all(|&b| b == 255));
    for threads in [1usize, 3, DEFAULT_THREAD_COUNT] {
        let parallel = parallel_pixels(
            bounds,
            upper_left,
            lower_right,
            ITERATION_LIMIT,
            FOUR_BITS,
            threads,
        );
        assert_eq!(sequential, parallel);
    }
}

#[test]
fn bands_cover_every_row_exactly_once() {
    for &(height, threads) in &[(10usize, 1usize), (10, 3), (10, 7), (10, 8), (10, 50), (200, 8), (1, 8)] {
        let rpb = rows_per_band(height, threads);
        let mut covered = vec![0usize; height];
        let mut top = 0usize;
        while top < height {
            let band_height = if height - top < rpb { height - top } else { rpb };
            for row in top..top + band_height {
                covered[row] += 1;
            }
            top += band_height;
        }
        assert!(covered.iter().all(|&count| count == 1));
    }
}

#[test]
fn one_pixel_image_renders() {
    let bounds = (1usize, 1usize);
    let upper_left = c(-1.0, 1.0);
    let lower_right = c(1.0, -1.0);
    let sequential = sequential_pixels(bounds, upper_left, lower_right, ITERATION_LIMIT, FOUR_BITS);
    assert_eq!(sequential.len(), 1);
    let parallel = parallel_pixels(bounds, upper_left, lower_right, ITERATION_LIMIT, FOUR_BITS, 8);
    assert_eq!(parallel.len(), 1);
}

#[test]
fn more_bands_than_rows_still_covers_the_image() {
    let bounds = (8usize, 3usize);
    let upper_left = c(-1.0, 1.0);
    let lower_right = c(1.0, -1.0);
    let parallel = parallel_pixels(bounds, upper_left, lower_right, ITERATION_LIMIT, FOUR_BITS, 50);
    assert_eq!(parallel.len(), 24);
    let sequential = sequential_pixels(bounds, upper_left, lower_right, ITERATION_LIMIT, FOUR_BITS);
    assert_eq!(sequential, parallel);
}
