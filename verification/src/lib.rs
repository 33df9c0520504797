//! Escape-time rendering of the Mandelbrot set over a rectangle of the
//! complex plane, into a flat buffer of grayscale intensity bytes.
//!
//! The pixel grid is mapped onto the plane by linear interpolation, each
//! point is classified by iterating the quadratic recurrence `z * z + c`
//! under an iteration budget, and the image is filled either sequentially
//! or by disjoint row-bands whose union tiles the buffer exactly.  Every
//! double-precision value is carried as its IEEE-754 bit pattern; the
//! arithmetic on those patterns is done by the `num` crate and the
//! hardware behind small trusted wrappers, and everything else is verified
//! against spec functions of those named operations.

pub mod complex;
pub mod escape;
pub mod float_ops;
pub mod mapper;
pub mod parallel;
pub mod parse;
pub mod render;
