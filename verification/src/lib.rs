//! Mandelbrot raster rendering and polar boundary sampling.
//!
//! The complex plane is modelled in exact scaled-integer arithmetic: a plane
//! coordinate is a numerator over the implicit denominator `w` (the raster
//! width in pixels), so the viewport `[-2, 2]` spans numerators `[-2w, 2w]`.
//! The escape-time iteration runs in the same fixed-point scale, which keeps
//! every operation total and lets each step be pinned down exactly.

pub mod escape;
pub mod raster;
pub mod sampler;
pub mod viewport;
