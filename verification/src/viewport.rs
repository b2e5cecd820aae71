//! The fixed rectangular viewport and the bidirectional transform between
//! pixel coordinates and plane points.
//!
//! A plane coordinate is stored as an integer numerator over the implicit
//! denominator `w`: pixel column `x` maps to real part `(4x - 2w) / w`, and
//! pixel row `y` maps to imaginary part `(2h - 4y) / w`, so the horizontal
//! extent is `[-2, 2]` and the vertical extent `[-2h/w, 2h/w]`, centered at
//! the origin with the aspect ratio preserved.

use vstd::prelude::*;

verus! {

/// Upper bound on raster dimensions; keeps all scaled arithmetic far from
/// the limits of the machine integers it runs in.
pub const MAX_DIM: u32 = 100000;

/// Upper bound on the pixel count of a raster, so a flat buffer index fits
/// in `usize` on every architecture.
pub const MAX_PIXELS: u32 = 100000000;

/// The fixed rectangular viewport: a `w` by `h` pixel grid over the plane
/// rectangle `[-2, 2] x [-2h/w, 2h/w]`.
#[derive(Clone, Copy, PartialEq, Eq, Structural)]
pub struct Viewport {
    pub w: u32,
    pub h: u32,
}

/// A plane point; `re` and `im` are numerators over the denominator `w` of
/// the viewport the point belongs to.
#[derive(Clone, Copy, PartialEq, Eq, Structural)]
pub struct CPoint {
    pub re: i64,
    pub im: i64,
}

impl Viewport {
    /// A viewport is wider than tall (the rendered plane region is), has at
    /// least one pixel each way, and is small enough that every scaled
    /// product in the pipeline fits its machine integer.
    pub open spec fn valid(self) -> bool {
        &&& 1 <= self.h
        &&& self.h <= self.w
        &&& self.w <= MAX_DIM
        &&& self.w * self.h <= MAX_PIXELS
    }

    /// Runtime form of `valid`, for callers outside the verified library.
    pub fn is_valid(&self) -> (r: bool)
        ensures
            r == self.valid(),
    {
        if 1 <= self.h && self.h <= self.w && self.w <= MAX_DIM {
            assert((self.w as u64) * (self.h as u64) <= 10000000000u64) by (nonlinear_arith)
                requires
                    self.w <= 100000,
                    self.h <= 100000,
            ;
            let prod: u64 = (self.w as u64) * (self.h as u64);
            prod <= MAX_PIXELS as u64
        } else {
            false
        }
    }
}

/// Real-part numerator of the plane point at pixel column `x`.
pub open spec fn spec_re(vp: Viewport, x: int) -> int {
    4 * x - 2 * vp.w
}

/// Imaginary-part numerator of the plane point at pixel row `y`.
pub open spec fn spec_im(vp: Viewport, y: int) -> int {
    2 * vp.h - 4 * y
}

/// Squared plane magnitude, in numerator units (denominator `w * w`).
pub open spec fn norm_sq(re: int, im: int) -> int {
    re * re + im * im
}

/// Pixel column of a plane point with real-part numerator `re`; truncating,
/// and saturating at the left edge rather than going negative.
pub open spec fn pixel_x_of(vp: Viewport, re: int) -> int {
    if re >= -2 * vp.w {
        (re + 2 * vp.w) / 4
    } else {
        0
    }
}

/// Pixel row of a plane point with imaginary-part numerator `im`;
/// truncating, and saturating at the top edge.
pub open spec fn pixel_y_of(vp: Viewport, im: int) -> int {
    if im <= 2 * vp.h {
        (2 * vp.h - im) / 4
    } else {
        0
    }
}

/// Maps a pixel coordinate to the plane point at its upper-left corner.
pub fn to_complex(vp: Viewport, x: u32, y: u32) -> (c: CPoint)
    requires
        vp.valid(),
        x <= vp.w,
        y <= vp.h,
    ensures
        c.re == spec_re(vp, x as int),
        c.im == spec_im(vp, y as int),
        -2 * vp.w <= c.re <= 2 * vp.w,
        -2 * vp.h <= c.im <= 2 * vp.h,
{
    CPoint {
        re: 4 * (x as i64) - 2 * (vp.w as i64),
        im: 2 * (vp.h as i64) - 4 * (y as i64),
    }
}

/// Maps a plane point to pixel space, truncating to integers. The caller
/// keeps the point within twice the viewport's half-extent; a point below
/// the vertical extent may still land on a row past the raster, which the
/// truncating cast deliberately leaves unchecked.
pub fn to_pixel(vp: Viewport, c: CPoint) -> (p: (u32, u32))
    requires
        vp.valid(),
        -2 * vp.w <= c.re <= 2 * vp.w,
        -2 * vp.w <= c.im <= 2 * vp.w,
    ensures
        p.0 == pixel_x_of(vp, c.re as int),
        p.1 == pixel_y_of(vp, c.im as int),
        p.0 <= vp.w,
        p.1 <= vp.w,
{
    let xn: i64 = c.re + 2 * (vp.w as i64);
    let x: u32 = ((xn as u64) / 4) as u32;
    let yn: i64 = 2 * (vp.h as i64) - c.im;
    let y: u32 = if yn >= 0 {
        ((yn as u64) / 4) as u32
    } else {
        0
    };
    (x, y)
}

/// Round trip: mapping a pixel to the plane and back returns the very same
/// pixel. The integer mapper is exact here, which is within the one-pixel
/// tolerance the truncating design asks for.
pub proof fn lemma_pixel_round_trip(vp: Viewport, x: int, y: int)
    requires
        vp.valid(),
        0 <= x < vp.w,
        0 <= y < vp.h,
    ensures
        pixel_x_of(vp, spec_re(vp, x)) == x,
        pixel_y_of(vp, spec_im(vp, y)) == y,
{
    assert((4 * x - 2 * vp.w + 2 * vp.w) / 4 == x);
    assert((2 * vp.h - (2 * vp.h - 4 * y)) / 4 == y);
}

} // verus!
