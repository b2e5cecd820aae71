//! The escape-time membership test for the Mandelbrot set.
//!
//! The iteration `z <- z^2 + c` runs in the viewport's fixed-point scale:
//! both components of `z` and `c` are numerators over the denominator `w`,
//! so one step squares the numerators and scales the products back down by
//! `w`, truncating toward zero. A point is a member ("interior") when no
//! iterate within the bailout budget leaves the disc of radius two.

use crate::viewport::{norm_sq, CPoint, Viewport};
use vstd::arithmetic::div_mod::lemma_multiply_divide_le;
use vstd::prelude::*;

verus! {

/// Bailout budget: a point whose first thousand iterates stay within the
/// bailout radius counts as a member of the set.
pub const MAX_ITERS: u32 = 1000;

/// Division truncating toward zero, the rounding the executable scaling
/// steps use on either sign.
pub open spec fn tdiv(a: int, d: int) -> int {
    if a >= 0 {
        a / d
    } else {
        -((-a) / d)
    }
}

/// Squared bailout threshold in numerator units: the disc of plane radius
/// two has squared radius `4 * w * w` at denominator `w`.
pub open spec fn bailout_sq(vp: Viewport) -> int {
    4 * vp.w * vp.w
}

/// Real part of one iteration step, in numerator units. The two squares
/// are non-negative, so their scaling truncates like the machine division.
pub open spec fn step_re(vp: Viewport, zr: int, zi: int, cr: int) -> int {
    zr * zr / (vp.w as int) - zi * zi / (vp.w as int) + cr
}

/// Imaginary part of one iteration step, in numerator units.
pub open spec fn step_im(vp: Viewport, zr: int, zi: int, ci: int) -> int {
    tdiv(2 * zr * zi, vp.w as int) + ci
}

/// The iterate `z_n` of the escape-time recurrence for the point
/// `(cr, ci)`, starting from zero.
pub open spec fn z_at(vp: Viewport, cr: int, ci: int, n: nat) -> (int, int)
    decreases n,
{
    if n == 0 {
        (0, 0)
    } else {
        let p = z_at(vp, cr, ci, (n - 1) as nat);
        (step_re(vp, p.0, p.1, cr), step_im(vp, p.0, p.1, ci))
    }
}

/// Membership: every iterate checked within the bailout budget stays
/// inside the bailout disc.
pub open spec fn spec_interior(vp: Viewport, cr: int, ci: int) -> bool {
    forall|k: nat| k < MAX_ITERS ==> norm_sq(#[trigger] z_at(vp, cr, ci, k).0, z_at(vp, cr, ci, k).1)
        < bailout_sq(vp)
}

/// Squared magnitude of a fixed-point pair, total over the bounded range
/// the iteration keeps its state in.
fn norm_sq_exec(zr: i64, zi: i64) -> (r: u64)
    requires
        -600000 <= zr <= 600000,
        -600000 <= zi <= 600000,
    ensures
        r == norm_sq(zr as int, zi as int),
{
    assert(0 <= zr * zr <= 360000000000i64 && 0 <= zi * zi <= 360000000000i64)
        by (nonlinear_arith)
        requires
            -600000 <= zr <= 600000,
            -600000 <= zi <= 600000,
    ;
    let a: i64 = zr * zr;
    let b: i64 = zi * zi;
    (a as u64) + (b as u64)
}

/// Classifies a plane point: `true` means the point is a member of the set
/// (rendered as interior). Total over the whole doubled viewport.
pub fn classify(vp: Viewport, c: CPoint) -> (r: bool)
    requires
        vp.valid(),
        -2 * vp.w <= c.re <= 2 * vp.w,
        -2 * vp.w <= c.im <= 2 * vp.w,
    ensures
        r == spec_interior(vp, c.re as int, c.im as int),
{
    let ghost w = vp.w as int;
    let ghost cr = c.re as int;
    let ghost ci = c.im as int;
    let w64: u64 = vp.w as u64;
    assert(4 * w * w <= 40000000000) by (nonlinear_arith)
        requires
            0 <= w <= 100000,
    ;
    let bail: u64 = 4 * w64 * w64;
    let mut zr: i64 = 0;
    let mut zi: i64 = 0;
    let mut i: u32 = 0;
    while norm_sq_exec(zr, zi) < bail && i < MAX_ITERS
        invariant
            vp.valid(),
            w == vp.w as int,
            cr == c.re as int,
            ci == c.im as int,
            -2 * w <= cr <= 2 * w,
            -2 * w <= ci <= 2 * w,
            w64 == vp.w,
            bail == bailout_sq(vp),
            i <= MAX_ITERS,
            -6 * w <= zr <= 6 * w,
            -6 * w <= zi <= 6 * w,
            (zr as int, zi as int) == z_at(vp, cr, ci, i as nat),
            forall|k: nat| k < i ==> norm_sq(#[trigger] z_at(vp, cr, ci, k).0,
                z_at(vp, cr, ci, k).1) < bailout_sq(vp),
        decreases MAX_ITERS - i,
    {
        assert(zr * zr >= 0 && zi * zi >= 0 && 2 * zr * zi >= -(zr * zr + zi * zi) && 2 * zr * zi
            <= zr * zr + zi * zi) by (nonlinear_arith);
        assert(zr * zr + zi * zi < 4 * w * w);
        assert(4 * w * w <= 40000000000) by (nonlinear_arith)
            requires
                0 <= w <= 100000,
        ;
        let sr: i64 = zr * zr;
        let si: i64 = zi * zi;
        proof {
            lemma_multiply_divide_le(sr as int, w, 4 * w);
            lemma_multiply_divide_le(si as int, w, 4 * w);
            assert(w * (4 * w) == 4 * w * w) by (nonlinear_arith);
        }
        let dr: i64 = ((sr as u64) / w64) as i64;
        let di: i64 = ((si as u64) / w64) as i64;
        let cross: i64 = 2 * zr * zi;
        let dc: i64 = if cross >= 0 {
            proof {
                lemma_multiply_divide_le(cross as int, w, 4 * w);
            }
            ((cross as u64) / w64) as i64
        } else {
            proof {
                lemma_multiply_divide_le(-cross as int, w, 4 * w);
            }
            -((((-cross) as u64) / w64) as i64)
        };
        let new_zr: i64 = dr - di + c.re;
        let new_zi: i64 = dc + c.im;
        proof {
            assert(new_zr as int == step_re(vp, zr as int, zi as int, cr));
            assert(new_zi as int == step_im(vp, zr as int, zi as int, ci));
            assert(z_at(vp, cr, ci, (i + 1) as nat) == (step_re(vp, zr as int, zi as int, cr),
                step_im(vp, zr as int, zi as int, ci)));
        }
        zr = new_zr;
        zi = new_zi;
        i = i + 1;
    }
    proof {
        if i < MAX_ITERS {
            assert(norm_sq(z_at(vp, cr, ci, i as nat).0, z_at(vp, cr, ci, i as nat).1)
                >= bailout_sq(vp));
            assert(!spec_interior(vp, cr, ci));
        } else {
            assert(spec_interior(vp, cr, ci));
        }
    }
    i == MAX_ITERS
}

/// Every iterate of the plane origin is the origin itself.
proof fn lemma_z_origin(vp: Viewport, k: nat)
    requires
        vp.valid(),
    ensures
        z_at(vp, 0, 0, k) == (0int, 0int),
    decreases k,
{
    if k > 0 {
        lemma_z_origin(vp, (k - 1) as nat);
        assert(0int * 0int / vp.w as int == 0int);
    }
}

/// The plane origin is always a member of the set.
pub proof fn lemma_origin_interior(vp: Viewport)
    requires
        vp.valid(),
    ensures
        spec_interior(vp, 0, 0),
{
    assert forall|k: nat| k < MAX_ITERS implies norm_sq(#[trigger] z_at(vp, 0, 0, k).0,
        z_at(vp, 0, 0, k).1) < bailout_sq(vp) by {
        lemma_z_origin(vp, k);
        assert(4 * vp.w * vp.w >= 4 * 1 * 1) by (nonlinear_arith)
            requires
                vp.w >= 1,
        ;
    }
}

/// A point outside the bailout disc escapes on the very first iteration:
/// its first iterate is the point itself, already past the bailout radius,
/// while the zeroth iterate (the origin) is not, so the escape count is
/// exactly one and the point is not a member.
pub proof fn lemma_immediate_escape(vp: Viewport, cr: int, ci: int)
    requires
        vp.valid(),
        norm_sq(cr, ci) > bailout_sq(vp),
    ensures
        !spec_interior(vp, cr, ci),
        z_at(vp, cr, ci, 1) == (cr, ci),
        norm_sq(z_at(vp, cr, ci, 1).0, z_at(vp, cr, ci, 1).1) > bailout_sq(vp),
        norm_sq(z_at(vp, cr, ci, 0).0, z_at(vp, cr, ci, 0).1) < bailout_sq(vp),
{
    assert(z_at(vp, cr, ci, 0) == (0int, 0int));
    assert(0int * 0int / vp.w as int == 0int);
    assert(z_at(vp, cr, ci, 1) == (cr, ci));
    assert(4 * vp.w * vp.w >= 4 * 1 * 1) by (nonlinear_arith)
        requires
            vp.w >= 1,
    ;
    assert(!spec_interior(vp, cr, ci)) by {
        assert(1 < MAX_ITERS && norm_sq(z_at(vp, cr, ci, 1).0, z_at(vp, cr, ci, 1).1)
            >= bailout_sq(vp));
    }
}

} // verus!
