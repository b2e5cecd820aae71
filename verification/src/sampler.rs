//! The boundary radius sampler: walks the rasterized ray from the plane
//! origin toward an endpoint pixel and reports the last interior pixel
//! before the first non-interior one, as a squared plane distance.
//!
//! The discretized line itself comes from the `bresenham` crate; its exact
//! point sequence is named `bres_points` and everything the walk concludes
//! is proved over that name.

use crate::raster::{black, spec_black, Raster};
use crate::viewport::{norm_sq, pixel_x_of, pixel_y_of, spec_im, spec_re, to_complex, to_pixel,
    CPoint, Viewport};
use bresenham::Bresenham;
use vstd::math::{abs, max, min};
use vstd::prelude::*;

verus! {

/// The point sequence of the rasterized line from `start` toward `end`,
/// as the bresenham crate yields it: `start` included, `end` excluded.
pub uninterp spec fn bres_points(start: (int, int), end: (int, int)) -> Seq<(int, int)>;

/// `p` lies in the closed bounding rectangle of `a` and `b`.
pub open spec fn in_box(p: (int, int), a: (int, int), b: (int, int)) -> bool {
    &&& min(a.0, b.0) <= p.0 <= max(a.0, b.0)
    &&& min(a.1, b.1) <= p.1 <= max(a.1, b.1)
}

/// Relies on bresenham::Bresenham (the bresenham crate): iterating it
/// yields the rasterized line from `start` to `end`, `start` included and
/// `end` excluded, one point per step of the driving axis; every yielded
/// point lies in the bounding rectangle of the two endpoints.
#[verifier::external_body]
fn bres_walk(sx: isize, sy: isize, ex: isize, ey: isize) -> (pts: Vec<(isize, isize)>)
    requires
        -1000000 <= sx <= 1000000,
        -1000000 <= sy <= 1000000,
        -1000000 <= ex <= 1000000,
        -1000000 <= ey <= 1000000,
    ensures
        pts@.len() == bres_points((sx as int, sy as int), (ex as int, ey as int)).len(),
        pts@.len() == max(abs(ex as int - sx as int) as int, abs(ey as int - sy as int) as int),
        forall|i: int|
            0 <= i < pts@.len() ==> ((#[trigger] pts@[i]).0 as int, pts@[i].1 as int)
                == bres_points((sx as int, sy as int), (ex as int, ey as int))[i],
        forall|i: int|
            0 <= i < pts@.len() ==> in_box(((#[trigger] pts@[i]).0 as int, pts@[i].1 as int),
                (sx as int, sy as int), (ex as int, ey as int)),
        pts@.len() > 0 ==> ((pts@[0].0 as int, pts@[0].1 as int)) == ((sx as int, sy as int)),
{
    Bresenham::new((sx, sy), (ex, ey)).collect()
}

/// The walk stops at `p`: the pixel is off the raster or not interior.
pub open spec fn stops(r: Raster, p: (int, int)) -> bool {
    ||| !(0 <= p.0 < r.spec_vp().w && 0 <= p.1 < r.spec_vp().h)
    ||| r.color_at(p.0, p.1) != spec_black()
}

/// Index of the first point the walk stops at, or the length of the line
/// when it walks through whole.
pub open spec fn first_stop(r: Raster, pts: Seq<(int, int)>) -> int
    decreases pts.len(),
{
    if pts.len() == 0 {
        0
    } else if stops(r, pts[0]) {
        0
    } else {
        1 + first_stop(r, pts.drop_first())
    }
}

/// The last interior pixel the walk visits before stopping; the origin
/// itself when the walk stops at once.
pub open spec fn last_interior(r: Raster, pts: Seq<(int, int)>, origin: (int, int)) -> (int, int) {
    let j = first_stop(r, pts);
    if j == 0 {
        origin
    } else {
        pts[j - 1]
    }
}

/// `first_stop` is exactly the index it is defined to be: everything
/// before it walks on, and it stops unless the line ran out.
pub proof fn lemma_first_stop_is(r: Raster, pts: Seq<(int, int)>, j: int)
    requires
        0 <= j <= pts.len(),
        forall|k: int| 0 <= k < j ==> !stops(r, #[trigger] pts[k]),
        j < pts.len() ==> stops(r, pts[j]),
    ensures
        first_stop(r, pts) == j,
    decreases pts.len(),
{
    if pts.len() == 0 {
    } else if j == 0 {
    } else {
        assert(!stops(r, pts[0]));
        let rest = pts.drop_first();
        assert forall|k: int| 0 <= k < j - 1 implies !stops(r, #[trigger] rest[k]) by {
            assert(rest[k] == pts[k + 1]);
        }
        if j - 1 < rest.len() {
            assert(rest[j - 1] == pts[j]);
        }
        lemma_first_stop_is(r, rest, j - 1);
    }
}

/// Boundary transition: when the walked line is interior for exactly its
/// first `k` points and stops at the next, the sampler lands on the
/// `k`-th visited pixel, whose plane distance is what it reports.
pub proof fn lemma_boundary_transition(
    r: Raster,
    origin: (int, int),
    pts: Seq<(int, int)>,
    k: int,
)
    requires
        0 < k <= pts.len(),
        forall|j: int| 0 <= j < k ==> !stops(r, #[trigger] pts[j]),
        k < pts.len() ==> stops(r, pts[k]),
    ensures
        last_interior(r, pts, origin) == pts[k - 1],
{
    lemma_first_stop_is(r, pts, k);
}

/// The pixel the origin of the plane maps to.
pub open spec fn spec_origin(vp: Viewport) -> (int, int) {
    (pixel_x_of(vp, 0), pixel_y_of(vp, 0))
}

/// What the sampler reports for endpoint pixel `(ex, ey)`: the squared
/// plane magnitude, in numerator units over `w * w`, of the last interior
/// pixel along the line from the origin pixel toward the endpoint.
pub open spec fn radius_sq_spec(r: Raster, ex: int, ey: int) -> int {
    let vp = r.spec_vp();
    let origin = spec_origin(vp);
    let p = last_interior(r, bres_points(origin, (ex, ey)), origin);
    norm_sq(spec_re(vp, p.0), spec_im(vp, p.1))
}

/// Walks the discretized ray from the origin pixel toward `(ex, ey)` and
/// returns the last interior pixel visited before the walk first stops,
/// the origin pixel itself if it stops at once. An endpoint past the
/// raster's lower edge is allowed; the walk treats pixels off the raster
/// as non-interior.
pub fn radius_at(r: &Raster, ex: u32, ey: u32) -> (p: (u32, u32))
    requires
        r.wf(),
        ex <= r.spec_vp().w,
        ey <= r.spec_vp().w,
    ensures
        ({
            let vp = r.spec_vp();
            let origin = spec_origin(vp);
            let pi = (p.0 as int, p.1 as int);
            &&& pi == last_interior(*r, bres_points(origin, (ex as int, ey as int)), origin)
            &&& p.0 < vp.w
            &&& p.1 < vp.h
            &&& (pi == origin || in_box(pi, origin, (ex as int, ey as int)))
        }),
{
    let vp = r.vp();
    let origin = to_pixel(vp, CPoint { re: 0, im: 0 });
    let ghost origin_i = (origin.0 as int, origin.1 as int);
    let ghost end_i = (ex as int, ey as int);
    proof {
        assert(origin_i == spec_origin(vp));
        assert(origin.0 == (2 * vp.w as int) / 4 && origin.1 == (2 * vp.h as int) / 4);
        assert(origin.0 < vp.w && origin.1 < vp.h);
    }
    let pts = bres_walk(origin.0 as isize, origin.1 as isize, ex as isize, ey as isize);
    let ghost s = bres_points(origin_i, end_i);
    proof {
        assert forall|i: int| 0 <= i < s.len() implies in_box(#[trigger] s[i], origin_i, end_i) by {
            assert(((pts@[i]).0 as int, pts@[i].1 as int) == s[i]);
        }
    }
    let w_is: isize = vp.w as isize;
    let h_is: isize = vp.h as isize;
    let mut last: (u32, u32) = origin;
    let mut idx: usize = 0;
    let mut stopped: bool = false;
    while !stopped && idx < pts.len()
        invariant
            r.wf(),
            vp == r.spec_vp(),
            vp.valid(),
            w_is == vp.w as int,
            h_is == vp.h as int,
            origin_i == spec_origin(vp),
            origin.0 < vp.w,
            origin.1 < vp.h,
            (origin.0 as int, origin.1 as int) == origin_i,
            end_i == (ex as int, ey as int),
            s == bres_points(origin_i, end_i),
            pts@.len() == s.len(),
            forall|i: int|
                0 <= i < s.len() ==> ((#[trigger] pts@[i]).0 as int, pts@[i].1 as int) == s[i],
            forall|i: int| 0 <= i < s.len() ==> in_box(#[trigger] s[i], origin_i, end_i),
            idx <= s.len(),
            forall|k: int| 0 <= k < idx ==> !stops(*r, #[trigger] s[k]),
            stopped ==> idx < s.len() && stops(*r, s[idx as int]),
            (last.0 as int, last.1 as int) == if idx == 0 {
                origin_i
            } else {
                s[idx - 1]
            },
            last.0 < vp.w,
            last.1 < vp.h,
            (last.0 as int, last.1 as int) == origin_i || in_box(
                (last.0 as int, last.1 as int), origin_i, end_i),
        decreases s.len() - idx + if stopped {
            0int
        } else {
            1int
        },
    {
        let pq = pts[idx];
        if pq.0 < 0 || pq.1 < 0 || pq.0 >= w_is || pq.1 >= h_is {
            stopped = true;
        } else {
            let x = pq.0 as u32;
            let y = pq.1 as u32;
            if r.get(x, y) == black() {
                last = (x, y);
                idx = idx + 1;
            } else {
                stopped = true;
            }
        }
    }
    proof {
        lemma_first_stop_is(*r, s, idx as int);
    }
    last
}

/// Squared sampled radius for endpoint pixel `(ex, ey)`, in numerator
/// units over `w * w`: the plane radius is its square root divided by `w`.
/// For even dimensions and an endpoint pixel mapping inside the plane disc
/// of radius two, the reported radius also stays within that disc.
pub fn radius_sq_at(r: &Raster, ex: u32, ey: u32) -> (rsq: u64)
    requires
        r.wf(),
        ex <= r.spec_vp().w,
        ey <= r.spec_vp().w,
    ensures
        rsq == radius_sq_spec(*r, ex as int, ey as int),
        ({
            let vp = r.spec_vp();
            (vp.w % 2 == 0 && vp.h % 2 == 0) ==> rsq <= norm_sq(spec_re(vp, ex as int),
                spec_im(vp, ey as int))
        }),
        ({
            let vp = r.spec_vp();
            (vp.w % 2 == 0 && vp.h % 2 == 0 && norm_sq(spec_re(vp, ex as int),
                spec_im(vp, ey as int)) <= 4 * vp.w * vp.w) ==> rsq <= 4 * vp.w * vp.w
        }),
{
    let vp = r.vp();
    let p = radius_at(r, ex, ey);
    let c = to_complex(vp, p.0, p.1);
    let ar: u64 = if c.re >= 0 {
        c.re as u64
    } else {
        (-c.re) as u64
    };
    let ai: u64 = if c.im >= 0 {
        c.im as u64
    } else {
        (-c.im) as u64
    };
    assert(ar * ar == c.re as int * c.re as int && ai * ai == c.im as int * c.im as int && ar * ar
        <= 40000000000 && ai * ai <= 40000000000) by (nonlinear_arith)
        requires
            ar == abs(c.re as int),
            ai == abs(c.im as int),
            ar <= 200000,
            ai <= 200000,
    ;
    let rsq: u64 = ar * ar + ai * ai;
    proof {
        if vp.w % 2 == 0 && vp.h % 2 == 0 {
            lemma_box_norm_bound(vp, (p.0 as int, p.1 as int), (ex as int, ey as int));
        }
    }
    rsq
}

/// For even dimensions the origin pixel maps exactly to the plane origin,
/// so every pixel in the bounding rectangle of origin and endpoint maps no
/// farther from the origin than the endpoint does: a sampled radius never
/// exceeds the cast ray's own endpoint distance.
pub proof fn lemma_box_norm_bound(vp: Viewport, p: (int, int), e: (int, int))
    requires
        vp.valid(),
        vp.w % 2 == 0,
        vp.h % 2 == 0,
        p == spec_origin(vp) || in_box(p, spec_origin(vp), e),
    ensures
        norm_sq(spec_re(vp, p.0), spec_im(vp, p.1)) <= norm_sq(spec_re(vp, e.0),
            spec_im(vp, e.1)),
{
    let o = spec_origin(vp);
    assert(o.0 == (2 * vp.w as int) / 4 && o.1 == (2 * vp.h as int) / 4);
    assert(spec_re(vp, o.0) == 0 && spec_im(vp, o.1) == 0);
    let rp = spec_re(vp, p.0);
    let ip = spec_im(vp, p.1);
    let re = spec_re(vp, e.0);
    let ie = spec_im(vp, e.1);
    if p == o {
        assert(0 <= re * re && 0 <= ie * ie) by (nonlinear_arith);
    } else {
        assert((0 <= rp <= re || re <= rp <= 0) && (0 <= ip <= ie || ie <= ip <= 0));
        assert(rp * rp <= re * re && ip * ip <= ie * ie) by (nonlinear_arith)
            requires
                (0 <= rp <= re || re <= rp <= 0) && (0 <= ip <= ie || ie <= ip <= 0),
        ;
    }
}

/// Samples the boundary radius for a whole sequence of ray endpoints, in
/// order: the data series of the polar plot.
pub fn sample_radii(r: &Raster, ends: &Vec<(u32, u32)>) -> (out: Vec<u64>)
    requires
        r.wf(),
        forall|i: int|
            0 <= i < ends@.len() ==> (#[trigger] ends@[i]).0 <= r.spec_vp().w && ends@[i].1
                <= r.spec_vp().w,
    ensures
        out@.len() == ends@.len(),
        forall|i: int|
            0 <= i < ends@.len() ==> out@[i] == radius_sq_spec(*r, (#[trigger] ends@[i]).0 as int,
                ends@[i].1 as int),
{
    let mut out: Vec<u64> = Vec::new();
    let mut i: usize = 0;
    while i < ends.len()
        invariant
            r.wf(),
            i <= ends@.len(),
            out@.len() == i,
            forall|j: int|
                0 <= j < ends@.len() ==> (#[trigger] ends@[j]).0 <= r.spec_vp().w && ends@[j].1
                    <= r.spec_vp().w,
            forall|j: int|
                0 <= j < i ==> out@[j] == radius_sq_spec(*r, (#[trigger] ends@[j]).0 as int,
                    ends@[j].1 as int),
        decreases ends@.len() - i,
    {
        let e = ends[i];
        let rsq = radius_sq_at(r, e.0, e.1);
        out.push(rsq);
        i = i + 1;
    }
    out
}

} // verus!
