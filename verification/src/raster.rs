//! The raster: a `w` by `h` grid of three-channel colors, written one full
//! row at a time, and the row renderer that classifies each pixel of a
//! scanline.

use crate::escape::{classify, spec_interior};
use crate::viewport::{spec_im, spec_re, to_complex, Viewport};
use crate::escape::lemma_origin_interior;
use vstd::arithmetic::div_mod::{
    lemma_fundamental_div_mod, lemma_mod_division_less_than_divisor, lemma_multiply_divide_lt,
};
use vstd::prelude::*;

verus! {

/// One three-channel eight-bit color value.
#[derive(Clone, Copy, Debug, PartialEq, Eq, Structural)]
pub struct Rgb8 {
    pub r: u8,
    pub g: u8,
    pub b: u8,
}

/// Pure black, the interior (member) color.
pub open spec fn spec_black() -> Rgb8 {
    (Rgb8 { r: 0, g: 0, b: 0 })
}

/// Pure white, the exterior color and the initial value of every pixel.
pub open spec fn spec_white() -> Rgb8 {
    (Rgb8 { r: 255, g: 255, b: 255 })
}

/// Runtime interior color.
pub fn black() -> (c: Rgb8)
    ensures
        c == spec_black(),
{
    Rgb8 { r: 0, g: 0, b: 0 }
}

/// Runtime exterior color.
pub fn white() -> (c: Rgb8)
    ensures
        c == spec_white(),
{
    Rgb8 { r: 255, g: 255, b: 255 }
}

/// The color the finished rendering assigns to pixel `(x, y)`: black for
/// members of the set, white for everything else.
pub open spec fn color_of(vp: Viewport, x: int, y: int) -> Rgb8 {
    if spec_interior(vp, spec_re(vp, x), spec_im(vp, y)) {
        spec_black()
    } else {
        spec_white()
    }
}

/// Renders one scanline: the complete ordered row of colors for raster row
/// `y`, one classification per column.
pub fn render_row(vp: Viewport, y: u32) -> (row: Vec<Rgb8>)
    requires
        vp.valid(),
        y < vp.h,
    ensures
        row@.len() == vp.w,
        forall|x: int| 0 <= x < vp.w ==> row@[x] == color_of(vp, x, y as int),
{
    let mut row: Vec<Rgb8> = Vec::new();
    let mut x: u32 = 0;
    while x < vp.w
        invariant
            vp.valid(),
            y < vp.h,
            x <= vp.w,
            row@.len() == x,
            forall|j: int| 0 <= j < x ==> row@[j] == color_of(vp, j, y as int),
        decreases vp.w - x,
    {
        let c = to_complex(vp, x, y);
        if classify(vp, c) {
            row.push(black());
        } else {
            row.push(white());
        }
        x = x + 1;
    }
    row
}

/// The shared pixel grid. The flat buffer holds the rows in order, top row
/// first; it is created all white and filled one row at a time.
pub struct Raster {
    vp: Viewport,
    data: Vec<Rgb8>,
}

impl Raster {
    /// The viewport this raster was allocated for.
    pub closed spec fn spec_vp(self) -> Viewport {
        self.vp
    }

    /// The flat pixel buffer, rows in order.
    pub closed spec fn buffer(self) -> Seq<Rgb8> {
        self.data@
    }

    /// Well-formed: a valid viewport and exactly one color per pixel.
    pub open spec fn wf(self) -> bool {
        &&& self.spec_vp().valid()
        &&& self.buffer().len() == self.spec_vp().w * self.spec_vp().h
    }

    /// The color of pixel `(x, y)`.
    pub open spec fn color_at(self, x: int, y: int) -> Rgb8 {
        self.buffer()[y * self.spec_vp().w + x]
    }

    /// Runtime accessor for the viewport.
    pub fn vp(&self) -> (v: Viewport)
        ensures
            v == self.spec_vp(),
    {
        self.vp
    }

    /// Allocates the raster for `vp`, every pixel the default white.
    pub fn new(vp: Viewport) -> (r: Raster)
        requires
            vp.valid(),
        ensures
            r.wf(),
            r.spec_vp() == vp,
            forall|x: int, y: int|
                0 <= x < vp.w && 0 <= y < vp.h ==> #[trigger] r.color_at(x, y) == spec_white(),
    {
        proof {
            assert(vp.w * vp.h <= 100000000) by (nonlinear_arith)
                requires
                    vp.valid(),
            ;
        }
        let n: usize = (vp.w as usize) * (vp.h as usize);
        let mut data: Vec<Rgb8> = Vec::new();
        let mut i: usize = 0;
        while i < n
            invariant
                i <= n,
                data@.len() == i,
                forall|j: int| 0 <= j < i ==> data@[j] == spec_white(),
            decreases n - i,
        {
            data.push(white());
            i = i + 1;
        }
        let r = Raster { vp, data };
        proof {
            assert forall|x: int, y: int| 0 <= x < vp.w && 0 <= y < vp.h implies #[trigger] r
                .color_at(x, y) == spec_white() by {
                lemma_index_in_range(vp, x, y);
            }
        }
        r
    }

    /// The color of pixel `(x, y)`, read back.
    pub fn get(&self, x: u32, y: u32) -> (c: Rgb8)
        requires
            self.wf(),
            x < self.spec_vp().w,
            y < self.spec_vp().h,
        ensures
            c == self.color_at(x as int, y as int),
    {
        proof {
            lemma_index_in_range(self.vp, x as int, y as int);
        }
        let idx: usize = (y as usize) * (self.vp.w as usize) + (x as usize);
        self.data[idx]
    }

    /// Writes one complete row, leaving every other pixel as it was.
    pub fn set_row(&mut self, y: u32, row: &Vec<Rgb8>)
        requires
            old(self).wf(),
            y < old(self).spec_vp().h,
            row@.len() == old(self).spec_vp().w,
        ensures
            final(self).wf(),
            final(self).spec_vp() == old(self).spec_vp(),
            forall|x: int|
                0 <= x < old(self).spec_vp().w ==> #[trigger] final(self).color_at(x, y as int)
                    == row@[x],
            forall|x: int, yy: int|
                0 <= x < old(self).spec_vp().w && 0 <= yy < old(self).spec_vp().h && yy != y
                    ==> #[trigger] final(self).color_at(x, yy) == old(self).color_at(x, yy),
    {
        let ghost vp = self.vp;
        let mut x: u32 = 0;
        while x < self.vp.w
            invariant
                self.wf(),
                self.vp == vp,
                vp == old(self).spec_vp(),
                y < vp.h,
                x <= vp.w,
                row@.len() == vp.w,
                forall|j: int| 0 <= j < x ==> #[trigger] self.color_at(j, y as int) == row@[j],
                forall|j: int, yy: int|
                    0 <= j < vp.w && 0 <= yy < vp.h && (yy != y || j >= x)
                        ==> #[trigger] self.color_at(j, yy) == old(self).color_at(j, yy),
            decreases self.vp.w - x,
        {
            proof {
                lemma_index_in_range(vp, x as int, y as int);
            }
            let idx: usize = (y as usize) * (self.vp.w as usize) + (x as usize);
            let c = row[x as usize];
            let ghost prev = *self;
            self.data.set(idx, c);
            proof {
                assert forall|j: int, yy: int|
                    0 <= j < vp.w && 0 <= yy < vp.h && !(yy == y && j == x)
                    implies #[trigger] self.color_at(j, yy) == prev.color_at(j, yy) by {
                    lemma_flat_index_injective(vp, j, yy, x as int, y as int);
                    lemma_index_in_range(vp, j, yy);
                }
            }
            x = x + 1;
        }
    }
}

/// A flat index stays within the buffer: `y * w + x < w * h` whenever the
/// pixel is in range.
proof fn lemma_index_in_range(vp: Viewport, x: int, y: int)
    requires
        0 <= x < vp.w,
        0 <= y < vp.h,
    ensures
        0 <= y * vp.w + x < vp.w * vp.h,
        y * vp.w + x < vp.h * vp.w,
{
    assert(y * vp.w + x < vp.w * vp.h && y * vp.w >= 0) by (nonlinear_arith)
        requires
            0 <= x < vp.w,
            0 <= y < vp.h,
    ;
    assert(vp.w * vp.h == vp.h * vp.w) by (nonlinear_arith);
}

/// Distinct in-range pixels have distinct flat indices.
proof fn lemma_flat_index_injective(vp: Viewport, x1: int, y1: int, x2: int, y2: int)
    requires
        0 <= x1 < vp.w,
        0 <= y1 < vp.h,
        0 <= x2 < vp.w,
        0 <= y2 < vp.h,
        !(x1 == x2 && y1 == y2),
    ensures
        y1 * vp.w + x1 != y2 * vp.w + x2,
{
    assert(y1 * vp.w + x1 != y2 * vp.w + x2) by (nonlinear_arith)
        requires
            0 <= x1 < vp.w,
            0 <= y1 < vp.h,
            0 <= x2 < vp.w,
            0 <= y2 < vp.h,
            !(x1 == x2 && y1 == y2),
    ;
}

/// A raster that holds the finished rendering: every pixel carries the
/// color its classification assigns.
pub open spec fn rendered(r: Raster, vp: Viewport) -> bool {
    &&& r.wf()
    &&& r.spec_vp() == vp
    &&& forall|x: int, y: int|
        0 <= x < vp.w && 0 <= y < vp.h ==> #[trigger] r.color_at(x, y) == color_of(vp, x, y)
}

/// Renders the full raster: one scanline per row, every pixel written
/// exactly once.
pub fn render(vp: Viewport) -> (r: Raster)
    requires
        vp.valid(),
    ensures
        rendered(r, vp),
{
    let mut r = Raster::new(vp);
    let mut y: u32 = 0;
    while y < vp.h
        invariant
            vp.valid(),
            r.wf(),
            r.spec_vp() == vp,
            y <= vp.h,
            forall|xx: int, yy: int|
                0 <= xx < vp.w && 0 <= yy < y ==> #[trigger] r.color_at(xx, yy) == color_of(
                    vp, xx, yy),
        decreases vp.h - y,
    {
        let row = render_row(vp, y);
        r.set_row(y, &row);
        y = y + 1;
    }
    r
}

/// The pixel nearest the plane origin in a finished rendering is interior:
/// for even dimensions the center pixel maps exactly to the origin, which
/// is always a member of the set.
pub proof fn lemma_center_pixel_interior(r: Raster, vp: Viewport)
    requires
        rendered(r, vp),
        vp.w % 2 == 0,
        vp.h % 2 == 0,
    ensures
        r.color_at(vp.w as int / 2, vp.h as int / 2) == spec_black(),
{
    let cx = vp.w as int / 2;
    let cy = vp.h as int / 2;
    assert(vp.w == 2 * cx && vp.h == 2 * cy);
    assert(spec_re(vp, cx) == 0 && spec_im(vp, cy) == 0);
    lemma_origin_interior(vp);
    assert(0 <= cx < vp.w && 0 <= cy < vp.h);
    assert(r.color_at(cx, cy) == color_of(vp, cx, cy));
}

/// Rendering is deterministic: any two rasters that hold the finished
/// rendering for the same viewport are identical, buffer for buffer, so
/// re-running the pipeline reproduces the image byte for byte.
pub proof fn lemma_render_deterministic(r1: Raster, r2: Raster, vp: Viewport)
    requires
        rendered(r1, vp),
        rendered(r2, vp),
    ensures
        r1.buffer() == r2.buffer(),
{
    assert forall|i: int| 0 <= i < r1.buffer().len() implies r1.buffer()[i] == r2.buffer()[i] by {
        let w = vp.w as int;
        let h = vp.h as int;
        let x = i % w;
        let y = i / w;
        lemma_mod_division_less_than_divisor(i, w);
        lemma_multiply_divide_lt(i, w, h);
        lemma_fundamental_div_mod(i, w);
        assert(w * y == y * w) by (nonlinear_arith);
        assert(i == y * w + x);
        assert(r1.color_at(x, y) == color_of(vp, x, y));
        assert(r2.color_at(x, y) == color_of(vp, x, y));
    }
    assert(r1.buffer() =~= r2.buffer());
}

} // verus!
