use mandelbrot_polar::escape::classify;
use mandelbrot_polar::raster::{black, render, render_row, white, Raster, Rgb8};
use mandelbrot_polar::sampler::{radius_at, radius_sq_at, sample_radii};
use mandelbrot_polar::viewport::{to_complex, to_pixel, CPoint, Viewport};

fn vp(w: u32, h: u32) -> Viewport {
    let v = Viewport { w, h };
    assert!(v.is_valid());
    v
}

#[test]
fn viewport_validity() {
    assert!(Viewport { w: 4, h: 4 }.is_valid());
    assert!(Viewport { w: 3960, h: 2160 }.is_valid());
    assert!(!Viewport { w: 4, h: 0 }.is_valid());
    assert!(!Viewport { w: 4, h: 8 }.is_valid());
    assert!(!Viewport { w: 100001, h: 4 }.is_valid());
}

#[test]
fn pixel_round_trip_is_exact() {
    let v = vp(64, 36);
    for x in 0..64u32 {
        for y in 0..36u32 {
            let c = to_complex(v, x, y);
            assert_eq!(to_pixel(v, c), (x, y));
        }
    }
}

#[test]
fn mapper_concrete_values() {
    let v = vp(4, 4);
    // Center pixel maps to the plane origin.
    let c = to_complex(v, 2, 2);
    assert_eq!((c.re, c.im), (0, 0));
    // Left edge maps to the real part -2 (numerator -2w).
    let l = to_complex(v, 0, 2);
    assert_eq!((l.re, l.im), (-8, 0));
    // The ray endpoint for angle zero, plane point 2 + 0i, lands one past
    // the last column; rows saturate at the top edge.
    assert_eq!(to_pixel(v, CPoint { re: 8, im: 0 }), (4, 2));
    assert_eq!(to_pixel(v, CPoint { re: 0, im: 8 }), (2, 0));
}

#[test]
fn to_pixel_saturates_above_viewport() {
    // An imaginary part above the vertical extent would map to a negative
    // row; the truncating cast saturates it to row zero instead.
    let v = vp(8, 4);
    assert_eq!(to_pixel(v, CPoint { re: 0, im: 10 }).1, 0);
    // Below the extent the row may fall past the raster; the mapper does
    // not bounds-check that side.
    assert_eq!(to_pixel(v, CPoint { re: 0, im: -16 }).1, 6);
}

#[test]
fn classify_origin_is_interior() {
    let v = vp(4, 4);
    let c = to_complex(v, 2, 2);
    assert!(classify(v, c));
}

#[test]
fn classify_outside_bailout_is_exterior() {
    let v = vp(4, 4);
    // Plane point 2 + 2i has magnitude greater than two: immediate escape.
    assert!(!classify(v, CPoint { re: 8, im: 8 }));
    // Plane point 1.75 + 1.75i escapes within the budget as well.
    assert!(!classify(v, CPoint { re: 7, im: 7 }));
}

#[test]
fn row_has_width_entries() {
    let v = vp(8, 4);
    for y in 0..4u32 {
        let row = render_row(v, y);
        assert_eq!(row.len(), 8);
    }
}

#[test]
fn row_center_is_black() {
    let v = vp(8, 4);
    let row = render_row(v, 2);
    assert_eq!(row[4], black());
}

#[test]
fn raster_starts_white_and_takes_rows() {
    let v = vp(4, 4);
    let mut r = Raster::new(v);
    assert_eq!(r.get(1, 3), white());
    let row = vec![black(), white(), black(), white()];
    r.set_row(2, &row);
    assert_eq!(r.get(0, 2), black());
    assert_eq!(r.get(1, 2), white());
    assert_eq!(r.get(2, 2), black());
    assert_eq!(r.get(1, 3), white());
}

#[test]
fn render_center_pixel_is_black() {
    let v = vp(4, 4);
    let r = render(v);
    assert_eq!(r.get(2, 2), black());
}

#[test]
fn render_is_deterministic() {
    let v = vp(8, 4);
    let a = render(v);
    let b = render(v);
    for x in 0..8u32 {
        for y in 0..4u32 {
            assert_eq!(a.get(x, y), b.get(x, y));
        }
    }
}

fn solid_raster(v: Viewport, c: Rgb8) -> Raster {
    let mut r = Raster::new(v);
    let row = vec![c; v.w as usize];
    for y in 0..v.h {
        r.set_row(y, &row);
    }
    r
}

#[test]
fn radius_on_black_raster_reaches_near_the_edge() {
    let v = vp(4, 4);
    let r = solid_raster(v, black());
    // Ray at angle zero: endpoint pixel (4, 2), one past the last column.
    // The walk visits (2,2) and (3,2); the endpoint itself is excluded.
    assert_eq!(radius_at(&r, 4, 2), (3, 2));
    // Pixel (3,2) maps to plane point 1 + 0i: squared radius 1.0, i.e.
    // numerator 16 over w*w = 16.
    assert_eq!(radius_sq_at(&r, 4, 2), 16);
}

#[test]
fn radius_on_white_raster_is_zero() {
    let v = vp(4, 4);
    let r = solid_raster(v, white());
    // The origin pixel itself is non-interior: the sampler reports the
    // origin's own magnitude, exactly zero for even dimensions.
    assert_eq!(radius_at(&r, 4, 2), (2, 2));
    assert_eq!(radius_sq_at(&r, 4, 2), 0);
}

#[test]
fn radius_stops_at_first_boundary_crossing() {
    let v = vp(8, 8);
    let mut r = solid_raster(v, white());
    // Force the angle-zero ray interior for its first two pixels: the walk
    // from the origin pixel (4,4) toward (8,4) visits columns 4..8 of row
    // four.
    let row = vec![
        white(),
        white(),
        white(),
        white(),
        black(),
        black(),
        white(),
        white(),
    ];
    r.set_row(4, &row);
    assert_eq!(radius_at(&r, 8, 4), (5, 4));
    // Pixel (5,4) maps to plane point 0.5 + 0i: numerator 4 squared.
    assert_eq!(radius_sq_at(&r, 8, 4), 16);
}

#[test]
fn radius_is_symmetric_on_a_black_raster() {
    let v = vp(8, 8);
    let r = solid_raster(v, black());
    // Angle zero ends at (8,4); angle pi at (0,4). Both walks stop one
    // pixel short of the edge, at the same squared distance.
    assert_eq!(radius_at(&r, 8, 4), (7, 4));
    assert_eq!(radius_at(&r, 0, 4), (1, 4));
    assert_eq!(radius_sq_at(&r, 8, 4), radius_sq_at(&r, 0, 4));
    assert_eq!(radius_sq_at(&r, 8, 4), 144);
}

#[test]
fn radius_stays_within_the_cast_disc() {
    let v = vp(8, 8);
    let r = solid_raster(v, black());
    // Every endpoint pixel of a radius-two ray maps within the disc of
    // squared numerator 4 * w * w; the sampled radius stays inside it.
    let ends = [(8u32, 4u32), (0, 4), (4, 0), (4, 8), (6, 2), (2, 6)];
    for (ex, ey) in ends {
        assert!(radius_sq_at(&r, ex, ey) <= 4 * 8 * 8);
    }
}

#[test]
fn sample_radii_matches_single_samples() {
    let v = vp(8, 8);
    let r = render(v);
    let ends = vec![(8u32, 4u32), (0, 4), (4, 0), (4, 8), (6, 2)];
    let out = sample_radii(&r, &ends);
    assert_eq!(out.len(), ends.len());
    for (i, (ex, ey)) in ends.iter().enumerate() {
        assert_eq!(out[i], radius_sq_at(&r, *ex, *ey));
    }
}
