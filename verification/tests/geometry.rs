use cheap_ruler::boxes::insideBBox;
use cheap_ruler::points::{BBox, Point, PointOnLine};
use cheap_ruler::ruler::CheapRuler;
use cheap_ruler::units::Unit;

fn pt(x: i64, y: i64) -> Point {
    Point { x, y }
}

/// A ruler whose scale factors are exactly 1.0 (fixed-point 1_000_000),
/// so scaled distances equal plain Euclidean microdegree distances.
fn unit_ruler() -> CheapRuler {
    CheapRuler { kx: 1_000_000, ky: 1_000_000 }
}

#[test]
fn equator_kilometer_scale_factors_are_exact() {
    // poly_x(1e6) = (11169938 - 38060 + 192) * 1e30, over 1e29 fixed:
    // kx = 111.3207 degrees-to-km, ky = 110.56724.
    let r = CheapRuler::new(1_000_000, Unit::Kilometers);
    assert_eq!(r.kx, 111_320_700);
    assert_eq!(r.ky, 110_567_240);
}

#[test]
fn equator_meter_scale_factors_are_exact() {
    let r = CheapRuler::new(1_000_000, Unit::Meters);
    assert_eq!(r.kx, 111_320_700_000);
    assert_eq!(r.ky, 110_567_240_000);
}

#[test]
fn scale_factors_stay_positive_for_every_unit_and_latitude() {
    let units = [
        Unit::Kilometers,
        Unit::Miles,
        Unit::NauticalMiles,
        Unit::Meters,
        Unit::Yards,
        Unit::Feet,
        Unit::Inches,
    ];
    // Fixed-point cosines of latitudes from the equator almost to a pole.
    for cos_fixed in [1i64, 17_452, 499_999, 707_106, 866_025, 999_999, 1_000_000] {
        for u in units {
            let r = CheapRuler::new(cos_fixed, u);
            assert!(r.kx > 0, "kx must be positive");
            assert!(r.ky > 0, "ky must be positive");
        }
    }
}

#[test]
fn distance_of_a_3_4_triangle_is_5() {
    let r = unit_ruler();
    assert_eq!(r.distance(pt(0, 0), pt(3, 4)), 5_000_000);
}

#[test]
fn distance_is_symmetric_and_zero_on_equal_points() {
    let r = CheapRuler::new(766_044, Unit::Kilometers);
    let a = pt(-73_960_000, 40_780_000);
    let b = pt(-73_980_000, 40_750_000);
    assert_eq!(r.distance(a, b), r.distance(b, a));
    assert_eq!(r.distance(a, a), 0);
    assert_eq!(r.distance(b, b), 0);
}

#[test]
fn distance_at_latitude_40_matches_the_scale_transform() {
    // cos(40 degrees) ~= 0.766044 in fixed point.
    let cos_fixed = ((40.0f64.to_radians()).cos() * 1_000_000.0).round() as i64;
    assert_eq!(cos_fixed, 766_044);
    let r = CheapRuler::new(cos_fixed, Unit::Kilometers);
    let a = pt(-73_960_000, 40_780_000);
    let b = pt(-73_980_000, 40_750_000);
    let d = r.distance(a, b);
    // The fixed-point result (scale 1e12 kilometers) agrees with the
    // floating-point evaluation of the same transform.
    let dx = (20_000 * r.kx) as f64;
    let dy = (30_000 * r.ky) as f64;
    let expected = (dx * dx + dy * dy).sqrt();
    assert!((d as f64 - expected).abs() < 4.0);
    // About 3.74 km between the two points.
    assert!(3_700_000_000_000 < d && d < 3_790_000_000_000);
}

#[test]
fn area_of_unit_square_at_equator_in_meters_is_kx_times_ky() {
    let r = CheapRuler::new(1_000_000, Unit::Meters);
    let ring = vec![
        pt(0, 0),
        pt(1_000_000, 0),
        pt(1_000_000, 1_000_000),
        pt(0, 1_000_000),
    ];
    let a = r.area(&vec![ring]);
    assert_eq!(a, r.kx as u128 * r.ky as u128);
}

#[test]
fn area_subtracts_holes() {
    let r = unit_ruler();
    let outer = vec![
        pt(0, 0),
        pt(2_000_000, 0),
        pt(2_000_000, 2_000_000),
        pt(0, 2_000_000),
    ];
    let hole = vec![
        pt(0, 0),
        pt(1_000_000, 0),
        pt(1_000_000, 1_000_000),
        pt(0, 1_000_000),
    ];
    // 4 - 1 = 3 square degrees, at scale kx * ky == 1e12.
    assert_eq!(r.area(&vec![outer, hole]), 3_000_000_000_000);
}

#[test]
fn line_distance_of_two_points_equals_distance() {
    let r = CheapRuler::new(766_044, Unit::Kilometers);
    let a = pt(-73_960_000, 40_780_000);
    let b = pt(-73_980_000, 40_750_000);
    let line = vec![a, b];
    assert_eq!(r.lineDistance(&line), r.distance(a, b) as u128);
}

#[test]
fn line_distance_sums_segments() {
    let r = unit_ruler();
    let line = vec![pt(0, 0), pt(10, 0), pt(20, 0)];
    assert_eq!(r.lineDistance(&line), 20_000_000);
}

#[test]
fn along_at_zero_returns_the_first_vertex() {
    let r = unit_ruler();
    let line = vec![pt(0, 0), pt(10, 0), pt(20, 0)];
    assert_eq!(r.along(&line, 0), pt(0, 0));
    assert_eq!(r.along(&line, -5), pt(0, 0));
}

#[test]
fn along_past_the_end_returns_the_last_vertex() {
    let r = unit_ruler();
    let line = vec![pt(0, 0), pt(10, 0), pt(20, 0)];
    assert_eq!(r.along(&line, 20_000_000), pt(20, 0));
    assert_eq!(r.along(&line, 1_000_000_000), pt(20, 0));
}

#[test]
fn along_interpolates_inside_a_segment() {
    let r = unit_ruler();
    let line = vec![pt(0, 0), pt(10, 0), pt(20, 0)];
    assert_eq!(r.along(&line, 5_000_000), pt(5, 0));
    assert_eq!(r.along(&line, 15_000_000), pt(15, 0));
}

#[test]
fn point_on_line_projects_with_the_true_fraction() {
    let r = unit_ruler();
    let line = vec![pt(0, 0), pt(10, 0)];
    let res = r.pointOnLine(&line, pt(5, 3));
    assert_eq!(
        res,
        PointOnLine { point: pt(5, 0), index: 0, t: 500_000 }
    );
}

#[test]
fn point_on_line_clamps_t_past_the_ends() {
    let r = unit_ruler();
    let line = vec![pt(0, 0), pt(10, 0)];
    let before = r.pointOnLine(&line, pt(-7, 1));
    assert_eq!(before.point, pt(0, 0));
    assert_eq!(before.t, 0);
    let past = r.pointOnLine(&line, pt(25, 1));
    assert_eq!(past.point, pt(10, 0));
    assert_eq!(past.t, 1_000_000);
}

#[test]
fn point_on_line_breaks_ties_to_the_lower_segment() {
    let r = unit_ruler();
    let line = vec![pt(0, 0), pt(10, 0), pt(10, 10)];
    // The query sits exactly on the shared vertex: both segments are at
    // distance zero, and the first one wins.
    let res = r.pointOnLine(&line, pt(10, 0));
    assert_eq!(res.index, 0);
    assert_eq!(res.point, pt(10, 0));
    assert_eq!(res.t, 1_000_000);
}

#[test]
fn line_slice_between_the_endpoints_reproduces_the_line() {
    let r = unit_ruler();
    let line = vec![pt(0, 0), pt(10, 0), pt(20, 5)];
    let sliced = r.lineSlice(pt(0, 0), pt(20, 5), &line);
    assert_eq!(sliced, line);
}

#[test]
fn line_slice_cuts_between_projected_points() {
    let r = unit_ruler();
    let line = vec![pt(0, 0), pt(10, 0), pt(20, 0)];
    let sliced = r.lineSlice(pt(5, 1), pt(15, -1), &line);
    assert_eq!(sliced, vec![pt(5, 0), pt(10, 0), pt(15, 0)]);
}

#[test]
fn line_slice_swaps_reversed_arguments() {
    let r = unit_ruler();
    let line = vec![pt(0, 0), pt(10, 0), pt(20, 0)];
    let sliced = r.lineSlice(pt(15, -1), pt(5, 1), &line);
    assert_eq!(sliced, vec![pt(5, 0), pt(10, 0), pt(15, 0)]);
}

#[test]
fn line_slice_along_cuts_by_distance() {
    let r = unit_ruler();
    let line = vec![pt(0, 0), pt(10, 0), pt(20, 0)];
    let sliced = r.lineSliceAlong(5_000_000, 15_000_000, &line);
    assert_eq!(sliced, vec![pt(5, 0), pt(10, 0), pt(15, 0)]);
}

#[test]
fn line_slice_along_with_stop_before_start_yields_only_the_stop_point() {
    let r = unit_ruler();
    let line = vec![pt(0, 0), pt(10, 0), pt(20, 0)];
    let sliced = r.lineSliceAlong(15_000_000, 5_000_000, &line);
    assert_eq!(sliced, vec![pt(5, 0)]);
}

#[test]
fn buffer_point_with_zero_buffer_is_degenerate() {
    let r = unit_ruler();
    let b = r.bufferPoint(pt(5, 7), 0);
    assert_eq!(
        b,
        BBox { west: 5, south: 7, east: 5, north: 7 }
    );
}

#[test]
fn buffer_point_expands_by_the_scaled_margins() {
    let r = unit_ruler();
    let b = r.bufferPoint(pt(5, 7), 3_000_000);
    assert_eq!(
        b,
        BBox { west: 2, south: 4, east: 8, north: 10 }
    );
}

#[test]
fn buffer_bbox_pushes_every_edge_outward() {
    let r = unit_ruler();
    let b = BBox { west: 2, south: 4, east: 8, north: 10 };
    let out = r.bufferBBox(b, 2_000_000);
    assert_eq!(
        out,
        BBox { west: 0, south: 2, east: 10, north: 12 }
    );
}

#[test]
fn inside_bbox_is_inclusive_on_corners() {
    let b = BBox { west: -3, south: -2, east: 7, north: 9 };
    assert!(insideBBox(pt(b.west, b.south), b));
    assert!(insideBBox(pt(b.east, b.north), b));
    assert!(insideBBox(pt(0, 0), b));
    assert!(!insideBBox(pt(8, 0), b));
    assert!(!insideBBox(pt(0, -3), b));
}

#[test]
fn offset_moves_by_scaled_cartesian_deltas() {
    let r = unit_ruler();
    assert_eq!(r.offset(pt(1, 2), 3_000_000, -4_000_000), pt(4, -2));
}

#[test]
fn from_unit_name_builds_or_rejects() {
    let ok = CheapRuler::from_unit_name("kilometers", 1_000_000);
    assert_eq!(ok, Ok(CheapRuler::new(1_000_000, Unit::Kilometers)));
    assert!(CheapRuler::from_unit_name("lightyears", 1_000_000).is_err());
}
