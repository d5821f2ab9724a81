use osu_rs::bezier::Bezier;
use osu_rs::mathx::isqrt;

#[test]
fn spline_tesselate() {
    let mut spline = Bezier::new();

    spline.add_vertexf((0, 0));
    spline.add_vertexf((0, 65536));
    spline.add_vertexf((65536, 0));
    spline.add_vertexf((65536, 65536));

    let mut _points = spline.get_tesselated_points();
    assert!(true)
}

#[test]
fn segment_count_matches_formula() {
    let b = Bezier::new();
    // Zero length floors at 10 segments.
    assert_eq!(b.tesselation_segments(0), 10);
    // One raw unit nudges the radicand just past 100, so the ceiling is 11.
    assert_eq!(b.tesselation_segments(1), 11);
    // 500 game units: sqrt(0.6 * 50^2 + 100) = sqrt(1600) = 40 exactly.
    assert_eq!(b.tesselation_segments(500 * 65536), 40);
    // 1000 game units: sqrt(0.6 * 100^2 + 100) = sqrt(6100) = 78.1..,
    // rounded up to 79.
    assert_eq!(b.tesselation_segments(1000 * 65536), 79);
}

#[test]
fn segment_count_is_at_least_ten() {
    let b = Bezier::new();
    assert!(b.tesselation_segments(123456789) >= 10);
    assert!(b.tesselation_segments(u128::MAX) >= 10);
}

#[test]
fn tessellation_endpoints_are_exact() {
    let mut c = Bezier::new();
    c.add_vertexi((5, 7));
    c.add_vertexi((100, 250));
    c.add_vertexi((30, 40));
    let pts = c.get_tesselated_points();
    assert!(pts.len() >= 11);
    // First sample is the first control point, exactly.
    assert_eq!(pts[0], (5 * 65536, 7 * 65536));
    // Final point is the last control point, appended verbatim.
    assert_eq!(pts[pts.len() - 1], (30 * 65536, 40 * 65536));
}

#[test]
fn arc_partial_sums_are_monotone() {
    let mut c = Bezier::new();
    c.add_vertexi((0, 0));
    c.add_vertexi((120, -40));
    c.add_vertexi((260, 310));
    c.add_vertexi((400, 0));
    let pts = c.get_tesselated_points();
    let mut sum: u128 = 0;
    let mut prev_sum: u128 = 0;
    for i in 1..pts.len() {
        let dx = (pts[i - 1].0 - pts[i].0).unsigned_abs();
        let dy = (pts[i - 1].1 - pts[i].1).unsigned_abs();
        sum += isqrt(dx * dx + dy * dy);
        assert!(sum >= prev_sum);
        prev_sum = sum;
    }
    assert!(sum > 0);
}

#[test]
fn chord_length_of_straight_line() {
    let mut c = Bezier::new();
    c.add_vertexi((0, 0));
    c.add_vertexi((300, 0));
    // 300 game units in fixed-point raw units.
    assert_eq!(c.approx_length(), 300 * 65536);
}

#[test]
fn value_needs_three_points() {
    let mut c = Bezier::new();
    c.add_vertexi((0, 0));
    c.add_vertexi((10, 10));
    c.get_tesselated_points();
    assert!(c.value(0).is_err());
    assert!(c.value(65536).is_err());
}

#[test]
fn value_rejects_parameter_above_one() {
    let mut c = Bezier::new();
    c.add_vertexi((0, 0));
    c.add_vertexi((10, 10));
    c.add_vertexi((20, 0));
    c.get_tesselated_points();
    assert!(c.value(65537).is_err());
    assert!(c.value(i64::MAX).is_err());
}

#[test]
fn value_at_ends() {
    let mut c = Bezier::new();
    c.add_vertexi((3, 4));
    c.add_vertexi((10, 10));
    c.add_vertexi((20, 6));
    let pts = c.get_tesselated_points();
    // Parameter zero lands on the first tessellated point.
    assert_eq!(c.value(0).unwrap(), pts[0]);
    // Parameter one lands on the final appended control point.
    assert_eq!(c.value(65536).unwrap(), pts[pts.len() - 1]);
    assert_eq!(c.value(65536).unwrap(), (20 * 65536, 6 * 65536));
    // A negative parameter is pinned to the first point.
    assert_eq!(c.value(-65536).unwrap(), pts[0]);
}

#[test]
fn clear_resets_the_curve() {
    let mut c = Bezier::new();
    c.add_vertexi((0, 0));
    c.add_vertexi((10, 10));
    c.add_vertexi((20, 0));
    c.get_tesselated_points();
    c.clear();
    c.add_vertexi((1, 1));
    assert_eq!(c.approx_length(), 0);
}

#[test]
fn isqrt_basics() {
    assert_eq!(isqrt(0), 0);
    assert_eq!(isqrt(1), 1);
    assert_eq!(isqrt(3), 1);
    assert_eq!(isqrt(4), 2);
    assert_eq!(isqrt(6100), 78);
    assert_eq!(isqrt(u128::MAX), u64::MAX as u128);
}

#[test]
fn straight_line_arc_length_is_exact() {
    let mut c = Bezier::new();
    c.add_vertexi((0, 0));
    c.add_vertexi((300, 0));
    assert_eq!(c.interpolated_length(), 0);
    c.get_tesselated_points();
    // A two-point curve interpolates linearly along the segment, so the
    // sampled steps telescope to the full chord length.
    assert_eq!(c.interpolated_length(), 300 * 65536);
}
