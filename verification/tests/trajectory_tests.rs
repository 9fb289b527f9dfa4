use geomesh::point::Point3;
use geomesh::trajectory::{interpolate_point_on_the_line, Segment3D};
use geomesh::vector::Vector3;

fn p(x: i64, y: i64, z: i64) -> Point3 {
    Point3 { x, y, z }
}

/// The direction of a hole with this azimuth and dip, in degrees.
fn direction(azimuth: f64, dip: f64) -> Vector3 {
    let a = azimuth.to_radians();
    let d = dip.to_radians();
    let unit = 1_000_000.0;
    Vector3 {
        x: (d.sin() * a.cos() * unit).round() as i64,
        y: (d.sin() * a.sin() * unit).round() as i64,
        z: (d.cos() * unit).round() as i64,
    }
}

#[test]
fn zero_distance_returns_origin() {
    let origin = p(123, -456, 789);
    assert_eq!(interpolate_point_on_the_line(origin, direction(33.0, 71.0), 0), origin);
    assert_eq!(interpolate_point_on_the_line(origin, direction(0.0, 0.0), 0), origin);
    assert_eq!(
        interpolate_point_on_the_line(origin, Vector3 { x: -1_000_000, y: 0, z: 0 }, 0),
        origin
    );
}

#[test]
fn azimuth_zero_dip_zero_moves_along_third_axis() {
    let origin = p(1000, 2000, 3000);
    assert_eq!(direction(0.0, 0.0), Vector3 { x: 0, y: 0, z: 1_000_000 });
    assert_eq!(
        interpolate_point_on_the_line(origin, direction(0.0, 0.0), 12_345),
        p(1000, 2000, 3000 + 12_345)
    );
    assert_eq!(
        interpolate_point_on_the_line(origin, direction(0.0, 0.0), -5000),
        p(1000, 2000, -2000)
    );
}

#[test]
fn dip_ninety_azimuth_zero_moves_along_first_axis() {
    assert_eq!(direction(0.0, 90.0), Vector3 { x: 1_000_000, y: 0, z: 0 });
    assert_eq!(
        interpolate_point_on_the_line(p(0, 0, 0), direction(0.0, 90.0), 10_000),
        p(10_000, 0, 0)
    );
}

#[test]
fn dip_ninety_azimuth_ninety_moves_along_second_axis() {
    assert_eq!(direction(90.0, 90.0), Vector3 { x: 0, y: 1_000_000, z: 0 });
    assert_eq!(
        interpolate_point_on_the_line(p(1, 2, 3), direction(90.0, 90.0), 10_000),
        p(1, 10_002, 3)
    );
}

#[test]
fn oblique_direction_rounds_toward_zero() {
    // 0.6 and 0.8 of 1001 are 600.6 and 800.8
    let d = Vector3 { x: 600_000, y: -800_000, z: 0 };
    assert_eq!(interpolate_point_on_the_line(p(0, 0, 0), d, 1001), p(600, -800, 0));
    assert_eq!(interpolate_point_on_the_line(p(0, 0, 0), d, -1001), p(-600, 800, 0));
}

#[test]
fn end_to_end_vertical_hole_segment() {
    // collar at the origin, azimuth 0, dip 0 (straight down the third axis),
    // assay from 10 to 20
    let collar = p(0, 0, 0);
    let d = direction(0.0, 0.0);
    let start = interpolate_point_on_the_line(collar, d, 10_000);
    let end = interpolate_point_on_the_line(collar, d, 20_000);
    assert_eq!(start, p(0, 0, 10_000));
    assert_eq!(end, p(0, 0, 20_000));
    assert_eq!(Segment3D { start, end }.midpoint(), p(0, 0, 15_000));
}

#[test]
fn midpoint_rounds_toward_zero() {
    let s = Segment3D { start: p(0, 0, 0), end: p(3, -3, 4) };
    assert_eq!(s.midpoint(), p(1, -1, 2));
    let t = Segment3D { start: p(-5, 5, 1), end: p(-2, 2, 2) };
    assert_eq!(t.midpoint(), p(-3, 3, 1));
}
