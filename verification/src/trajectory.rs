use vstd::prelude::*;
use crate::point::{Point3, WORLD_LIMIT};
use crate::vector::{div_toward_zero, trunc_div, Vector3, UNIT_ONE};

verus! {

/// The straight piece of a hole that one assay interval covers.
#[derive(Clone, Copy, Debug, PartialEq, Eq, Structural)]
pub struct Segment3D {
    pub start: Point3,
    pub end: Point3,
}

/// The direction of a hole that goes straight down the third axis: the one
/// that azimuth 0 and dip 0 give, `(sin 0 cos 0, sin 0 sin 0, cos 0)`.
pub open spec fn straight_down() -> Vector3 {
    Vector3 { x: 0, y: 0, z: UNIT_ONE }
}

/// How far `distance` along a direction reaches on one axis, rounded
/// toward zero.
pub open spec fn reach(distance: int, component: int) -> int {
    trunc_div(distance * component, UNIT_ONE as int)
}

/// The point at `distance` from `origin` along `direction`:
/// `origin + distance * direction`.
pub open spec fn point_along(origin: Point3, direction: Vector3, distance: int) -> (int, int, int) {
    (
        origin.x + reach(distance, direction.x as int),
        origin.y + reach(distance, direction.y as int),
        origin.z + reach(distance, direction.z as int),
    )
}

/// The point at `distance` from `origin` along `direction`, where that
/// position can be held.
pub open spec fn point_at(origin: Point3, direction: Vector3, distance: int) -> Point3 {
    let c = point_along(origin, direction, distance);
    Point3 { x: c.0 as i64, y: c.1 as i64, z: c.2 as i64 }
}

/// On no axis is `p` further from `origin` than the distance is long.
pub open spec fn within_reach(origin: Point3, p: Point3, distance: int) -> bool {
    let d = if distance >= 0 {
        distance
    } else {
        -distance
    };
    &&& -d <= p.x - origin.x <= d
    &&& -d <= p.y - origin.y <= d
    &&& -d <= p.z - origin.z <= d
}

/// The point halfway between `a` and `b`.
pub open spec fn midpoint_at(a: Point3, b: Point3) -> Point3 {
    let c = midpoint_of(a, b);
    Point3 { x: c.0 as i64, y: c.1 as i64, z: c.2 as i64 }
}

/// The point halfway between `a` and `b`, each coordinate rounded toward
/// zero.
pub open spec fn midpoint_of(a: Point3, b: Point3) -> (int, int, int) {
    (trunc_div(a.x + b.x, 2), trunc_div(a.y + b.y, 2), trunc_div(a.z + b.z, 2))
}

/// `distance * component / UNIT_ONE`, rounded toward zero.
fn reach_on_axis(distance: i64, component: i64) -> (r: i64)
    requires
        -WORLD_LIMIT <= distance <= WORLD_LIMIT,
        -UNIT_ONE <= component <= UNIT_ONE,
    ensures
        r == reach(distance as int, component as int),
        -WORLD_LIMIT <= r <= WORLD_LIMIT,
        distance == 0 ==> r == 0,
        component == UNIT_ONE ==> r == distance,
        component == 0 ==> r == 0,
        distance >= 0 ==> -distance <= r <= distance,
        distance < 0 ==> distance <= r <= -distance,
{
    assert(-1_152_921_504_606_846_976_000_000 <= distance * component
        <= 1_152_921_504_606_846_976_000_000) by (nonlinear_arith)
        requires
            -1_152_921_504_606_846_976 <= distance <= 1_152_921_504_606_846_976,
            -1_000_000 <= component <= 1_000_000,
    ;
    let product: i128 = (distance as i128) * (component as i128);
    assert(if distance >= 0 {
        -1_000_000 * distance <= product <= 1_000_000 * distance
    } else {
        1_000_000 * distance <= product <= -1_000_000 * distance
    }) by (nonlinear_arith)
        requires
            product == distance * component,
            -1_000_000 <= component <= 1_000_000,
    ;
    let q = div_toward_zero(product, 1_000_000);
    assert(component == UNIT_ONE ==> q == distance) by (nonlinear_arith)
        requires
            product == distance * component,
            UNIT_ONE == 1_000_000,
            product >= 0 ==> q == product / 1_000_000,
            product < 0 ==> q == -((-product) / 1_000_000),
    ;
    q as i64
}

/// The point at `distance` from `origin` along the straight line with the
/// given direction. The direction is a unit vector: for a hole with
/// azimuth `a` and dip `d` it is `(sin d cos a, sin d sin a, cos d)`.
pub fn interpolate_point_on_the_line(origin: Point3, direction: Vector3, distance: i64) -> (r:
    Point3)
    requires
        origin.bounded(2 * WORLD_LIMIT),
        direction.bounded(UNIT_ONE as int),
        -WORLD_LIMIT <= distance <= WORLD_LIMIT,
    ensures
        r.coords() == point_along(origin, direction, distance as int),
        r == point_at(origin, direction, distance as int),
        r.bounded(3 * WORLD_LIMIT),
        within_reach(origin, r, distance as int),
        distance == 0 ==> r == origin,
        direction == straight_down() ==> r == (Point3 {
            x: origin.x,
            y: origin.y,
            z: (origin.z + distance) as i64,
        }),
{
    Point3 {
        x: origin.x + reach_on_axis(distance, direction.x),
        y: origin.y + reach_on_axis(distance, direction.y),
        z: origin.z + reach_on_axis(distance, direction.z),
    }
}

/// At distance zero the point on the line is the origin itself, whatever
/// the direction.
pub proof fn lemma_zero_distance_is_origin(origin: Point3, direction: Vector3)
    ensures
        point_along(origin, direction, 0) == origin.coords(),
{
    assert(0 * (direction.x as int) == 0 && 0 * (direction.y as int) == 0 && 0 * (
    direction.z as int) == 0) by (nonlinear_arith);
}

/// Straight down, the point at distance `d` is the origin lowered by
/// exactly `d` along the third axis.
pub proof fn lemma_straight_down_adds_distance(origin: Point3, distance: int)
    ensures
        point_along(origin, straight_down(), distance) == (
            origin.x as int,
            origin.y as int,
            origin.z + distance,
        ),
{
    assert(distance * 0 == 0) by (nonlinear_arith);
    assert(trunc_div(distance * 1_000_000, 1_000_000) == distance) by {
        if distance >= 0 {
            assert((distance * 1_000_000) / 1_000_000 == distance) by (nonlinear_arith)
                requires
                    distance >= 0,
            ;
        } else {
            assert((-(distance * 1_000_000)) / 1_000_000 == -distance) by (nonlinear_arith)
                requires
                    distance < 0,
            ;
        }
    }
}

/// Half of `sum`, rounded toward zero.
fn half(sum: i128) -> (r: i64)
    requires
        -6 * WORLD_LIMIT <= sum <= 6 * WORLD_LIMIT,
    ensures
        r == trunc_div(sum as int, 2),
        -3 * WORLD_LIMIT <= r <= 3 * WORLD_LIMIT,
{
    div_toward_zero(sum, 2) as i64
}

impl Segment3D {
    /// Both ends lie within three times the survey limit, as every point
    /// on a hole does.
    pub open spec fn wf(&self) -> bool {
        self.start.bounded(3 * WORLD_LIMIT) && self.end.bounded(3 * WORLD_LIMIT)
    }

    /// On no axis do the two ends lie further apart than `limit`.
    pub open spec fn spans_at_most(&self, limit: int) -> bool {
        &&& -limit <= self.end.x - self.start.x <= limit
        &&& -limit <= self.end.y - self.start.y <= limit
        &&& -limit <= self.end.z - self.start.z <= limit
    }

    /// The point halfway between the two ends, where the mesh of the
    /// segment is placed.
    pub fn midpoint(&self) -> (r: Point3)
        requires
            self.wf(),
        ensures
            r.coords() == midpoint_of(self.start, self.end),
            r == midpoint_at(self.start, self.end),
            r.bounded(3 * WORLD_LIMIT),
    {
        Point3 {
            x: half(self.start.x as i128 + self.end.x as i128),
            y: half(self.start.y as i128 + self.end.y as i128),
            z: half(self.start.z as i128 + self.end.z as i128),
        }
    }
}

} // verus!
