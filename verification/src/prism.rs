use vstd::prelude::*;
use crate::point::{all_bounded, Point3, LOCAL_LIMIT, WORLD_LIMIT};
use crate::surface::{SurfaceMesh, Uv};
use crate::trajectory::{midpoint_of, Segment3D};
use crate::vector::{
    cross, cross_product, div_toward_zero, edge, magnitude, trunc_div, unit, unit_vector, Vector3,
    EDGE_LIMIT, UNIT_ONE,
};

verus! {

/// The square of the unit length: the scale of a sum of two unit vectors
/// weighted by a cosine and a sine.
pub const UNIT_SQUARED: i128 = 1_000_000_000_000;

/// The coordinate axis along which `a` reaches least; of two that it
/// reaches equally, the earlier.
pub open spec fn smallest_axis(a: (int, int, int)) -> (int, int, int) {
    if magnitude(a.0) <= magnitude(a.1) && magnitude(a.0) <= magnitude(a.2) {
        (1, 0, 0)
    } else if magnitude(a.1) <= magnitude(a.2) {
        (0, 1, 0)
    } else {
        (0, 0, 1)
    }
}

/// A unit vector across the axis `a`: along `a x e`, where `e` is the
/// coordinate axis along which `a` reaches least.
pub open spec fn first_side(a: (int, int, int)) -> (int, int, int) {
    unit(cross(a, smallest_axis(a)))
}

/// A unit vector across the axis `a` and across the first side.
pub open spec fn second_side(a: (int, int, int)) -> (int, int, int) {
    unit(cross(a, first_side(a)))
}

/// The cosine of the angle of the corner `k` of the cross-section, a third
/// of a turn apart, times the unit length.
pub open spec fn ring_cos(k: int) -> int {
    if k == 0 {
        1_000_000
    } else {
        -500_000
    }
}

/// The sine of the angle of the corner `k`, times the unit length.
pub open spec fn ring_sin(k: int) -> int {
    if k == 0 {
        0
    } else if k == 1 {
        866_025
    } else {
        -866_025
    }
}

/// The direction from the axis to the corner `k`, between the two sides
/// `u` and `w`: `cos u + sin w`, at the scale of `UNIT_SQUARED`.
pub open spec fn ring_direction(u: (int, int, int), w: (int, int, int), k: int) -> (
    int,
    int,
    int,
) {
    (
        ring_cos(k) * u.0 + ring_sin(k) * w.0,
        ring_cos(k) * u.1 + ring_sin(k) * w.1,
        ring_cos(k) * u.2 + ring_sin(k) * w.2,
    )
}

/// How far the corner `k` stands from the axis: the radius along the
/// direction of the corner, each coordinate rounded toward zero.
pub open spec fn ring_offset(u: (int, int, int), w: (int, int, int), radius: int, k: int) -> (
    int,
    int,
    int,
) {
    let d = ring_direction(u, w, k);
    (
        trunc_div(radius * d.0, UNIT_SQUARED as int),
        trunc_div(radius * d.1, UNIT_SQUARED as int),
        trunc_div(radius * d.2, UNIT_SQUARED as int),
    )
}

/// The vertex `j` of the prism round the segment from `start` to `end`,
/// relative to the midpoint of the segment. The first three vertices are
/// the corners round `start`, the last three those round `end`.
pub open spec fn prism_vertex(start: Point3, end: Point3, radius: int, j: int) -> (
    int,
    int,
    int,
) {
    let a = edge(start, end);
    let mid = midpoint_of(start, end);
    let off = ring_offset(first_side(a), second_side(a), radius, j % 3);
    if j < 3 {
        (start.x - mid.0 + off.0, start.y - mid.1 + off.1, start.z - mid.2 + off.2)
    } else {
        (end.x - mid.0 + off.0, end.y - mid.1 + off.1, end.z - mid.2 + off.2)
    }
}

/// The normal of the vertex `j` of the prism: the unit vector from the
/// axis to its corner.
pub open spec fn prism_normal(start: Point3, end: Point3, j: int) -> (int, int, int) {
    let a = edge(start, end);
    unit(ring_direction(first_side(a), second_side(a), j % 3))
}

/// The triangles of a prism: two for each of the three sides, and one
/// for each end.
pub open spec fn prism_indices() -> Seq<u32> {
    seq![
        0u32, 1u32, 3u32, 1u32, 4u32, 3u32, 1u32, 2u32, 4u32, 2u32, 5u32, 4u32, 2u32, 0u32, 5u32,
        0u32, 3u32, 5u32, 0u32, 2u32, 1u32, 3u32, 4u32, 5u32,
    ]
}

/// The direction from the axis to the corner `k`, its normal, and how far
/// the corner stands from the axis.
fn ring_corner(u: Vector3, w: Vector3, radius: i64, k: usize) -> (r: (Vector3, (i64, i64, i64)))
    requires
        u.bounded(UNIT_ONE as int),
        w.bounded(UNIT_ONE as int),
        0 <= radius <= LOCAL_LIMIT,
        k < 3,
    ensures
        r.0.coords() == unit(ring_direction(u.coords(), w.coords(), k as int)),
        (r.1.0 as int, r.1.1 as int, r.1.2 as int) == ring_offset(
            u.coords(),
            w.coords(),
            radius as int,
            k as int,
        ),
        -2 * radius <= r.1.0 <= 2 * radius,
        -2 * radius <= r.1.1 <= 2 * radius,
        -2 * radius <= r.1.2 <= 2 * radius,
{
    let (c, s): (i128, i128) = if k == 0 {
        (1_000_000, 0)
    } else if k == 1 {
        (-500_000, 866_025)
    } else {
        (-500_000, -866_025)
    };
    let dx: i128 = weighted(c, u.x, s, w.x);
    let dy: i128 = weighted(c, u.y, s, w.y);
    let dz: i128 = weighted(c, u.z, s, w.z);
    let normal = unit_vector((dx, dy, dz));
    let ox = along_direction(radius, dx);
    let oy = along_direction(radius, dy);
    let oz = along_direction(radius, dz);
    (normal, (ox, oy, oz))
}

/// `c * a + s * b` for a cosine and a sine at the unit scale.
fn weighted(c: i128, a: i64, s: i128, b: i64) -> (r: i128)
    requires
        -1_000_000 <= c <= 1_000_000,
        -1_000_000 <= s <= 1_000_000,
        -1_000_000 <= a <= 1_000_000,
        -1_000_000 <= b <= 1_000_000,
    ensures
        r == c * a + s * b,
        -2_000_000_000_000 <= r <= 2_000_000_000_000,
{
    assert(-1_000_000_000_000 <= c * a <= 1_000_000_000_000) by (nonlinear_arith)
        requires
            -1_000_000 <= c <= 1_000_000,
            -1_000_000 <= a <= 1_000_000,
    ;
    assert(-1_000_000_000_000 <= s * b <= 1_000_000_000_000) by (nonlinear_arith)
        requires
            -1_000_000 <= s <= 1_000_000,
            -1_000_000 <= b <= 1_000_000,
    ;
    c * (a as i128) + s * (b as i128)
}

/// `radius * d / UNIT_SQUARED`, rounded toward zero.
fn along_direction(radius: i64, d: i128) -> (r: i64)
    requires
        0 <= radius <= LOCAL_LIMIT,
        -2_000_000_000_000 <= d <= 2_000_000_000_000,
    ensures
        r == trunc_div(radius * d, UNIT_SQUARED as int),
        -2 * radius <= r <= 2 * radius,
{
    assert(-2_000_000_000_000 * radius <= radius * d <= 2_000_000_000_000 * radius)
        by (nonlinear_arith)
        requires
            0 <= radius,
            -2_000_000_000_000 <= d <= 2_000_000_000_000,
    ;
    let product: i128 = (radius as i128) * d;
    let q = div_toward_zero(product, 1_000_000_000_000);
    assert(-2 * radius <= q <= 2 * radius) by {
        if product >= 0 {
            assert(product / 1_000_000_000_000 <= 2 * radius);
        } else {
            assert((-product) / 1_000_000_000_000 <= 2 * radius);
        }
    }
    q as i64
}

/// The coordinate axis along which `a` reaches least.
fn least_axis(a: (i64, i64, i64)) -> (e: (i64, i64, i64))
    requires
        -EDGE_LIMIT <= a.0 <= EDGE_LIMIT,
        -EDGE_LIMIT <= a.1 <= EDGE_LIMIT,
        -EDGE_LIMIT <= a.2 <= EDGE_LIMIT,
    ensures
        (e.0 as int, e.1 as int, e.2 as int) == smallest_axis(
            (a.0 as int, a.1 as int, a.2 as int),
        ),
{
    let x = if a.0 >= 0 { a.0 } else { -a.0 };
    let y = if a.1 >= 0 { a.1 } else { -a.1 };
    let z = if a.2 >= 0 { a.2 } else { -a.2 };
    if x <= y && x <= z {
        (1, 0, 0)
    } else if y <= z {
        (0, 1, 0)
    } else {
        (0, 0, 1)
    }
}

/// Builds the prism of one segment: a cylinder of three sides about the
/// axis from `coord1` to `coord2`, its corners `radius` away from the
/// axis. The vertices are relative to the midpoint of the segment, where
/// the mesh is to be placed. A segment of no length gives a prism
/// without volume.
pub fn generate_triangular_prisma(coord1: &Point3, coord2: &Point3, radius: i64) -> (mesh:
    SurfaceMesh)
    requires
        coord1.bounded(3 * WORLD_LIMIT),
        coord2.bounded(3 * WORLD_LIMIT),
        (Segment3D { start: *coord1, end: *coord2 }).spans_at_most(EDGE_LIMIT as int),
        0 <= radius <= LOCAL_LIMIT,
    ensures
        mesh.wf(),
        mesh.vertices.len() == 6,
        mesh.indices@ == prism_indices(),
        forall|j: int|
            0 <= j < 6 ==> (#[trigger] mesh.vertices[j]).coords() == prism_vertex(
                *coord1,
                *coord2,
                radius as int,
                j,
            ),
        forall|j: int|
            0 <= j < 6 ==> (#[trigger] mesh.normals[j]).coords() == prism_normal(
                *coord1,
                *coord2,
                j,
            ),
        forall|j: int| 0 <= j < 6 ==> (#[trigger] mesh.uvs[j]) == (Uv { u: 0, v: 0 }),
        all_bounded(mesh.vertices@, WORLD_LIMIT as int),
{
    let a: (i64, i64, i64) = (coord2.x - coord1.x, coord2.y - coord1.y, coord2.z - coord1.z);
    let e = least_axis(a);
    let u = unit_vector(cross_product(a, e));
    let w = unit_vector(cross_product(a, (u.x, u.y, u.z)));
    let mid = Segment3D { start: *coord1, end: *coord2 }.midpoint();
    let low: (i64, i64, i64) = (coord1.x - mid.x, coord1.y - mid.y, coord1.z - mid.z);
    let high: (i64, i64, i64) = (coord2.x - mid.x, coord2.y - mid.y, coord2.z - mid.z);
    let mut vertices: Vec<Point3> = Vec::new();
    let mut normals: Vec<Vector3> = Vec::new();
    let mut uvs: Vec<Uv> = Vec::new();
    let mut j: usize = 0;
    while j < 6
        invariant
            j <= 6,
            vertices.len() == j,
            normals.len() == j,
            uvs.len() == j,
            u.bounded(UNIT_ONE as int),
            w.bounded(UNIT_ONE as int),
            0 <= radius <= LOCAL_LIMIT,
            u.coords() == first_side(edge(*coord1, *coord2)),
            w.coords() == second_side(edge(*coord1, *coord2)),
            (low.0 as int, low.1 as int, low.2 as int) == (
                coord1.x - midpoint_of(*coord1, *coord2).0,
                coord1.y - midpoint_of(*coord1, *coord2).1,
                coord1.z - midpoint_of(*coord1, *coord2).2,
            ),
            (high.0 as int, high.1 as int, high.2 as int) == (
                coord2.x - midpoint_of(*coord1, *coord2).0,
                coord2.y - midpoint_of(*coord1, *coord2).1,
                coord2.z - midpoint_of(*coord1, *coord2).2,
            ),
            -EDGE_LIMIT <= low.0 <= EDGE_LIMIT,
            -EDGE_LIMIT <= low.1 <= EDGE_LIMIT,
            -EDGE_LIMIT <= low.2 <= EDGE_LIMIT,
            -EDGE_LIMIT <= high.0 <= EDGE_LIMIT,
            -EDGE_LIMIT <= high.1 <= EDGE_LIMIT,
            -EDGE_LIMIT <= high.2 <= EDGE_LIMIT,
            forall|i: int|
                0 <= i < j ==> (#[trigger] vertices[i]).coords() == prism_vertex(
                    *coord1,
                    *coord2,
                    radius as int,
                    i,
                ),
            forall|i: int|
                0 <= i < j ==> (#[trigger] normals[i]).coords() == prism_normal(
                    *coord1,
                    *coord2,
                    i,
                ),
            forall|i: int| 0 <= i < j ==> (#[trigger] uvs[i]) == (Uv { u: 0, v: 0 }),
            forall|i: int| 0 <= i < j ==> (#[trigger] vertices[i]).bounded(WORLD_LIMIT as int),
        decreases 6 - j,
    {
        let k: usize = if j < 3 { j } else { j - 3 };
        let base = if j < 3 { low } else { high };
        let (normal, off) = ring_corner(u, w, radius, k);
        vertices.push(Point3 { x: base.0 + off.0, y: base.1 + off.1, z: base.2 + off.2 });
        normals.push(normal);
        uvs.push(Uv { u: 0, v: 0 });
        j += 1;
    }
    let mut indices: Vec<u32> = Vec::new();
    indices.push(0);
    indices.push(1);
    indices.push(3);
    indices.push(1);
    indices.push(4);
    indices.push(3);
    indices.push(1);
    indices.push(2);
    indices.push(4);
    indices.push(2);
    indices.push(5);
    indices.push(4);
    indices.push(2);
    indices.push(0);
    indices.push(5);
    indices.push(0);
    indices.push(3);
    indices.push(5);
    indices.push(0);
    indices.push(2);
    indices.push(1);
    indices.push(3);
    indices.push(4);
    indices.push(5);
    assert(indices@ =~= prism_indices());
    SurfaceMesh { vertices, normals, uvs, indices }
}

} // verus!
