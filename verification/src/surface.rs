use vstd::prelude::*;
use crate::error::EngineError;
use crate::point::{all_bounded, mesh_frame, Point3, LOCAL_LIMIT};
use crate::vector::{
    cross, edge, edge_cross, face_normal, lemma_face_normal_bound, lemma_unit_length,
    lemma_unit_of_opposite, norm_squared, unit, unit_vector, Vector3, UNIT_ONE,
};

verus! {

/// The largest number of indices a surface may have.
pub const INDEX_LIMIT: u64 = 25_769_803_776;

/// A texture coordinate. Surfaces carry the same placeholder at every
/// vertex: `(0, 0)`.
#[derive(Clone, Copy, Debug, PartialEq, Eq, Structural)]
pub struct Uv {
    pub u: i64,
    pub v: i64,
}

/// A triangulated surface: three consecutive indices name the corners of
/// one triangle. Vertices hold the elevation on the second axis.
#[derive(Clone, Debug)]
pub struct SurfaceMesh {
    pub vertices: Vec<Point3>,
    pub normals: Vec<Vector3>,
    pub uvs: Vec<Uv>,
    pub indices: Vec<u32>,
}

impl SurfaceMesh {
    /// Whole triangles only, every index names a vertex, and every vertex
    /// has its normal and its texture coordinate.
    pub open spec fn wf(&self) -> bool {
        &&& self.indices.len() % 3 == 0
        &&& forall|i: int|
            0 <= i < self.indices.len() ==> (#[trigger] self.indices[i]) < self.vertices.len()
        &&& self.normals.len() == self.vertices.len()
        &&& self.uvs.len() == self.vertices.len()
    }

    /// The number of triangles.
    pub open spec fn triangle_count(&self) -> int {
        self.indices.len() as int / 3
    }
}

/// Whole triangles only, and every index names one of `n` vertices.
pub open spec fn indexes_vertices(triangles: Seq<usize>, n: int) -> bool {
    &&& triangles.len() % 3 == 0
    &&& triangles.len() <= INDEX_LIMIT
    &&& forall|i: int| 0 <= i < triangles.len() ==> (#[trigger] triangles[i]) < n
}

/// A triangulation of `n` points that a surface can be built from: at
/// least one triangle, and every index fits the mesh's 32-bit indices.
pub open spec fn is_triangle_list(triangles: Seq<usize>, n: int) -> bool {
    &&& triangles.len() > 0
    &&& indexes_vertices(triangles, n)
    &&& forall|i: int| 0 <= i < triangles.len() ==> (#[trigger] triangles[i]) <= u32::MAX
}

/// `f` where the corner is the vertex `v`, zero elsewhere.
pub open spec fn at_corner(corner: usize, v: int, f: (int, int, int)) -> (int, int, int) {
    if corner == v {
        f
    } else {
        (0, 0, 0)
    }
}

/// The sum of two vectors.
pub open spec fn plus(a: (int, int, int), b: (int, int, int)) -> (int, int, int) {
    (a.0 + b.0, a.1 + b.1, a.2 + b.2)
}

/// The face normal of the triangle number `t`.
pub open spec fn triangle_normal(vertices: Seq<Point3>, triangles: Seq<usize>, t: int) -> (
    int,
    int,
    int,
) {
    face_normal(
        vertices[triangles[3 * t] as int],
        vertices[triangles[3 * t + 1] as int],
        vertices[triangles[3 * t + 2] as int],
    )
}

/// The sum, over the first `k` triangles, of the face normal of each
/// triangle once for every corner of it that is the vertex `v`.
pub open spec fn accumulated_normal(
    vertices: Seq<Point3>,
    triangles: Seq<usize>,
    k: nat,
    v: int,
) -> (int, int, int)
    decreases k,
{
    if k == 0 {
        (0, 0, 0)
    } else {
        let t = k - 1;
        let f = triangle_normal(vertices, triangles, t);
        plus(
            plus(
                plus(
                    accumulated_normal(vertices, triangles, t as nat, v),
                    at_corner(triangles[3 * t], v, f),
                ),
                at_corner(triangles[3 * t + 1], v, f),
            ),
            at_corner(triangles[3 * t + 2], v, f),
        )
    }
}

/// The normal of the vertex `v`: the unit vector along the sum of the face
/// normals of the triangles that meet there. A vertex where that sum is
/// zero (no triangle, or only triangles without area, or normals that
/// cancel) gets the upward normal `(0, UNIT_ONE, 0)`.
pub open spec fn vertex_normal(vertices: Seq<Point3>, triangles: Seq<usize>, v: int) -> (
    int,
    int,
    int,
) {
    let sum = accumulated_normal(vertices, triangles, (triangles.len() / 3) as nat, v);
    if sum == (0int, 0int, 0int) {
        (0, UNIT_ONE as int, 0)
    } else {
        unit(sum)
    }
}

/// Every component of the running sum after `k` triangles is at most
/// `3 * k` unit lengths.
proof fn lemma_accumulated_bound(vertices: Seq<Point3>, triangles: Seq<usize>, k: nat, v: int)
    requires
        indexes_vertices(triangles, vertices.len() as int),
        all_bounded(vertices, LOCAL_LIMIT as int),
        3 * k <= triangles.len(),
    ensures
        ({
            let s = accumulated_normal(vertices, triangles, k, v);
            &&& -3_000_000 * k <= s.0 <= 3_000_000 * k
            &&& -3_000_000 * k <= s.1 <= 3_000_000 * k
            &&& -3_000_000 * k <= s.2 <= 3_000_000 * k
        }),
    decreases k,
{
    if k > 0 {
        let t = (k - 1) as nat;
        lemma_accumulated_bound(vertices, triangles, t, v);
        lemma_triangle_normal_bound(vertices, triangles, t as int);
    }
}

/// No component of a face normal exceeds the unit length.
proof fn lemma_triangle_normal_bound(vertices: Seq<Point3>, triangles: Seq<usize>, t: int)
    requires
        indexes_vertices(triangles, vertices.len() as int),
        all_bounded(vertices, LOCAL_LIMIT as int),
        0 <= t,
        3 * t + 2 < triangles.len(),
    ensures
        ({
            let f = triangle_normal(vertices, triangles, t);
            &&& -1_000_000 <= f.0 <= 1_000_000
            &&& -1_000_000 <= f.1 <= 1_000_000
            &&& -1_000_000 <= f.2 <= 1_000_000
        }),
{
    lemma_face_normal_bound(
        vertices[triangles[3 * t] as int],
        vertices[triangles[3 * t + 1] as int],
        vertices[triangles[3 * t + 2] as int],
    );
}

/// Adds `f` to the running sum of the vertex `i`.
fn add_at(sums: &mut Vec<Vector3>, i: usize, f: Vector3, Ghost(limit): Ghost<int>)
    requires
        i < old(sums).len(),
        0 <= limit <= 0x4000_0000_0000_0000,
        f.bounded(1_000_000),
        forall|j: int| 0 <= j < old(sums).len() ==> (#[trigger] old(sums)[j]).bounded(limit),
    ensures
        final(sums).len() == old(sums).len(),
        forall|j: int| 0 <= j < old(sums).len() && j != i ==> final(sums)[j] == old(sums)[j],
        final(sums)[i as int].coords() == plus(old(sums)[i as int].coords(), f.coords()),
        forall|j: int|
            0 <= j < final(sums).len() ==> (#[trigger] final(sums)[j]).bounded(limit + 1_000_000),
{
    let s = sums[i];
    assert(s.bounded(limit));
    sums.set(i, Vector3 { x: s.x + f.x, y: s.y + f.y, z: s.z + f.z });
    assert forall|j: int| 0 <= j < sums.len() implies (#[trigger] sums[j]).bounded(
        limit + 1_000_000,
    ) by {
        if j != i {
            assert(old(sums)[j].bounded(limit));
        }
    }
}

/// Adds the face normal of the triangle number `t` to the running sum of
/// each of its three corners.
fn accumulate_triangle(
    sums: &mut Vec<Vector3>,
    vertices: &Vec<Point3>,
    triangles: &Vec<usize>,
    t: usize,
)
    requires
        indexes_vertices(triangles@, vertices.len() as int),
        all_bounded(vertices@, LOCAL_LIMIT as int),
        3 * t + 2 < triangles.len(),
        old(sums).len() == vertices.len(),
        forall|j: int|
            0 <= j < vertices.len() ==> (#[trigger] old(sums)[j]).coords() == accumulated_normal(
                vertices@,
                triangles@,
                t as nat,
                j,
            ),
    ensures
        final(sums).len() == vertices.len(),
        forall|j: int|
            0 <= j < vertices.len() ==> (#[trigger] final(sums)[j]).coords() == accumulated_normal(
                vertices@,
                triangles@,
                (t + 1) as nat,
                j,
            ),
{
    let ia = triangles[3 * t];
    let ib = triangles[3 * t + 1];
    let ic = triangles[3 * t + 2];
    let a = vertices[ia];
    let b = vertices[ib];
    let c = vertices[ic];
    assert(a.bounded(LOCAL_LIMIT as int));
    assert(b.bounded(LOCAL_LIMIT as int));
    assert(c.bounded(LOCAL_LIMIT as int));
    let f = unit_vector(edge_cross(&a, &b, &c));
    let ghost face = triangle_normal(vertices@, triangles@, t as int);
    assert(f.coords() == face);
    let ghost limit: int = 3_000_000 * t;
    let ghost s0 = sums@;
    proof {
        assert forall|j: int| 0 <= j < s0.len() implies (#[trigger] s0[j]).bounded(limit) by {
            lemma_accumulated_bound(vertices@, triangles@, t as nat, j);
        }
    }
    add_at(sums, ia, f, Ghost(limit));
    let ghost s1 = sums@;
    add_at(sums, ib, f, Ghost(limit + 1_000_000));
    let ghost s2 = sums@;
    add_at(sums, ic, f, Ghost(limit + 2_000_000));
    proof {
        assert forall|j: int| 0 <= j < vertices.len() implies (#[trigger] sums[j]).coords()
            == accumulated_normal(vertices@, triangles@, (t + 1) as nat, j) by {
            let before = accumulated_normal(vertices@, triangles@, t as nat, j);
            assert(s0[j].coords() == before);
            assert(s1[j].coords() == plus(before, at_corner(ia, j, face)));
            assert(s2[j].coords() == plus(s1[j].coords(), at_corner(ib, j, face)));
            assert(sums[j].coords() == plus(s2[j].coords(), at_corner(ic, j, face)));
        }
    }
}

/// The normal of every vertex of a triangulated surface.
pub fn calculate_normals(vertices: &Vec<Point3>, triangles: &Vec<usize>) -> (normals: Vec<Vector3>)
    requires
        indexes_vertices(triangles@, vertices.len() as int),
        all_bounded(vertices@, LOCAL_LIMIT as int),
    ensures
        normals.len() == vertices.len(),
        forall|v: int|
            0 <= v < vertices.len() ==> (#[trigger] normals[v]).coords() == vertex_normal(
                vertices@,
                triangles@,
                v,
            ),
        forall|v: int|
            0 <= v < vertices.len() ==> (UNIT_ONE - 2) * (UNIT_ONE - 2) <= norm_squared(
                (#[trigger] normals[v]).coords(),
            ) <= UNIT_ONE * UNIT_ONE,
{
    let n = vertices.len();
    let mut sums: Vec<Vector3> = Vec::new();
    let mut v: usize = 0;
    while v < n
        invariant
            v <= n,
            sums.len() == v,
            forall|j: int| 0 <= j < v ==> (#[trigger] sums[j]).coords() == (0int, 0int, 0int),
        decreases n - v,
    {
        sums.push(Vector3 { x: 0, y: 0, z: 0 });
        v += 1;
    }
    let count = triangles.len() / 3;
    let mut t: usize = 0;
    while t < count
        invariant
            t <= count,
            count == triangles.len() / 3,
            n == vertices.len(),
            sums.len() == n,
            indexes_vertices(triangles@, n as int),
            all_bounded(vertices@, LOCAL_LIMIT as int),
            forall|j: int|
                0 <= j < n ==> (#[trigger] sums[j]).coords() == accumulated_normal(
                    vertices@,
                    triangles@,
                    t as nat,
                    j,
                ),
        decreases count - t,
    {
        accumulate_triangle(&mut sums, vertices, triangles, t);
        t += 1;
    }
    let mut normals: Vec<Vector3> = Vec::new();
    let mut v: usize = 0;
    while v < n
        invariant
            v <= n,
            n == vertices.len(),
            sums.len() == n,
            normals.len() == v,
            count == triangles.len() / 3,
            indexes_vertices(triangles@, n as int),
            all_bounded(vertices@, LOCAL_LIMIT as int),
            forall|j: int|
                0 <= j < n ==> (#[trigger] sums[j]).coords() == accumulated_normal(
                    vertices@,
                    triangles@,
                    count as nat,
                    j,
                ),
            forall|j: int|
                0 <= j < v ==> (#[trigger] normals[j]).coords() == vertex_normal(
                    vertices@,
                    triangles@,
                    j,
                ),
        decreases n - v,
    {
        normals.push(finish_normal(sums[v], Ghost(vertices@), Ghost(triangles@), Ghost(v as int)));
        v += 1;
    }
    assert forall|v: int| 0 <= v < vertices.len() implies (UNIT_ONE - 2) * (UNIT_ONE - 2)
        <= norm_squared((#[trigger] normals[v]).coords()) <= UNIT_ONE * UNIT_ONE by {
        lemma_vertex_normal_length(vertices@, triangles@, v);
    }
    normals
}

/// Turns the running sum of a vertex into its normal.
fn finish_normal(
    sum: Vector3,
    Ghost(vertices): Ghost<Seq<Point3>>,
    Ghost(triangles): Ghost<Seq<usize>>,
    Ghost(v): Ghost<int>,
) -> (normal: Vector3)
    requires
        indexes_vertices(triangles, vertices.len() as int),
        all_bounded(vertices, LOCAL_LIMIT as int),
        sum.coords() == accumulated_normal(vertices, triangles, (triangles.len() / 3) as nat, v),
    ensures
        normal.coords() == vertex_normal(vertices, triangles, v),
{
    proof {
        lemma_accumulated_bound(vertices, triangles, (triangles.len() / 3) as nat, v);
    }
    if sum.x == 0 && sum.y == 0 && sum.z == 0 {
        Vector3 { x: 0, y: UNIT_ONE, z: 0 }
    } else {
        unit_vector((sum.x as i128, sum.y as i128, sum.z as i128))
    }
}

/// `mesh` is the surface that the triangulation `triangles` spans over
/// `points`: the points in order with the elevation on the second axis,
/// the indices as given, the normal of every vertex, and the placeholder
/// texture coordinate.
pub open spec fn is_surface_of(mesh: SurfaceMesh, points: Seq<Point3>, triangles: Seq<usize>) -> bool {
    &&& mesh.vertices@ == mesh_frame(points)
    &&& mesh.indices.len() == triangles.len()
    &&& forall|i: int| 0 <= i < triangles.len() ==> (#[trigger] mesh.indices[i]) == triangles[i]
    &&& mesh.normals.len() == points.len()
    &&& forall|v: int|
        0 <= v < points.len() ==> (#[trigger] mesh.normals[v]).coords() == vertex_normal(
            mesh_frame(points),
            triangles,
            v,
        )
    &&& mesh.uvs.len() == points.len()
    &&& forall|v: int| 0 <= v < points.len() ==> (#[trigger] mesh.uvs[v]) == (Uv { u: 0, v: 0 })
}

/// Whether a surface can be built from `triangles` over `n` points.
pub fn is_valid_triangle_list(triangles: &Vec<usize>, n: usize) -> (ok: bool)
    ensures
        ok == is_triangle_list(triangles@, n as int),
{
    let len = triangles.len();
    if len == 0 || len % 3 != 0 || len as u64 > INDEX_LIMIT {
        return false;
    }
    let mut i: usize = 0;
    while i < len
        invariant
            i <= len,
            len == triangles.len(),
            forall|j: int| 0 <= j < i ==> (#[trigger] triangles[j]) < n,
            forall|j: int| 0 <= j < i ==> (#[trigger] triangles[j]) <= u32::MAX,
        decreases len - i,
    {
        let index = triangles[i];
        if index >= n || index > u32::MAX as usize {
            return false;
        }
        i += 1;
    }
    true
}

/// Builds the surface that a triangulation spans over a point cloud.
///
/// The points are taken in their own local frame, elevation on the third
/// axis. Fewer than three points, no triangle at all, or a list that is no
/// triangulation of these points give no surface.
pub fn surface_from_triangles(points: &Vec<Point3>, triangles: &Vec<usize>) -> (r: Result<
    SurfaceMesh,
    EngineError,
>)
    requires
        all_bounded(points@, LOCAL_LIMIT as int),
    ensures
        r is Err <==> points.len() < 3 || !is_triangle_list(triangles@, points.len() as int),
        r matches Err(e) ==> e == EngineError::DegenerateInput,
        r matches Ok(mesh) ==> mesh.wf() && is_surface_of(mesh, points@, triangles@),
{
    let n = points.len();
    if n < 3 || !is_valid_triangle_list(triangles, n) {
        return Err(EngineError::DegenerateInput);
    }
    let mut vertices: Vec<Point3> = Vec::new();
    let mut uvs: Vec<Uv> = Vec::new();
    let mut v: usize = 0;
    while v < n
        invariant
            v <= n,
            n == points.len(),
            vertices.len() == v,
            uvs.len() == v,
            forall|j: int| 0 <= j < v ==> (#[trigger] vertices[j]) == points[j].mesh_axes(),
            forall|j: int| 0 <= j < v ==> (#[trigger] uvs[j]) == (Uv { u: 0, v: 0 }),
        decreases n - v,
    {
        vertices.push(points[v].to_mesh_axes());
        uvs.push(Uv { u: 0, v: 0 });
        v += 1;
    }
    assert(vertices@ =~= mesh_frame(points@));
    assert forall|j: int| 0 <= j < vertices.len() implies (#[trigger] vertices[j]).bounded(
        LOCAL_LIMIT as int,
    ) by {
        assert(points[j].bounded(LOCAL_LIMIT as int));
    }
    let normals = calculate_normals(&vertices, triangles);
    let mut indices: Vec<u32> = Vec::new();
    let mut i: usize = 0;
    while i < triangles.len()
        invariant
            i <= triangles.len(),
            indices.len() == i,
            is_triangle_list(triangles@, n as int),
            forall|j: int| 0 <= j < i ==> (#[trigger] indices[j]) == triangles[j],
        decreases triangles.len() - i,
    {
        indices.push(triangles[i] as u32);
        i += 1;
    }
    Ok(SurfaceMesh { vertices, normals, uvs, indices })
}

/// Twice the signed area, in plan view, of the triangle `o a b`.
pub open spec fn plan_cross(o: Point3, a: Point3, b: Point3) -> int {
    (a.x - o.x) * (b.y - o.y) - (a.y - o.y) * (b.x - o.x)
}

/// In plan view all points lie on one line: every two of them lie on one
/// line with the first.
pub open spec fn all_collinear(points: Seq<Point3>) -> bool {
    forall|j: int, k: int|
        0 <= j < points.len() && 0 <= k < points.len() ==> #[trigger] plan_cross(
            points[0],
            points[j],
            points[k],
        ) == 0
}

/// Two vectors that each lie along a third, which is not zero, lie along
/// one another.
proof fn lemma_along_same_line(u1: int, u2: int, v1: int, v2: int, w1: int, w2: int)
    requires
        u1 != 0 || u2 != 0,
        u1 * v2 - u2 * v1 == 0,
        u1 * w2 - u2 * w1 == 0,
    ensures
        v1 * w2 - v2 * w1 == 0,
{
    let d = v1 * w2 - v2 * w1;
    assert(u1 * d == 0) by (nonlinear_arith)
        requires
            d == v1 * w2 - v2 * w1,
            u1 * v2 - u2 * v1 == 0,
            u1 * w2 - u2 * w1 == 0,
    ;
    assert(u2 * d == 0) by (nonlinear_arith)
        requires
            d == v1 * w2 - v2 * w1,
            u1 * v2 - u2 * v1 == 0,
            u1 * w2 - u2 * w1 == 0,
    ;
    assert(d == 0) by (nonlinear_arith)
        requires
            u1 * d == 0,
            u2 * d == 0,
            u1 != 0 || u2 != 0,
    ;
}

/// Twice the signed area, in plan view, of the triangle `o a b`.
fn plan_area(o: &Point3, a: &Point3, b: &Point3) -> (r: i128)
    requires
        o.bounded(LOCAL_LIMIT as int),
        a.bounded(LOCAL_LIMIT as int),
        b.bounded(LOCAL_LIMIT as int),
    ensures
        r == plan_cross(*o, *a, *b),
{
    let ax: i128 = (a.x - o.x) as i128;
    let ay: i128 = (a.y - o.y) as i128;
    let bx: i128 = (b.x - o.x) as i128;
    let by: i128 = (b.y - o.y) as i128;
    assert(-4_611_686_018_427_387_904 <= ax * by <= 4_611_686_018_427_387_904)
        by (nonlinear_arith)
        requires
            -2_147_483_648 <= ax <= 2_147_483_648,
            -2_147_483_648 <= by <= 2_147_483_648,
    ;
    assert(-4_611_686_018_427_387_904 <= ay * bx <= 4_611_686_018_427_387_904)
        by (nonlinear_arith)
        requires
            -2_147_483_648 <= ay <= 2_147_483_648,
            -2_147_483_648 <= bx <= 2_147_483_648,
    ;
    ax * by - ay * bx
}

/// Whether all points lie, in plan view, on one line.
pub fn is_collinear(points: &Vec<Point3>) -> (ok: bool)
    requires
        all_bounded(points@, LOCAL_LIMIT as int),
    ensures
        ok == all_collinear(points@),
{
    let n = points.len();
    if n == 0 {
        return true;
    }
    let first = points[0];
    let mut a: usize = 1;
    while a < n && points[a].x == first.x && points[a].y == first.y
        invariant
            1 <= a <= n,
            n == points.len(),
            first == points[0],
            forall|j: int|
                0 <= j < a ==> (#[trigger] points[j]).x == first.x && points[j].y == first.y,
        decreases n - a,
    {
        a += 1;
    }
    if a == n {
        assert forall|j: int, k: int| 0 <= j < n && 0 <= k < n implies #[trigger] plan_cross(
            points[0],
            points[j],
            points[k],
        ) == 0 by {
            let pj = points[j];
            let pk = points[k];
            assert(pj.x == first.x && pj.y == first.y);
            assert(pk.x == first.x && pk.y == first.y);
            assert((pj.x - first.x) * (pk.y - first.y) == 0) by (nonlinear_arith)
                requires
                    pj.x - first.x == 0,
            ;
            assert((pj.y - first.y) * (pk.x - first.x) == 0) by (nonlinear_arith)
                requires
                    pj.y - first.y == 0,
            ;
        }
        return true;
    }
    let other = points[a];
    assert(first.bounded(LOCAL_LIMIT as int) && other.bounded(LOCAL_LIMIT as int));
    let mut k: usize = 0;
    while k < n
        invariant
            k <= n,
            a < n,
            n == points.len(),
            first == points[0],
            other == points[a as int],
            all_bounded(points@, LOCAL_LIMIT as int),
            forall|j: int| 0 <= j < k ==> plan_cross(first, other, #[trigger] points[j]) == 0,
        decreases n - k,
    {
        let third = points[k];
        assert(third.bounded(LOCAL_LIMIT as int));
        if plan_area(&first, &other, &third) != 0 {
            assert(plan_cross(points[0], points[a as int], points[k as int]) != 0);
            return false;
        }
        k += 1;
    }
    assert forall|i: int, j: int| 0 <= i < n && 0 <= j < n implies #[trigger] plan_cross(
        points[0],
        points[i],
        points[j],
    ) == 0 by {
        assert(plan_cross(first, other, points[i]) == 0);
        assert(plan_cross(first, other, points[j]) == 0);
        lemma_along_same_line(
            other.x - first.x,
            other.y - first.y,
            points[i].x - first.x,
            points[i].y - first.y,
            points[j].x - first.x,
            points[j].y - first.y,
        );
    }
    true
}

/// The surface that a triangle list spans over a cloud is well formed: it
/// has three indices for each triangle of the list, every index names a
/// vertex, and there is one normal for every vertex.
pub proof fn lemma_surface_is_well_formed(
    mesh: SurfaceMesh,
    points: Seq<Point3>,
    triangles: Seq<usize>,
)
    requires
        is_triangle_list(triangles, points.len() as int),
        is_surface_of(mesh, points, triangles),
    ensures
        mesh.wf(),
        mesh.triangle_count() == triangles.len() / 3,
        mesh.indices.len() == 3 * mesh.triangle_count(),
        forall|i: int|
            0 <= i < mesh.indices.len() ==> (#[trigger] mesh.indices[i]) < mesh.vertices.len(),
        mesh.normals.len() == mesh.vertices.len(),
{
    assert forall|i: int| 0 <= i < mesh.indices.len() implies (#[trigger] mesh.indices[i])
        < mesh.vertices.len() by {
        assert(mesh.indices[i] == triangles[i]);
    }
}

/// The opposite of a vector.
pub open spec fn opposite(f: (int, int, int)) -> (int, int, int) {
    (-f.0, -f.1, -f.2)
}

/// The triangle list with the winding of every triangle reversed: the
/// second and the third corner of each change places.
pub open spec fn reversed_winding(triangles: Seq<usize>) -> Seq<usize> {
    Seq::new(
        triangles.len(),
        |i: int|
            if i % 3 == 1 {
                triangles[i + 1]
            } else if i % 3 == 2 {
                triangles[i - 1]
            } else {
                triangles[i]
            },
    )
}

/// The normal of every vertex has a length between `UNIT_ONE - 2` and
/// `UNIT_ONE`.
pub proof fn lemma_vertex_normal_length(vertices: Seq<Point3>, triangles: Seq<usize>, v: int)
    ensures
        (UNIT_ONE - 2) * (UNIT_ONE - 2) <= norm_squared(vertex_normal(vertices, triangles, v))
            <= UNIT_ONE * UNIT_ONE,
{
    let sum = accumulated_normal(vertices, triangles, (triangles.len() / 3) as nat, v);
    if sum != (0int, 0int, 0int) {
        lemma_unit_length(sum);
    }
}

/// A triangle taken with the other winding has the opposite face normal.
pub proof fn lemma_reversed_face(a: Point3, b: Point3, c: Point3)
    ensures
        face_normal(a, c, b) == opposite(face_normal(a, b, c)),
{
    let u = edge(a, b);
    let w = edge(a, c);
    assert(cross(w, u) == opposite(cross(u, w))) by (nonlinear_arith)
        requires
            cross(w, u) == (w.1 * u.2 - w.2 * u.1, w.2 * u.0 - w.0 * u.2, w.0 * u.1 - w.1 * u.0),
            cross(u, w) == (u.1 * w.2 - u.2 * w.1, u.2 * w.0 - u.0 * w.2, u.0 * w.1 - u.1 * w.0),
            opposite(cross(u, w)) == (-cross(u, w).0, -cross(u, w).1, -cross(u, w).2),
    ;
    lemma_unit_of_opposite(cross(u, w));
}

/// Adding the opposite normal at the corners of a triangle taken in the
/// other order gives the opposite sum.
proof fn lemma_opposite_step(
    before: (int, int, int),
    f: (int, int, int),
    c0: usize,
    c1: usize,
    c2: usize,
    v: int,
)
    ensures
        plus(
            plus(
                plus(opposite(before), at_corner(c0, v, opposite(f))),
                at_corner(c2, v, opposite(f)),
            ),
            at_corner(c1, v, opposite(f)),
        ) == opposite(
            plus(plus(plus(before, at_corner(c0, v, f)), at_corner(c1, v, f)), at_corner(c2, v, f)),
        ),
{
}

/// With the winding of every triangle reversed, the sum of face normals
/// at every vertex is the opposite.
pub proof fn lemma_reversed_sum(vertices: Seq<Point3>, triangles: Seq<usize>, k: nat, v: int)
    requires
        3 * k <= triangles.len(),
    ensures
        accumulated_normal(vertices, reversed_winding(triangles), k, v) == opposite(
            accumulated_normal(vertices, triangles, k, v),
        ),
    decreases k,
{
    if k > 0 {
        let t = (k - 1) as int;
        let reversed = reversed_winding(triangles);
        let c0 = triangles[3 * t];
        let c1 = triangles[3 * t + 1];
        let c2 = triangles[3 * t + 2];
        let f = triangle_normal(vertices, triangles, t);
        let g = triangle_normal(vertices, reversed, t);
        let before = accumulated_normal(vertices, triangles, t as nat, v);
        let before_reversed = accumulated_normal(vertices, reversed, t as nat, v);
        assert(before_reversed == opposite(before)) by {
            lemma_reversed_sum(vertices, triangles, (k - 1) as nat, v);
        }
        assert(reversed[3 * t] == c0 && reversed[3 * t + 1] == c2 && reversed[3 * t + 2] == c1);
        assert(g == opposite(f)) by {
            lemma_reversed_face(vertices[c0 as int], vertices[c1 as int], vertices[c2 as int]);
        }
        assert(accumulated_normal(vertices, reversed, k, v) == plus(
            plus(plus(before_reversed, at_corner(c0, v, g)), at_corner(c2, v, g)),
            at_corner(c1, v, g),
        ));
        assert(accumulated_normal(vertices, triangles, k, v) == plus(
            plus(plus(before, at_corner(c0, v, f)), at_corner(c1, v, f)),
            at_corner(c2, v, f),
        ));
        lemma_opposite_step(before, f, c0, c1, c2, v);
    }
}

/// With the winding of every triangle reversed, the normal of a vertex at
/// which the face normals do not cancel is the opposite.
pub proof fn lemma_reversed_normal(vertices: Seq<Point3>, triangles: Seq<usize>, v: int)
    requires
        triangles.len() % 3 == 0,
        accumulated_normal(vertices, triangles, (triangles.len() / 3) as nat, v) != (
            0int,
            0int,
            0int,
        ),
    ensures
        vertex_normal(vertices, reversed_winding(triangles), v) == opposite(
            vertex_normal(vertices, triangles, v),
        ),
{
    let k = (triangles.len() / 3) as nat;
    lemma_reversed_sum(vertices, triangles, k, v);
    lemma_unit_of_opposite(accumulated_normal(vertices, triangles, k, v));
}

} // verus!
