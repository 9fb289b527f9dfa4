use vstd::prelude::*;
use crate::point::{all_bounded, Point3, WORLD_LIMIT};
use crate::surface::{SurfaceMesh, Uv};
use crate::vector::Vector3;

verus! {

/// A colour with 8-bit channels.
#[derive(Clone, Copy, Debug, PartialEq, Eq, Structural)]
pub struct Rgba {
    pub r: u8,
    pub g: u8,
    pub b: u8,
    pub a: u8,
}

/// One mesh to be merged: its geometry in its own frame, the shift
/// that places it in the shared frame, and one colour for every vertex.
#[derive(Clone, Debug)]
pub struct MeshPart {
    pub mesh: SurfaceMesh,
    pub transform: Point3,
    pub colors: Vec<Rgba>,
}

/// Many meshes merged into one, with one colour for every vertex.
#[derive(Clone, Debug)]
pub struct CombinedMesh {
    pub mesh: SurfaceMesh,
    pub colors: Vec<Rgba>,
}

impl MeshPart {
    /// The mesh is well formed, every vertex has its colour, and the
    /// vertices can be moved without leaving 64 bits.
    pub open spec fn wf(&self) -> bool {
        &&& self.mesh.wf()
        &&& self.colors.len() == self.mesh.vertices.len()
        &&& all_bounded(self.mesh.vertices@, WORLD_LIMIT as int)
        &&& self.transform.bounded(3 * WORLD_LIMIT)
    }

    /// The vertices placed in the shared frame.
    pub open spec fn placed_vertices(&self) -> Seq<Point3> {
        Seq::new(
            self.mesh.vertices.len() as nat,
            |i: int| moved(self.mesh.vertices[i], self.transform),
        )
    }

    /// The indices as they read when `base` vertices precede this mesh.
    pub open spec fn shifted_indices(&self, base: int) -> Seq<u32> {
        Seq::new(self.mesh.indices.len() as nat, |j: int| (self.mesh.indices[j] + base) as u32)
    }
}

impl CombinedMesh {
    /// The mesh is well formed and every vertex has its colour.
    pub open spec fn wf(&self) -> bool {
        &&& self.mesh.wf()
        &&& self.colors.len() == self.mesh.vertices.len()
    }
}

/// The point `p` moved by `t`.
pub open spec fn moved(p: Point3, t: Point3) -> Point3 {
    Point3 { x: (p.x + t.x) as i64, y: (p.y + t.y) as i64, z: (p.z + t.z) as i64 }
}

/// Every part is well formed.
pub open spec fn all_parts_wf(parts: Seq<MeshPart>) -> bool {
    forall|k: int| 0 <= k < parts.len() ==> (#[trigger] parts[k]).wf()
}

/// The number of vertices of the first `k` parts together.
pub open spec fn vertex_total(parts: Seq<MeshPart>, k: int) -> int
    decreases k,
{
    if k <= 0 {
        0
    } else {
        vertex_total(parts, k - 1) + parts[k - 1].mesh.vertices.len()
    }
}

/// The number of indices of the first `k` parts together.
pub open spec fn index_total(parts: Seq<MeshPart>, k: int) -> int
    decreases k,
{
    if k <= 0 {
        0
    } else {
        index_total(parts, k - 1) + parts[k - 1].mesh.indices.len()
    }
}

/// The vertices of the first `k` parts, each part placed by its
/// shift, one part after the other.
pub open spec fn combined_vertices(parts: Seq<MeshPart>, k: int) -> Seq<Point3>
    decreases k,
{
    if k <= 0 {
        Seq::empty()
    } else {
        combined_vertices(parts, k - 1) + parts[k - 1].placed_vertices()
    }
}

/// The normals of the first `k` parts as they are, one part after the other.
pub open spec fn combined_normals(parts: Seq<MeshPart>, k: int) -> Seq<Vector3>
    decreases k,
{
    if k <= 0 {
        Seq::empty()
    } else {
        combined_normals(parts, k - 1) + parts[k - 1].mesh.normals@
    }
}

/// The texture coordinates of the first `k` parts, one part after the other.
pub open spec fn combined_uvs(parts: Seq<MeshPart>, k: int) -> Seq<Uv>
    decreases k,
{
    if k <= 0 {
        Seq::empty()
    } else {
        combined_uvs(parts, k - 1) + parts[k - 1].mesh.uvs@
    }
}

/// The colours of the first `k` parts as they are, one part after the other.
pub open spec fn combined_colors(parts: Seq<MeshPart>, k: int) -> Seq<Rgba>
    decreases k,
{
    if k <= 0 {
        Seq::empty()
    } else {
        combined_colors(parts, k - 1) + parts[k - 1].colors@
    }
}

/// The indices of the first `k` parts, those of each part raised by the
/// number of vertices that precede it.
pub open spec fn combined_indices(parts: Seq<MeshPart>, k: int) -> Seq<u32>
    decreases k,
{
    if k <= 0 {
        Seq::empty()
    } else {
        combined_indices(parts, k - 1) + parts[k - 1].shifted_indices(
            vertex_total(parts, k - 1),
        )
    }
}

/// The merged mesh has as many vertices, normals, texture coordinates and
/// colours as its parts have vertices together, and as many indices as
/// they have indices together.
pub proof fn lemma_combined_counts(parts: Seq<MeshPart>, k: int)
    requires
        0 <= k <= parts.len(),
        all_parts_wf(parts),
    ensures
        combined_vertices(parts, k).len() == vertex_total(parts, k),
        combined_normals(parts, k).len() == vertex_total(parts, k),
        combined_uvs(parts, k).len() == vertex_total(parts, k),
        combined_colors(parts, k).len() == vertex_total(parts, k),
        combined_indices(parts, k).len() == index_total(parts, k),
        0 <= vertex_total(parts, k),
        0 <= index_total(parts, k),
    decreases k,
{
    if k > 0 {
        lemma_combined_counts(parts, k - 1);
        assert(parts[k - 1].wf());
    }
}

/// The totals grow with the number of parts counted.
pub proof fn lemma_totals_monotonic(parts: Seq<MeshPart>, j: int, k: int)
    requires
        0 <= j <= k <= parts.len(),
    ensures
        vertex_total(parts, j) <= vertex_total(parts, k),
        index_total(parts, j) <= index_total(parts, k),
    decreases k - j,
{
    if j < k {
        lemma_totals_monotonic(parts, j, k - 1);
    }
}

/// Merging keeps every triangle on the vertices of its own part: in the
/// merged mesh the indices are whole triangles and each names a vertex,
/// provided the vertex total fits the 32-bit indices.
pub proof fn lemma_combined_indices_valid(parts: Seq<MeshPart>, k: int)
    requires
        0 <= k <= parts.len(),
        all_parts_wf(parts),
        vertex_total(parts, k) <= u32::MAX,
    ensures
        combined_indices(parts, k).len() % 3 == 0,
        forall|j: int|
            0 <= j < combined_indices(parts, k).len() ==> (#[trigger] combined_indices(
                parts,
                k,
            )[j]) < vertex_total(parts, k),
    decreases k,
{
    if k > 0 {
        let part = parts[k - 1];
        assert(part.wf());
        lemma_totals_monotonic(parts, k - 1, k);
        lemma_combined_indices_valid(parts, k - 1);
        lemma_combined_counts(parts, k - 1);
        let base = vertex_total(parts, k - 1);
        let before = combined_indices(parts, k - 1);
        let all = combined_indices(parts, k);
        assert forall|j: int| 0 <= j < all.len() implies (#[trigger] all[j]) < vertex_total(
            parts,
            k,
        ) by {
            if j >= before.len() {
                let local = j - before.len();
                assert(all[j] == part.shifted_indices(base)[local]);
                assert(part.mesh.indices[local] < part.mesh.vertices.len());
            } else {
                assert(all[j] == before[j]);
            }
        }
    }
}

/// Appends one part to the mesh that is being merged.
fn append_part(out: &mut CombinedMesh, part: &MeshPart)
    requires
        part.wf(),
        old(out).mesh.vertices.len() + part.mesh.vertices.len() <= u32::MAX,
    ensures
        final(out).mesh.vertices@ == old(out).mesh.vertices@ + part.placed_vertices(),
        final(out).mesh.normals@ == old(out).mesh.normals@ + part.mesh.normals@,
        final(out).mesh.uvs@ == old(out).mesh.uvs@ + part.mesh.uvs@,
        final(out).colors@ == old(out).colors@ + part.colors@,
        final(out).mesh.indices@ == old(out).mesh.indices@ + part.shifted_indices(
            old(out).mesh.vertices.len() as int,
        ),
{
    let base: usize = out.mesh.vertices.len();
    let n = part.mesh.vertices.len();
    let mut i: usize = 0;
    while i < n
        invariant
            i <= n,
            n == part.mesh.vertices.len(),
            part.wf(),
            out.mesh.vertices@ == old(out).mesh.vertices@ + part.placed_vertices().take(i as int),
            out.mesh.normals@ == old(out).mesh.normals@ + part.mesh.normals@.take(i as int),
            out.mesh.uvs@ == old(out).mesh.uvs@ + part.mesh.uvs@.take(i as int),
            out.colors@ == old(out).colors@ + part.colors@.take(i as int),
            out.mesh.indices@ == old(out).mesh.indices@,
        decreases n - i,
    {
        let p = part.mesh.vertices[i];
        let t = part.transform;
        assert(p.bounded(WORLD_LIMIT as int));
        out.mesh.vertices.push(Point3 { x: p.x + t.x, y: p.y + t.y, z: p.z + t.z });
        out.mesh.normals.push(part.mesh.normals[i]);
        out.mesh.uvs.push(part.mesh.uvs[i]);
        out.colors.push(part.colors[i]);
        assert(part.placed_vertices().take(i + 1) =~= part.placed_vertices().take(i as int).push(
            moved(p, t),
        ));
        assert(part.mesh.normals@.take(i + 1) =~= part.mesh.normals@.take(i as int).push(
            part.mesh.normals[i as int],
        ));
        assert(part.mesh.uvs@.take(i + 1) =~= part.mesh.uvs@.take(i as int).push(
            part.mesh.uvs[i as int],
        ));
        assert(part.colors@.take(i + 1) =~= part.colors@.take(i as int).push(part.colors[i as int]));
        i += 1;
    }
    assert(part.placed_vertices().take(n as int) =~= part.placed_vertices());
    assert(part.mesh.normals@.take(n as int) =~= part.mesh.normals@);
    assert(part.mesh.uvs@.take(n as int) =~= part.mesh.uvs@);
    assert(part.colors@.take(n as int) =~= part.colors@);
    let m = part.mesh.indices.len();
    let ghost shifted = part.shifted_indices(base as int);
    let mut j: usize = 0;
    while j < m
        invariant
            j <= m,
            m == part.mesh.indices.len(),
            part.wf(),
            base + part.mesh.vertices.len() <= u32::MAX,
            shifted == part.shifted_indices(base as int),
            out.mesh.vertices@ == old(out).mesh.vertices@ + part.placed_vertices(),
            out.mesh.normals@ == old(out).mesh.normals@ + part.mesh.normals@,
            out.mesh.uvs@ == old(out).mesh.uvs@ + part.mesh.uvs@,
            out.colors@ == old(out).colors@ + part.colors@,
            out.mesh.indices@ == old(out).mesh.indices@ + shifted.take(j as int),
        decreases m - j,
    {
        let index = part.mesh.indices[j];
        assert(index < part.mesh.vertices.len());
        out.mesh.indices.push(index + base as u32);
        assert(shifted.take(j + 1) =~= shifted.take(j as int).push(shifted[j as int]));
        j += 1;
    }
    assert(shifted.take(m as int) =~= shifted);
}

/// Merges many meshes into one: every vertex is moved by the shift
/// of its part, the indices of each part are raised by the number of
/// vertices before it, and normals, texture coordinates and colours are
/// carried over as they are.
pub fn combine_meshes(parts: &Vec<MeshPart>) -> (combined: CombinedMesh)
    requires
        all_parts_wf(parts@),
        vertex_total(parts@, parts.len() as int) <= u32::MAX,
    ensures
        combined.wf(),
        combined.mesh.vertices@ == combined_vertices(parts@, parts.len() as int),
        combined.mesh.normals@ == combined_normals(parts@, parts.len() as int),
        combined.mesh.uvs@ == combined_uvs(parts@, parts.len() as int),
        combined.colors@ == combined_colors(parts@, parts.len() as int),
        combined.mesh.indices@ == combined_indices(parts@, parts.len() as int),
        combined.mesh.vertices.len() == vertex_total(parts@, parts.len() as int),
        combined.mesh.indices.len() == index_total(parts@, parts.len() as int),
{
    let mut combined = CombinedMesh {
        mesh: SurfaceMesh {
            vertices: Vec::new(),
            normals: Vec::new(),
            uvs: Vec::new(),
            indices: Vec::new(),
        },
        colors: Vec::new(),
    };
    let mut k: usize = 0;
    while k < parts.len()
        invariant
            k <= parts.len(),
            all_parts_wf(parts@),
            vertex_total(parts@, parts.len() as int) <= u32::MAX,
            combined.mesh.vertices@ == combined_vertices(parts@, k as int),
            combined.mesh.normals@ == combined_normals(parts@, k as int),
            combined.mesh.uvs@ == combined_uvs(parts@, k as int),
            combined.colors@ == combined_colors(parts@, k as int),
            combined.mesh.indices@ == combined_indices(parts@, k as int),
        decreases parts.len() - k,
    {
        proof {
            lemma_combined_counts(parts@, k as int);
            lemma_totals_monotonic(parts@, k + 1, parts.len() as int);
        }
        append_part(&mut combined, &parts[k]);
        k += 1;
    }
    proof {
        lemma_combined_counts(parts@, parts.len() as int);
        lemma_combined_indices_valid(parts@, parts.len() as int);
    }
    combined
}

} // verus!
