use geomesh::batch::{combine_meshes, CombinedMesh, MeshPart, Rgba};
use geomesh::point::Point3;
use geomesh::surface::{SurfaceMesh, Uv};
use geomesh::vector::Vector3;

fn p(x: i64, y: i64, z: i64) -> Point3 {
    Point3 { x, y, z }
}

fn up() -> Vector3 {
    Vector3 { x: 0, y: 1_000_000, z: 0 }
}

fn triangle(at: i64) -> SurfaceMesh {
    SurfaceMesh {
        vertices: vec![p(at, 0, 0), p(at + 1, 0, 0), p(at, 0, 1)],
        normals: vec![up(), Vector3 { x: 1, y: 2, z: 3 }, up()],
        uvs: vec![Uv { u: 0, v: 0 }; 3],
        indices: vec![0, 2, 1],
    }
}

fn quad() -> SurfaceMesh {
    SurfaceMesh {
        vertices: vec![p(0, 0, 0), p(1, 0, 0), p(1, 0, 1), p(0, 0, 1)],
        normals: vec![up(); 4],
        uvs: vec![Uv { u: 0, v: 0 }; 4],
        indices: vec![0, 2, 1, 0, 3, 2],
    }
}

const RED: Rgba = Rgba { r: 255, g: 0, b: 0, a: 255 };
const BLUE: Rgba = Rgba { r: 0, g: 0, b: 255, a: 255 };

#[test]
fn combine_nothing_gives_empty_mesh() {
    let combined: CombinedMesh = combine_meshes(&Vec::new());
    assert!(combined.mesh.vertices.is_empty());
    assert!(combined.mesh.normals.is_empty());
    assert!(combined.mesh.indices.is_empty());
    assert!(combined.colors.is_empty());
}

#[test]
fn combine_one_part_moves_it() {
    let part = MeshPart { mesh: triangle(10), transform: p(100, 200, 300), colors: vec![RED; 3] };
    let combined = combine_meshes(&vec![part]);
    assert_eq!(combined.mesh.vertices, vec![p(110, 200, 300), p(111, 200, 300), p(110, 200, 301)]);
    assert_eq!(combined.mesh.indices, vec![0u32, 2, 1]);
    assert_eq!(combined.colors, vec![RED; 3]);
}

#[test]
fn combine_counts_are_sums() {
    let parts = vec![
        MeshPart { mesh: triangle(0), transform: p(0, 0, 0), colors: vec![RED; 3] },
        MeshPart { mesh: quad(), transform: p(5, 5, 5), colors: vec![BLUE; 4] },
        MeshPart { mesh: triangle(7), transform: p(-1, -1, -1), colors: vec![RED; 3] },
    ];
    let combined = combine_meshes(&parts);
    assert_eq!(combined.mesh.vertices.len(), 3 + 4 + 3);
    assert_eq!(combined.mesh.indices.len(), 3 + 6 + 3);
    assert_eq!(combined.mesh.normals.len(), 10);
    assert_eq!(combined.mesh.uvs.len(), 10);
    assert_eq!(combined.colors.len(), 10);
}

#[test]
fn combine_offsets_indices_by_vertices_before() {
    let parts = vec![
        MeshPart { mesh: triangle(0), transform: p(0, 0, 0), colors: vec![RED; 3] },
        MeshPart { mesh: quad(), transform: p(5, 5, 5), colors: vec![BLUE; 4] },
        MeshPart { mesh: triangle(7), transform: p(-1, -1, -1), colors: vec![RED; 3] },
    ];
    let combined = combine_meshes(&parts);
    assert_eq!(combined.mesh.indices, vec![0u32, 2, 1, 3, 5, 4, 3, 6, 5, 7, 9, 8]);
    assert!(combined.mesh.indices.iter().all(|&i| (i as usize) < combined.mesh.vertices.len()));
}

#[test]
fn combine_places_each_part_by_its_own_shift() {
    let parts = vec![
        MeshPart { mesh: triangle(0), transform: p(10, 0, 0), colors: vec![RED; 3] },
        MeshPart { mesh: triangle(0), transform: p(0, 20, 0), colors: vec![BLUE; 3] },
    ];
    let combined = combine_meshes(&parts);
    assert_eq!(
        combined.mesh.vertices,
        vec![p(10, 0, 0), p(11, 0, 0), p(10, 0, 1), p(0, 20, 0), p(1, 20, 0), p(0, 20, 1)]
    );
}

#[test]
fn combine_carries_normals_and_colors_verbatim() {
    let parts = vec![
        MeshPart { mesh: triangle(0), transform: p(10, 0, 0), colors: vec![RED, BLUE, RED] },
        MeshPart { mesh: quad(), transform: p(0, 20, 0), colors: vec![BLUE; 4] },
    ];
    let combined = combine_meshes(&parts);
    assert_eq!(
        combined.mesh.normals,
        vec![up(), Vector3 { x: 1, y: 2, z: 3 }, up(), up(), up(), up(), up()]
    );
    assert_eq!(combined.colors, vec![RED, BLUE, RED, BLUE, BLUE, BLUE, BLUE]);
}

#[test]
fn combine_keeps_empty_part() {
    let empty = SurfaceMesh { vertices: vec![], normals: vec![], uvs: vec![], indices: vec![] };
    let parts = vec![
        MeshPart { mesh: empty, transform: p(1, 1, 1), colors: vec![] },
        MeshPart { mesh: triangle(0), transform: p(0, 0, 0), colors: vec![RED; 3] },
    ];
    let combined = combine_meshes(&parts);
    assert_eq!(combined.mesh.vertices.len(), 3);
    assert_eq!(combined.mesh.indices, vec![0u32, 2, 1]);
}
