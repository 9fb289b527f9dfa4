use geomesh::error::EngineError;
use geomesh::point::Point3;
use geomesh::root::isqrt;
use geomesh::point::all_within;
use geomesh::surface::{
    calculate_normals, is_collinear, is_valid_triangle_list, surface_from_triangles, SurfaceMesh,
    Uv,
};
use geomesh::topography::{find_too_far, fits_local_frame, TopographyMesh};
use geomesh::vector::{cross_product, div_toward_zero, edge_cross, unit_vector, Vector3};
use geomesh::files::CsvFile;
use geomesh::point::Offset;
use geomesh::tabular::Table;

fn p(x: i64, y: i64, z: i64) -> Point3 {
    Point3 { x, y, z }
}

fn v(x: i64, y: i64, z: i64) -> Vector3 {
    Vector3 { x, y, z }
}

fn assert_well_formed(mesh: &SurfaceMesh) {
    assert_eq!(mesh.indices.len() % 3, 0);
    assert!(mesh.indices.iter().all(|&i| (i as usize) < mesh.vertices.len()));
    assert_eq!(mesh.normals.len(), mesh.vertices.len());
    assert_eq!(mesh.uvs.len(), mesh.vertices.len());
}

#[test]
fn isqrt_of_small_numbers() {
    assert_eq!(isqrt(0), 0);
    assert_eq!(isqrt(1), 1);
    assert_eq!(isqrt(2), 1);
    assert_eq!(isqrt(3), 1);
    assert_eq!(isqrt(4), 2);
    assert_eq!(isqrt(15), 3);
    assert_eq!(isqrt(16), 4);
    assert_eq!(isqrt(17), 4);
    assert_eq!(isqrt(1_000_000), 1000);
    assert_eq!(isqrt(999_999), 999);
}

#[test]
fn isqrt_of_largest_number() {
    assert_eq!(isqrt(u128::MAX), 0xFFFF_FFFF_FFFF_FFFF);
    assert_eq!(isqrt(1u128 << 126), 1u128 << 63);
}

#[test]
fn div_toward_zero_rounds_toward_zero() {
    assert_eq!(div_toward_zero(7, 2), 3);
    assert_eq!(div_toward_zero(-7, 2), -3);
    assert_eq!(div_toward_zero(6, 3), 2);
    assert_eq!(div_toward_zero(-1, 1000), 0);
    assert_eq!(div_toward_zero(0, 5), 0);
}

#[test]
fn cross_product_of_axes() {
    assert_eq!(cross_product((1, 0, 0), (0, 1, 0)), (0, 0, 1));
    assert_eq!(cross_product((0, 1, 0), (1, 0, 0)), (0, 0, -1));
    assert_eq!(cross_product((2, 3, 4), (5, 6, 7)), (-3, 6, -3));
}

#[test]
fn edge_cross_uses_first_point_as_corner() {
    let a = p(1, 1, 1);
    let b = p(2, 1, 1);
    let c = p(1, 2, 1);
    assert_eq!(edge_cross(&a, &b, &c), (0, 0, 1));
    assert_eq!(edge_cross(&a, &c, &b), (0, 0, -1));
}

#[test]
fn unit_vector_has_unit_length_along_axes() {
    assert_eq!(unit_vector((0, 0, 5)), v(0, 0, 1_000_000));
    assert_eq!(unit_vector((-7, 0, 0)), v(-1_000_000, 0, 0));
    assert_eq!(unit_vector((0, 0, 0)), v(0, 0, 0));
}

#[test]
fn unit_vector_of_three_four_five() {
    assert_eq!(unit_vector((3000, 4000, 0)), v(600_000, 800_000, 0));
    assert_eq!(unit_vector((-3000, 0, -4000)), v(-600_000, 0, -800_000));
}

#[test]
fn unit_vector_of_short_vectors_has_unit_length() {
    // 1 / sqrt 3 = 0.5773502..., 1 / sqrt 2 = 0.7071067...
    assert_eq!(unit_vector((1, 1, 1)), v(577_350, 577_350, 577_350));
    assert_eq!(unit_vector((1, 1, 0)), v(707_106, 707_106, 0));
    assert_eq!(unit_vector((0, -1, 1)), v(0, -707_106, 707_106));
    assert_eq!(unit_vector((1_000_000, 1_000_000, 0)), v(707_106, 707_106, 0));
    // 2 / 3, 1 / 3 and 2 / 3 of the unit
    assert_eq!(unit_vector((2, -1, 2)), v(666_666, -333_333, 666_666));
}

fn squared_length(n: Vector3) -> i128 {
    let (x, y, z) = (n.x as i128, n.y as i128, n.z as i128);
    x * x + y * y + z * z
}

#[test]
fn unit_vector_length_is_within_two_of_the_unit() {
    let m: i128 = 9_223_372_036_854_775_808;
    let samples: Vec<(i128, i128, i128)> = vec![
        (1, 0, 0),
        (1, 1, 1),
        (1, 2, 3),
        (-5, 7, 11),
        (1_073_741_823, 1, 1),
        (1_073_741_824, 1, 1),
        (1_073_741_823, 1_073_741_823, 1_073_741_823),
        (123_456_789_012, -987_654_321, 5),
        (m, m, m),
        (-m, 1, m),
        (m, 0, 0),
        (3, 2_000_000, 0),
    ];
    for s in samples {
        let n = squared_length(unit_vector(s));
        assert!(n <= 1_000_000i128 * 1_000_000, "{s:?}");
        assert!(n >= 999_998i128 * 999_998, "{s:?}");
    }
}

#[test]
fn unit_vector_of_opposite_is_opposite() {
    let u = unit_vector((3, -2_000_000, 17));
    let o = unit_vector((-3, 2_000_000, -17));
    assert_eq!((o.x, o.y, o.z), (-u.x, -u.y, -u.z));
}

#[test]
fn triangle_list_must_be_whole_and_in_range() {
    assert!(is_valid_triangle_list(&vec![0, 1, 2], 3));
    assert!(is_valid_triangle_list(&vec![0, 1, 2, 2, 1, 3], 4));
    assert!(!is_valid_triangle_list(&vec![], 3));
    assert!(!is_valid_triangle_list(&vec![0, 1], 3));
    assert!(!is_valid_triangle_list(&vec![0, 1, 3], 3));
    assert!(!is_valid_triangle_list(&vec![0, 1, 2, 0], 3));
}

#[test]
fn surface_of_one_triangle() {
    // in plan view the triangle runs clockwise, so its normal points up
    let points = vec![p(0, 0, 0), p(0, 1000, 0), p(1000, 0, 0)];
    let mesh = surface_from_triangles(&points, &vec![0, 1, 2]).unwrap();
    assert_well_formed(&mesh);
    assert_eq!(mesh.vertices, vec![p(0, 0, 0), p(0, 0, 1000), p(1000, 0, 0)]);
    assert_eq!(mesh.indices, vec![0u32, 1, 2]);
    assert_eq!(mesh.normals, vec![v(0, 1_000_000, 0); 3]);
    assert_eq!(mesh.uvs, vec![Uv { u: 0, v: 0 }; 3]);
}

#[test]
fn surface_normal_follows_winding() {
    let points = vec![p(0, 0, 0), p(1000, 0, 0), p(0, 1000, 0)];
    let mesh = surface_from_triangles(&points, &vec![0, 1, 2]).unwrap();
    assert_eq!(mesh.normals, vec![v(0, -1_000_000, 0); 3]);
}

#[test]
fn surface_swaps_elevation_to_second_axis() {
    let points = vec![p(1, 2, 3), p(4, 5, 6), p(7, 8, 10)];
    let mesh = surface_from_triangles(&points, &vec![0, 1, 2]).unwrap();
    assert_eq!(mesh.vertices, vec![p(1, 3, 2), p(4, 6, 5), p(7, 10, 8)]);
}

#[test]
fn surface_refuses_too_few_points() {
    let points = vec![p(0, 0, 0), p(1, 1, 1)];
    assert_eq!(
        surface_from_triangles(&points, &vec![0, 1, 1]).unwrap_err(),
        EngineError::DegenerateInput
    );
}

#[test]
fn surface_refuses_empty_triangulation() {
    let points = vec![p(0, 0, 0), p(1, 0, 0), p(2, 0, 0)];
    assert_eq!(
        surface_from_triangles(&points, &vec![]).unwrap_err(),
        EngineError::DegenerateInput
    );
}

#[test]
fn surface_refuses_index_out_of_range() {
    let points = vec![p(0, 0, 0), p(1, 0, 0), p(0, 1, 0)];
    assert_eq!(
        surface_from_triangles(&points, &vec![0, 1, 3]).unwrap_err(),
        EngineError::DegenerateInput
    );
    assert_eq!(
        surface_from_triangles(&points, &vec![0, 1]).unwrap_err(),
        EngineError::DegenerateInput
    );
}

#[test]
fn vertex_without_triangle_gets_upward_normal() {
    let points = vec![p(0, 0, 0), p(0, 1000, 0), p(1000, 0, 0), p(5000, 5000, 0)];
    let mesh = surface_from_triangles(&points, &vec![0, 1, 2]).unwrap();
    assert_well_formed(&mesh);
    assert_eq!(mesh.normals[3], v(0, 1_000_000, 0));
}

#[test]
fn triangle_without_area_does_not_spoil_normals() {
    // the second triangle has its three corners on one line
    let points = vec![p(0, 0, 0), p(0, 1000, 0), p(1000, 0, 0), p(2000, 0, 0), p(3000, 0, 0)];
    let mesh = surface_from_triangles(&points, &vec![0, 1, 2, 2, 3, 4]).unwrap();
    assert_well_formed(&mesh);
    assert_eq!(mesh.normals[0], v(0, 1_000_000, 0));
    assert_eq!(mesh.normals[2], v(0, 1_000_000, 0));
    assert_eq!(mesh.normals[3], v(0, 1_000_000, 0));
    assert_eq!(mesh.normals[4], v(0, 1_000_000, 0));
}

#[test]
fn opposite_faces_cancel_to_upward_normal() {
    let points = vec![p(0, 0, 0), p(0, 1000, 0), p(1000, 0, 0)];
    let mesh = surface_from_triangles(&points, &vec![0, 1, 2, 0, 2, 1]).unwrap();
    assert_eq!(mesh.normals, vec![v(0, 1_000_000, 0); 3]);
}

#[test]
fn normals_average_two_faces() {
    // a roof: two faces that meet along the edge 0-1
    let vertices = vec![p(0, 1000, 0), p(0, 1000, 1000), p(1000, 0, 0), p(-1000, 0, 0)];
    let normals = calculate_normals(&vertices, &vec![0, 1, 2, 1, 0, 3]);
    assert_eq!(normals.len(), 4);
    // face 0-1-2: (1, 1, 0) / sqrt 2; face 1-0-3: (-1, 1, 0) / sqrt 2
    assert_eq!(normals[2], v(707_106, 707_106, 0));
    assert_eq!(normals[3], v(-707_106, 707_106, 0));
    assert_eq!(normals[0], v(0, 1_000_000, 0));
    assert_eq!(normals[1], v(0, 1_000_000, 0));
}

#[test]
fn end_to_end_square_topography() {
    let cloud = vec![p(0, 0, 5000), p(1000, 0, 5000), p(0, 1000, 5000), p(1000, 1000, 5000)];
    let (mesh, topography) = TopographyMesh::from_points(cloud).unwrap();
    assert_well_formed(&mesh);
    assert_eq!(topography, TopographyMesh { offset_x: 0, offset_y: 0, offset_z: 5000 });
    assert_eq!(topography.offset(), Offset { dx: 0, dy: 0, dz: 5000 });
    assert_eq!(mesh.indices.len(), 6);
    assert_eq!(mesh.vertices.len(), 4);
    // after the offset every elevation is zero
    assert!(mesh.vertices.iter().all(|q| q.y == 0));
    assert_eq!(mesh.vertices, vec![p(0, 0, 0), p(1000, 0, 0), p(0, 0, 1000), p(1000, 0, 1000)]);
    assert_eq!(mesh.normals, vec![v(0, 1_000_000, 0); 4]);
    assert_eq!(mesh.uvs, vec![Uv { u: 0, v: 0 }; 4]);
}

#[test]
fn topography_keeps_offset_of_far_cloud() {
    let cloud = vec![
        p(500_000_000, 8_000_000_000, 100_000),
        p(500_010_000, 8_000_000_000, 120_000),
        p(500_000_000, 8_000_010_000, 110_000),
    ];
    let (mesh, topography) = TopographyMesh::from_points(cloud).unwrap();
    assert_well_formed(&mesh);
    assert_eq!(
        topography,
        TopographyMesh { offset_x: 500_000_000, offset_y: 8_000_000_000, offset_z: 100_000 }
    );
    assert_eq!(mesh.indices.len(), 3);
    assert_eq!(mesh.vertices, vec![p(0, 0, 0), p(10_000, 20_000, 0), p(0, 10_000, 10_000)]);
}

#[test]
fn topography_of_nothing_is_empty_input() {
    assert_eq!(TopographyMesh::from_points(Vec::new()).unwrap_err(), EngineError::EmptyInput);
}

#[test]
fn topography_of_line_is_degenerate() {
    let cloud = vec![p(0, 0, 0), p(1000, 1000, 5), p(2000, 2000, 7), p(3000, 3000, 1)];
    assert_eq!(TopographyMesh::from_points(cloud).unwrap_err(), EngineError::DegenerateInput);
}

#[test]
fn topography_of_two_points_is_degenerate() {
    let cloud = vec![p(0, 0, 0), p(1000, 1000, 5)];
    assert_eq!(TopographyMesh::from_points(cloud).unwrap_err(), EngineError::DegenerateInput);
}

#[test]
fn create_mesh_counts_triangles() {
    // a square with its centre: four triangles
    let cloud = vec![p(0, 0, 0), p(2000, 0, 0), p(2000, 2000, 0), p(0, 2000, 0), p(1000, 1000, 500)];
    let mesh = TopographyMesh::create_mesh(&cloud).unwrap();
    assert_well_formed(&mesh);
    assert_eq!(mesh.indices.len(), 12);
    assert!(mesh.normals.iter().all(|n| n.y > 0));
}

#[test]
fn find_too_far_names_first_point_and_axis() {
    let origin = Offset { dx: 0, dy: 0, dz: 0 };
    let near = vec![p(0, 0, 0), p(1_073_741_824, 0, 0)];
    assert_eq!(find_too_far(&near, &origin), None);
    let far = vec![p(0, 0, 0), p(5, 1_073_741_825, 0), p(1_073_741_825, 0, 0)];
    assert_eq!(find_too_far(&far, &origin), Some((1, 1)));
}

fn table(rows: &[&[&str]]) -> Table {
    Table {
        rows: rows
            .iter()
            .map(|r| r.iter().map(|f| f.as_bytes().to_vec()).collect())
            .collect(),
    }
}

#[test]
fn topography_from_table_reads_first_three_columns() {
    let t = table(&[
        &["X", "Y", "Z"],
        &["0", "0", "5"],
        &["1", "0", "5"],
        &["0", "1", "5"],
        &["1", "1", "5"],
    ]);
    let (mesh, topography) = TopographyMesh::from_table(&t, true).unwrap();
    assert_well_formed(&mesh);
    assert_eq!(topography, TopographyMesh { offset_x: 0, offset_y: 0, offset_z: 5000 });
    assert_eq!(mesh.indices.len(), 6);
    assert_eq!(mesh.normals, vec![v(0, 1_000_000, 0); 4]);
}

#[test]
fn topography_from_table_reports_bad_field() {
    let t = table(&[&["0", "0", "5"], &["1", "zero", "5"], &["0", "1", "5"]]);
    assert_eq!(
        TopographyMesh::from_table(&t, false).unwrap_err(),
        EngineError::FieldParse { row: 1, column: 1 }
    );
}

#[test]
fn topography_from_table_reports_short_record() {
    let t = table(&[&["x", "y", "z"], &["0", "0", "5"], &["1", "2"]]);
    assert_eq!(
        TopographyMesh::from_table(&t, true).unwrap_err(),
        EngineError::FieldParse { row: 1, column: 2 }
    );
}

#[test]
fn topography_from_table_without_records_is_empty_input() {
    let t = table(&[&["x", "y", "z"]]);
    assert_eq!(TopographyMesh::from_table(&t, true).unwrap_err(), EngineError::EmptyInput);
    let none = table(&[]);
    assert_eq!(TopographyMesh::from_table(&none, false).unwrap_err(), EngineError::EmptyInput);
}

#[test]
fn topography_from_table_reports_point_too_far() {
    let t = table(&[&["0", "0", "0"], &["1", "1", "0"], &["2", "1073741.825", "0"]]);
    assert_eq!(
        TopographyMesh::from_table(&t, false).unwrap_err(),
        EngineError::FieldParse { row: 2, column: 1 }
    );
}

#[test]
fn topography_from_csv_text() {
    let text = b"x;y;z\n0;0;5\n1;0;5\n0;1;5\n1;1;5\n".to_vec();
    let csv = CsvFile { path: String::from("topo.csv"), header: true, sep: b';' };
    let (mesh, topography) = TopographyMesh::from_csv(&text, &csv).unwrap();
    assert_well_formed(&mesh);
    assert_eq!(topography, TopographyMesh { offset_x: 0, offset_y: 0, offset_z: 5000 });
    assert_eq!(mesh.vertices.len(), 4);
    assert_eq!(mesh.indices.len(), 6);
}

#[test]
fn collinear_points_are_recognised() {
    assert!(is_collinear(&vec![]));
    assert!(is_collinear(&vec![p(1, 1, 1)]));
    assert!(is_collinear(&vec![p(1, 1, 1), p(5, 9, 0)]));
    assert!(is_collinear(&vec![p(0, 0, 0), p(1000, 2000, 5), p(-3000, -6000, 9)]));
    assert!(is_collinear(&vec![p(7, 7, 0), p(7, 7, 1), p(7, 7, 2)]));
    assert!(is_collinear(&vec![p(7, 7, 0), p(7, 7, 1), p(8, 9, 2), p(9, 11, 2)]));
    assert!(is_collinear(&vec![p(0, 5, 0), p(10, 5, 1), p(-4, 5, 2)]));
}

#[test]
fn points_off_the_line_are_not_collinear() {
    assert!(!is_collinear(&vec![p(0, 0, 0), p(1, 0, 0), p(0, 1, 0)]));
    assert!(!is_collinear(&vec![p(0, 0, 0), p(1000, 2000, 0), p(2000, 4001, 0)]));
    assert!(!is_collinear(&vec![p(7, 7, 0), p(7, 7, 1), p(8, 9, 2), p(9, 12, 2)]));
    // elevation does not count
    assert!(is_collinear(&vec![p(0, 0, 0), p(1, 1, 50), p(2, 2, -50)]));
}

#[test]
fn collinear_at_the_limits() {
    let m = 1_073_741_824;
    assert!(is_collinear(&vec![p(-m, -m, 0), p(0, 0, 0), p(m, m, 0)]));
    assert!(!is_collinear(&vec![p(-m, -m, 0), p(m, m, 0), p(m, m - 1, 0)]));
    assert!(!is_collinear(&vec![p(-m, m, 0), p(m, -m, 0), p(m, m, 0)]));
}

#[test]
fn all_within_holds_to_the_limit() {
    assert!(all_within(&vec![p(5, -5, 0), p(-5, 5, 5)], 5));
    assert!(!all_within(&vec![p(5, -5, 0), p(-6, 5, 5)], 5));
    assert!(!all_within(&vec![p(0, 0, 6)], 5));
    assert!(all_within(&vec![], 0));
    assert!(all_within(&vec![p(i64::MAX, i64::MIN + 1, 0)], i64::MAX));
    assert!(!all_within(&vec![p(i64::MIN, 0, 0)], i64::MAX));
}

#[test]
fn fits_local_frame_wants_small_span() {
    let m = 1_073_741_824;
    assert!(fits_local_frame(&vec![]));
    assert!(fits_local_frame(&vec![p(8_000_000_000, 0, 0), p(8_000_000_000 + m, m, -m)]));
    assert!(!fits_local_frame(&vec![p(8_000_000_000, 0, 1), p(8_000_000_000 + m, m, -m)]));
    assert!(!fits_local_frame(&vec![p(8_000_000_000, 0, 0), p(8_000_000_001 + m, m, 0)]));
    assert!(!fits_local_frame(&vec![p(0, 0, 0), p(0, 0, m + 1)]));
    assert!(!fits_local_frame(&vec![p(1_152_921_504_606_846_977, 0, 0)]));
    assert!(fits_local_frame(&vec![p(1_152_921_504_606_846_976, 0, 0)]));
}

#[test]
fn normal_of_nearly_cancelling_faces_has_unit_length() {
    // the two faces at vertex 0 have the normals (1000000, 0, 0) and
    // (-999999, 1, 1): their sum is short, and the normal is still a unit
    let vertices =
        vec![p(0, 0, 0), p(0, 1000, 0), p(0, 0, 1000), p(3, 2_000_000, 0), p(0, 1, -1)];
    let normals = calculate_normals(&vertices, &vec![0, 1, 2, 0, 3, 4]);
    assert_eq!(normals[1], v(1_000_000, 0, 0));
    assert_eq!(normals[3], v(-999_999, 1, 1));
    assert_eq!(normals[0], v(577_350, 577_350, 577_350));
    for n in &normals {
        let len = squared_length(*n);
        assert!(len <= 1_000_000i128 * 1_000_000 && len >= 999_998i128 * 999_998);
    }
}

#[test]
fn reversed_winding_gives_opposite_normals() {
    let vertices = vec![p(0, 1000, 0), p(0, 1000, 1000), p(1000, 0, 0), p(-1000, 0, 300)];
    let normals = calculate_normals(&vertices, &vec![0, 1, 2, 1, 0, 3]);
    let reversed = calculate_normals(&vertices, &vec![0, 2, 1, 1, 3, 0]);
    for (n, r) in normals.iter().zip(reversed.iter()) {
        assert_eq!((r.x, r.y, r.z), (-n.x, -n.y, -n.z));
    }
}
