use geomesh::batch::Rgba;
use geomesh::dataset::DrillholeDataset;
use geomesh::drill_holes_mesh::{collect_parts, segment_part, uniform_colors, DrillHolesMesh};
use geomesh::drillhole::{
    find_trajectory, join_trajectories, map_assay_segments, map_interval, same_bytes,
    AssayInterval, HoleCollar, JoinedRow, MappedSegment, SurveyStation,
};
use geomesh::error::EngineError;
use geomesh::files::CsvFile;
use geomesh::grade::GradeColorScale;
use geomesh::point::{Offset, Point3};
use geomesh::prism::generate_triangular_prisma;
use geomesh::surface::Uv;
use geomesh::tables::AssayTable;
use geomesh::trajectory::Segment3D;
use geomesh::vector::Vector3;

fn bytes(text: &str) -> Vec<u8> {
    text.as_bytes().to_vec()
}

fn p(x: i64, y: i64, z: i64) -> Point3 {
    Point3 { x, y, z }
}

fn v(x: i64, y: i64, z: i64) -> Vector3 {
    Vector3 { x, y, z }
}

fn collar(id: &str, x: i64, y: i64, z: i64) -> HoleCollar {
    HoleCollar { hole_id: bytes(id), x, y, z }
}

fn station(id: &str, from: i64, to: i64, azimuth: i64, dip: i64) -> SurveyStation {
    SurveyStation { hole_id: bytes(id), from, to, azimuth, dip }
}

fn assay(id: &str, from: i64, to: i64, grade: i64) -> AssayInterval {
    AssayInterval { hole_id: bytes(id), from, to, grades: vec![grade] }
}

fn row(collar: usize, station: usize) -> JoinedRow {
    JoinedRow { collar, station }
}

/// The direction of a hole with this azimuth and dip, in thousandths of a
/// degree.
fn direction(azimuth: i64, dip: i64) -> Vector3 {
    let a = (azimuth as f64 / 1000.0).to_radians();
    let d = (dip as f64 / 1000.0).to_radians();
    let unit = 1_000_000.0;
    Vector3 {
        x: (d.sin() * a.cos() * unit).round() as i64,
        y: (d.sin() * a.sin() * unit).round() as i64,
        z: (d.cos() * unit).round() as i64,
    }
}

fn directions(stations: &[SurveyStation]) -> Vec<Vector3> {
    stations.iter().map(|s| direction(s.azimuth, s.dip)).collect()
}

const ORIGIN: Offset = Offset { dx: 0, dy: 0, dz: 0 };
const SCALE: GradeColorScale = GradeColorScale { p25: 4000, p75: 12_000 };

#[test]
fn same_bytes_compares_whole_strings() {
    assert!(same_bytes(&bytes("H1"), &bytes("H1")));
    assert!(!same_bytes(&bytes("H1"), &bytes("H10")));
    assert!(!same_bytes(&bytes("H1"), &bytes("H2")));
    assert!(!same_bytes(&bytes("H1"), &bytes("h1")));
    assert!(same_bytes(&bytes(""), &bytes("")));
}

#[test]
fn join_is_inner_and_ordered_by_collar() {
    let collars = vec![collar("B", 0, 0, 0), collar("A", 1, 1, 1), collar("C", 2, 2, 2)];
    let stations = vec![
        station("A", 0, 50, 0, 0),
        station("B", 0, 80, 0, 0),
        station("A", 50, 90, 0, 0),
        station("Z", 0, 10, 0, 0),
    ];
    let rows = join_trajectories(&collars, &stations);
    assert_eq!(rows, vec![row(0, 1), row(1, 0), row(1, 2)]);
}

#[test]
fn join_matches_whole_identifier_only() {
    let collars = vec![collar("H1", 0, 0, 0)];
    let stations = vec![station("H10", 0, 50, 0, 0), station("H", 0, 50, 0, 0)];
    assert_eq!(join_trajectories(&collars, &stations), vec![]);
}

#[test]
fn join_of_empty_tables_is_empty() {
    assert_eq!(join_trajectories(&vec![], &vec![station("A", 0, 1, 0, 0)]), vec![]);
    assert_eq!(join_trajectories(&vec![collar("A", 0, 0, 0)], &vec![]), vec![]);
}

#[test]
fn trajectory_is_the_station_that_contains_the_start() {
    let collars = vec![collar("A", 0, 0, 0), collar("B", 0, 0, 0)];
    let stations = vec![
        station("A", 0, 50, 0, 0),
        station("A", 50, 90, 0, 0),
        station("B", 0, 90, 0, 0),
    ];
    let rows = join_trajectories(&collars, &stations);
    assert_eq!(find_trajectory(&collars, &stations, &rows, &bytes("A"), 10), Some(0));
    assert_eq!(find_trajectory(&collars, &stations, &rows, &bytes("A"), 60), Some(1));
    assert_eq!(find_trajectory(&collars, &stations, &rows, &bytes("B"), 60), Some(2));
    // on the boundary the first station that contains it
    assert_eq!(find_trajectory(&collars, &stations, &rows, &bytes("A"), 50), Some(0));
    assert_eq!(find_trajectory(&collars, &stations, &rows, &bytes("A"), 0), Some(0));
    assert_eq!(find_trajectory(&collars, &stations, &rows, &bytes("A"), 90), Some(1));
}

#[test]
fn trajectory_is_missing_outside_every_station() {
    let collars = vec![collar("A", 0, 0, 0)];
    let stations = vec![station("A", 0, 50, 0, 0)];
    let rows = join_trajectories(&collars, &stations);
    assert_eq!(find_trajectory(&collars, &stations, &rows, &bytes("A"), 51), None);
    assert_eq!(find_trajectory(&collars, &stations, &rows, &bytes("A"), -1), None);
    assert_eq!(find_trajectory(&collars, &stations, &rows, &bytes("B"), 10), None);
    assert_eq!(find_trajectory(&collars, &stations, &vec![], &bytes("A"), 10), None);
}

#[test]
fn end_to_end_segment_of_one_interval() {
    // collar {H1, 0, 0, 0}, survey {H1, 0, 100, azimuth 0, dip 90}, assay
    // {H1, 10, 20, au 1.0}: with dx = sin(dip) cos(azimuth) the hole runs
    // along the first axis
    let collars = vec![collar("H1", 0, 0, 0)];
    let stations = vec![station("H1", 0, 100_000, 0, 90_000)];
    let rows = join_trajectories(&collars, &stations);
    let mapped = map_interval(
        &collars,
        &stations,
        &rows,
        &directions(&stations),
        &ORIGIN,
        &assay("H1", 10_000, 20_000, 1000),
        0,
        0,
        &SCALE,
    )
    .unwrap();
    assert_eq!(mapped.segment, Segment3D { start: p(10_000, 0, 0), end: p(20_000, 0, 0) });
    assert_eq!(mapped.transform, p(15_000, 0, 0));
}

#[test]
fn end_to_end_segment_of_vertical_hole() {
    // the same hole with dip 0, which is straight down the third axis
    let collars = vec![collar("H1", 0, 0, 0)];
    let stations = vec![station("H1", 0, 100_000, 0, 0)];
    let rows = join_trajectories(&collars, &stations);
    let mapped = map_interval(
        &collars,
        &stations,
        &rows,
        &directions(&stations),
        &ORIGIN,
        &assay("H1", 10_000, 20_000, 1000),
        0,
        0,
        &SCALE,
    )
    .unwrap();
    assert_eq!(mapped.segment, Segment3D { start: p(0, 0, 10_000), end: p(0, 0, 20_000) });
    assert_eq!(mapped.transform, p(0, 0, 15_000));
    assert_eq!(mapped.assay, 0);
    assert_eq!(mapped.row, 0);
    // the grade is the lower quartile: score zero
    assert_eq!(mapped.color, Rgba { r: 0, g: 0, b: 0, a: 255 });
}

#[test]
fn interval_uses_collar_in_local_frame() {
    let collars = vec![collar("H1", 500_000, 8_000_000, 100_000)];
    let stations = vec![station("H1", 0, 100_000, 0, 0)];
    let rows = join_trajectories(&collars, &stations);
    let offset = Offset { dx: 400_000, dy: 7_999_000, dz: 90_000 };
    let mapped = map_interval(
        &collars,
        &stations,
        &rows,
        &directions(&stations),
        &offset,
        &assay("H1", 0, 4000, 2000),
        3,
        0,
        &SCALE,
    )
    .unwrap();
    assert_eq!(
        mapped.segment,
        Segment3D { start: p(100_000, 1000, 10_000), end: p(100_000, 1000, 14_000) }
    );
    assert_eq!(mapped.assay, 3);
    // the grade 2 scores (8000 - 4000) / 8000 = 0.5
    assert_eq!(mapped.color, Rgba { r: 255, g: 255, b: 0, a: 255 });
}

#[test]
fn interval_without_survey_is_missing_survey_data() {
    let collars = vec![collar("H1", 0, 0, 0)];
    let stations = vec![station("H1", 0, 100_000, 0, 0)];
    let rows = join_trajectories(&collars, &stations);
    let missing = map_interval(
        &collars,
        &stations,
        &rows,
        &directions(&stations),
        &ORIGIN,
        &assay("H2", 10_000, 20_000, 1000),
        0,
        0,
        &SCALE,
    );
    assert_eq!(missing, Err(EngineError::MissingSurveyData));
    let below = map_interval(
        &collars,
        &stations,
        &rows,
        &directions(&stations),
        &ORIGIN,
        &assay("H1", 100_001, 110_000, 1000),
        0,
        0,
        &SCALE,
    );
    assert_eq!(below, Err(EngineError::MissingSurveyData));
}

#[test]
fn missing_interval_does_not_stop_the_batch() {
    let collars = vec![collar("H1", 0, 0, 0)];
    let stations = vec![station("H1", 0, 100_000, 0, 0)];
    let rows = join_trajectories(&collars, &stations);
    let assays = vec![
        assay("H1", 0, 10_000, 1000),
        assay("H9", 0, 10_000, 2000),
        assay("H1", 10_000, 20_000, 3000),
    ];
    let mapped = map_assay_segments(
        &collars,
        &stations,
        &rows,
        &directions(&stations),
        &ORIGIN,
        &assays,
        0,
        &SCALE,
    );
    assert_eq!(mapped.len(), 3);
    assert_eq!(mapped[0].unwrap().segment.end, p(0, 0, 10_000));
    assert_eq!(mapped[1], Err(EngineError::MissingSurveyData));
    assert_eq!(mapped[2].unwrap().segment.start, p(0, 0, 10_000));
    assert_eq!(mapped[2].unwrap().assay, 2);
    let (parts, skipped) = collect_parts(&mapped, 1000);
    assert_eq!(parts.len(), 2);
    assert_eq!(skipped, vec![1]);
    assert_eq!(parts[1].transform, p(0, 15_000, 0));
}

#[test]
fn interval_of_hole_with_two_stations_uses_the_one_it_starts_in() {
    let collars = vec![collar("H1", 0, 0, 0)];
    let stations = vec![station("H1", 0, 50_000, 0, 0), station("H1", 50_000, 100_000, 0, 90_000)];
    let rows = join_trajectories(&collars, &stations);
    let dirs = directions(&stations);
    let upper =
        map_interval(&collars, &stations, &rows, &dirs, &ORIGIN, &assay("H1", 10_000, 20_000, 0), 0, 0, &SCALE)
            .unwrap();
    assert_eq!(upper.row, 0);
    assert_eq!(upper.segment.end, p(0, 0, 20_000));
    let lower =
        map_interval(&collars, &stations, &rows, &dirs, &ORIGIN, &assay("H1", 60_000, 70_000, 0), 1, 0, &SCALE)
            .unwrap();
    assert_eq!(lower.row, 1);
    assert_eq!(lower.segment, Segment3D { start: p(60_000, 0, 0), end: p(70_000, 0, 0) });
}

#[test]
fn prism_of_vertical_segment() {
    let mesh = generate_triangular_prisma(&p(0, 0, 0), &p(0, 0, 10_000), 1000);
    assert_eq!(
        mesh.vertices,
        vec![
            p(0, 1000, -5000),
            p(-866, -500, -5000),
            p(866, -500, -5000),
            p(0, 1000, 5000),
            p(-866, -500, 5000),
            p(866, -500, 5000),
        ]
    );
    assert_eq!(
        mesh.indices,
        vec![0u32, 1, 3, 1, 4, 3, 1, 2, 4, 2, 5, 4, 2, 0, 5, 0, 3, 5, 0, 2, 1, 3, 4, 5]
    );
    assert_eq!(mesh.normals[0], v(0, 1_000_000, 0));
    assert_eq!(mesh.normals[3], v(0, 1_000_000, 0));
    assert_eq!(mesh.normals[1], mesh.normals[4]);
    assert_eq!(mesh.normals[2], mesh.normals[5]);
    assert_eq!(mesh.uvs, vec![Uv { u: 0, v: 0 }; 6]);
}

#[test]
fn prism_axis_connects_start_and_end() {
    let start = p(1000, 2000, 3000);
    let end = p(4000, 6000, 3000);
    let mesh = generate_triangular_prisma(&start, &end, 500);
    let mid = p(2500, 4000, 3000);
    // the corners round each end have that end as their centre, within rounding
    for (ring, centre) in [(0usize, start), (3usize, end)] {
        let sx: i64 = (0..3).map(|k| mesh.vertices[ring + k].x + mid.x).sum();
        let sy: i64 = (0..3).map(|k| mesh.vertices[ring + k].y + mid.y).sum();
        let sz: i64 = (0..3).map(|k| mesh.vertices[ring + k].z + mid.z).sum();
        assert!((sx - 3 * centre.x).abs() <= 3);
        assert!((sy - 3 * centre.y).abs() <= 3);
        assert!((sz - 3 * centre.z).abs() <= 3);
    }
    // every corner stands the radius away from the axis, and square to it
    for j in 0..6 {
        let base = if j < 3 { start } else { end };
        let dx = mesh.vertices[j].x + mid.x - base.x;
        let dy = mesh.vertices[j].y + mid.y - base.y;
        let dz = mesh.vertices[j].z + mid.z - base.z;
        let squared = dx * dx + dy * dy + dz * dz;
        assert!((squared - 500 * 500).abs() <= 2 * 500 * 3);
        let along = dx * 3000 + dy * 4000;
        assert!(along.abs() <= 5000 * 3);
    }
}

#[test]
fn prism_of_segment_without_length_has_no_volume() {
    let mesh = generate_triangular_prisma(&p(7, 7, 7), &p(7, 7, 7), 1000);
    assert_eq!(mesh.vertices, vec![p(0, 0, 0); 6]);
    assert_eq!(mesh.indices.len(), 24);
    assert_eq!(mesh.normals, vec![v(0, 0, 0); 6]);
}

#[test]
fn prism_with_radius_zero_is_a_line() {
    let mesh = generate_triangular_prisma(&p(0, 0, 0), &p(0, 0, 10_000), 0);
    assert_eq!(
        mesh.vertices,
        vec![p(0, 0, -5000), p(0, 0, -5000), p(0, 0, -5000), p(0, 0, 5000), p(0, 0, 5000), p(0, 0, 5000)]
    );
}

#[test]
fn uniform_colors_repeats_one_color() {
    let c = Rgba { r: 1, g: 2, b: 3, a: 4 };
    assert_eq!(uniform_colors(c, 3), vec![c, c, c]);
    assert!(uniform_colors(c, 0).is_empty());
}

#[test]
fn segment_part_is_prism_in_one_color_at_midpoint() {
    let m = MappedSegment {
        assay: 0,
        row: 0,
        segment: Segment3D { start: p(0, 0, 10_000), end: p(0, 0, 20_000) },
        transform: p(0, 0, 15_000),
        color: Rgba { r: 9, g: 8, b: 7, a: 255 },
    };
    let part = segment_part(&m, 1000);
    // in the axes of meshes the hole runs along the second axis
    assert_eq!(part.transform, p(0, 15_000, 0));
    assert_eq!(part.colors, vec![Rgba { r: 9, g: 8, b: 7, a: 255 }; 6]);
    assert_eq!(
        part.mesh.vertices,
        vec![
            p(0, -5000, -1000),
            p(-866, -5000, 500),
            p(866, -5000, 500),
            p(0, 5000, -1000),
            p(-866, 5000, 500),
            p(866, 5000, 500),
        ]
    );
    assert_eq!(part.mesh.indices.len(), 24);
}

fn drill_holes(offset: Option<i64>) -> DrillHolesMesh {
    let f = CsvFile { path: String::new(), header: true, sep: b',' };
    DrillHolesMesh {
        files: [f.clone(), f.clone(), f.clone(), f],
        offset_x: offset,
        offset_y: offset,
        offset_z: offset,
    }
}

fn dataset(assays: Vec<AssayInterval>) -> DrillholeDataset {
    DrillholeDataset {
        collars: vec![collar("H1", 1000, 1000, 1000), collar("H2", 51_000, 1000, 1000)],
        stations: vec![station("H1", 0, 100_000, 0, 0), station("H2", 0, 100_000, 0, 0)],
        assays: AssayTable { attributes: vec![bytes("au")], intervals: assays },
        lithology: vec![],
    }
}

#[test]
fn drill_holes_mesh_merges_prisms() {
    let data = dataset(vec![
        assay("H1", 0, 10_000, 1000),
        assay("H1", 10_000, 20_000, 2000),
        assay("H7", 0, 10_000, 3000),
        assay("H2", 0, 10_000, 4000),
        assay("H2", 10_000, 20_000, 5000),
    ]);
    let dirs = directions(&data.stations);
    let (combined, skipped) =
        DrillHolesMesh::from_csv(&drill_holes(Some(1000)), &data, &dirs, 0, 1000).unwrap();
    assert_eq!(skipped, vec![2]);
    assert_eq!(combined.mesh.vertices.len(), 4 * 6);
    assert_eq!(combined.mesh.indices.len(), 4 * 24);
    assert_eq!(combined.mesh.normals.len(), 4 * 6);
    assert_eq!(combined.colors.len(), 4 * 6);
    assert!(combined.mesh.indices.iter().all(|&i| (i as usize) < 24));
    // first prism: round the segment from the collar 10 units down, which
    // in the axes of meshes runs along the second axis
    assert_eq!(combined.mesh.vertices[0], p(0, 0, -1000));
    assert_eq!(combined.mesh.vertices[1], p(-866, 0, 500));
    assert_eq!(combined.mesh.vertices[2], p(866, 0, 500));
    assert_eq!(combined.mesh.vertices[3], p(0, 10_000, -1000));
    // third prism: hole H2, 50 units along the first axis
    assert_eq!(combined.mesh.vertices[12], p(50_000, 0, -1000));
    assert_eq!(combined.mesh.vertices[15], p(50_000, 10_000, -1000));
    // indices of the second prism are raised by six
    assert_eq!(&combined.mesh.indices[24..27], &[6u32, 7, 9]);
    assert_eq!(&combined.mesh.indices[93..96], &[21u32, 22, 23]);
    // quartiles 2 and 4: the grades 1, 2, 4 and 5 score -0.5, 0, 1 and 1.5
    assert_eq!(combined.colors[0], Rgba { r: 0, g: 0, b: 0, a: 255 });
    assert_eq!(combined.colors[6], Rgba { r: 0, g: 0, b: 0, a: 255 });
    assert_eq!(combined.colors[12], Rgba { r: 255, g: 255, b: 0, a: 255 });
    assert_eq!(combined.colors[23], Rgba { r: 255, g: 255, b: 0, a: 255 });
}

#[test]
fn drill_holes_mesh_colors_each_prism_flat() {
    let data = dataset(vec![
        assay("H1", 0, 10_000, 0),
        assay("H1", 10_000, 20_000, 1000),
        assay("H1", 20_000, 30_000, 2000),
        assay("H1", 30_000, 40_000, 3000),
        assay("H1", 40_000, 50_000, 4000),
    ]);
    let dirs = directions(&data.stations);
    let (combined, skipped) =
        DrillHolesMesh::from_csv(&drill_holes(Some(0)), &data, &dirs, 0, 500).unwrap();
    assert!(skipped.is_empty());
    // quartiles 1 and 3: scores -0.5, 0, 0.5, 1, 1.5
    let expected = [
        Rgba { r: 0, g: 0, b: 0, a: 255 },
        Rgba { r: 0, g: 0, b: 0, a: 255 },
        Rgba { r: 255, g: 255, b: 0, a: 255 },
        Rgba { r: 255, g: 255, b: 0, a: 255 },
        Rgba { r: 255, g: 255, b: 0, a: 255 },
    ];
    for (k, color) in expected.iter().enumerate() {
        for j in 0..6 {
            assert_eq!(combined.colors[6 * k + j], *color);
        }
    }
}

#[test]
fn drill_holes_mesh_of_no_assay_is_empty_input() {
    let data = dataset(vec![]);
    let dirs = directions(&data.stations);
    assert_eq!(
        DrillHolesMesh::from_csv(&drill_holes(Some(0)), &data, &dirs, 0, 500).unwrap_err(),
        EngineError::EmptyInput
    );
}

#[test]
fn drill_holes_mesh_of_one_assay_has_degenerate_scale() {
    let data = dataset(vec![assay("H1", 10_000, 20_000, 1000)]);
    let dirs = directions(&data.stations);
    assert_eq!(
        DrillHolesMesh::from_csv(&drill_holes(Some(0)), &data, &dirs, 0, 500).unwrap_err(),
        EngineError::DegenerateScale
    );
}

#[test]
fn drill_holes_mesh_without_any_survey_is_empty_with_all_skipped() {
    let mut data = dataset(vec![assay("H1", 0, 10_000, 1000), assay("H1", 10_000, 20_000, 3000)]);
    data.stations.clear();
    let (combined, skipped) =
        DrillHolesMesh::from_csv(&drill_holes(Some(0)), &data, &vec![], 0, 500).unwrap();
    assert_eq!(skipped, vec![0, 1]);
    assert!(combined.mesh.vertices.is_empty());
    assert!(combined.mesh.indices.is_empty());
}

#[test]
fn can_build_tests_every_condition() {
    let data = dataset(vec![assay("H1", 0, 10_000, 1000), assay("H1", 10_000, 20_000, 3000)]);
    let dirs = directions(&data.stations);
    assert!(DrillHolesMesh::can_build(&drill_holes(Some(0)), &data, &dirs, 0, 500));
    assert!(!DrillHolesMesh::can_build(&drill_holes(None), &data, &dirs, 0, 500));
    assert!(!DrillHolesMesh::can_build(&drill_holes(Some(i64::MAX)), &data, &dirs, 0, 500));
    assert!(!DrillHolesMesh::can_build(&drill_holes(Some(0)), &data, &dirs, 1, 500));
    assert!(!DrillHolesMesh::can_build(&drill_holes(Some(0)), &data, &dirs, 0, -1));
    assert!(!DrillHolesMesh::can_build(&drill_holes(Some(0)), &data, &dirs, 0, 1_073_741_825));
    assert!(DrillHolesMesh::can_build(&drill_holes(Some(0)), &data, &dirs, 0, 1_073_741_824));
    assert!(!DrillHolesMesh::can_build(&drill_holes(Some(0)), &data, &dirs[..1].to_vec(), 0, 500));
    let long = vec![v(1_000_001, 0, 0), v(0, 0, 1_000_000)];
    assert!(!DrillHolesMesh::can_build(&drill_holes(Some(0)), &data, &long, 0, 500));
}

#[test]
fn dataset_is_wf_tests_every_limit() {
    assert!(dataset(vec![assay("H1", 0, 10_000, 1000)]).is_wf());
    assert!(!dataset(vec![assay("H1", 0, 1_073_741_825, 1000)]).is_wf());
    assert!(!dataset(vec![assay("H1", -1_073_741_825, 0, 1000)]).is_wf());
    assert!(!dataset(vec![assay("H1", 0, 10, 1_000_000_000_001)]).is_wf());
    assert!(dataset(vec![assay("H1", 0, 10, -1_000_000_000_000)]).is_wf());
    let mut two_grades = dataset(vec![assay("H1", 0, 10, 1)]);
    two_grades.assays.intervals[0].grades.push(2);
    assert!(!two_grades.is_wf());
    let mut far_collar = dataset(vec![]);
    far_collar.collars[0].y = 1_152_921_504_606_846_977;
    assert!(!far_collar.is_wf());
    let mut deep_station = dataset(vec![]);
    deep_station.stations[1].to = 1_073_741_825;
    assert!(!deep_station.is_wf());
}

#[test]
fn prism_of_very_short_segment_keeps_its_radius() {
    // a segment three thousandths long
    let start = p(0, 0, 0);
    let end = p(1, 2, 2);
    let mesh = generate_triangular_prisma(&start, &end, 1000);
    let mid = p(0, 1, 1);
    for j in 0..6 {
        let base = if j < 3 { start } else { end };
        let dx = mesh.vertices[j].x + mid.x - base.x;
        let dy = mesh.vertices[j].y + mid.y - base.y;
        let dz = mesh.vertices[j].z + mid.z - base.z;
        let squared = dx * dx + dy * dy + dz * dz;
        assert!(squared <= 1001 * 1001 && squared >= 997 * 997, "corner {j}: {squared}");
        let along = dx + 2 * dy + 2 * dz;
        assert!(along.abs() <= 9, "corner {j}: {along}");
        let n = mesh.normals[j];
        let len = (n.x as i128).pow(2) + (n.y as i128).pow(2) + (n.z as i128).pow(2);
        assert!(len <= 1_000_000i128 * 1_000_000 && len >= 999_998i128 * 999_998);
    }
}
