use geomesh::dataset::DrillholeDataset;
use geomesh::drillhole::{AssayInterval, HoleCollar, SurveyStation};
use geomesh::error::EngineError;
use geomesh::files::{CsvFile, DrillHole, DxfFile};
use geomesh::tables::{
    assays_from_table, collars_from_table, lithology_from_table, stations_from_table, AssayTable,
    LithologyInterval,
};
use geomesh::tabular::Table;
use geomesh::windows::{LoadTopography, LoadTopographyState, NewProject, ResourcesWindow};

fn bytes(text: &str) -> Vec<u8> {
    text.as_bytes().to_vec()
}

fn table(rows: &[&[&str]]) -> Table {
    Table { rows: rows.iter().map(|r| r.iter().map(|f| bytes(f)).collect()).collect() }
}

fn file(header: bool, sep: u8) -> CsvFile {
    CsvFile { path: String::from("table.csv"), header, sep }
}

#[test]
fn collars_are_read_by_header_names() {
    let t = table(&[&["Z", "HOLE-ID", "Y", "X"], &["3", "H1", "2", "1"], &["-1.5", "H2", "0", "10"]]);
    let collars = collars_from_table(&t, true).unwrap();
    assert_eq!(
        collars,
        vec![
            HoleCollar { hole_id: bytes("H1"), x: 1000, y: 2000, z: 3000 },
            HoleCollar { hole_id: bytes("H2"), x: 10_000, y: 0, z: -1500 },
        ]
    );
}

#[test]
fn collars_without_header_are_read_in_usual_order() {
    let t = table(&[&["H1", "1", "2", "3", "150"]]);
    let collars = collars_from_table(&t, false).unwrap();
    assert_eq!(collars, vec![HoleCollar { hole_id: bytes("H1"), x: 1000, y: 2000, z: 3000 }]);
}

#[test]
fn collars_report_bad_number_with_row_and_column() {
    let t = table(&[&["hole-id", "x", "y", "z"], &["H1", "1", "2", "3"], &["H2", "1", "north", "3"]]);
    assert_eq!(
        collars_from_table(&t, true),
        Err(EngineError::FieldParse { row: 1, column: 2 })
    );
}

#[test]
fn collars_report_missing_column() {
    let t = table(&[&["hole-id", "x", "z"], &["H1", "1", "3"]]);
    // `y` is the third of the names hole-id, x, y, z
    assert_eq!(
        collars_from_table(&t, true),
        Err(EngineError::FieldParse { row: 0, column: 2 })
    );
}

#[test]
fn collars_of_table_with_header_only_are_none() {
    let t = table(&[&["hole-id", "x", "y", "z"]]);
    assert_eq!(collars_from_table(&t, true), Ok(vec![]));
}

#[test]
fn stations_are_read() {
    let t = table(&[
        &["hole-id", "from", "to", "azimuth", "dip"],
        &["H1", "0", "100", "0", "90"],
        &["H1", "100", "250.5", "12.5", "-60"],
    ]);
    let stations = stations_from_table(&t, true).unwrap();
    assert_eq!(
        stations,
        vec![
            SurveyStation { hole_id: bytes("H1"), from: 0, to: 100_000, azimuth: 0, dip: 90_000 },
            SurveyStation {
                hole_id: bytes("H1"),
                from: 100_000,
                to: 250_500,
                azimuth: 12_500,
                dip: -60_000,
            },
        ]
    );
}

#[test]
fn stations_refuse_depth_beyond_limit() {
    let t = table(&[&["H1", "0", "1073741.825", "0", "0"]]);
    assert_eq!(
        stations_from_table(&t, false),
        Err(EngineError::FieldParse { row: 0, column: 2 })
    );
    let ok = table(&[&["H1", "0", "1073741.824", "0", "0"]]);
    assert_eq!(stations_from_table(&ok, false).unwrap()[0].to, 1_073_741_824);
}

#[test]
fn assays_take_every_other_column_as_grade() {
    let t = table(&[
        &["HOLE-ID", "FROM", "TO", "AU", "CU", "Ag"],
        &["H1", "10", "20", "1.0", "0.4", "12"],
        &["H1", "20", "30", "2.5", "0.1", "7"],
    ]);
    let assays = assays_from_table(&t, true).unwrap();
    assert_eq!(assays.attributes, vec![bytes("au"), bytes("cu"), bytes("ag")]);
    assert_eq!(
        assays.intervals,
        vec![
            AssayInterval {
                hole_id: bytes("H1"),
                from: 10_000,
                to: 20_000,
                grades: vec![1000, 400, 12_000],
            },
            AssayInterval {
                hole_id: bytes("H1"),
                from: 20_000,
                to: 30_000,
                grades: vec![2500, 100, 7000],
            },
        ]
    );
}

#[test]
fn assays_find_depth_columns_anywhere() {
    let t = table(&[&["au", "to", "hole-id", "from"], &["1.0", "20", "H1", "10"]]);
    let assays = assays_from_table(&t, true).unwrap();
    assert_eq!(assays.attributes, vec![bytes("au")]);
    assert_eq!(
        assays.intervals,
        vec![AssayInterval { hole_id: bytes("H1"), from: 10_000, to: 20_000, grades: vec![1000] }]
    );
}

#[test]
fn assays_without_header_have_gold_and_copper() {
    let t = table(&[&["H1", "10", "20", "1.0", "0.4"]]);
    let assays = assays_from_table(&t, false).unwrap();
    assert_eq!(assays.attributes, vec![bytes("au"), bytes("cu")]);
    assert_eq!(assays.intervals[0].grades, vec![1000, 400]);
}

#[test]
fn assays_report_bad_grade() {
    let t = table(&[
        &["hole-id", "from", "to", "au"],
        &["H1", "10", "20", "1.0"],
        &["H1", "20", "30", "n/a"],
    ]);
    assert_eq!(
        assays_from_table(&t, true),
        Err(EngineError::FieldParse { row: 1, column: 3 })
    );
}

#[test]
fn assays_report_missing_depth_column() {
    let t = table(&[&["hole-id", "from", "au"], &["H1", "10", "1.0"]]);
    assert_eq!(
        assays_from_table(&t, true),
        Err(EngineError::FieldParse { row: 0, column: 2 })
    );
}

#[test]
fn attribute_index_finds_grade_by_name() {
    let assays = AssayTable { attributes: vec![bytes("au"), bytes("cu")], intervals: vec![] };
    assert_eq!(assays.attribute_index(&bytes("au")), Some(0));
    assert_eq!(assays.attribute_index(&bytes("cu")), Some(1));
    assert_eq!(assays.attribute_index(&bytes("ag")), None);
}

#[test]
fn lithology_is_read() {
    let t = table(&[&["hole-id", "from", "to", "rock"], &["H1", "0", "12.5", "granite"]]);
    assert_eq!(
        lithology_from_table(&t, true),
        Ok(vec![LithologyInterval {
            hole_id: bytes("H1"),
            from: 0,
            to: 12_500,
            rock: bytes("granite"),
        }])
    );
}

#[test]
fn lithology_reports_short_record() {
    let t = table(&[&["H1", "0", "12.5"]]);
    assert_eq!(
        lithology_from_table(&t, false),
        Err(EngineError::FieldParse { row: 0, column: 3 })
    );
}

fn four_files() -> DrillHole {
    DrillHole { files: [file(true, b','), file(true, b','), file(true, b';'), file(false, b',')] }
}

#[test]
fn dataset_is_loaded_from_four_texts() {
    let assay = bytes("hole-id,from,to,au\nH1,10,20,1.0\n");
    let header = bytes("hole-id,x,y,z\nH1,0,0,0\n");
    let lithology = bytes("hole-id;from;to;rock\nH1;0;100;schist\n");
    let survey = bytes("H1,0,100,0,90\n");
    let dataset = DrillholeDataset::load(&assay, &header, &lithology, &survey, &four_files()).unwrap();
    assert_eq!(dataset.collars, vec![HoleCollar { hole_id: bytes("H1"), x: 0, y: 0, z: 0 }]);
    assert_eq!(
        dataset.stations,
        vec![SurveyStation { hole_id: bytes("H1"), from: 0, to: 100_000, azimuth: 0, dip: 90_000 }]
    );
    assert_eq!(dataset.assays.attributes, vec![bytes("au")]);
    assert_eq!(dataset.assays.intervals.len(), 1);
    assert_eq!(dataset.lithology[0].rock, bytes("schist"));
}

#[test]
fn dataset_load_gives_no_partial_dataset() {
    let assay = bytes("hole-id,from,to,au\nH1,10,twenty,1.0\n");
    let header = bytes("hole-id,x,y,z\nH1,0,0,0\n");
    let lithology = bytes("hole-id;from;to;rock\nH1;0;100;schist\n");
    let survey = bytes("H1,0,100,0,90\n");
    assert_eq!(
        DrillholeDataset::load(&assay, &header, &lithology, &survey, &four_files()),
        Err(EngineError::FieldParse { row: 0, column: 2 })
    );
}

#[test]
fn dataset_reports_fault_of_first_faulty_table() {
    let good_assay = table(&[&["hole-id", "from", "to", "au"], &["H1", "10", "20", "1"]]);
    let bad_header = table(&[&["hole-id", "x", "y", "z"], &["H1", "0", "0", "0"], &["H2", "", "0", "0"]]);
    let bad_survey = table(&[&["H1", "0", "100", "north", "90"]]);
    let lithology = table(&[&["hole-id", "from", "to", "rock"]]);
    let mut files = four_files();
    files.files[2].sep = b',';
    assert_eq!(
        DrillholeDataset::from_tables(&good_assay, &bad_header, &lithology, &bad_survey, &files),
        Err(EngineError::FieldParse { row: 1, column: 1 })
    );
    let good_header = table(&[&["hole-id", "x", "y", "z"], &["H1", "0", "0", "0"]]);
    assert_eq!(
        DrillholeDataset::from_tables(&good_assay, &good_header, &lithology, &bad_survey, &files),
        Err(EngineError::FieldParse { row: 0, column: 3 })
    );
}

#[test]
fn file_descriptions_hold_their_settings() {
    let csv = file(true, b';');
    assert!(csv.header);
    assert_eq!(csv.sep, b';');
    let dxf = DxfFile { path: String::from("topo.dxf") };
    assert_eq!(dxf.path, "topo.dxf");
}

#[test]
fn window_state_starts_empty() {
    let state = LoadTopographyState::default();
    assert_eq!(state.topography, "");
    assert_eq!(state.load_files_result, None);
    assert_eq!(LoadTopography, LoadTopography);
    assert_eq!(NewProject, NewProject);
    assert_eq!(ResourcesWindow, ResourcesWindow);
}
