use vstd::prelude::*;
use crate::drillhole::{collars_wf, stations_wf, HoleCollar, SurveyStation, DEPTH_LIMIT};
use crate::grade::GRADE_LIMIT;
use crate::point::WORLD_LIMIT;
use crate::error::EngineError;
use crate::files::DrillHole;
use crate::tables::{
    assay_header, assay_plan, assays_from_table, collar_plan, collars_from_table, is_assay,
    is_collar, is_lithology, is_station, lithology_from_table, lithology_plan,
    stations_from_table, survey_plan, AssayTable, LithologyInterval,
};
use crate::tabular::{
    csv_records, data_records, effective_header, lowercase, split_outcome, split_table, Table,
};

verus! {

/// The four tables of a drillhole dataset, read into rows.
#[derive(Clone, Debug, PartialEq, Eq)]
pub struct DrillholeDataset {
    pub collars: Vec<HoleCollar>,
    pub stations: Vec<SurveyStation>,
    pub assays: AssayTable,
    pub lithology: Vec<LithologyInterval>,
}

/// The collars are those of the data records of the table, read by the
/// columns of the plan.
pub open spec fn collars_are(
    collars: Seq<HoleCollar>,
    table: Seq<Seq<Seq<u8>>>,
    has_header: bool,
    plan: (Seq<usize>, Seq<usize>),
) -> bool {
    &&& collars.len() == data_records(table, has_header).len()
    &&& forall|i: int|
        0 <= i < collars.len() ==> is_collar(
            #[trigger] collars[i],
            data_records(table, has_header)[i],
            plan.0,
            plan.1,
        )
}

/// The stations are those of the data records of the table, read by the
/// columns of the plan.
pub open spec fn stations_are(
    stations: Seq<SurveyStation>,
    table: Seq<Seq<Seq<u8>>>,
    has_header: bool,
    plan: (Seq<usize>, Seq<usize>),
) -> bool {
    &&& stations.len() == data_records(table, has_header).len()
    &&& forall|i: int|
        0 <= i < stations.len() ==> is_station(
            #[trigger] stations[i],
            data_records(table, has_header)[i],
            plan.0,
            plan.1,
        )
}

/// The intervals are those of the data records of the table, read by the
/// columns of the plan, and the attributes are the names of its grade
/// columns.
pub open spec fn assays_are(
    assays: AssayTable,
    table: Seq<Seq<Seq<u8>>>,
    has_header: bool,
    plan: (Seq<usize>, Seq<usize>),
) -> bool {
    let header = effective_header(table, has_header, assay_header());
    &&& assays.attributes.len() == plan.1.len() - 2
    &&& forall|k: int|
        0 <= k < assays.attributes.len() ==> (#[trigger] assays.attributes[k])@ == lowercase(
            header[plan.1[k + 2] as int],
        )
    &&& assays.intervals.len() == data_records(table, has_header).len()
    &&& forall|i: int|
        0 <= i < assays.intervals.len() ==> is_assay(
            #[trigger] assays.intervals[i],
            data_records(table, has_header)[i],
            plan.0,
            plan.1,
        )
}

/// The intervals are those of the data records of the table, read by the
/// columns of the plan.
pub open spec fn lithology_is(
    intervals: Seq<LithologyInterval>,
    table: Seq<Seq<Seq<u8>>>,
    has_header: bool,
    plan: (Seq<usize>, Seq<usize>),
) -> bool {
    &&& intervals.len() == data_records(table, has_header).len()
    &&& forall|i: int|
        0 <= i < intervals.len() ==> is_lithology(
            #[trigger] intervals[i],
            data_records(table, has_header)[i],
            plan.0,
            plan.1,
        )
}

/// `r` is what reading the four tables gives. They are read in the order
/// header, survey, assay, lithology; the first fault of the first table
/// that has one ends the reading, and there is no partial dataset.
pub open spec fn is_dataset_of(
    r: Result<DrillholeDataset, EngineError>,
    assay: Seq<Seq<Seq<u8>>>,
    header: Seq<Seq<Seq<u8>>>,
    lithology: Seq<Seq<Seq<u8>>>,
    survey: Seq<Seq<Seq<u8>>>,
    files: DrillHole,
) -> bool {
    match collar_plan(header, files.files[1].header) {
        Err(e) => r == Err::<DrillholeDataset, EngineError>(e),
        Ok(collar_columns) => match survey_plan(survey, files.files[3].header) {
            Err(e) => r == Err::<DrillholeDataset, EngineError>(e),
            Ok(survey_columns) => match assay_plan(assay, files.files[0].header) {
                Err(e) => r == Err::<DrillholeDataset, EngineError>(e),
                Ok(assay_columns) => match lithology_plan(lithology, files.files[2].header) {
                    Err(e) => r == Err::<DrillholeDataset, EngineError>(e),
                    Ok(lithology_columns) => r matches Ok(dataset) && {
                        &&& collars_are(
                            dataset.collars@,
                            header,
                            files.files[1].header,
                            collar_columns,
                        )
                        &&& stations_are(
                            dataset.stations@,
                            survey,
                            files.files[3].header,
                            survey_columns,
                        )
                        &&& assays_are(
                            dataset.assays,
                            assay,
                            files.files[0].header,
                            assay_columns,
                        )
                        &&& lithology_is(
                            dataset.lithology@,
                            lithology,
                            files.files[2].header,
                            lithology_columns,
                        )
                    },
                },
            },
        },
    }
}

/// Whether `value` has magnitude at most `limit`.
fn within(value: i64, limit: i64) -> (ok: bool)
    requires
        0 <= limit,
    ensures
        ok == (-limit <= value <= limit),
{
    -limit <= value && value <= limit
}

impl DrillholeDataset {
    /// Every row lies within the limits of its kind.
    pub open spec fn wf(&self) -> bool {
        &&& collars_wf(self.collars@)
        &&& stations_wf(self.stations@)
        &&& self.assays.wf()
    }

    /// Whether every row lies within the limits of its kind.
    pub fn is_wf(&self) -> (ok: bool)
        ensures
            ok == self.wf(),
    {
        let mut c: usize = 0;
        while c < self.collars.len()
            invariant
                c <= self.collars.len(),
                forall|j: int| 0 <= j < c ==> (#[trigger] self.collars[j]).wf(),
            decreases self.collars.len() - c,
        {
            let collar = &self.collars[c];
            if !(within(collar.x, WORLD_LIMIT) && within(collar.y, WORLD_LIMIT) && within(
                collar.z,
                WORLD_LIMIT,
            )) {
                assert(!self.collars[c as int].wf());
                return false;
            }
            c += 1;
        }
        let mut s: usize = 0;
        while s < self.stations.len()
            invariant
                s <= self.stations.len(),
                collars_wf(self.collars@),
                forall|j: int| 0 <= j < s ==> (#[trigger] self.stations[j]).wf(),
            decreases self.stations.len() - s,
        {
            let station = &self.stations[s];
            if !(within(station.from, DEPTH_LIMIT) && within(station.to, DEPTH_LIMIT)) {
                assert(!self.stations[s as int].wf());
                return false;
            }
            s += 1;
        }
        let attributes = self.assays.attributes.len();
        let mut a: usize = 0;
        while a < self.assays.intervals.len()
            invariant
                a <= self.assays.intervals.len(),
                attributes == self.assays.attributes.len(),
                collars_wf(self.collars@),
                stations_wf(self.stations@),
                forall|j: int|
                    0 <= j < a ==> (#[trigger] self.assays.intervals[j]).wf(attributes as int),
            decreases self.assays.intervals.len() - a,
        {
            let interval = &self.assays.intervals[a];
            if !(within(interval.from, DEPTH_LIMIT) && within(interval.to, DEPTH_LIMIT))
                || interval.grades.len() != attributes {
                assert(!self.assays.intervals[a as int].wf(attributes as int));
                return false;
            }
            let mut g: usize = 0;
            while g < interval.grades.len()
                invariant
                    g <= interval.grades.len(),
                    a < self.assays.intervals.len(),
                    *interval == self.assays.intervals[a as int],
                    interval.grades.len() == attributes,
                    -DEPTH_LIMIT <= interval.from <= DEPTH_LIMIT,
                    -DEPTH_LIMIT <= interval.to <= DEPTH_LIMIT,
                    forall|j: int|
                        0 <= j < g ==> -GRADE_LIMIT <= (#[trigger] interval.grades[j])
                            <= GRADE_LIMIT,
                decreases interval.grades.len() - g,
            {
                if !within(interval.grades[g], GRADE_LIMIT) {
                    assert(!self.assays.intervals[a as int].wf(attributes as int)) by {
                        let _ = interval.grades[g as int];
                    }
                    return false;
                }
                g += 1;
            }
            a += 1;
        }
        true
    }

    /// Reads the four tables of a dataset into rows.
    pub fn from_tables(
        assay: &Table,
        header: &Table,
        lithology: &Table,
        survey: &Table,
        files: &DrillHole,
    ) -> (r: Result<DrillholeDataset, EngineError>)
        ensures
            is_dataset_of(r, assay@, header@, lithology@, survey@, *files),
            r matches Ok(dataset) ==> dataset.wf(),
    {
        let collars = match collars_from_table(header, files.files[1].header) {
            Ok(collars) => collars,
            Err(e) => {
                return Err(e);
            },
        };
        let stations = match stations_from_table(survey, files.files[3].header) {
            Ok(stations) => stations,
            Err(e) => {
                return Err(e);
            },
        };
        let assays = match assays_from_table(assay, files.files[0].header) {
            Ok(assays) => assays,
            Err(e) => {
                return Err(e);
            },
        };
        let lithology = match lithology_from_table(lithology, files.files[2].header) {
            Ok(lithology) => lithology,
            Err(e) => {
                return Err(e);
            },
        };
        Ok(DrillholeDataset { collars, stations, assays, lithology })
    }

    /// Reads a dataset from the texts of its four files, each split by the
    /// separator of its file, in the order header, survey, assay,
    /// lithology. The first text with a record of uneven length ends the
    /// reading; where there is none, the tables are read into rows.
    pub fn load(
        assay: &Vec<u8>,
        header: &Vec<u8>,
        lithology: &Vec<u8>,
        survey: &Vec<u8>,
        files: &DrillHole,
    ) -> (r: Result<DrillholeDataset, EngineError>)
        ensures
            is_loaded(r, assay@, header@, lithology@, survey@, *files),
            r matches Ok(dataset) ==> dataset.wf(),
    {
        let header_table = match split_table(header, files.files[1].sep, files.files[1].header) {
            Ok(table) => table,
            Err(e) => {
                return Err(e);
            },
        };
        let survey_table = match split_table(survey, files.files[3].sep, files.files[3].header) {
            Ok(table) => table,
            Err(e) => {
                return Err(e);
            },
        };
        let assay_table = match split_table(assay, files.files[0].sep, files.files[0].header) {
            Ok(table) => table,
            Err(e) => {
                return Err(e);
            },
        };
        let lithology_table = match split_table(
            lithology,
            files.files[2].sep,
            files.files[2].header,
        ) {
            Ok(table) => table,
            Err(e) => {
                return Err(e);
            },
        };
        DrillholeDataset::from_tables(
            &assay_table,
            &header_table,
            &lithology_table,
            &survey_table,
            files,
        )
    }
}

/// `r` is what loading the four texts gives: the fault of the first text,
/// in the order header, survey, assay, lithology, that has a record of
/// uneven length, or else what reading the four tables gives.
pub open spec fn is_loaded(
    r: Result<DrillholeDataset, EngineError>,
    assay: Seq<u8>,
    header: Seq<u8>,
    lithology: Seq<u8>,
    survey: Seq<u8>,
    files: DrillHole,
) -> bool {
    match split_outcome(csv_records(header, files.files[1].sep), files.files[1].header) {
        Err(e) => r == Err::<DrillholeDataset, EngineError>(e),
        Ok(header_table) => match split_outcome(
            csv_records(survey, files.files[3].sep),
            files.files[3].header,
        ) {
            Err(e) => r == Err::<DrillholeDataset, EngineError>(e),
            Ok(survey_table) => match split_outcome(
                csv_records(assay, files.files[0].sep),
                files.files[0].header,
            ) {
                Err(e) => r == Err::<DrillholeDataset, EngineError>(e),
                Ok(assay_table) => match split_outcome(
                    csv_records(lithology, files.files[2].sep),
                    files.files[2].header,
                ) {
                    Err(e) => r == Err::<DrillholeDataset, EngineError>(e),
                    Ok(lithology_table) => is_dataset_of(
                        r,
                        assay_table,
                        header_table,
                        lithology_table,
                        survey_table,
                        files,
                    ),
                },
            },
        },
    }
}

} // verus!
