use vstd::prelude::*;
use crate::batch::Rgba;
use crate::error::EngineError;
use crate::grade::{color_of, material_color_scale, score_of, GradeColorScale, GRADE_LIMIT};
use crate::point::{Offset, Point3, WORLD_LIMIT};
use crate::trajectory::{interpolate_point_on_the_line, midpoint_at, point_at, Segment3D};
use crate::vector::{Vector3, UNIT_ONE};

verus! {

/// Largest magnitude of a depth along a hole.
pub const DEPTH_LIMIT: i64 = 1_073_741_824;

/// Where a drillhole enters the ground: one row of the header table.
#[derive(Clone, Debug, PartialEq, Eq)]
pub struct HoleCollar {
    pub hole_id: Vec<u8>,
    pub x: i64,
    pub y: i64,
    pub z: i64,
}

/// The orientation of a hole over a range of depths. Angles are in
/// thousandths of a degree.
#[derive(Clone, Debug, PartialEq, Eq)]
pub struct SurveyStation {
    pub hole_id: Vec<u8>,
    pub from: i64,
    pub to: i64,
    pub azimuth: i64,
    pub dip: i64,
}

/// A range of depths in a hole with its measured grades, one for each
/// grade attribute of the table, in the table's order.
#[derive(Clone, Debug, PartialEq, Eq)]
pub struct AssayInterval {
    pub hole_id: Vec<u8>,
    pub from: i64,
    pub to: i64,
    pub grades: Vec<i64>,
}

/// One row of the trajectory table: a collar joined with a survey station
/// of the same hole, each named by its place in its own table.
#[derive(Clone, Copy, Debug, PartialEq, Eq, Structural)]
pub struct JoinedRow {
    pub collar: usize,
    pub station: usize,
}

/// What one assay interval becomes: its segment in space, the place where
/// its mesh is put, and the one colour of that mesh. `assay` and `row`
/// name the interval and the trajectory row it was resolved with.
#[derive(Clone, Copy, Debug, PartialEq, Eq, Structural)]
pub struct MappedSegment {
    pub assay: usize,
    pub row: usize,
    pub segment: Segment3D,
    pub transform: Point3,
    pub color: Rgba,
}

impl HoleCollar {
    /// The collar's position.
    pub open spec fn position(&self) -> Point3 {
        Point3 { x: self.x, y: self.y, z: self.z }
    }

    /// The position lies within the survey limit.
    pub open spec fn wf(&self) -> bool {
        self.position().bounded(WORLD_LIMIT as int)
    }
}

impl SurveyStation {
    /// The depths lie within the depth limit.
    pub open spec fn wf(&self) -> bool {
        &&& -DEPTH_LIMIT <= self.from <= DEPTH_LIMIT
        &&& -DEPTH_LIMIT <= self.to <= DEPTH_LIMIT
    }
}

impl AssayInterval {
    /// The depths lie within the depth limit, and there is one grade
    /// within the grade limit for each of `attributes` grade attributes.
    pub open spec fn wf(&self, attributes: int) -> bool {
        &&& -DEPTH_LIMIT <= self.from <= DEPTH_LIMIT
        &&& -DEPTH_LIMIT <= self.to <= DEPTH_LIMIT
        &&& self.grades.len() == attributes
        &&& forall|i: int|
            0 <= i < self.grades.len() ==> -GRADE_LIMIT <= (#[trigger] self.grades[i])
                <= GRADE_LIMIT
    }
}

/// Every collar is well formed.
pub open spec fn collars_wf(collars: Seq<HoleCollar>) -> bool {
    forall|i: int| 0 <= i < collars.len() ==> (#[trigger] collars[i]).wf()
}

/// Every station is well formed.
pub open spec fn stations_wf(stations: Seq<SurveyStation>) -> bool {
    forall|i: int| 0 <= i < stations.len() ==> (#[trigger] stations[i]).wf()
}

/// Every interval is well formed for `attributes` grade attributes.
pub open spec fn assays_wf(assays: Seq<AssayInterval>, attributes: int) -> bool {
    forall|i: int| 0 <= i < assays.len() ==> (#[trigger] assays[i]).wf(attributes)
}

/// Every row names a collar and a station that exist.
pub open spec fn rows_in_range(rows: Seq<JoinedRow>, collars: int, stations: int) -> bool {
    forall|j: int|
        0 <= j < rows.len() ==> (#[trigger] rows[j]).collar < collars && rows[j].station
            < stations
}

/// The rows of one collar among the first `m` stations: one for every
/// station with the collar's hole identifier, in the stations' order.
pub open spec fn rows_of_collar(
    collars: Seq<HoleCollar>,
    stations: Seq<SurveyStation>,
    c: int,
    m: int,
) -> Seq<JoinedRow>
    decreases m,
{
    if m <= 0 {
        Seq::empty()
    } else {
        let earlier = rows_of_collar(collars, stations, c, m - 1);
        if collars[c].hole_id@ == stations[m - 1].hole_id@ {
            earlier.push(JoinedRow { collar: c as usize, station: (m - 1) as usize })
        } else {
            earlier
        }
    }
}

/// The inner join of the first `k` collars with the stations on the hole
/// identifier: the rows of each collar, collar after collar.
pub open spec fn joined_rows(collars: Seq<HoleCollar>, stations: Seq<SurveyStation>, k: int) -> Seq<
    JoinedRow,
>
    decreases k,
{
    if k <= 0 {
        Seq::empty()
    } else {
        joined_rows(collars, stations, k - 1) + rows_of_collar(
            collars,
            stations,
            k - 1,
            stations.len() as int,
        )
    }
}

/// The trajectory row serves an interval of the hole `hole_id` that begins
/// at `depth`: it is a row of that hole, and the depth lies in the range
/// of its station, ends included.
pub open spec fn row_applies(
    collars: Seq<HoleCollar>,
    stations: Seq<SurveyStation>,
    row: JoinedRow,
    hole_id: Seq<u8>,
    depth: int,
) -> bool {
    &&& collars[row.collar as int].hole_id@ == hole_id
    &&& stations[row.station as int].from <= depth <= stations[row.station as int].to
}

/// The first trajectory row, from the row `start` on, that serves an
/// interval of the hole `hole_id` beginning at `depth`.
pub open spec fn first_applicable(
    collars: Seq<HoleCollar>,
    stations: Seq<SurveyStation>,
    rows: Seq<JoinedRow>,
    hole_id: Seq<u8>,
    depth: int,
    start: int,
) -> Option<int>
    decreases rows.len() - start,
{
    if start < 0 || start >= rows.len() {
        None
    } else if row_applies(collars, stations, rows[start], hole_id, depth) {
        Some(start)
    } else {
        first_applicable(collars, stations, rows, hole_id, depth, start + 1)
    }
}

/// What the interval number `index` becomes. It is resolved with the first
/// trajectory row that serves it; where none does, the survey data for it
/// is missing. The collar is taken in the frame whose origin is `offset`,
/// the direction is that of the row's station, and the colour is that of
/// the grade of the attribute number `attribute` on the scale.
pub open spec fn mapping_of(
    collars: Seq<HoleCollar>,
    stations: Seq<SurveyStation>,
    rows: Seq<JoinedRow>,
    directions: Seq<Vector3>,
    offset: Offset,
    assay: AssayInterval,
    index: usize,
    attribute: int,
    scale: GradeColorScale,
) -> Result<MappedSegment, EngineError> {
    match first_applicable(collars, stations, rows, assay.hole_id@, assay.from as int, 0) {
        None => Err(EngineError::MissingSurveyData),
        Some(j) => {
            let row = rows[j];
            let origin = collars[row.collar as int].position().shifted(offset);
            let direction = directions[row.station as int];
            let start = point_at(origin, direction, assay.from as int);
            let end = point_at(origin, direction, assay.to as int);
            Ok(
                MappedSegment {
                    assay: index,
                    row: j as usize,
                    segment: Segment3D { start, end },
                    transform: midpoint_at(start, end),
                    color: color_of(score_of(scale, assay.grades[attribute])),
                },
            )
        },
    }
}

/// Whether two byte strings are the same.
pub fn same_bytes(a: &Vec<u8>, b: &Vec<u8>) -> (same: bool)
    ensures
        same == (a@ == b@),
{
    if a.len() != b.len() {
        return false;
    }
    let mut i: usize = 0;
    while i < a.len()
        invariant
            i <= a.len(),
            a.len() == b.len(),
            forall|j: int| 0 <= j < i ==> a[j] == b[j],
        decreases a.len() - i,
    {
        if a[i] != b[i] {
            return false;
        }
        i += 1;
    }
    assert(a@ =~= b@);
    true
}

/// The trajectory table: the inner join of the collars with the survey
/// stations on the hole identifier, one row for every station of every
/// collar, collars in their order and within a collar stations in theirs.
pub fn join_trajectories(collars: &Vec<HoleCollar>, stations: &Vec<SurveyStation>) -> (rows: Vec<
    JoinedRow,
>)
    ensures
        rows@ == joined_rows(collars@, stations@, collars.len() as int),
        rows_in_range(rows@, collars.len() as int, stations.len() as int),
{
    let mut rows: Vec<JoinedRow> = Vec::new();
    let mut c: usize = 0;
    while c < collars.len()
        invariant
            c <= collars.len(),
            rows@ == joined_rows(collars@, stations@, c as int),
            rows_in_range(rows@, collars.len() as int, stations.len() as int),
        decreases collars.len() - c,
    {
        let ghost before = rows@;
        let mut s: usize = 0;
        while s < stations.len()
            invariant
                s <= stations.len(),
                c < collars.len(),
                rows@ == before + rows_of_collar(collars@, stations@, c as int, s as int),
                rows_in_range(rows@, collars.len() as int, stations.len() as int),
            decreases stations.len() - s,
        {
            if same_bytes(&collars[c].hole_id, &stations[s].hole_id) {
                rows.push(JoinedRow { collar: c, station: s });
                assert(rows@ =~= before + rows_of_collar(
                    collars@,
                    stations@,
                    c as int,
                    s as int + 1,
                ));
            }
            s += 1;
        }
        c += 1;
    }
    rows
}

/// The first trajectory row that serves an interval of the hole `hole_id`
/// beginning at `depth`, if there is one.
pub fn find_trajectory(
    collars: &Vec<HoleCollar>,
    stations: &Vec<SurveyStation>,
    rows: &Vec<JoinedRow>,
    hole_id: &Vec<u8>,
    depth: i64,
) -> (found: Option<usize>)
    requires
        rows_in_range(rows@, collars.len() as int, stations.len() as int),
    ensures
        found matches Some(j) ==> first_applicable(
            collars@,
            stations@,
            rows@,
            hole_id@,
            depth as int,
            0,
        ) == Some(j as int) && j < rows.len(),
        found is None ==> first_applicable(collars@, stations@, rows@, hole_id@, depth as int, 0)
            is None,
{
    let mut j: usize = 0;
    while j < rows.len()
        invariant
            j <= rows.len(),
            rows_in_range(rows@, collars.len() as int, stations.len() as int),
            first_applicable(collars@, stations@, rows@, hole_id@, depth as int, 0)
                == first_applicable(collars@, stations@, rows@, hole_id@, depth as int, j as int),
        decreases rows.len() - j,
    {
        let row = rows[j];
        let station = &stations[row.station];
        if station.from <= depth && depth <= station.to && same_bytes(
            &collars[row.collar].hole_id,
            hole_id,
        ) {
            return Some(j);
        }
        j += 1;
    }
    None
}

/// Resolves one assay interval: its two ends on the hole, the midpoint
/// where its mesh goes, and its colour.
pub fn map_interval(
    collars: &Vec<HoleCollar>,
    stations: &Vec<SurveyStation>,
    rows: &Vec<JoinedRow>,
    directions: &Vec<Vector3>,
    offset: &Offset,
    assay: &AssayInterval,
    index: usize,
    attribute: usize,
    scale: &GradeColorScale,
) -> (r: Result<MappedSegment, EngineError>)
    requires
        collars_wf(collars@),
        stations_wf(stations@),
        rows_in_range(rows@, collars.len() as int, stations.len() as int),
        directions.len() == stations.len(),
        forall|s: int| 0 <= s < directions.len() ==> (#[trigger] directions[s]).bounded(
            UNIT_ONE as int,
        ),
        offset.bounded(WORLD_LIMIT as int),
        attribute < assay.grades.len(),
        assay.wf(assay.grades.len() as int),
        scale.wf(),
    ensures
        r == mapping_of(
            collars@,
            stations@,
            rows@,
            directions@,
            *offset,
            *assay,
            index,
            attribute as int,
            *scale,
        ),
        r matches Ok(mapped) ==> mapped.segment.wf() && mapped.transform.bounded(3 * WORLD_LIMIT)
            && mapped.segment.spans_at_most(2 * DEPTH_LIMIT),
{
    match find_trajectory(collars, stations, rows, &assay.hole_id, assay.from) {
        None => Err(EngineError::MissingSurveyData),
        Some(j) => {
            let row = rows[j];
            let collar = &collars[row.collar];
            assert(collar.wf());
            let origin = Point3 { x: collar.x, y: collar.y, z: collar.z }.to_local(offset);
            let direction = directions[row.station];
            let start = interpolate_point_on_the_line(origin, direction, assay.from);
            let end = interpolate_point_on_the_line(origin, direction, assay.to);
            let segment = Segment3D { start, end };
            let transform = segment.midpoint();
            let color = material_color_scale(scale.score(assay.grades[attribute]));
            Ok(MappedSegment { assay: index, row: j, segment, transform, color })
        },
    }
}

/// Resolves every assay interval, in the table's order. An interval for
/// which no survey data applies is reported in its place and does not
/// stop the others.
pub fn map_assay_segments(
    collars: &Vec<HoleCollar>,
    stations: &Vec<SurveyStation>,
    rows: &Vec<JoinedRow>,
    directions: &Vec<Vector3>,
    offset: &Offset,
    assays: &Vec<AssayInterval>,
    attribute: usize,
    scale: &GradeColorScale,
) -> (mapped: Vec<Result<MappedSegment, EngineError>>)
    requires
        collars_wf(collars@),
        stations_wf(stations@),
        rows_in_range(rows@, collars.len() as int, stations.len() as int),
        directions.len() == stations.len(),
        forall|s: int| 0 <= s < directions.len() ==> (#[trigger] directions[s]).bounded(
            UNIT_ONE as int,
        ),
        offset.bounded(WORLD_LIMIT as int),
        forall|i: int|
            0 <= i < assays.len() ==> attribute < (#[trigger] assays[i]).grades.len()
                && assays[i].wf(assays[i].grades.len() as int),
        scale.wf(),
    ensures
        mapped.len() == assays.len(),
        forall|i: int|
            0 <= i < assays.len() ==> (#[trigger] mapped[i]) == mapping_of(
                collars@,
                stations@,
                rows@,
                directions@,
                *offset,
                assays[i],
                i as usize,
                attribute as int,
                *scale,
            ),
        forall|i: int|
            0 <= i < assays.len() ==> ((#[trigger] mapped[i]) matches Ok(m) ==> m.segment.wf()
                && m.transform.bounded(3 * WORLD_LIMIT) && m.segment.spans_at_most(
                2 * DEPTH_LIMIT,
            )),
{
    let mut mapped: Vec<Result<MappedSegment, EngineError>> = Vec::new();
    let mut i: usize = 0;
    while i < assays.len()
        invariant
            i <= assays.len(),
            mapped.len() == i,
            collars_wf(collars@),
            stations_wf(stations@),
            rows_in_range(rows@, collars.len() as int, stations.len() as int),
            directions.len() == stations.len(),
            forall|s: int| 0 <= s < directions.len() ==> (#[trigger] directions[s]).bounded(
                UNIT_ONE as int,
            ),
            offset.bounded(WORLD_LIMIT as int),
            forall|k: int|
                0 <= k < assays.len() ==> attribute < (#[trigger] assays[k]).grades.len()
                    && assays[k].wf(assays[k].grades.len() as int),
            scale.wf(),
            forall|k: int|
                0 <= k < i ==> (#[trigger] mapped[k]) == mapping_of(
                    collars@,
                    stations@,
                    rows@,
                    directions@,
                    *offset,
                    assays[k],
                    k as usize,
                    attribute as int,
                    *scale,
                ),
            forall|k: int|
                0 <= k < i ==> ((#[trigger] mapped[k]) matches Ok(m) ==> m.segment.wf()
                    && m.transform.bounded(3 * WORLD_LIMIT) && m.segment.spans_at_most(
                    2 * DEPTH_LIMIT,
                )),
        decreases assays.len() - i,
    {
        let one = map_interval(
            collars,
            stations,
            rows,
            directions,
            offset,
            &assays[i],
            i,
            attribute,
            scale,
        );
        mapped.push(one);
        i += 1;
    }
    mapped
}

} // verus!
