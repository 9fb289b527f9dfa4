use vstd::prelude::*;
use crate::decimal::lemma_parsed_within;
use crate::error::EngineError;
use crate::files::CsvFile;
use crate::normalize::{
    axis_minimum, is_axis_minimum, is_shifted, min_offset, shift_all,
};
use crate::point::{
    all_bounded, all_within, local_frame, spans_at_most, Offset, Point3, LOCAL_LIMIT, WORLD_LIMIT,
};
use crate::surface::{
    all_collinear, is_collinear, is_surface_of, is_triangle_list, surface_from_triangles,
    SurfaceMesh,
};
use crate::tabular::{
    csv_records, data_records, data_start, is_raw_row, number_at, read_rows, split_outcome,
    split_table, table_fault, Table,
};

verus! {

/// The triangle list that `delaunator::triangulate` gives for the first two
/// coordinates of these points.
pub uninterp spec fn delaunay_triangles(points: Seq<Point3>) -> Seq<usize>;

/// Calls `delaunator::triangulate` on the plan view of the points, each
/// coordinate handed over as the double of the same value, and returns the
/// `triangles` of what comes back. It is called only with three points or
/// more that do not all lie on one line. Nothing is claimed of the list
/// but that the same points give the same list.
#[verifier::external_body]
fn delaunay(points: &Vec<Point3>) -> (triangles: Vec<usize>)
    requires
        all_bounded(points@, LOCAL_LIMIT as int),
        points.len() >= 3,
        !all_collinear(points@),
    ensures
        triangles@ == delaunay_triangles(points@),
{
    let mut plan: Vec<delaunator::Point> = Vec::with_capacity(points.len());
    for p in points.iter() {
        plan.push(delaunator::Point { x: (p.x as i32).into(), y: (p.y as i32).into() });
    }
    delaunator::triangulate(&plan).triangles
}

/// What a topography keeps of the cloud it was built from: the origin of
/// its local frame, which drillholes drawn against it share.
#[derive(Clone, Copy, Debug, PartialEq, Eq, Structural)]
pub struct TopographyMesh {
    pub offset_x: i64,
    pub offset_y: i64,
    pub offset_z: i64,
}

impl TopographyMesh {
    /// The origin of the local frame.
    pub open spec fn offset_spec(&self) -> Offset {
        Offset { dx: self.offset_x, dy: self.offset_y, dz: self.offset_z }
    }

    /// The origin of the local frame.
    pub fn offset(&self) -> (r: Offset)
        ensures
            r == self.offset_spec(),
    {
        Offset { dx: self.offset_x, dy: self.offset_y, dz: self.offset_z }
    }

    /// Triangulates a point cloud given in its own local frame: a Delaunay
    /// triangulation of the plan view, the elevation carried through, with
    /// the normal of every vertex. Fewer than three points, points that all
    /// lie on one line in plan view, and points among which the
    /// triangulation finds no triangle give no surface.
    pub fn create_mesh(vec: &Vec<Point3>) -> (r: Result<SurfaceMesh, EngineError>)
        requires
            all_bounded(vec@, LOCAL_LIMIT as int),
        ensures
            r is Err <==> is_degenerate(vec@),
            r matches Err(e) ==> e == EngineError::DegenerateInput,
            r matches Ok(mesh) ==> mesh.wf() && is_surface_of(
                mesh,
                vec@,
                delaunay_triangles(vec@),
            ),
    {
        if vec.len() < 3 || is_collinear(vec) {
            return Err(EngineError::DegenerateInput);
        }
        let triangles = delaunay(vec);
        surface_from_triangles(vec, &triangles)
    }

    /// Builds the topographic surface of a point cloud: the cloud is moved
    /// into its local frame and triangulated there.
    pub fn from_points(vec: Vec<Point3>) -> (r: Result<(SurfaceMesh, TopographyMesh), EngineError>)
        requires
            all_bounded(vec@, WORLD_LIMIT as int),
            spans_at_most(vec@, LOCAL_LIMIT as int),
        ensures
            is_topography_of(r, vec@),
    {
        if vec.len() == 0 {
            return Err(EngineError::EmptyInput);
        }
        let offset = axis_minimum(&vec);
        proof {
            crate::normalize::lemma_minimum_is_bounded(vec@, offset, WORLD_LIMIT as int);
        }
        let local = shift_all(&vec, &offset);
        proof {
            lemma_local_frame_bounded(vec@, offset, local@);
        }
        match TopographyMesh::create_mesh(&local) {
            Ok(mesh) => Ok(
                (
                    mesh,
                    TopographyMesh { offset_x: offset.dx, offset_y: offset.dy, offset_z: offset.dz },
                ),
            ),
            Err(e) => Err(e),
        }
    }

    /// Builds the topographic surface of the points that a table holds in
    /// its first three columns, `x`, `y` and `z`. A field that is no number
    /// ends the reading. So does a point that lies further from the
    /// smallest coordinate of the cloud than a mesh can hold: it is a
    /// fault of its record, in the column of that coordinate.
    pub fn from_table(table: &Table, header: bool) -> (r: Result<
        (SurfaceMesh, TopographyMesh),
        EngineError,
    >)
        ensures
            is_topography_of_table(r, table@, header),
    {
        let mut texts: Vec<usize> = Vec::new();
        let mut numbers: Vec<usize> = Vec::new();
        numbers.push(0);
        numbers.push(1);
        numbers.push(2);
        let mut limits: Vec<i64> = Vec::new();
        limits.push(WORLD_LIMIT);
        limits.push(WORLD_LIMIT);
        limits.push(WORLD_LIMIT);
        assert(texts@ =~= Seq::<usize>::empty());
        assert(numbers@ =~= point_columns());
        assert(limits@ =~= point_limits());
        let first = data_start(table, header);
        let rows = match read_rows(table, first, &texts, &numbers, &limits) {
            Ok(rows) => rows,
            Err(e) => {
                return Err(e);
            },
        };
        let ghost data = data_records(table@, header);
        let mut points: Vec<Point3> = Vec::new();
        let mut i: usize = 0;
        while i < rows.len()
            invariant
                i <= rows.len(),
                points.len() == i,
                rows.len() == data.len(),
                forall|j: int|
                    0 <= j < rows.len() ==> is_raw_row(
                        #[trigger] rows[j],
                        data[j],
                        Seq::<usize>::empty(),
                        point_columns(),
                        point_limits(),
                    ),
                forall|j: int| 0 <= j < i ==> (#[trigger] points[j]) == point_of_record(data[j]),
                forall|j: int| 0 <= j < i ==> (#[trigger] points[j]).bounded(WORLD_LIMIT as int),
            decreases rows.len() - i,
        {
            let raw = &rows[i];
            proof {
                let row = data[i as int];
                assert(is_raw_row(
                    *raw,
                    row,
                    Seq::<usize>::empty(),
                    point_columns(),
                    point_limits(),
                ));
                assert(number_at(row, point_columns()[0] as int, point_limits()[0] as int)
                    == Some(raw.numbers[0] as int));
                assert(number_at(row, point_columns()[1] as int, point_limits()[1] as int)
                    == Some(raw.numbers[1] as int));
                assert(number_at(row, point_columns()[2] as int, point_limits()[2] as int)
                    == Some(raw.numbers[2] as int));
                lemma_parsed_within(row[0], WORLD_LIMIT as int);
                lemma_parsed_within(row[1], WORLD_LIMIT as int);
                lemma_parsed_within(row[2], WORLD_LIMIT as int);
            }
            points.push(Point3 { x: raw.numbers[0], y: raw.numbers[1], z: raw.numbers[2] });
            i += 1;
        }
        assert(points@ =~= points_of_records(data));
        if points.len() == 0 {
            return Err(EngineError::EmptyInput);
        }
        let offset = axis_minimum(&points);
        match find_too_far(&points, &offset) {
            Some((row, column)) => Err(EngineError::FieldParse { row, column }),
            None => {
                proof {
                    lemma_none_too_far(points@, offset);
                }
                TopographyMesh::from_points(points)
            },
        }
    }

    /// Builds the topographic surface of the points written in a
    /// delimited text, which `csv` says how to read.
    pub fn from_csv(data: &Vec<u8>, csv: &CsvFile) -> (r: Result<
        (SurfaceMesh, TopographyMesh),
        EngineError,
    >)
        ensures
            match split_outcome(csv_records(data@, csv.sep), csv.header) {
                Err(e) => r == Err::<(SurfaceMesh, TopographyMesh), EngineError>(e),
                Ok(records) => is_topography_of_table(r, records, csv.header),
            },
    {
        match split_table(data, csv.sep, csv.header) {
            Ok(table) => TopographyMesh::from_table(&table, csv.header),
            Err(e) => Err(e),
        }
    }
}

/// The cloud, given in its local frame, admits no surface: it has fewer
/// than three points, or all its points lie on one line in plan view, or
/// the triangulation gives no triangle list for it.
pub open spec fn is_degenerate(local: Seq<Point3>) -> bool {
    ||| local.len() < 3
    ||| all_collinear(local)
    ||| !is_triangle_list(delaunay_triangles(local), local.len() as int)
}

/// `r` is what building the topographic surface of the cloud gives: no
/// point at all is an empty input; a cloud that admits no surface is
/// degenerate; else the
/// offset is the per-axis minimum of the cloud, and the mesh is the
/// surface that the triangulation spans over the cloud in its local frame.
pub open spec fn is_topography_of(
    r: Result<(SurfaceMesh, TopographyMesh), EngineError>,
    points: Seq<Point3>,
) -> bool {
    if points.len() == 0 {
        r == Err::<(SurfaceMesh, TopographyMesh), EngineError>(EngineError::EmptyInput)
    } else {
        let local = local_frame(points, min_offset(points));
        let triangles = delaunay_triangles(local);
        &&& r is Err <==> is_degenerate(local)
        &&& r matches Err(e) ==> e == EngineError::DegenerateInput
        &&& r matches Ok((mesh, topography)) ==> {
            &&& topography.offset_spec() == min_offset(points)
            &&& mesh.wf()
            &&& is_surface_of(mesh, local, triangles)
        }
    }
}

/// The columns of a table of points: the first three.
pub open spec fn point_columns() -> Seq<usize> {
    seq![0usize, 1usize, 2usize]
}

/// The limits of the coordinates of a table of points.
pub open spec fn point_limits() -> Seq<i64> {
    seq![WORLD_LIMIT, WORLD_LIMIT, WORLD_LIMIT]
}

/// The point that a record holds in its first three fields.
pub open spec fn point_of_record(row: Seq<Seq<u8>>) -> Point3 {
    Point3 {
        x: number_at(row, 0, WORLD_LIMIT as int).unwrap() as i64,
        y: number_at(row, 1, WORLD_LIMIT as int).unwrap() as i64,
        z: number_at(row, 2, WORLD_LIMIT as int).unwrap() as i64,
    }
}

/// The points that the records hold, in the records' order.
pub open spec fn points_of_records(data: Seq<Seq<Seq<u8>>>) -> Seq<Point3> {
    Seq::new(data.len(), |i: int| point_of_record(data[i]))
}

/// The axis on which `p` lies further than `LOCAL_LIMIT` from the origin
/// `offset`, the first such.
pub open spec fn far_axis(p: Point3, offset: Offset) -> Option<int> {
    if p.x - offset.dx > LOCAL_LIMIT {
        Some(0)
    } else if p.y - offset.dy > LOCAL_LIMIT {
        Some(1)
    } else if p.z - offset.dz > LOCAL_LIMIT {
        Some(2)
    } else {
        None
    }
}

/// The first point from `start` on that lies too far from the origin, with
/// the axis on which it does.
pub open spec fn first_too_far(points: Seq<Point3>, offset: Offset, start: int) -> Option<
    (int, int),
>
    decreases points.len() - start,
{
    if start < 0 || start >= points.len() {
        None
    } else {
        match far_axis(points[start], offset) {
            Some(axis) => Some((start, axis)),
            None => first_too_far(points, offset, start + 1),
        }
    }
}

/// `r` is what building the topographic surface of a table of points
/// gives: the first fault of the reading, or of a point that lies too far
/// from the smallest coordinates, or else what the cloud of its points
/// gives.
pub open spec fn is_topography_of_table(
    r: Result<(SurfaceMesh, TopographyMesh), EngineError>,
    table: Seq<Seq<Seq<u8>>>,
    header: bool,
) -> bool {
    let data = data_records(table, header);
    match table_fault(data, Seq::<usize>::empty(), point_columns(), point_limits(), 0) {
        Some((row, column)) => r == Err::<(SurfaceMesh, TopographyMesh), EngineError>(
            EngineError::FieldParse { row: row as usize, column: column as usize },
        ),
        None => {
            let points = points_of_records(data);
            if points.len() == 0 {
                r == Err::<(SurfaceMesh, TopographyMesh), EngineError>(EngineError::EmptyInput)
            } else {
                match first_too_far(points, min_offset(points), 0) {
                    Some((row, column)) => r == Err::<
                        (SurfaceMesh, TopographyMesh),
                        EngineError,
                    >(EngineError::FieldParse { row: row as usize, column: column as usize }),
                    None => is_topography_of(r, points),
                }
            }
        },
    }
}

/// The first point that lies too far from the origin, with the axis on
/// which it does.
pub fn find_too_far(points: &Vec<Point3>, offset: &Offset) -> (r: Option<(usize, usize)>)
    requires
        all_bounded(points@, WORLD_LIMIT as int),
        offset.bounded(WORLD_LIMIT as int),
    ensures
        r matches Some((row, axis)) ==> first_too_far(points@, *offset, 0) == Some(
            (row as int, axis as int),
        ),
        r is None ==> first_too_far(points@, *offset, 0) is None,
        r is None ==> forall|i: int|
            0 <= i < points.len() ==> far_axis(#[trigger] points[i], *offset) is None,
{
    let mut i: usize = 0;
    while i < points.len()
        invariant
            i <= points.len(),
            all_bounded(points@, WORLD_LIMIT as int),
            offset.bounded(WORLD_LIMIT as int),
            first_too_far(points@, *offset, 0) == first_too_far(points@, *offset, i as int),
            forall|j: int| 0 <= j < i ==> far_axis(#[trigger] points[j], *offset) is None,
        decreases points.len() - i,
    {
        let p = points[i];
        assert(p.bounded(WORLD_LIMIT as int));
        if p.x - offset.dx > LOCAL_LIMIT {
            return Some((i, 0));
        }
        if p.y - offset.dy > LOCAL_LIMIT {
            return Some((i, 1));
        }
        if p.z - offset.dz > LOCAL_LIMIT {
            return Some((i, 2));
        }
        i += 1;
    }
    None
}

/// Whether a topographic surface can be built from the cloud: every
/// coordinate lies within the survey limit, and on no axis do two points
/// lie further apart than a mesh can hold.
pub fn fits_local_frame(points: &Vec<Point3>) -> (ok: bool)
    ensures
        ok == (all_bounded(points@, WORLD_LIMIT as int) && spans_at_most(
            points@,
            LOCAL_LIMIT as int,
        )),
{
    if !all_within(points, WORLD_LIMIT) {
        return false;
    }
    if points.len() == 0 {
        return true;
    }
    let offset = axis_minimum(points);
    proof {
        crate::normalize::lemma_minimum_is_bounded(points@, offset, WORLD_LIMIT as int);
    }
    match find_too_far(points, &offset) {
        None => {
            proof {
                lemma_none_too_far(points@, offset);
            }
            true
        },
        Some((row, axis)) => {
            proof {
                let ix = choose|i: int|
                    0 <= i < points.len() && (#[trigger] points[i]).x == offset.dx;
                let iy = choose|i: int|
                    0 <= i < points.len() && (#[trigger] points[i]).y == offset.dy;
                let iz = choose|i: int|
                    0 <= i < points.len() && (#[trigger] points[i]).z == offset.dz;
                lemma_first_too_far(points@, offset, 0);
                let far = points[row as int];
                assert(far_axis(far, offset) == Some(axis as int));
                if spans_at_most(points@, LOCAL_LIMIT as int) {
                    assert(far.x - points[ix].x <= LOCAL_LIMIT);
                    assert(far.y - points[iy].y <= LOCAL_LIMIT);
                    assert(far.z - points[iz].z <= LOCAL_LIMIT);
                }
            }
            false
        },
    }
}

/// The first point that lies too far does lie too far, on the axis named.
pub proof fn lemma_first_too_far(points: Seq<Point3>, offset: Offset, start: int)
    requires
        0 <= start,
    ensures
        first_too_far(points, offset, start) matches Some((row, axis)) ==> start <= row
            < points.len() && far_axis(points[row], offset) == Some(axis),
    decreases points.len() - start,
{
    if start < points.len() && far_axis(points[start], offset) is None {
        lemma_first_too_far(points, offset, start + 1);
    }
}

/// A cloud of which no point lies too far from its per-axis minimum spans
/// at most `LOCAL_LIMIT` on every axis.
pub proof fn lemma_none_too_far(points: Seq<Point3>, offset: Offset)
    requires
        is_axis_minimum(points, offset),
        forall|i: int| 0 <= i < points.len() ==> far_axis(#[trigger] points[i], offset) is None,
    ensures
        spans_at_most(points, LOCAL_LIMIT as int),
{
    assert forall|i: int, j: int| 0 <= i < points.len() && 0 <= j < points.len() implies {
        &&& (#[trigger] points[i]).x - (#[trigger] points[j]).x <= LOCAL_LIMIT
        &&& points[i].y - points[j].y <= LOCAL_LIMIT
        &&& points[i].z - points[j].z <= LOCAL_LIMIT
    } by {
        assert(far_axis(points[i], offset) is None);
        assert(offset.dx <= points[j].x && offset.dy <= points[j].y && offset.dz <= points[j].z);
    }
}

/// A cloud that spans at most `LOCAL_LIMIT` on every axis lies, in its
/// local frame, within that limit.
proof fn lemma_local_frame_bounded(points: Seq<Point3>, offset: Offset, local: Seq<Point3>)
    requires
        spans_at_most(points, LOCAL_LIMIT as int),
        is_axis_minimum(points, offset),
        is_shifted(points, offset, local),
    ensures
        all_bounded(local, LOCAL_LIMIT as int),
{
    let ix = choose|i: int| 0 <= i < points.len() && (#[trigger] points[i]).x == offset.dx;
    let iy = choose|i: int| 0 <= i < points.len() && (#[trigger] points[i]).y == offset.dy;
    let iz = choose|i: int| 0 <= i < points.len() && (#[trigger] points[i]).z == offset.dz;
    assert forall|i: int| 0 <= i < local.len() implies (#[trigger] local[i]).bounded(
        LOCAL_LIMIT as int,
    ) by {
        assert(local[i].coords() == points[i].minus(offset));
        assert(points[i].x - points[ix].x <= LOCAL_LIMIT);
        assert(points[i].y - points[iy].y <= LOCAL_LIMIT);
        assert(points[i].z - points[iz].z <= LOCAL_LIMIT);
    }
}

} // verus!
