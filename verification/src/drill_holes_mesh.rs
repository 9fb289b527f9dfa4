use vstd::prelude::*;
use crate::batch::{
    all_parts_wf, combine_meshes, combined_colors, combined_indices, combined_normals,
    combined_vertices, index_total, lemma_combined_counts, vertex_total, CombinedMesh, MeshPart,
    Rgba,
};
use crate::dataset::DrillholeDataset;
use crate::drillhole::{
    join_trajectories, joined_rows, map_assay_segments, mapping_of, AssayInterval, MappedSegment,
    DEPTH_LIMIT,
};
use crate::error::EngineError;
use crate::files::CsvFile;
use crate::grade::{quantile_times_four, sorted_grades, GradeColorScale};
use crate::point::{Offset, Point3, LOCAL_LIMIT, WORLD_LIMIT};
use crate::prism::{generate_triangular_prisma, prism_indices, prism_normal, prism_vertex};
use crate::vector::{Vector3, UNIT_ONE};

verus! {

/// The drillholes to be drawn: their four files, in the order assay,
/// header, lithology, survey, and the origin of the local frame of the
/// topography that they are drawn against.
#[derive(Clone, Debug, PartialEq, Eq)]
pub struct DrillHolesMesh {
    pub files: [CsvFile; 4],
    pub offset_x: Option<i64>,
    pub offset_y: Option<i64>,
    pub offset_z: Option<i64>,
}

/// The grade of every interval for the attribute number `attribute`.
pub open spec fn attribute_grades(intervals: Seq<AssayInterval>, attribute: int) -> Seq<i64> {
    Seq::new(intervals.len(), |i: int| intervals[i].grades[attribute])
}

/// Those of the first `k` intervals that were resolved, in their order.
pub open spec fn kept_indices(outcomes: Seq<Result<MappedSegment, EngineError>>, k: int) -> Seq<
    usize,
>
    decreases k,
{
    if k <= 0 {
        Seq::empty()
    } else if outcomes[k - 1] is Ok {
        kept_indices(outcomes, k - 1).push((k - 1) as usize)
    } else {
        kept_indices(outcomes, k - 1)
    }
}

/// Those of the first `k` intervals for which survey data is missing, in
/// their order.
pub open spec fn skipped_indices(outcomes: Seq<Result<MappedSegment, EngineError>>, k: int) -> Seq<
    usize,
>
    decreases k,
{
    if k <= 0 {
        Seq::empty()
    } else if outcomes[k - 1] is Err {
        skipped_indices(outcomes, k - 1).push((k - 1) as usize)
    } else {
        skipped_indices(outcomes, k - 1)
    }
}

/// The vertex `j` of the prism of a resolved interval, placed in the
/// shared frame. Like every mesh, the prism has the elevation on the
/// second axis: it is built round the segment with its ends in the axes
/// of meshes, and placed at the midpoint in those axes.
pub open spec fn placed_prism_vertex(m: MappedSegment, radius: int, j: int) -> Point3 {
    let v = prism_vertex(m.segment.start.mesh_axes(), m.segment.end.mesh_axes(), radius, j);
    let at = m.transform.mesh_axes();
    Point3 { x: (v.0 + at.x) as i64, y: (v.1 + at.y) as i64, z: (v.2 + at.z) as i64 }
}

/// `part` is the mesh of a resolved interval: its prism with the given
/// radius, in the axes of meshes, to be placed at its midpoint, every
/// vertex in its one colour.
pub open spec fn is_segment_part(part: MeshPart, m: MappedSegment, radius: int) -> bool {
    &&& part.wf()
    &&& part.transform == m.transform.mesh_axes()
    &&& part.mesh.vertices.len() == 6
    &&& part.mesh.indices@ == prism_indices()
    &&& forall|j: int|
        0 <= j < 6 ==> (#[trigger] part.mesh.vertices[j]).coords() == prism_vertex(
            m.segment.start.mesh_axes(),
            m.segment.end.mesh_axes(),
            radius,
            j,
        )
    &&& forall|j: int|
        0 <= j < 6 ==> (#[trigger] part.mesh.normals[j]).coords() == prism_normal(
            m.segment.start.mesh_axes(),
            m.segment.end.mesh_axes(),
            j,
        )
    &&& forall|j: int| 0 <= j < 6 ==> (#[trigger] part.colors[j]) == m.color
}

/// The part number `p` is the mesh of the resolved interval number `p`.
pub open spec fn is_kept_part(
    parts: Seq<MeshPart>,
    outcomes: Seq<Result<MappedSegment, EngineError>>,
    kept: Seq<usize>,
    radius: int,
    p: int,
) -> bool {
    &&& kept[p] < outcomes.len()
    &&& outcomes[kept[p] as int] is Ok
    &&& is_segment_part(parts[p], outcomes[kept[p] as int]->Ok_0, radius)
}

/// `combined` is the one mesh of the resolved intervals: the prism of each,
/// six vertices and eight triangles, placed at its midpoint and in its
/// colour, one interval after the other. The mesh has the elevation on
/// the second axis, as the topography has.
pub open spec fn is_drill_mesh_of(
    combined: CombinedMesh,
    outcomes: Seq<Result<MappedSegment, EngineError>>,
    radius: int,
) -> bool {
    let kept = kept_indices(outcomes, outcomes.len() as int);
    &&& combined.wf()
    &&& combined.mesh.vertices.len() == 6 * kept.len()
    &&& combined.mesh.indices.len() == 24 * kept.len()
    &&& forall|p: int, j: int|
        0 <= p < kept.len() && 0 <= j < 6 ==> (#[trigger] combined.mesh.vertices[6 * p + j])
            == placed_prism_vertex(outcomes[kept[p] as int]->Ok_0, radius, j)
    &&& forall|p: int, j: int|
        0 <= p < kept.len() && 0 <= j < 6 ==> (#[trigger] combined.mesh.normals[6 * p
            + j]).coords() == prism_normal(
            outcomes[kept[p] as int]->Ok_0.segment.start.mesh_axes(),
            outcomes[kept[p] as int]->Ok_0.segment.end.mesh_axes(),
            j,
        )
    &&& forall|p: int, j: int|
        0 <= p < kept.len() && 0 <= j < 6 ==> (#[trigger] combined.colors[6 * p + j])
            == outcomes[kept[p] as int]->Ok_0.color
    &&& forall|p: int, t: int|
        0 <= p < kept.len() && 0 <= t < 24 ==> (#[trigger] combined.mesh.indices[24 * p + t])
            == prism_indices()[t] + 6 * p
}

/// What every interval of the dataset becomes, in the table's order.
pub open spec fn outcomes_of(
    dataset: DrillholeDataset,
    directions: Seq<Vector3>,
    offset: Offset,
    attribute: int,
    scale: GradeColorScale,
) -> Seq<Result<MappedSegment, EngineError>> {
    Seq::new(
        dataset.assays.intervals.len() as nat,
        |i: int|
            mapping_of(
                dataset.collars@,
                dataset.stations@,
                joined_rows(dataset.collars@, dataset.stations@, dataset.collars.len() as int),
                directions,
                offset,
                dataset.assays.intervals[i],
                i as usize,
                attribute,
                scale,
            ),
    )
}

/// As many copies of one colour as a mesh has vertices.
pub fn uniform_colors(color: Rgba, n: usize) -> (colors: Vec<Rgba>)
    ensures
        colors.len() == n,
        forall|j: int| 0 <= j < n ==> (#[trigger] colors[j]) == color,
{
    let mut colors: Vec<Rgba> = Vec::new();
    let mut j: usize = 0;
    while j < n
        invariant
            j <= n,
            colors.len() == j,
            forall|i: int| 0 <= i < j ==> (#[trigger] colors[i]) == color,
        decreases n - j,
    {
        colors.push(color);
        j += 1;
    }
    colors
}

/// The mesh of one resolved interval.
pub fn segment_part(m: &MappedSegment, radius: i64) -> (part: MeshPart)
    requires
        m.segment.wf(),
        m.segment.spans_at_most(2 * DEPTH_LIMIT),
        m.transform.bounded(3 * WORLD_LIMIT),
        0 <= radius <= LOCAL_LIMIT,
    ensures
        is_segment_part(part, *m, radius as int),
{
    let start = m.segment.start.to_mesh_axes();
    let end = m.segment.end.to_mesh_axes();
    let mesh = generate_triangular_prisma(&start, &end, radius);
    let colors = uniform_colors(m.color, 6);
    MeshPart { mesh, transform: m.transform.to_mesh_axes(), colors }
}

/// The meshes of the resolved intervals, in their order, and the numbers
/// of the intervals that were not resolved.
pub fn collect_parts(mapped: &Vec<Result<MappedSegment, EngineError>>, radius: i64) -> (r: (
    Vec<MeshPart>,
    Vec<usize>,
))
    requires
        0 <= radius <= LOCAL_LIMIT,
        forall|i: int|
            0 <= i < mapped.len() ==> ((#[trigger] mapped[i]) matches Ok(m) ==> m.segment.wf()
                && m.transform.bounded(3 * WORLD_LIMIT) && m.segment.spans_at_most(
                2 * DEPTH_LIMIT,
            )),
    ensures
        r.1@ == skipped_indices(mapped@, mapped.len() as int),
        r.0.len() == kept_indices(mapped@, mapped.len() as int).len(),
        r.0.len() <= mapped.len(),
        forall|p: int|
            0 <= p < r.0.len() ==> #[trigger] is_kept_part(
                r.0@,
                mapped@,
                kept_indices(mapped@, mapped.len() as int),
                radius as int,
                p,
            ),
{
    let mut parts: Vec<MeshPart> = Vec::new();
    let mut skipped: Vec<usize> = Vec::new();
    let mut i: usize = 0;
    while i < mapped.len()
        invariant
            i <= mapped.len(),
            0 <= radius <= LOCAL_LIMIT,
            forall|k: int|
                0 <= k < mapped.len() ==> ((#[trigger] mapped[k]) matches Ok(m)
                    ==> m.segment.wf() && m.transform.bounded(3 * WORLD_LIMIT)
                    && m.segment.spans_at_most(2 * DEPTH_LIMIT)),
            skipped@ == skipped_indices(mapped@, i as int),
            parts.len() == kept_indices(mapped@, i as int).len(),
            parts.len() <= i,
            forall|p: int|
                0 <= p < parts.len() ==> #[trigger] is_kept_part(
                    parts@,
                    mapped@,
                    kept_indices(mapped@, i as int),
                    radius as int,
                    p,
                ),
        decreases mapped.len() - i,
    {
        let ghost before = kept_indices(mapped@, i as int);
        let ghost earlier = parts@;
        match &mapped[i] {
            Ok(m) => {
                let part = segment_part(m, radius);
                parts.push(part);
                proof {
                    let after = kept_indices(mapped@, i + 1);
                    assert(after == before.push(i));
                    assert forall|p: int| 0 <= p < parts.len() implies #[trigger] is_kept_part(
                        parts@,
                        mapped@,
                        after,
                        radius as int,
                        p,
                    ) by {
                        if p < before.len() {
                            assert(is_kept_part(earlier, mapped@, before, radius as int, p));
                            assert(after[p] == before[p]);
                            assert(parts[p] == earlier[p]);
                        } else {
                            assert(after[p] == i);
                            assert(parts[p] == part);
                        }
                    }
                }
            },
            Err(_) => {
                skipped.push(i);
            },
        }
        i += 1;
    }
    (parts, skipped)
}

/// Where every vertex and index of the merged mesh comes from when every
/// part is a prism: the part `p` fills the vertices from `6 p` and the
/// indices from `24 p`.
pub proof fn lemma_prism_layout(parts: Seq<MeshPart>, k: int)
    requires
        0 <= k <= parts.len(),
        all_parts_wf(parts),
        forall|p: int|
            0 <= p < parts.len() ==> (#[trigger] parts[p]).mesh.vertices.len() == 6
                && parts[p].mesh.indices.len() == 24,
    ensures
        vertex_total(parts, k) == 6 * k,
        index_total(parts, k) == 24 * k,
        forall|p: int, j: int|
            0 <= p < k && 0 <= j < 6 ==> {
                &&& (#[trigger] combined_vertices(parts, k)[6 * p + j])
                    == parts[p].placed_vertices()[j]
                &&& combined_normals(parts, k)[6 * p + j] == parts[p].mesh.normals[j]
                &&& combined_colors(parts, k)[6 * p + j] == parts[p].colors[j]
            },
        forall|p: int, t: int|
            0 <= p < k && 0 <= t < 24 ==> (#[trigger] combined_indices(parts, k)[24 * p + t])
                == parts[p].shifted_indices(6 * p)[t],
    decreases k,
{
    if k > 0 {
        lemma_prism_layout(parts, k - 1);
        lemma_combined_counts(parts, k - 1);
        let last = parts[k - 1];
        assert(last.wf());
        assert forall|p: int, j: int| 0 <= p < k && 0 <= j < 6 implies {
            &&& (#[trigger] combined_vertices(parts, k)[6 * p + j])
                == parts[p].placed_vertices()[j]
            &&& combined_normals(parts, k)[6 * p + j] == parts[p].mesh.normals[j]
            &&& combined_colors(parts, k)[6 * p + j] == parts[p].colors[j]
        } by {
            if p < k - 1 {
                assert(combined_vertices(parts, k - 1)[6 * p + j]
                    == parts[p].placed_vertices()[j]);
            }
        }
        assert forall|p: int, t: int| 0 <= p < k && 0 <= t < 24 implies (
        #[trigger] combined_indices(parts, k)[24 * p + t]) == parts[p].shifted_indices(6 * p)[t] by {
            if p < k - 1 {
                assert(combined_indices(parts, k - 1)[24 * p + t] == parts[p].shifted_indices(
                    6 * p,
                )[t]);
            }
        }
    }
}

impl DrillHolesMesh {
    /// The origin of the local frame is known.
    pub open spec fn has_offset(&self) -> bool {
        self.offset_x is Some && self.offset_y is Some && self.offset_z is Some
    }

    /// The origin of the local frame.
    pub open spec fn offset_spec(&self) -> Offset {
        Offset {
            dx: self.offset_x->Some_0,
            dy: self.offset_y->Some_0,
            dz: self.offset_z->Some_0,
        }
    }

    /// Whether the mesh of the dataset can be built: the origin of the
    /// local frame is known and within the survey limit, every row of the
    /// dataset is within the limits of its kind, the attribute exists,
    /// there is one unit direction for every station, the radius is
    /// within the limit of a mesh, and six vertices for every interval can
    /// be numbered in 32 bits.
    pub fn can_build(
        drill_holes: &DrillHolesMesh,
        dataset: &DrillholeDataset,
        directions: &Vec<Vector3>,
        attribute: usize,
        radius: i64,
    ) -> (ok: bool)
        ensures
            ok == {
                &&& drill_holes.has_offset()
                &&& drill_holes.offset_spec().bounded(WORLD_LIMIT as int)
                &&& dataset.wf()
                &&& attribute < dataset.assays.attributes.len()
                &&& directions.len() == dataset.stations.len()
                &&& forall|s: int|
                    0 <= s < directions.len() ==> (#[trigger] directions[s]).bounded(
                        UNIT_ONE as int,
                    )
                &&& 0 <= radius <= LOCAL_LIMIT
                &&& 6 * dataset.assays.intervals.len() <= u32::MAX
            },
    {
        let known = match (drill_holes.offset_x, drill_holes.offset_y, drill_holes.offset_z) {
            (Some(dx), Some(dy), Some(dz)) => -WORLD_LIMIT <= dx && dx <= WORLD_LIMIT
                && -WORLD_LIMIT <= dy && dy <= WORLD_LIMIT && -WORLD_LIMIT <= dz && dz
                <= WORLD_LIMIT,
            _ => false,
        };
        if !known || !dataset.is_wf() || attribute >= dataset.assays.attributes.len()
            || directions.len() != dataset.stations.len() || radius < 0 || radius > LOCAL_LIMIT
            || dataset.assays.intervals.len() > 715_827_882 {
            return false;
        }
        let mut s: usize = 0;
        while s < directions.len()
            invariant
                s <= directions.len(),
                forall|j: int| 0 <= j < s ==> (#[trigger] directions[j]).bounded(UNIT_ONE as int),
            decreases directions.len() - s,
        {
            let d = directions[s];
            if !(-UNIT_ONE <= d.x && d.x <= UNIT_ONE && -UNIT_ONE <= d.y && d.y <= UNIT_ONE
                && -UNIT_ONE <= d.z && d.z <= UNIT_ONE) {
                return false;
            }
            s += 1;
        }
        true
    }

    /// Builds the one mesh of a drillhole dataset. The grade scale is that
    /// of the chosen attribute over all intervals; the collars are joined
    /// with the survey stations; every assay interval that survey data
    /// applies to becomes a prism of the given radius round its segment, in
    /// the colour of its grade, placed at its midpoint; and the prisms are
    /// merged. The intervals without survey data are left out, and their
    /// numbers are returned beside the mesh.
    ///
    /// The direction of a hole at each survey station is given by the
    /// caller, one unit vector for every station.
    pub fn from_csv(
        drill_holes: &DrillHolesMesh,
        dataset: &DrillholeDataset,
        directions: &Vec<Vector3>,
        attribute: usize,
        radius: i64,
    ) -> (r: Result<(CombinedMesh, Vec<usize>), EngineError>)
        requires
            drill_holes.has_offset(),
            drill_holes.offset_spec().bounded(WORLD_LIMIT as int),
            dataset.wf(),
            attribute < dataset.assays.attributes.len(),
            directions.len() == dataset.stations.len(),
            forall|s: int| 0 <= s < directions.len() ==> (#[trigger] directions[s]).bounded(
                UNIT_ONE as int,
            ),
            0 <= radius <= LOCAL_LIMIT,
            6 * dataset.assays.intervals.len() <= u32::MAX,
        ensures
            dataset.assays.intervals.len() == 0 ==> r == Err::<
                (CombinedMesh, Vec<usize>),
                EngineError,
            >(EngineError::EmptyInput),
            dataset.assays.intervals.len() > 0 ==> ({
                let sorted = sorted_grades(
                    attribute_grades(dataset.assays.intervals@, attribute as int),
                );
                let p25 = quantile_times_four(sorted, 1);
                let p75 = quantile_times_four(sorted, 3);
                &&& p25 <= p75
                &&& p25 == p75 ==> r == Err::<(CombinedMesh, Vec<usize>), EngineError>(
                    EngineError::DegenerateScale,
                )
                &&& p25 < p75 ==> r is Ok && {
                    let outcomes = outcomes_of(
                        *dataset,
                        directions@,
                        drill_holes.offset_spec(),
                        attribute as int,
                        GradeColorScale { p25: p25 as i64, p75: p75 as i64 },
                    );
                    &&& r->Ok_0.1@ == skipped_indices(outcomes, outcomes.len() as int)
                    &&& is_drill_mesh_of(r->Ok_0.0, outcomes, radius as int)
                }
            }),
    {
        let intervals = &dataset.assays.intervals;
        let mut grades: Vec<i64> = Vec::new();
        let mut i: usize = 0;
        while i < intervals.len()
            invariant
                i <= intervals.len(),
                grades.len() == i,
                dataset.wf(),
                intervals == &dataset.assays.intervals,
                attribute < dataset.assays.attributes.len(),
                forall|j: int| 0 <= j < i ==> grades[j] == intervals[j].grades[attribute as int],
            decreases intervals.len() - i,
        {
            assert(intervals[i as int].wf(dataset.assays.attributes.len() as int));
            grades.push(intervals[i].grades[attribute]);
            i += 1;
        }
        assert(grades@ =~= attribute_grades(intervals@, attribute as int));
        assert(crate::grade::grades_bounded(grades@)) by {
            assert forall|j: int| 0 <= j < grades.len() implies -crate::grade::GRADE_LIMIT <= (
            #[trigger] grades[j]) <= crate::grade::GRADE_LIMIT by {
                assert(intervals[j].wf(dataset.assays.attributes.len() as int));
            }
        }
        let scale = match GradeColorScale::from_grades(&grades) {
            Ok(scale) => scale,
            Err(e) => {
                return Err(e);
            },
        };
        let offset = Offset {
            dx: drill_holes.offset_x.unwrap(),
            dy: drill_holes.offset_y.unwrap(),
            dz: drill_holes.offset_z.unwrap(),
        };
        let rows = join_trajectories(&dataset.collars, &dataset.stations);
        assert forall|k: int| 0 <= k < intervals.len() implies attribute < (
        #[trigger] intervals[k]).grades.len() && intervals[k].wf(
            intervals[k].grades.len() as int,
        ) by {
            assert(intervals[k].wf(dataset.assays.attributes.len() as int));
        }
        let mapped = map_assay_segments(
            &dataset.collars,
            &dataset.stations,
            &rows,
            directions,
            &offset,
            intervals,
            attribute,
            &scale,
        );
        let ghost outcomes = outcomes_of(*dataset, directions@, offset, attribute as int, scale);
        assert(mapped@ =~= outcomes);
        let (parts, skipped) = collect_parts(&mapped, radius);
        let ghost kept = kept_indices(outcomes, outcomes.len() as int);
        proof {
            assert forall|p: int| 0 <= p < parts.len() implies (#[trigger] parts[p]).wf()
                && parts[p].mesh.vertices.len() == 6 && parts[p].mesh.indices.len() == 24 by {
                assert(is_kept_part(parts@, mapped@, kept, radius as int, p));
            }
            lemma_prism_layout(parts@, parts.len() as int);
        }
        let combined = combine_meshes(&parts);
        proof {
            assert forall|p: int, j: int| 0 <= p < kept.len() && 0 <= j < 6 implies (
            #[trigger] combined.mesh.vertices[6 * p + j]) == placed_prism_vertex(
                outcomes[kept[p] as int]->Ok_0,
                radius as int,
                j,
            ) by {
                let m = outcomes[kept[p] as int]->Ok_0;
                assert(is_kept_part(parts@, mapped@, kept, radius as int, p));
                assert(combined_vertices(parts@, parts.len() as int)[6 * p + j]
                    == parts[p].placed_vertices()[j]);
                assert(parts[p].mesh.vertices[j].coords() == prism_vertex(
                    m.segment.start.mesh_axes(),
                    m.segment.end.mesh_axes(),
                    radius as int,
                    j,
                ));
                assert(parts[p].mesh.vertices[j].bounded(WORLD_LIMIT as int));
            }
            assert forall|p: int, j: int| 0 <= p < kept.len() && 0 <= j < 6 implies (
            #[trigger] combined.mesh.normals[6 * p + j]).coords() == prism_normal(
                outcomes[kept[p] as int]->Ok_0.segment.start.mesh_axes(),
                outcomes[kept[p] as int]->Ok_0.segment.end.mesh_axes(),
                j,
            ) by {
                assert(is_kept_part(parts@, mapped@, kept, radius as int, p));
                assert(combined_vertices(parts@, parts.len() as int)[6 * p + j]
                    == parts[p].placed_vertices()[j]);
                assert(combined.mesh.normals[6 * p + j] == parts[p].mesh.normals[j]);
            }
            assert forall|p: int, j: int| 0 <= p < kept.len() && 0 <= j < 6 implies (
            #[trigger] combined.colors[6 * p + j]) == outcomes[kept[p] as int]->Ok_0.color by {
                assert(is_kept_part(parts@, mapped@, kept, radius as int, p));
                assert(combined_vertices(parts@, parts.len() as int)[6 * p + j]
                    == parts[p].placed_vertices()[j]);
                assert(combined.colors[6 * p + j] == parts[p].colors[j]);
            }
            assert forall|p: int, t: int| 0 <= p < kept.len() && 0 <= t < 24 implies (
            #[trigger] combined.mesh.indices[24 * p + t]) == prism_indices()[t] + 6 * p by {
                let m = outcomes[kept[p] as int]->Ok_0;
                assert(is_kept_part(parts@, mapped@, kept, radius as int, p));
                assert(combined_indices(parts@, parts.len() as int)[24 * p + t]
                    == parts[p].shifted_indices(6 * p)[t]);
                assert(parts[p].mesh.indices[t] == prism_indices()[t]);
                assert(prism_indices()[t] < 6);
            }
        }
        Ok((combined, skipped))
    }
}

} // verus!
