use vstd::prelude::*;
use crate::error::EngineError;
use crate::point::{all_bounded, local_frame, Offset, Point3, WORLD_LIMIT};

verus! {

/// `offset` is the smallest coordinate of `points` on each axis.
pub open spec fn is_axis_minimum(points: Seq<Point3>, offset: Offset) -> bool {
    &&& forall|i: int| 0 <= i < points.len() ==> offset.dx <= (#[trigger] points[i]).x
    &&& forall|i: int| 0 <= i < points.len() ==> offset.dy <= (#[trigger] points[i]).y
    &&& forall|i: int| 0 <= i < points.len() ==> offset.dz <= (#[trigger] points[i]).z
    &&& exists|i: int| 0 <= i < points.len() && (#[trigger] points[i]).x == offset.dx
    &&& exists|i: int| 0 <= i < points.len() && (#[trigger] points[i]).y == offset.dy
    &&& exists|i: int| 0 <= i < points.len() && (#[trigger] points[i]).z == offset.dz
}

/// `local` is `points` with every point moved by `-offset`, in the same order.
pub open spec fn is_shifted(points: Seq<Point3>, offset: Offset, local: Seq<Point3>) -> bool {
    &&& local.len() == points.len()
    &&& forall|i: int|
        0 <= i < points.len() ==> (#[trigger] local[i]).coords() == points[i].minus(offset)
}

/// The per-axis minimum of a non-empty cloud.
pub open spec fn min_offset(points: Seq<Point3>) -> Offset {
    choose|offset: Offset| is_axis_minimum(points, offset)
}

/// A cloud has at most one per-axis minimum.
pub proof fn lemma_min_offset_is(points: Seq<Point3>, offset: Offset)
    requires
        is_axis_minimum(points, offset),
    ensures
        min_offset(points) == offset,
{
    let other = min_offset(points);
    let ix = choose|i: int| 0 <= i < points.len() && (#[trigger] points[i]).x == offset.dx;
    let iy = choose|i: int| 0 <= i < points.len() && (#[trigger] points[i]).y == offset.dy;
    let iz = choose|i: int| 0 <= i < points.len() && (#[trigger] points[i]).z == offset.dz;
    let jx = choose|i: int| 0 <= i < points.len() && (#[trigger] points[i]).x == other.dx;
    let jy = choose|i: int| 0 <= i < points.len() && (#[trigger] points[i]).y == other.dy;
    let jz = choose|i: int| 0 <= i < points.len() && (#[trigger] points[i]).z == other.dz;
    assert(other.dx <= points[ix].x && offset.dx <= points[jx].x);
    assert(other.dy <= points[iy].y && offset.dy <= points[jy].y);
    assert(other.dz <= points[iz].z && offset.dz <= points[jz].z);
}

/// The smallest coordinate of a non-empty cloud on each axis.
pub fn axis_minimum(points: &Vec<Point3>) -> (offset: Offset)
    requires
        points.len() > 0,
    ensures
        is_axis_minimum(points@, offset),
        offset == min_offset(points@),
{
    let first = points[0];
    let mut offset = Offset { dx: first.x, dy: first.y, dz: first.z };
    let ghost mut wx: int = 0;
    let ghost mut wy: int = 0;
    let ghost mut wz: int = 0;
    let mut i: usize = 1;
    while i < points.len()
        invariant
            1 <= i <= points.len(),
            0 <= wx < i && points[wx].x == offset.dx,
            0 <= wy < i && points[wy].y == offset.dy,
            0 <= wz < i && points[wz].z == offset.dz,
            forall|j: int| 0 <= j < i ==> offset.dx <= (#[trigger] points[j]).x,
            forall|j: int| 0 <= j < i ==> offset.dy <= (#[trigger] points[j]).y,
            forall|j: int| 0 <= j < i ==> offset.dz <= (#[trigger] points[j]).z,
        decreases points.len() - i,
    {
        let p = points[i];
        if p.x < offset.dx {
            offset.dx = p.x;
            proof {
                wx = i as int;
            }
        }
        if p.y < offset.dy {
            offset.dy = p.y;
            proof {
                wy = i as int;
            }
        }
        if p.z < offset.dz {
            offset.dz = p.z;
            proof {
                wz = i as int;
            }
        }
        i += 1;
    }
    proof {
        lemma_min_offset_is(points@, offset);
    }
    offset
}

/// Every point of the cloud moved by `-offset`, in the same order.
pub fn shift_all(points: &Vec<Point3>, offset: &Offset) -> (local: Vec<Point3>)
    requires
        all_bounded(points@, WORLD_LIMIT as int),
        offset.bounded(WORLD_LIMIT as int),
    ensures
        is_shifted(points@, *offset, local@),
        local@ == local_frame(points@, *offset),
{
    let mut local: Vec<Point3> = Vec::new();
    let mut i: usize = 0;
    while i < points.len()
        invariant
            i <= points.len(),
            local.len() == i,
            all_bounded(points@, WORLD_LIMIT as int),
            offset.bounded(WORLD_LIMIT as int),
            forall|j: int| 0 <= j < i ==> (#[trigger] local[j]).coords() == points[j].minus(*offset),
            forall|j: int| 0 <= j < i ==> (#[trigger] local[j]) == points[j].shifted(*offset),
        decreases points.len() - i,
    {
        let p = points[i];
        assert(p.bounded(WORLD_LIMIT as int));
        local.push(p.to_local(offset));
        i += 1;
    }
    assert(local@ =~= local_frame(points@, *offset));
    local
}

/// Moves a point cloud into its own local frame: the offset is the
/// per-axis minimum, and every point is moved by its negation.
/// An empty cloud has no minimum and is refused.
pub fn normalize(points: &Vec<Point3>) -> (r: Result<(Offset, Vec<Point3>), EngineError>)
    requires
        all_bounded(points@, WORLD_LIMIT as int),
    ensures
        points.len() == 0 <==> r is Err,
        r is Err ==> r == Err::<(Offset, Vec<Point3>), EngineError>(EngineError::EmptyInput),
        r matches Ok((offset, local)) ==> {
            &&& offset == min_offset(points@)
            &&& local@ == local_frame(points@, offset)
            &&& is_axis_minimum(points@, offset)
            &&& is_shifted(points@, offset, local@)
            &&& is_axis_minimum(local@, Offset { dx: 0, dy: 0, dz: 0 })
            &&& all_bounded(local@, 2 * WORLD_LIMIT)
        },
{
    if points.len() == 0 {
        return Err(EngineError::EmptyInput);
    }
    let offset = axis_minimum(points);
    proof {
        lemma_minimum_is_bounded(points@, offset, WORLD_LIMIT as int);
    }
    let local = shift_all(points, &offset);
    proof {
        lemma_shift_zeroes_minimum(points@, offset, local@);
    }
    Ok((offset, local))
}

/// The per-axis minimum of a cloud within a limit lies within that limit.
pub proof fn lemma_minimum_is_bounded(points: Seq<Point3>, offset: Offset, limit: int)
    requires
        all_bounded(points, limit),
        is_axis_minimum(points, offset),
    ensures
        offset.bounded(limit),
{
    let ix = choose|i: int| 0 <= i < points.len() && (#[trigger] points[i]).x == offset.dx;
    let iy = choose|i: int| 0 <= i < points.len() && (#[trigger] points[i]).y == offset.dy;
    let iz = choose|i: int| 0 <= i < points.len() && (#[trigger] points[i]).z == offset.dz;
    assert(points[ix].bounded(limit));
    assert(points[iy].bounded(limit));
    assert(points[iz].bounded(limit));
}

/// After a cloud is moved by the negation of its per-axis minimum, its
/// smallest coordinate on each axis is exactly zero.
pub proof fn lemma_shift_zeroes_minimum(
    points: Seq<Point3>,
    offset: Offset,
    local: Seq<Point3>,
)
    requires
        is_axis_minimum(points, offset),
        is_shifted(points, offset, local),
    ensures
        is_axis_minimum(local, Offset { dx: 0, dy: 0, dz: 0 }),
        forall|limit: int| all_bounded(points, limit) ==> all_bounded(local, 2 * limit),
{
    let zero = Offset { dx: 0, dy: 0, dz: 0 };
    let ix = choose|i: int| 0 <= i < points.len() && (#[trigger] points[i]).x == offset.dx;
    let iy = choose|i: int| 0 <= i < points.len() && (#[trigger] points[i]).y == offset.dy;
    let iz = choose|i: int| 0 <= i < points.len() && (#[trigger] points[i]).z == offset.dz;
    assert forall|i: int| 0 <= i < local.len() implies zero.dx <= (#[trigger] local[i]).x
        && zero.dy <= local[i].y && zero.dz <= local[i].z by {
        assert(local[i].coords() == points[i].minus(offset));
    }
    assert(local[ix].coords() == points[ix].minus(offset));
    assert(local[iy].coords() == points[iy].minus(offset));
    assert(local[iz].coords() == points[iz].minus(offset));
    assert(local[ix].x == zero.dx);
    assert(local[iy].y == zero.dy);
    assert(local[iz].z == zero.dz);
    assert forall|limit: int| all_bounded(points, limit) implies all_bounded(local, 2 * limit) by {
        assert(points[ix].bounded(limit));
        assert(points[iy].bounded(limit));
        assert(points[iz].bounded(limit));
        assert forall|i: int| 0 <= i < local.len() implies (#[trigger] local[i]).bounded(
            2 * limit,
        ) by {
            assert(local[i].coords() == points[i].minus(offset));
            assert(points[i].bounded(limit));
        }
    }
}

} // verus!
