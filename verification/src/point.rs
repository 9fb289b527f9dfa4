use vstd::prelude::*;

verus! {

/// Largest magnitude of a coordinate or depth as it comes from a survey.
/// Four such values can be added without leaving 64 bits.
pub const WORLD_LIMIT: i64 = 1_152_921_504_606_846_976;

/// Largest magnitude of a coordinate in a mesh's own frame. The squared
/// length of a cross product of two edges between such points fits in
/// 128 bits.
pub const LOCAL_LIMIT: i64 = 1_073_741_824;

/// A position in thousandths of a survey unit.
#[derive(Clone, Copy, Debug, PartialEq, Eq, Structural)]
pub struct Point3 {
    pub x: i64,
    pub y: i64,
    pub z: i64,
}

/// The per-axis minimum of a point cloud: the origin of its local frame.
#[derive(Clone, Copy, Debug, PartialEq, Eq, Structural)]
pub struct Offset {
    pub dx: i64,
    pub dy: i64,
    pub dz: i64,
}

impl Point3 {
    /// Every coordinate has magnitude at most `limit`.
    pub open spec fn bounded(self, limit: int) -> bool {
        &&& -limit <= self.x <= limit
        &&& -limit <= self.y <= limit
        &&& -limit <= self.z <= limit
    }

    /// The point moved by `-offset`.
    pub open spec fn minus(self, offset: Offset) -> (int, int, int) {
        (self.x - offset.dx, self.y - offset.dy, self.z - offset.dz)
    }

    /// The coordinates as mathematical integers.
    pub open spec fn coords(self) -> (int, int, int) {
        (self.x as int, self.y as int, self.z as int)
    }

    /// The same position with the elevation on the second axis, as meshes
    /// hold it: `(x, z, y)`.
    pub open spec fn mesh_axes(self) -> Point3 {
        Point3 { x: self.x, y: self.z, z: self.y }
    }

    /// The point moved by `-offset`, where that position can be held.
    pub open spec fn shifted(self, offset: Offset) -> Point3 {
        Point3 {
            x: (self.x - offset.dx) as i64,
            y: (self.y - offset.dy) as i64,
            z: (self.z - offset.dz) as i64,
        }
    }

    /// Expresses the point in the frame whose origin is `offset`.
    pub fn to_local(&self, offset: &Offset) -> (r: Point3)
        requires
            self.bounded(WORLD_LIMIT as int),
            offset.bounded(WORLD_LIMIT as int),
        ensures
            r.coords() == self.minus(*offset),
            r == self.shifted(*offset),
    {
        Point3 { x: self.x - offset.dx, y: self.y - offset.dy, z: self.z - offset.dz }
    }

    /// The same position with the elevation on the second axis.
    pub fn to_mesh_axes(&self) -> (r: Point3)
        ensures
            r == self.mesh_axes(),
    {
        Point3 { x: self.x, y: self.z, z: self.y }
    }
}

impl Offset {
    /// Every component has magnitude at most `limit`.
    pub open spec fn bounded(self, limit: int) -> bool {
        &&& -limit <= self.dx <= limit
        &&& -limit <= self.dy <= limit
        &&& -limit <= self.dz <= limit
    }
}

/// Every point of the sequence has coordinates of magnitude at most `limit`.
pub open spec fn all_bounded(points: Seq<Point3>, limit: int) -> bool {
    forall|i: int| 0 <= i < points.len() ==> (#[trigger] points[i]).bounded(limit)
}

/// Whether every point of the cloud has coordinates of magnitude at most
/// `limit`.
pub fn all_within(points: &Vec<Point3>, limit: i64) -> (ok: bool)
    ensures
        ok == all_bounded(points@, limit as int),
{
    let mut i: usize = 0;
    while i < points.len()
        invariant
            i <= points.len(),
            forall|j: int| 0 <= j < i ==> (#[trigger] points[j]).bounded(limit as int),
        decreases points.len() - i,
    {
        let p = points[i];
        if !(p.x <= limit && p.y <= limit && p.z <= limit && p.x as i128 >= -(limit as i128)
            && p.y as i128 >= -(limit as i128) && p.z as i128 >= -(limit as i128)) {
            return false;
        }
        i += 1;
    }
    true
}

/// The cloud with every point moved by `-offset`, in the same order.
pub open spec fn local_frame(points: Seq<Point3>, offset: Offset) -> Seq<Point3> {
    Seq::new(points.len(), |i: int| points[i].shifted(offset))
}

/// The cloud with the elevation of every point on the second axis.
pub open spec fn mesh_frame(points: Seq<Point3>) -> Seq<Point3> {
    Seq::new(points.len(), |i: int| points[i].mesh_axes())
}

/// On no axis do two points of the cloud lie further apart than `limit`.
pub open spec fn spans_at_most(points: Seq<Point3>, limit: int) -> bool {
    forall|i: int, j: int|
        0 <= i < points.len() && 0 <= j < points.len() ==> {
            &&& (#[trigger] points[i]).x - (#[trigger] points[j]).x <= limit
            &&& points[i].y - points[j].y <= limit
            &&& points[i].z - points[j].z <= limit
        }
}

} // verus!
