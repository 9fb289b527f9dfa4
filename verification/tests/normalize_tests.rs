use geomesh::error::EngineError;
use geomesh::normalize::{axis_minimum, normalize, shift_all};
use geomesh::point::{Offset, Point3};

fn p(x: i64, y: i64, z: i64) -> Point3 {
    Point3 { x, y, z }
}

#[test]
fn normalize_empty_cloud_is_refused() {
    let cloud: Vec<Point3> = Vec::new();
    assert_eq!(normalize(&cloud), Err(EngineError::EmptyInput));
}

#[test]
fn normalize_moves_minimum_to_zero() {
    let cloud = vec![p(5000, -2000, 7000), p(3000, 4000, 9000), p(8000, 0, 6000)];
    let (offset, local) = normalize(&cloud).unwrap();
    assert_eq!(offset, Offset { dx: 3000, dy: -2000, dz: 6000 });
    assert_eq!(local, vec![p(2000, 0, 1000), p(0, 6000, 3000), p(5000, 2000, 0)]);
    assert_eq!(local.iter().map(|q| q.x).min(), Some(0));
    assert_eq!(local.iter().map(|q| q.y).min(), Some(0));
    assert_eq!(local.iter().map(|q| q.z).min(), Some(0));
}

#[test]
fn normalize_single_point_becomes_origin() {
    let cloud = vec![p(-7, 11, 13)];
    let (offset, local) = normalize(&cloud).unwrap();
    assert_eq!(offset, Offset { dx: -7, dy: 11, dz: 13 });
    assert_eq!(local, vec![p(0, 0, 0)]);
}

#[test]
fn axis_minimum_takes_each_axis_alone() {
    let cloud = vec![p(1, 9, 5), p(9, 1, 5), p(5, 5, 1)];
    assert_eq!(axis_minimum(&cloud), Offset { dx: 1, dy: 1, dz: 1 });
}

#[test]
fn shift_all_keeps_order() {
    let cloud = vec![p(10, 20, 30), p(11, 22, 33)];
    let local = shift_all(&cloud, &Offset { dx: 10, dy: 20, dz: 30 });
    assert_eq!(local, vec![p(0, 0, 0), p(1, 2, 3)]);
}

#[test]
fn to_local_and_mesh_axes() {
    let q = p(10, 20, 30).to_local(&Offset { dx: 1, dy: 2, dz: 3 });
    assert_eq!(q, p(9, 18, 27));
    assert_eq!(q.to_mesh_axes(), p(9, 27, 18));
}
