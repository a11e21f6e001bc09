use mesh_simplify::mesh::{IndexedMesh, MeshError};
use mesh_simplify::remesh::Remesher;

fn mean(a: [f32; 3], b: [f32; 3], c: [f32; 3]) -> [f32; 3] {
    [(a[0] + b[0] + c[0]) / 3.0, (a[1] + b[1] + c[1]) / 3.0, (a[2] + b[2] + c[2]) / 3.0]
}

fn unit_box() -> IndexedMesh<[f32; 3]> {
    let mut c = [[0f32; 3]; 8];
    for (i, p) in c.iter_mut().enumerate() {
        p[0] = if i & 1 != 0 { 0.5 } else { -0.5 };
        p[1] = if i & 2 != 0 { 0.5 } else { -0.5 };
        p[2] = if i & 4 != 0 { 0.5 } else { -0.5 };
    }
    IndexedMesh::box3d(c)
}

#[test]
fn split_one_triangle_once() {
    let mut m = IndexedMesh::new();
    m.positions = vec![[0.0, 0.0, 0.0], [3.0, 0.0, 0.0], [0.0, 6.0, 3.0]];
    m.indices = vec![0, 1, 2];
    assert_eq!(Remesher::split_faces(&mut m, 1, mean), Ok(()));
    assert_eq!(m.indices.len() / 3, 3);
    assert_eq!(m.positions.len(), 4);
    assert_eq!(m.positions[3], [1.0, 2.0, 1.0]);
    assert_eq!(m.indices, vec![0, 1, 3, 1, 2, 3, 2, 0, 3]);
}

#[test]
fn split_unit_box_twice() {
    let mut m = unit_box();
    assert_eq!(Remesher::split_faces(&mut m, 2, mean), Ok(()));
    assert_eq!(m.indices.len() / 3, 9 * 12);
    assert_eq!(m.positions.len(), 8 + 12 + 36);
    assert!(m.indices.iter().all(|&i| (i as usize) < m.positions.len()));
}

#[test]
fn split_zero_iterations_keeps_mesh() {
    let mut m = unit_box();
    let before = m.indices.clone();
    assert_eq!(Remesher::split_faces(&mut m, 0, mean), Ok(()));
    assert_eq!(m.indices, before);
    assert_eq!(m.positions.len(), 8);
}

#[test]
fn split_three_times_triples_each_pass() {
    let mut m = unit_box();
    assert_eq!(Remesher::split_faces(&mut m, 3, mean), Ok(()));
    assert_eq!(m.indices.len() / 3, 27 * 12);
    assert_eq!(m.positions.len(), 8 + 12 + 36 + 108);
}

#[test]
fn second_pass_uses_first_pass_vertices() {
    let mut m = IndexedMesh::new();
    m.positions = vec![[0.0, 0.0, 0.0], [3.0, 0.0, 0.0], [0.0, 3.0, 0.0]];
    m.indices = vec![0, 1, 2];
    assert_eq!(Remesher::split_faces(&mut m, 2, mean), Ok(()));
    assert_eq!(m.positions.len(), 7);
    // the first new vertex of the second pass is the centroid of 0, 1 and 3
    assert_eq!(m.positions[4], mean([0.0, 0.0, 0.0], [3.0, 0.0, 0.0], [1.0, 1.0, 0.0]));
    assert_eq!(&m.indices[0..3], &[0, 1, 4]);
}

#[test]
fn split_refuses_invalid_mesh() {
    let mut m = unit_box();
    m.indices.push(3);
    let before = m.indices.clone();
    assert_eq!(Remesher::split_faces(&mut m, 1, mean), Err(MeshError::PartialTriangle));
    assert_eq!(m.indices, before);
    let mut m = unit_box();
    m.indices.extend_from_slice(&[0, 1, 9]);
    assert_eq!(Remesher::split_faces(&mut m, 1, mean), Err(MeshError::IndexOutOfRange));
    assert_eq!(m.positions.len(), 8);
}

#[test]
fn split_refuses_more_vertices_than_indices_can_name() {
    let mut m = IndexedMesh::new();
    m.positions = vec![[0.0, 0.0, 0.0], [3.0, 0.0, 0.0], [0.0, 3.0, 0.0]];
    m.indices = vec![0, 1, 2];
    assert_eq!(Remesher::split_faces(&mut m, 21, mean), Err(MeshError::TooLarge));
    assert_eq!(m.indices, vec![0, 1, 2]);
}
