use mesh_simplify::mesh::{IndexedMesh, MeshError};

fn corners() -> [[i64; 3]; 8] {
    let mut c = [[0i64; 3]; 8];
    for (i, p) in c.iter_mut().enumerate() {
        p[0] = if i & 1 != 0 { 1 } else { -1 };
        p[1] = if i & 2 != 0 { 1 } else { -1 };
        p[2] = if i & 4 != 0 { 1 } else { -1 };
    }
    c
}

#[test]
fn new_mesh_is_empty() {
    let m: IndexedMesh<[i64; 3]> = IndexedMesh::new();
    assert!(m.is_empty());
    assert_eq!(m.triangle_count(), 0);
}

#[test]
fn mesh_without_normals_counts_as_empty() {
    let m = IndexedMesh::box3d(corners());
    assert!(m.is_empty());
    let mut m2 = IndexedMesh::box3d(corners());
    m2.normals = m2.positions.clone();
    assert!(!m2.is_empty());
}

#[test]
fn clear_empties_all_lists() {
    let mut m = IndexedMesh::box3d(corners());
    m.normals = m.positions.clone();
    m.clear();
    assert!(m.positions.is_empty());
    assert!(m.normals.is_empty());
    assert!(m.indices.is_empty());
    assert!(m.is_empty());
}

#[test]
fn box3d_has_eight_corners_and_twelve_triangles() {
    let m = IndexedMesh::box3d(corners());
    assert_eq!(m.positions.len(), 8);
    assert_eq!(m.indices.len(), 36);
    assert_eq!(m.triangle_count(), 12);
    assert_eq!(m.positions[5], [1, -1, 1]);
    assert_eq!(&m.indices[0..6], &[1, 0, 2, 2, 3, 1]);
    assert_eq!(m.validate(), Ok(()));
}

#[test]
fn box3d_uses_every_corner_six_sides() {
    let m = IndexedMesh::box3d(corners());
    let mut seen = [0usize; 8];
    for &i in &m.indices {
        seen[i as usize] += 1;
    }
    for s in seen {
        assert!(s >= 3);
    }
    assert_eq!(seen.iter().sum::<usize>(), 36);
}

#[test]
fn validate_refuses_partial_triangle() {
    let mut m = IndexedMesh::box3d(corners());
    m.indices.push(0);
    assert_eq!(m.validate(), Err(MeshError::PartialTriangle));
}

#[test]
fn validate_refuses_index_out_of_range() {
    let mut m = IndexedMesh::box3d(corners());
    m.indices.extend_from_slice(&[0, 1, 8]);
    assert_eq!(m.validate(), Err(MeshError::IndexOutOfRange));
}

#[test]
fn validate_accepts_empty_mesh() {
    let m: IndexedMesh<[i64; 3]> = IndexedMesh::new();
    assert_eq!(m.validate(), Ok(()));
}

#[test]
fn default_mesh_is_empty() {
    let m: IndexedMesh<[i64; 3]> = IndexedMesh::default();
    assert!(m.positions.is_empty() && m.normals.is_empty() && m.indices.is_empty());
}
