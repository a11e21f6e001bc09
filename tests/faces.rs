use mesh_simplify::faces::triangulate_face;

#[test]
fn triangle_is_cut_twice_with_wrap() {
    // three corners give two starts, 0 and 2
    assert_eq!(triangulate_face(&vec![4, 5, 6]), vec![4, 5, 6, 6, 4, 5]);
}

#[test]
fn quad_gives_two_triangles() {
    assert_eq!(triangulate_face(&vec![0, 1, 2, 3]), vec![0, 1, 2, 2, 3, 0]);
}

#[test]
fn pentagon_gives_three_triangles() {
    assert_eq!(triangulate_face(&vec![0, 1, 2, 3, 4]), vec![0, 1, 2, 2, 3, 4, 4, 0, 1]);
}

#[test]
fn empty_face_gives_nothing() {
    assert_eq!(triangulate_face(&vec![]), Vec::<u32>::new());
}

#[test]
fn negative_index_wraps_to_unsigned() {
    assert_eq!(triangulate_face(&vec![-1, 0]), vec![u32::MAX, 0, u32::MAX]);
}
