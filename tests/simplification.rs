use mesh_simplify::mesh::{IndexedMesh, MeshError};
use mesh_simplify::simplification::{simplify, Geometry, Simplify};

type P = [i64; 3];

/// Accepts every edge, never folds, and keeps the first end in place.
struct Permissive {
    passes: usize,
}

impl Geometry<P, u32, u32> for Permissive {
    fn begin_pass(&mut self, _iteration: usize) {
        self.passes += 1;
    }
    fn zero_quadric(&self) -> u32 {
        0
    }
    fn blank_face(&self) -> u32 {
        0
    }
    fn with_normal(&self, f: u32, _a: P, _b: P, _c: P) -> u32 {
        f
    }
    fn add_plane(&self, q: u32, _f: u32, _a: P) -> u32 {
        q + 1
    }
    fn add_quadrics(&self, a: u32, b: u32) -> u32 {
        a + b
    }
    fn contraction(&self, a: P, _b: P, _qa: u32, _qb: u32, _both_border: bool) -> P {
        a
    }
    fn with_errors(&self, f: u32, _c: [P; 3], _q: [u32; 3], _border: [bool; 3]) -> u32 {
        f
    }
    fn face_below(&self, _f: u32) -> bool {
        true
    }
    fn edge_below(&self, _f: u32, _j: usize) -> bool {
        true
    }
    fn folds(&self, _moved: P, _a: P, _b: P, _f: u32) -> bool {
        false
    }
}

/// Refuses every edge.
struct Strict;

impl Geometry<P, u32, u32> for Strict {
    fn begin_pass(&mut self, _iteration: usize) {}
    fn zero_quadric(&self) -> u32 {
        0
    }
    fn blank_face(&self) -> u32 {
        0
    }
    fn with_normal(&self, f: u32, _a: P, _b: P, _c: P) -> u32 {
        f
    }
    fn add_plane(&self, q: u32, _f: u32, _a: P) -> u32 {
        q
    }
    fn add_quadrics(&self, a: u32, _b: u32) -> u32 {
        a
    }
    fn contraction(&self, a: P, _b: P, _qa: u32, _qb: u32, _both_border: bool) -> P {
        a
    }
    fn with_errors(&self, f: u32, _c: [P; 3], _q: [u32; 3], _border: [bool; 3]) -> u32 {
        f
    }
    fn face_below(&self, _f: u32) -> bool {
        false
    }
    fn edge_below(&self, _f: u32, _j: usize) -> bool {
        false
    }
    fn folds(&self, _moved: P, _a: P, _b: P, _f: u32) -> bool {
        true
    }
}

fn unit_box() -> IndexedMesh<P> {
    let mut c = [[0i64; 3]; 8];
    for (i, p) in c.iter_mut().enumerate() {
        p[0] = if i & 1 != 0 { 1 } else { -1 };
        p[1] = if i & 2 != 0 { 1 } else { -1 };
        p[2] = if i & 4 != 0 { 1 } else { -1 };
    }
    IndexedMesh::box3d(c)
}

/// Six triangles around vertex 0, whose ring is the border.
fn fan() -> IndexedMesh<P> {
    let mut m = IndexedMesh::new();
    m.positions = vec![
        [0, 0, 0],
        [2, 0, 0],
        [1, 2, 0],
        [-1, 2, 0],
        [-2, 0, 0],
        [-1, -2, 0],
        [1, -2, 0],
    ];
    m.indices = vec![0, 1, 2, 0, 2, 3, 0, 3, 4, 0, 4, 5, 0, 5, 6, 0, 6, 1];
    m
}

fn run<G: Geometry<P, u32, u32>>(mesh: &IndexedMesh<P>, target: usize, g: &mut G) -> IndexedMesh<P> {
    let mut s = Simplify::from(mesh, g).unwrap();
    s.simplify_mesh(target, g);
    let mut out = IndexedMesh::new();
    s.to(&mut out);
    out
}

fn check_valid(m: &IndexedMesh<P>) {
    assert_eq!(m.indices.len() % 3, 0);
    assert!(m.indices.iter().all(|&i| (i as usize) < m.positions.len()));
}

#[test]
fn target_at_count_leaves_box_unchanged() {
    let m = unit_box();
    let mut g = Permissive { passes: 0 };
    let out = run(&m, 12, &mut g);
    assert_eq!(out.positions, m.positions);
    assert_eq!(out.indices, m.indices);
    assert_eq!(g.passes, 0);
}

#[test]
fn target_above_count_leaves_box_unchanged() {
    let m = unit_box();
    let out = run(&m, 100, &mut Permissive { passes: 0 });
    assert_eq!(out.positions, m.positions);
    assert_eq!(out.indices, m.indices);
}

#[test]
fn box_to_two_triangles_stays_valid() {
    let m = unit_box();
    let out = run(&m, 2, &mut Permissive { passes: 0 });
    check_valid(&out);
    let n = out.indices.len() / 3;
    assert!(n <= 12);
    assert!(n < 12);
    for p in &out.positions {
        assert!(p.iter().all(|c| (-1..=1).contains(c)));
    }
}

#[test]
fn refused_edges_keep_mesh() {
    let m = unit_box();
    let out = run(&m, 2, &mut Strict);
    assert_eq!(out.positions, m.positions);
    assert_eq!(out.indices, m.indices);
}

#[test]
fn one_collapse_can_pass_the_target() {
    // closing an edge of the box removes both triangles beside it
    let m = unit_box();
    let out = run(&m, 11, &mut Permissive { passes: 0 });
    assert_eq!(out.indices.len() / 3, 10);
    check_valid(&out);
}

#[test]
fn interior_vertex_never_merges_with_border() {
    let m = fan();
    let out = run(&m, 3, &mut Permissive { passes: 0 });
    assert_eq!(out.indices.len() / 3, 3);
    check_valid(&out);
    // the centre keeps its place and every remaining triangle still uses it
    let centre = out.positions.iter().position(|p| *p == [0, 0, 0]).unwrap() as u32;
    assert!(out.indices.len() >= 3);
    for t in out.indices.chunks(3) {
        assert!(t.contains(&centre));
    }
}

#[test]
fn unused_vertices_are_dropped() {
    let mut m = unit_box();
    m.positions.push([5, 5, 5]);
    let out = run(&m, 100, &mut Permissive { passes: 0 });
    assert_eq!(out.positions.len(), 8);
    assert_eq!(out.indices, m.indices);
}

#[test]
fn vertices_after_a_dropped_one_are_renumbered() {
    let mut m = IndexedMesh::new();
    m.positions = vec![[9, 9, 9], [0, 0, 0], [1, 0, 0], [0, 1, 0]];
    m.indices = vec![1, 2, 3];
    let out = run(&m, 5, &mut Permissive { passes: 0 });
    assert_eq!(out.positions, vec![[0, 0, 0], [1, 0, 0], [0, 1, 0]]);
    assert_eq!(out.indices, vec![0, 1, 2]);
}

#[test]
fn output_never_has_more_triangles() {
    for target in 0..14 {
        let out = run(&unit_box(), target, &mut Permissive { passes: 0 });
        assert!(out.indices.len() / 3 <= 12);
        check_valid(&out);
    }
}

#[test]
fn at_most_one_hundred_passes() {
    let m = unit_box();
    let mut g = Permissive { passes: 0 };
    let _ = run(&m, 0, &mut g);
    assert!(g.passes <= 100);
}

#[test]
fn simplify_refuses_partial_triangle() {
    let mut m = unit_box();
    m.indices.push(0);
    let before = m.indices.clone();
    let r = simplify(&mut m, 2, &mut Permissive { passes: 0 });
    assert_eq!(r, Err(MeshError::PartialTriangle));
    assert_eq!(m.indices, before);
}

#[test]
fn simplify_refuses_index_out_of_range() {
    let mut m = unit_box();
    m.indices.extend_from_slice(&[0, 1, 8]);
    let r = simplify(&mut m, 2, &mut Permissive { passes: 0 });
    assert_eq!(r, Err(MeshError::IndexOutOfRange));
    assert_eq!(m.positions.len(), 8);
}

#[test]
fn simplify_with_high_target_keeps_mesh() {
    let mut m = unit_box();
    let before = unit_box();
    assert_eq!(simplify(&mut m, 12, &mut Permissive { passes: 0 }), Ok(0));
    assert_eq!(m.positions, before.positions);
    assert_eq!(m.indices, before.indices);
    assert!(m.normals.is_empty());
}

#[test]
fn simplify_reduces_box() {
    let mut m = unit_box();
    assert!(simplify(&mut m, 2, &mut Permissive { passes: 0 }).is_ok());
    check_valid(&m);
    assert!(m.indices.len() / 3 < 12);
}

#[test]
fn simplify_reports_passes_run() {
    let mut m = unit_box();
    let mut g = Permissive { passes: 0 };
    let passes = simplify(&mut m, 2, &mut g).unwrap();
    assert_eq!(passes, g.passes);
    assert!(passes <= 100);
    assert!(m.indices.len() / 3 <= 2 || passes == 100);
}

#[test]
fn refused_collapses_run_all_passes() {
    let mut m = unit_box();
    assert_eq!(simplify(&mut m, 2, &mut Strict), Ok(100));
    assert_eq!(m.indices.len(), 36);
}

#[test]
fn high_target_keeps_triangle_count_with_unused_vertex() {
    let mut m = unit_box();
    m.positions.push([7, 7, 7]);
    assert_eq!(simplify(&mut m, 12, &mut Permissive { passes: 0 }), Ok(0));
    assert_eq!(m.indices.len(), 36);
    assert_eq!(m.positions.len(), 8);
}

#[test]
fn from_refuses_invalid_mesh() {
    let mut m = unit_box();
    m.indices.extend_from_slice(&[0, 1, 8]);
    assert!(matches!(Simplify::from(&m, &Permissive { passes: 0 }), Err(MeshError::IndexOutOfRange)));
    let mut m = unit_box();
    m.indices.pop();
    assert!(matches!(Simplify::from(&m, &Permissive { passes: 0 }), Err(MeshError::PartialTriangle)));
}

#[test]
fn from_starts_clean_and_off_border() {
    let m = unit_box();
    let s = Simplify::from(&m, &Permissive { passes: 0 }).unwrap();
    assert!(s.triangles.iter().all(|t| !t.deleted && !t.dirty));
    assert!(s.vertices.iter().all(|v| !v.border));
    assert_eq!(s.passes, 0);
}
