use mesh_simplify::mesh::IndexedMesh;
use mesh_simplify::simplification::{simplify, Geometry};

type P = [f32; 3];

fn sub(a: P, b: P) -> P {
    [a[0] - b[0], a[1] - b[1], a[2] - b[2]]
}
fn dot(a: P, b: P) -> f32 {
    a[0] * b[0] + a[1] * b[1] + a[2] * b[2]
}
fn cross(a: P, b: P) -> P {
    [a[1] * b[2] - a[2] * b[1], a[2] * b[0] - a[0] * b[2], a[0] * b[1] - a[1] * b[0]]
}
fn unit(a: P) -> P {
    let l = dot(a, a).sqrt();
    [a[0] / l, a[1] / l, a[2] / l]
}

type Q = [f32; 10];

fn add_q(a: Q, b: Q) -> Q {
    let mut r = a;
    for i in 0..10 {
        r[i] += b[i];
    }
    r
}
fn err_at(q: &Q, v: P) -> f32 {
    let (x, y, z) = (v[0], v[1], v[2]);
    q[0] * x * x + 2.0 * q[1] * x * y + 2.0 * q[2] * x * z + 2.0 * q[3] * x + q[4] * y * y
        + 2.0 * q[5] * y * z + 2.0 * q[6] * y + q[7] * z * z + 2.0 * q[8] * z + q[9]
}
fn det(q: &Q, a: [usize; 9]) -> f32 {
    q[a[0]] * q[a[4]] * q[a[8]] + q[a[2]] * q[a[3]] * q[a[7]] + q[a[1]] * q[a[5]] * q[a[6]]
        - q[a[2]] * q[a[4]] * q[a[6]] - q[a[0]] * q[a[5]] * q[a[7]] - q[a[1]] * q[a[3]] * q[a[8]]
}
fn best(a: P, b: P, q: Q, both_border: bool) -> (f32, P) {
    let d = det(&q, [0, 1, 2, 1, 4, 5, 2, 5, 7]);
    if d != 0.0 && !both_border {
        let p = [
            -1.0 / d * det(&q, [1, 2, 3, 4, 5, 6, 5, 7, 8]),
            1.0 / d * det(&q, [0, 2, 3, 1, 5, 6, 2, 7, 8]),
            -1.0 / d * det(&q, [0, 1, 3, 1, 4, 6, 2, 5, 8]),
        ];
        (err_at(&q, p), p)
    } else {
        let m = [(a[0] + b[0]) / 2.0, (a[1] + b[1]) / 2.0, (a[2] + b[2]) / 2.0];
        let (e1, e2, e3) = (err_at(&q, a), err_at(&q, b), err_at(&q, m));
        let e = e1.min(e2.min(e3));
        (e, if e1 == e { a } else if e2 == e { b } else { m })
    }
}

#[derive(Clone, Copy)]
struct Face {
    err: [f32; 4],
    n: P,
}

struct Qem {
    agr: f32,
    threshold: f32,
}

impl Geometry<P, Q, Face> for Qem {
    fn begin_pass(&mut self, iteration: usize) {
        self.threshold = 0.000000001 * ((iteration + 3) as f32).powf(self.agr);
    }
    fn zero_quadric(&self) -> Q {
        [0.0; 10]
    }
    fn blank_face(&self) -> Face {
        Face { err: [0.0; 4], n: [0.0; 3] }
    }
    fn with_normal(&self, f: Face, a: P, b: P, c: P) -> Face {
        Face { err: f.err, n: unit(cross(sub(b, a), sub(c, a))) }
    }
    fn add_plane(&self, q: Q, f: Face, a: P) -> Q {
        let [x, y, z] = f.n;
        let d = -dot(f.n, a);
        add_q(q, [x * x, x * y, x * z, x * d, y * y, y * z, y * d, z * z, z * d, d * d])
    }
    fn add_quadrics(&self, a: Q, b: Q) -> Q {
        add_q(a, b)
    }
    fn contraction(&self, a: P, b: P, qa: Q, qb: Q, both_border: bool) -> P {
        best(a, b, add_q(qa, qb), both_border).1
    }
    fn with_errors(&self, f: Face, c: [P; 3], q: [Q; 3], border: [bool; 3]) -> Face {
        let mut err = [0.0; 4];
        for j in 0..3 {
            let k = (j + 1) % 3;
            err[j] = best(c[j], c[k], add_q(q[j], q[k]), border[j]).0;
        }
        err[3] = err[0].min(err[1].min(err[2]));
        Face { err, n: f.n }
    }
    fn face_below(&self, f: Face) -> bool {
        !(f.err[3] > self.threshold)
    }
    fn edge_below(&self, f: Face, j: usize) -> bool {
        f.err[j] < self.threshold
    }
    fn folds(&self, moved: P, a: P, b: P, f: Face) -> bool {
        let d1 = unit(sub(a, moved));
        let d2 = unit(sub(b, moved));
        if dot(d1, d2).abs() > 0.999 {
            return true;
        }
        dot(unit(cross(d1, d2)), f.n) < 0.2
    }
}

fn unit_box() -> IndexedMesh<P> {
    let mut c = [[0f32; 3]; 8];
    for (i, p) in c.iter_mut().enumerate() {
        p[0] = if i & 1 != 0 { 0.5 } else { -0.5 };
        p[1] = if i & 2 != 0 { 0.5 } else { -0.5 };
        p[2] = if i & 4 != 0 { 0.5 } else { -0.5 };
    }
    IndexedMesh::box3d(c)
}

#[test]
fn unit_box_towards_two_triangles_stays_in_its_box() {
    let mut m = unit_box();
    let mut g = Qem { agr: 7.0, threshold: 0.0 };
    assert!(simplify(&mut m, 2, &mut g).is_ok());
    assert!(m.indices.len() / 3 <= 12);
    assert_eq!(m.indices.len() % 3, 0);
    assert!(m.indices.iter().all(|&i| (i as usize) < m.positions.len()));
    for p in &m.positions {
        assert!(p.iter().all(|c| c.abs() <= 0.5 + 1e-4));
    }
}

#[test]
fn flat_grid_loses_interior_vertices() {
    // a 4 x 4 grid of squares in the plane z = 0: interior collapses cost nothing
    let mut m = IndexedMesh::new();
    for y in 0..5 {
        for x in 0..5 {
            m.positions.push([x as f32, y as f32, 0.0]);
        }
    }
    for y in 0..4u32 {
        for x in 0..4u32 {
            let a = y * 5 + x;
            m.indices.extend_from_slice(&[a, a + 1, a + 6, a, a + 6, a + 5]);
        }
    }
    let mut g = Qem { agr: 7.0, threshold: 0.0 };
    assert!(simplify(&mut m, 8, &mut g).is_ok());
    let n = m.indices.len() / 3;
    assert!(n < 32);
    assert!(m.indices.iter().all(|&i| (i as usize) < m.positions.len()));
    for p in &m.positions {
        assert!(p[2].abs() <= 1e-4);
        assert!((-1e-4..=4.0001).contains(&p[0]) && (-1e-4..=4.0001).contains(&p[1]));
    }
}
