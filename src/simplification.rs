//! Quadric-error decimation by edge collapse: the working mesh, the
//! geometry interface, and the pass loop.

use vstd::prelude::*;

use crate::mesh::{IndexedMesh, MeshError, valid_indices, triangles_of};
use crate::adjacency::{occ, on_border, lemma_on_border_corners};
use crate::compaction::{
    kept, live_count, live_indices, rank, used_flags, is_corner, lemma_kept_all,
    lemma_kept_bounds, lemma_live_count_update, lemma_live_indices_valid, lemma_rank_full,
};

verus! {

/// The geometric side of quadric decimation: positions `V`, quadrics `Q` and
/// per-face records `F` (edge errors and the normal at the last refresh).
///
/// The decimator decides topology (which edges to try, which triangles die,
/// how adjacency is kept) and asks this interface for every quantity that
/// needs arithmetic on coordinates. Nothing is assumed of the answers: the
/// decimator's guarantees hold whatever they are.
pub trait Geometry<V, Q, F> {
    /// Starts pass `iteration`: fixes the error bound of the pass.
    fn begin_pass(&mut self, iteration: usize);

    /// The quadric of no plane.
    fn zero_quadric(&self) -> Q;

    /// A face record with no errors and no normal yet.
    fn blank_face(&self) -> F;

    /// `f` with its normal set to the unit normal of the triangle `a, b, c`.
    fn with_normal(&self, f: F, a: V, b: V, c: V) -> F;

    /// `q` plus the quadric of the plane of face `f` through the point `a`.
    fn add_plane(&self, q: Q, f: F, a: V) -> Q;

    /// The sum of two quadrics.
    fn add_quadrics(&self, a: Q, b: Q) -> Q;

    /// The point that the pair `a, b` contracts to under the summed quadric
    /// `qa + qb`; `both_border` says both ends lie on the border.
    fn contraction(&self, a: V, b: V, qa: Q, qb: Q, both_border: bool) -> V;

    /// `f` with the errors of its edges `c0 c1`, `c1 c2`, `c2 c0` and their
    /// minimum recomputed; `border[j]` says both ends of edge `j` lie on the
    /// border.
    fn with_errors(&self, f: F, c: [V; 3], q: [Q; 3], border: [bool; 3]) -> F;

    /// The smallest edge error of `f` is within the bound of the pass.
    fn face_below(&self, f: F) -> bool;

    /// The error of edge `j` of `f` is below the bound of the pass.
    fn edge_below(&self, f: F, j: usize) -> bool;

    /// Moving the remaining corner of face `f` to `moved`, with the other two
    /// corners at `a` and `b`, would leave a sliver or turn the face over.
    fn folds(&self, moved: V, a: V, b: V, f: F) -> bool;
}

/// A triangle of the working mesh.
#[derive(Clone, Copy)]
pub struct Triangle {
    /// Vertex ids of the three corners.
    pub v: [u32; 3],
    /// Removed by a collapse; dropped at the next compaction.
    pub deleted: bool,
    /// Touched by a collapse in the current pass.
    pub dirty: bool,
}

/// The adjacency range and border flag of a working vertex.
#[derive(Clone, Copy)]
pub struct Vertex {
    /// First entry of the vertex's range in the adjacency list.
    pub tstart: usize,
    /// Length of that range.
    pub tcount: usize,
    /// The vertex was found to lie on the border of the mesh.
    pub border: bool,
}

/// One entry of the adjacency list: a triangle and the corner slot of the
/// vertex in it.
#[derive(Clone, Copy)]
pub struct Ref {
    pub tid: usize,
    pub tvertex: usize,
}

/// All three corners of `t` name one of `n` vertices.
pub open spec fn corners_below(t: Triangle, n: nat) -> bool {
    &&& t.v[0] < n
    &&& t.v[1] < n
    &&& t.v[2] < n
}

/// `t` with corner `k` set to `x`, marked dirty.
pub open spec fn set_corner(t: Triangle, k: int, x: u32) -> Triangle {
    Triangle {
        v: [
            if k == 0 { x } else { t.v[0] },
            if k == 1 { x } else { t.v[1] },
            if k == 2 { x } else { t.v[2] },
        ],
        deleted: t.deleted,
        dirty: true,
    }
}

/// The triangles after the adjacency entry `e` is moved to vertex `keep`:
/// nothing if its triangle is already deleted; else the triangle is deleted
/// when `d` is set, and otherwise gets `keep` in the entry's slot and is
/// marked dirty.
pub open spec fn move_entry(s: Seq<Triangle>, e: Ref, d: bool, keep: u32) -> Seq<Triangle> {
    let t = s[e.tid as int];
    if t.deleted {
        s
    } else if d {
        s.update(e.tid as int, Triangle { deleted: true, ..t })
    } else {
        s.update(e.tid as int, set_corner(t, e.tvertex as int, keep))
    }
}

/// The triangles after the first `n` entries of `es` are moved to `keep`, in
/// order, entry `k` with deletion flag `ds[k]`.
pub open spec fn moved(s: Seq<Triangle>, es: Seq<Ref>, ds: Seq<bool>, keep: u32, n: nat) -> Seq<
    Triangle,
>
    decreases n,
{
    if n == 0 {
        s
    } else {
        move_entry(moved(s, es, ds, keep, (n - 1) as nat), es[n - 1], ds[n - 1], keep)
    }
}

/// The entries among the first `n` of `es` whose triangle is kept and moved
/// to `keep`, in order: those that are appended to the adjacency list.
pub open spec fn appended(s: Seq<Triangle>, es: Seq<Ref>, ds: Seq<bool>, keep: u32, n: nat) -> Seq<
    Ref,
>
    decreases n,
{
    if n == 0 {
        Seq::empty()
    } else {
        let p = moved(s, es, ds, keep, (n - 1) as nat);
        let a = appended(s, es, ds, keep, (n - 1) as nat);
        if !p[es[n - 1].tid as int].deleted && !ds[n - 1] {
            a.push(es[n - 1])
        } else {
            a
        }
    }
}

/// Entry `e` names a live triangle that also has `other` as a corner: the
/// triangle would be left degenerate by merging, and is to be deleted.
pub open spec fn doomed(s: Seq<Triangle>, e: Ref, other: u32) -> bool {
    let t = s[e.tid as int];
    !t.deleted && (t.v[(e.tvertex + 1) % 3] == other || t.v[(e.tvertex + 2) % 3] == other)
}

/// One deletion flag per entry of `es`.
pub open spec fn flip_flags(s: Seq<Triangle>, es: Seq<Ref>, other: u32) -> Seq<bool> {
    Seq::new(es.len(), |k: int| doomed(s, es[k], other))
}

/// Some entry of `es` names a live triangle without `other` as a corner:
/// one whose shape the geometry is asked about.
pub open spec fn may_fold(s: Seq<Triangle>, es: Seq<Ref>, other: u32) -> bool {
    exists|k: int|
        0 <= k < es.len() && !s[es[k].tid as int].deleted && !#[trigger] doomed(s, es[k], other)
}

/// `a` with its deleted triangles dropped, order kept.
pub open spec fn compacted(a: Seq<Triangle>) -> Seq<Triangle> {
    Seq::new(kept(a).len(), |j: int| a[kept(a)[j]])
}

/// `a` with every dirty flag cleared.
pub open spec fn cleared(a: Seq<Triangle>) -> Seq<Triangle> {
    Seq::new(a.len(), |t: int| Triangle { dirty: false, ..a[t] })
}

/// `a` with every deleted flag cleared.
pub open spec fn revived(a: Seq<Triangle>) -> Seq<Triangle> {
    Seq::new(a.len(), |t: int| Triangle { deleted: false, ..a[t] })
}

/// `b` is `a` after collapsing `i1` into `i0`: the entries of a range `r0`
/// (around `i0`) and then of a range `r1` (around `i1`) are moved to `i0`,
/// a triangle being deleted where it also has the other end as a corner.
pub open spec fn collapse_of(a: Seq<Triangle>, b: Seq<Triangle>, i0: u32, i1: u32) -> bool {
    exists|r0: Seq<Ref>, r1: Seq<Ref>|
        b == #[trigger] moved(
            moved(a, r0, flip_flags(a, r0, i1), i0, r0.len()),
            r1,
            flip_flags(a, r1, i0),
            i0,
            r1.len(),
        )
}

/// One step of a run: a compaction, a clearing of dirty flags, or a
/// collapse.
pub open spec fn step_ok(a: Seq<Triangle>, b: Seq<Triangle>) -> bool {
    ||| b == compacted(a)
    ||| b == cleared(a)
    ||| exists|i0: u32, i1: u32| #[trigger] collapse_of(a, b, i0, i1)
}

/// Each triangle list of `h` follows from the one before by one step.
pub open spec fn trail_ok(h: Seq<Seq<Triangle>>) -> bool {
    forall|k: int| 0 <= k < h.len() - 1 ==> #[trigger] step_ok(h[k], h[k + 1])
}

proof fn lemma_trail_push(h: Seq<Seq<Triangle>>, b: Seq<Triangle>)
    requires
        h.len() >= 1,
        trail_ok(h),
        step_ok(h.last(), b),
    ensures
        trail_ok(h.push(b)),
        h.push(b).last() == b,
        h.push(b)[0] == h[0],
{
    let g = h.push(b);
    assert forall|k: int| 0 <= k < g.len() - 1 implies #[trigger] step_ok(g[k], g[k + 1]) by {
        if k < h.len() - 1 {
            assert(g[k] == h[k] && g[k + 1] == h[k + 1]);
            assert(step_ok(h[k], h[k + 1]));
        } else {
            assert(g[k] == h.last());
        }
    }
}

/// The adjacency range of vertex `v`.
pub open spec fn range_of(refs: Seq<Ref>, x: Vertex) -> Seq<Ref> {
    refs.subrange(x.tstart as int, x.tstart + x.tcount)
}

/// Quadric mesh decimation over one mesh: built from a mesh, simplified once,
/// then written back.
pub struct Simplify<V, Q, F> {
    pub triangles: Vec<Triangle>,
    pub faces: Vec<F>,
    pub vertices: Vec<Vertex>,
    pub points: Vec<V>,
    pub quadrics: Vec<Q>,
    pub refs: Vec<Ref>,
    /// Every collapse committed so far: the vertex kept, the vertex removed,
    /// the border flags of the two at the time, and the number of live
    /// triangles just before.
    pub merges: Ghost<Seq<(int, int, bool, bool, nat)>>,
    /// Every collapse tried so far: the triangle and its edge, whether both
    /// ends had the same border flag, whether the flip test from the first
    /// and from the second end reported a fold, and whether the collapse was
    /// committed.
    pub attempts: Ghost<Seq<(int, int, bool, bool, bool, bool)>>,
    /// Passes started by the last simplification.
    pub passes: usize,
    /// The triangle lists of the last simplification, from the input with
    /// no triangle deleted to the list that was finally compacted.
    pub history: Ghost<Seq<Seq<Triangle>>>,
}

impl<V: Copy, Q: Copy, F: Copy> Simplify<V, Q, F> {
    /// Lists agree in length, corners name existing vertices, adjacency
    /// ranges lie inside the adjacency list and its entries name existing
    /// triangles and corner slots.
    pub open spec fn wf(&self) -> bool {
        &&& self.wf_base()
        &&& forall|v: int|
            0 <= v < self.vertices@.len() ==> (#[trigger] self.vertices@[v]).tstart
                + self.vertices@[v].tcount <= self.refs@.len()
        &&& forall|r: int|
            0 <= r < self.refs@.len() ==> (#[trigger] self.refs@[r]).tid < self.triangles@.len()
                && self.refs@[r].tvertex < 3
    }

    /// The part of `wf` that does not concern adjacency.
    pub open spec fn wf_base(&self) -> bool {
        &&& self.faces@.len() == self.triangles@.len()
        &&& self.points@.len() == self.vertices@.len()
        &&& self.quadrics@.len() == self.vertices@.len()
        &&& 3 * self.triangles@.len() <= usize::MAX
        &&& forall|t: int|
            0 <= t < self.triangles@.len() ==> corners_below(
                #[trigger] self.triangles@[t],
                self.vertices@.len() as nat,
            )
    }

    /// The refresh made every few passes: drop deleted triangles (after the
    /// first pass only) and rebuild adjacency. On the first pass also find
    /// the border vertices, build every vertex's quadric from the planes of
    /// its triangles, and compute every triangle's edge errors.
    fn update_mesh<G: Geometry<V, Q, F>>(&mut self, iteration: usize, g: &G)
        requires
            old(self).wf_base(),
        ensures
            final(self).wf(),
            final(self).adjacency_exact(),
            iteration > 0 ==> final(self).triangles@.len() == kept(old(self).triangles@).len(),
            iteration > 0 ==> forall|j: int|
                0 <= j < final(self).triangles@.len() ==> #[trigger] final(self).triangles@[j]
                    == old(self).triangles@[kept(old(self).triangles@)[j]],
            iteration == 0 ==> final(self).triangles@ == old(self).triangles@,
            iteration > 0 ==> forall|w: int|
                0 <= w < final(self).vertices@.len() ==> (#[trigger] final(self).vertices@[w]).border
                    == old(self).vertices@[w].border,
            iteration == 0 ==> forall|w: int|
                0 <= w < final(self).vertices@.len() ==> (#[trigger] final(self).vertices@[w]).border
                    == on_border(final(self).triangles@, final(self).vertices@.len() as nat, w),
            iteration > 0 ==> final(self).quadrics@ == old(self).quadrics@,
            iteration > 0 ==> final(self).triangles@ == compacted(old(self).triangles@),
            iteration > 0 ==> forall|j: int|
                0 <= j < final(self).faces@.len() ==> #[trigger] final(self).faces@[j]
                    == old(self).faces@[kept(old(self).triangles@)[j]],
            final(self).vertices@.len() == old(self).vertices@.len(),
            final(self).points@ == old(self).points@,
            final(self).merges@ == old(self).merges@,
            final(self).attempts@ == old(self).attempts@,
    {
        let ghost o = *old(self);
        if iteration > 0 {
            self.compact_triangles();
        }
        let ghost mid = *self;
        self.rebuild_refs();
        proof {
            if iteration > 0 {
                assert forall|j: int| 0 <= j < self.faces@.len() implies #[trigger] self.faces@[j]
                    == o.faces@[kept(o.triangles@)[j]] by {
                    assert(mid.triangles@[j] == o.triangles@[kept(o.triangles@)[j]]);
                }
                assert(self.triangles@ =~= compacted(o.triangles@));
            }
        }
        if iteration == 0 {
            let ghost before = *self;
            self.detect_borders();
            self.init_quadrics(g);
            proof {
                assert forall|u: int| 0 <= u < self.vertices@.len() implies #[trigger] self.neighbours(u)
                    == before.neighbours(u) by {
                    assert(self.neighbours(u) =~= before.neighbours(u));
                }
                assert forall|w: int| 0 <= w < self.vertices@.len() implies #[trigger] self.border_rule(w)
                    == before.border_rule(w) by {
                    if before.border_rule(w) {
                        let u = choose|u: int| 0 <= u < before.vertices@.len() && occ(#[trigger] before.neighbours(u), w) == 1;
                        assert(self.neighbours(u) == before.neighbours(u));
                    }
                    if self.border_rule(w) {
                        let u = choose|u: int| 0 <= u < self.vertices@.len() && occ(#[trigger] self.neighbours(u), w) == 1;
                        assert(self.neighbours(u) == before.neighbours(u));
                    }
                }
                assert(self.adjacency_exact());
                assert forall|w: int| 0 <= w < self.vertices@.len() implies (#[trigger] self.vertices@[w]).border
                    == on_border(self.triangles@, self.vertices@.len() as nat, w) by {
                    self.lemma_border_rule_incident(w);
                }
            }
        }
    }

    /// Sets each face's normal, each vertex's quadric to the sum of the plane
    /// quadrics of its triangles, and each face's edge errors.
    fn init_quadrics<G: Geometry<V, Q, F>>(&mut self, g: &G)
        requires
            old(self).wf(),
        ensures
            final(self).wf(),
            final(self).triangles@ == old(self).triangles@,
            final(self).vertices@ == old(self).vertices@,
            final(self).refs@ == old(self).refs@,
            final(self).points@ == old(self).points@,
            final(self).merges@ == old(self).merges@,
            final(self).attempts@ == old(self).attempts@,
    {
        let n = self.vertices.len();
        let mut v: usize = 0;
        while v < n
            invariant
                self.wf(),
                n == self.vertices@.len(),
                v <= n,
                self.triangles@ == old(self).triangles@,
                self.vertices@ == old(self).vertices@,
                self.refs@ == old(self).refs@,
                self.points@ == old(self).points@,
                self.merges@ == old(self).merges@,
                self.attempts@ == old(self).attempts@,
            decreases n - v,
        {
            self.quadrics[v] = g.zero_quadric();
            v += 1;
        }
        let nt = self.triangles.len();
        let mut t: usize = 0;
        while t < nt
            invariant
                self.wf(),
                nt == self.triangles@.len(),
                t <= nt,
                self.triangles@ == old(self).triangles@,
                self.vertices@ == old(self).vertices@,
                self.refs@ == old(self).refs@,
                self.points@ == old(self).points@,
                self.merges@ == old(self).merges@,
                self.attempts@ == old(self).attempts@,
            decreases nt - t,
        {
            let tri = self.triangles[t];
            proof {
                assert(corners_below(tri, self.vertices@.len() as nat));
            }
            let a = tri.v[0] as usize;
            let b = tri.v[1] as usize;
            let c = tri.v[2] as usize;
            let pa = self.points[a];
            let f = g.with_normal(self.faces[t], pa, self.points[b], self.points[c]);
            self.faces[t] = f;
            let qa = g.add_plane(self.quadrics[a], f, pa);
            self.quadrics[a] = qa;
            let qb = g.add_plane(self.quadrics[b], f, pa);
            self.quadrics[b] = qb;
            let qc = g.add_plane(self.quadrics[c], f, pa);
            self.quadrics[c] = qc;
            t += 1;
        }
        let mut t: usize = 0;
        while t < nt
            invariant
                self.wf(),
                nt == self.triangles@.len(),
                t <= nt,
                self.triangles@ == old(self).triangles@,
                self.vertices@ == old(self).vertices@,
                self.refs@ == old(self).refs@,
                self.points@ == old(self).points@,
                self.merges@ == old(self).merges@,
                self.attempts@ == old(self).attempts@,
            decreases nt - t,
        {
            let f = self.face_errors(t, g);
            self.faces[t] = f;
            t += 1;
        }
    }

    /// The face record of triangle `t` with its edge errors recomputed from
    /// the current corners.
    fn face_errors<G: Geometry<V, Q, F>>(&self, t: usize, g: &G) -> F
        requires
            self.wf(),
            t < self.triangles@.len(),
    {
        let tri = self.triangles[t];
        proof {
            assert(corners_below(tri, self.vertices@.len() as nat));
        }
        let a = tri.v[0] as usize;
        let b = tri.v[1] as usize;
        let c = tri.v[2] as usize;
        let ba = self.vertices[a].border;
        let bb = self.vertices[b].border;
        let bc = self.vertices[c].border;
        g.with_errors(
            self.faces[t],
            [self.points[a], self.points[b], self.points[c]],
            [self.quadrics[a], self.quadrics[b], self.quadrics[c]],
            [ba && bb, bb && bc, bc && ba],
        )
    }

    /// The flip test from the side of vertex `v`, which is to move to `p`
    /// while merging with `other`. Returns whether some live triangle around
    /// `v` would fold over, and otherwise one flag per entry of `v`'s
    /// adjacency range: set where the triangle also has `other` as a corner,
    /// and so is to be deleted rather than kept.
    fn flipped<G: Geometry<V, Q, F>>(&self, p: V, other: u32, v: usize, g: &G) -> (r: (
        bool,
        Vec<bool>,
    ))
        requires
            self.wf(),
            v < self.vertices@.len(),
        ensures
            !r.0 ==> r.1@ == flip_flags(
                self.triangles@,
                range_of(self.refs@, self.vertices@[v as int]),
                other,
            ),
            r.0 ==> may_fold(self.triangles@, range_of(self.refs@, self.vertices@[v as int]), other),
    {
        let ghost es = range_of(self.refs@, self.vertices@[v as int]);
        let x = self.vertices[v];
        let rl = self.refs.len();
        let mut del: Vec<bool> = Vec::new();
        let mut k: usize = 0;
        while k < x.tcount
            invariant
                self.wf(),
                rl == self.refs@.len(),
                v < self.vertices@.len(),
                x == self.vertices@[v as int],
                k <= x.tcount,
                del@.len() == k,
                es == range_of(self.refs@, x),
                x.tstart + x.tcount <= self.refs@.len(),
                forall|m: int| 0 <= m < k ==> #[trigger] del@[m] == doomed(self.triangles@, es[m], other),
            decreases x.tcount - k,
        {
            assert(x.tstart + x.tcount <= self.refs@.len());
            let e = self.refs[x.tstart + k];
            assert(e == es[k as int]);
            let t = self.triangles[e.tid];
            if t.deleted {
                del.push(false);
            } else {
                proof {
                    assert(corners_below(t, self.vertices@.len() as nat));
                }
                let id1 = t.v[(e.tvertex + 1) % 3];
                let id2 = t.v[(e.tvertex + 2) % 3];
                if id1 == other || id2 == other {
                    del.push(true);
                } else {
                    if g.folds(p, self.points[id1 as usize], self.points[id2 as usize], self.faces[e.tid]) {
                        assert(!doomed(self.triangles@, es[k as int], other));
                        return (true, del);
                    }
                    del.push(false);
                }
            }
            k += 1;
        }
        assert(del@ =~= flip_flags(self.triangles@, es, other));
        (false, del)
    }

    /// Moves the live triangles around `v` over to vertex `keep`: those that
    /// `del` flags are deleted and counted, the others get `keep` in place of
    /// `v`, are marked dirty, get fresh edge errors, and are appended to the
    /// adjacency list.
    fn update_triangles<G: Geometry<V, Q, F>>(
        &mut self,
        keep: u32,
        v: usize,
        del: &Vec<bool>,
        deleted: &mut usize,
        g: &G,
    )
        requires
            old(self).wf(),
            v < old(self).vertices@.len(),
            (keep as int) < old(self).vertices@.len(),
            del@.len() == old(self).vertices@[v as int].tcount,
            live_count(old(self).triangles@) + *old(deleted) <= usize::MAX,
        ensures
            final(self).wf(),
            live_count(final(self).triangles@) + *final(deleted) == live_count(old(self).triangles@)
                + *old(deleted),
            final(self).triangles@.len() == old(self).triangles@.len(),
            final(self).vertices@ == old(self).vertices@,
            final(self).points@ == old(self).points@,
            final(self).quadrics@ == old(self).quadrics@,
            final(self).merges@ == old(self).merges@,
            final(self).attempts@ == old(self).attempts@,
            final(self).refs@.len() >= old(self).refs@.len(),
            forall|i: int| 0 <= i < old(self).refs@.len() ==> #[trigger] final(self).refs@[i] == old(self).refs@[i],
            final(self).triangles@ == moved(
                old(self).triangles@,
                range_of(old(self).refs@, old(self).vertices@[v as int]),
                del@,
                keep,
                del@.len(),
            ),
            final(self).refs@ == old(self).refs@ + appended(
                old(self).triangles@,
                range_of(old(self).refs@, old(self).vertices@[v as int]),
                del@,
                keep,
                del@.len(),
            ),
            final(self).faces@.len() == old(self).faces@.len(),
    {
        let x = self.vertices[v];
        let ghost es = range_of(old(self).refs@, x);
        let ghost s0 = old(self).triangles@;
        let mut k: usize = 0;
        while k < x.tcount
            invariant
                self.wf(),
                v < self.vertices@.len(),
                x == self.vertices@[v as int],
                (keep as int) < self.vertices@.len(),
                del@.len() == x.tcount,
                k <= x.tcount,
                live_count(self.triangles@) + *deleted == live_count(old(self).triangles@)
                    + *old(deleted),
                live_count(old(self).triangles@) + *old(deleted) <= usize::MAX,
                self.triangles@.len() == old(self).triangles@.len(),
                self.vertices@ == old(self).vertices@,
                self.points@ == old(self).points@,
                self.quadrics@ == old(self).quadrics@,
                self.merges@ == old(self).merges@,
                self.attempts@ == old(self).attempts@,
                self.refs@.len() >= old(self).refs@.len(),
                forall|i: int| 0 <= i < old(self).refs@.len() ==> #[trigger] self.refs@[i] == old(self).refs@[i],
                es == range_of(old(self).refs@, x),
                s0 == old(self).triangles@,
                x.tstart + x.tcount <= old(self).refs@.len(),
                self.triangles@ == moved(s0, es, del@, keep, k as nat),
                self.refs@ == old(self).refs@ + appended(s0, es, del@, keep, k as nat),
            decreases x.tcount - k,
        {
            let rl = self.refs.len();
            assert(x.tstart + k < rl);
            let e = self.refs[x.tstart + k];
            let t = self.triangles[e.tid];
            let ghost s = self.triangles@;
            let ghost r0 = self.refs@;
            proof {
                assert(e == es[k as int]);
            }
            if !t.deleted {
                if del[k] {
                    let y = Triangle { v: t.v, deleted: true, dirty: t.dirty };
                    self.triangles[e.tid] = y;
                    proof {
                        lemma_live_count_update(s, e.tid as int, y);
                        assert forall|i: int| 0 <= i < self.triangles@.len() implies corners_below(
                            #[trigger] self.triangles@[i],
                            self.vertices@.len() as nat,
                        ) by {
                            assert(corners_below(s[i], self.vertices@.len() as nat));
                        }
                    }
                    *deleted = *deleted + 1;
                } else {
                    proof {
                        assert(corners_below(t, self.vertices@.len() as nat));
                    }
                    let y = Triangle {
                        v: [
                            if e.tvertex == 0 { keep } else { t.v[0] },
                            if e.tvertex == 1 { keep } else { t.v[1] },
                            if e.tvertex == 2 { keep } else { t.v[2] },
                        ],
                        deleted: t.deleted,
                        dirty: true,
                    };
                    self.triangles[e.tid] = y;
                    proof {
                        assert(y == set_corner(t, e.tvertex as int, keep));
                        lemma_live_count_update(s, e.tid as int, y);
                        assert forall|i: int| 0 <= i < self.triangles@.len() implies corners_below(
                            #[trigger] self.triangles@[i],
                            self.vertices@.len() as nat,
                        ) by {
                            assert(corners_below(s[i], self.vertices@.len() as nat));
                        }
                    }
                    let f = self.face_errors(e.tid, g);
                    self.faces[e.tid] = f;
                    self.refs.push(e);
                }
            }
            proof {
                assert(self.refs@ =~= old(self).refs@ + appended(s0, es, del@, keep, (k + 1) as nat));
            }
            k += 1;
        }
    }

    /// Tries to collapse edge `j` of triangle `i`, from corner `j` to the
    /// next one. The collapse is refused when exactly one end lies on the
    /// border, or when the flip test fails from either end. Otherwise the
    /// first end moves to the contraction point, takes the sum of both
    /// quadrics, and inherits the live triangles of the second end; triangles
    /// that had both ends are deleted and counted in `deleted`.
    fn try_collapse<G: Geometry<V, Q, F>>(
        &mut self,
        i: usize,
        j: usize,
        deleted: &mut usize,
        g: &G,
    ) -> (r: bool)
        requires
            old(self).wf(),
            i < old(self).triangles@.len(),
            !old(self).triangles@[i as int].deleted,
            !old(self).triangles@[i as int].dirty,
            j < 3,
            live_count(old(self).triangles@) + *old(deleted) <= usize::MAX,
        ensures
            final(self).wf(),
            live_count(final(self).triangles@) + *final(deleted) == live_count(old(self).triangles@)
                + *old(deleted),
            final(self).triangles@.len() == old(self).triangles@.len(),
            final(self).vertices@.len() == old(self).vertices@.len(),
            forall|w: int|
                0 <= w < final(self).vertices@.len() ==> (#[trigger] final(self).vertices@[w]).border
                    == old(self).vertices@[w].border,
            ({
                let i0 = old(self).triangles@[i as int].v[j as int] as int;
                let i1 = old(self).triangles@[i as int].v[(j + 1) % 3] as int;
                r ==> final(self).merges@ == old(self).merges@.push(
                    (
                        i0,
                        i1,
                        old(self).vertices@[i0].border,
                        old(self).vertices@[i1].border,
                        live_count(old(self).triangles@),
                    ),
                )
            }),
            r ==> old(self).vertices@[old(self).triangles@[i as int].v[j as int] as int].border
                == old(self).vertices@[old(self).triangles@[i as int].v[(j + 1) % 3] as int].border,
            !r ==> final(self).merges@ == old(self).merges@,
            !r ==> final(self).triangles@ == old(self).triangles@,
            !r ==> final(self).points@ == old(self).points@,
            ({
                let s = old(self).triangles@;
                let i0 = s[i as int].v[j as int];
                let i1 = s[i as int].v[(j + 1) % 3];
                let r0 = range_of(old(self).refs@, old(self).vertices@[i0 as int]);
                let r1 = range_of(old(self).refs@, old(self).vertices@[i1 as int]);
                let f0 = flip_flags(s, r0, i1);
                let f1 = flip_flags(s, r1, i0);
                let a = final(self).attempts@.last();
                &&& final(self).attempts@ == old(self).attempts@.push(a)
                &&& a.0 == i && a.1 == j
                &&& a.2 == (old(self).vertices@[i0 as int].border == old(self).vertices@[i1 as int].border)
                &&& !a.2 ==> !a.3 && !a.4
                &&& a.3 ==> may_fold(s, r0, i1)
                &&& a.4 ==> may_fold(s, r1, i0)
                &&& a.5 == r
                &&& r == (a.2 && !a.3 && !a.4)
                &&& r ==> final(self).triangles@ == moved(
                    moved(s, r0, f0, i0, f0.len()),
                    r1,
                    f1,
                    i0,
                    f1.len(),
                )
                &&& r ==> forall|w: int|
                    0 <= w < final(self).points@.len() && w != i0 ==> #[trigger] final(self).points@[w]
                        == old(self).points@[w]
            }),
            final(self).points@.len() == old(self).points@.len(),
            final(self).merges@.len() <= old(self).merges@.len() + 1,
            r ==> collapse_of(
                old(self).triangles@,
                final(self).triangles@,
                old(self).triangles@[i as int].v[j as int],
                old(self).triangles@[i as int].v[(j + 1) % 3],
            ),
    {
        let ghost live = live_count(self.triangles@);
        let t = self.triangles[i];
        proof {
            assert(corners_below(t, self.vertices@.len() as nat));
        }
        let i0 = t.v[j] as usize;
        let i1 = t.v[(j + 1) % 3] as usize;
        let b0 = self.vertices[i0].border;
        let b1 = self.vertices[i1].border;
        if b0 != b1 {
            self.attempts = Ghost(self.attempts@.push((i as int, j as int, false, false, false, false)));
            return false;
        }
        let p = g.contraction(
            self.points[i0],
            self.points[i1],
            self.quadrics[i0],
            self.quadrics[i1],
            b0 && b1,
        );
        let (flip0, del0) = self.flipped(p, i1 as u32, i0, g);
        if flip0 {
            self.attempts = Ghost(self.attempts@.push((i as int, j as int, true, true, false, false)));
            return false;
        }
        let (flip1, del1) = self.flipped(p, i0 as u32, i1, g);
        if flip1 {
            self.attempts = Ghost(self.attempts@.push((i as int, j as int, true, false, true, false)));
            return false;
        }
        let ghost s0 = self.triangles@;
        let ghost refs0 = self.refs@;
        let ghost r1 = range_of(refs0, self.vertices@[i1 as int]);
        self.points[i0] = p;
        let q = g.add_quadrics(self.quadrics[i1], self.quadrics[i0]);
        self.quadrics[i0] = q;
        let tstart = self.refs.len();
        self.update_triangles(i0 as u32, i0, &del0, deleted, g);
        proof {
            assert(range_of(self.refs@, self.vertices@[i1 as int]) =~= r1);
        }
        self.update_triangles(i0 as u32, i1, &del1, deleted, g);
        let ghost tris = self.triangles@;
        let ghost pts = self.points@;
        let total = self.refs.len();
        let tcount = total - tstart;
        let mut x = self.vertices[i0];
        if tcount <= x.tcount {
            let mut m: usize = 0;
            while m < tcount
                invariant
                    self.wf(),
                    i0 < self.vertices@.len(),
                    x == self.vertices@[i0 as int],
                    tcount <= x.tcount,
                    tstart + tcount == self.refs@.len(),
                    total == self.refs@.len(),
                    m <= tcount,
                    live_count(self.triangles@) + *deleted == live_count(old(self).triangles@)
                        + *old(deleted),
                    self.triangles@.len() == old(self).triangles@.len(),
                    self.vertices@.len() == old(self).vertices@.len(),
                    forall|w: int|
                        0 <= w < self.vertices@.len() ==> (#[trigger] self.vertices@[w]).border
                            == old(self).vertices@[w].border,
                    self.merges@ == old(self).merges@,
                    self.attempts@ == old(self).attempts@,
                    self.triangles@ == tris,
                    self.points@ == pts,
                decreases tcount - m,
            {
                assert(x.tstart + x.tcount <= self.refs@.len());
                let e = self.refs[tstart + m];
                self.refs[x.tstart + m] = e;
                m += 1;
            }
        } else {
            x.tstart = tstart;
        }
        x.tcount = tcount;
        self.vertices[i0] = x;
        self.merges = Ghost(
            self.merges@.push((i0 as int, i1 as int, b0, b1, live)),
        );
        self.attempts = Ghost(self.attempts@.push((i as int, j as int, true, false, false, true)));
        true
    }

    /// Every vertex is a corner of some triangle.
    pub open spec fn all_vertices_used(&self) -> bool {
        forall|w: int| 0 <= w < self.vertices@.len() ==> #[trigger] is_corner(self.triangles@, w)
    }

    /// Collapses edges until at most `target_count` triangles remain or 100
    /// passes have run, then compacts the mesh.
    ///
    /// Each pass first checks the target; every fifth pass, the first
    /// included, refreshes adjacency (see `update_mesh`). A pass clears the
    /// dirty flags, then visits every triangle that is live, not dirty and
    /// whose smallest edge error is within the bound of the pass, and tries
    /// its edges in order until one collapse is committed.
    ///
    /// Whatever the geometry answers: the result is well formed, with no
    /// deleted triangle and no more triangles than before; `passes` holds the
    /// number of passes run, at most 100, and fewer only if at most
    /// `target_count` triangles remain. When no reduction is asked for, no
    /// pass runs, no collapse is tried and the triangle count stays. Each
    /// collapse tried is logged in `attempts`, and committed exactly when both
    /// ends had the same border flag and neither flip test reported a fold;
    /// each one committed is logged in `merges`, and happened while more than
    /// `target_count` triangles were live, between two vertices that the
    /// border rule over the input's triangles (`on_border`) classes alike.
    /// `history` lists the triangle lists of the run, from the input with no
    /// triangle deleted, each following from the one before by a compaction,
    /// a clearing of dirty flags or a collapse; the result is the last one
    /// compacted and renumbered.
    pub fn simplify_mesh<G: Geometry<V, Q, F>>(&mut self, target_count: usize, g: &mut G)
        requires
            old(self).wf_base(),
        ensures
            final(self).wf(),
            forall|t: int| 0 <= t < final(self).triangles@.len() ==> !(#[trigger] final(self).triangles@[t]).deleted,
            final(self).triangles@.len() <= old(self).triangles@.len(),
            final(self).merges@.subrange(0, old(self).merges@.len() as int) == old(self).merges@,
            forall|m: int|
                old(self).merges@.len() <= m < final(self).merges@.len() ==> (#[trigger] final(self).merges@[m]).2
                    == final(self).merges@[m].3 && final(self).merges@[m].4 > target_count,
            final(self).passes <= 100,
            final(self).triangles@.len() <= target_count || final(self).passes == 100,
            old(self).triangles@.len() <= target_count ==> {
                &&& final(self).passes == 0
                &&& final(self).triangles@.len() == old(self).triangles@.len()
                &&& final(self).merges@ == old(self).merges@
                &&& final(self).attempts@ == old(self).attempts@
            },
            forall|m: int|
                old(self).merges@.len() <= m < final(self).merges@.len() ==> (#[trigger] final(self).merges@[m]).2
                    == on_border(old(self).triangles@, old(self).vertices@.len() as nat, final(self).merges@[m].0)
                    && final(self).merges@[m].3 == on_border(
                    old(self).triangles@,
                    old(self).vertices@.len() as nat,
                    final(self).merges@[m].1,
                ),
            final(self).history@.len() >= 1,
            final(self).history@[0] == revived(old(self).triangles@),
            trail_ok(final(self).history@),
            ({
                let last = final(self).history@.last();
                let u = used_flags(last, old(self).vertices@.len() as nat);
                &&& final(self).triangles@.len() == kept(last).len()
                &&& forall|j: int, k: int|
                    0 <= j < final(self).triangles@.len() && 0 <= k < 3 ==> #[trigger] final(self).triangles@[j].v[k]
                        == rank(u, last[kept(last)[j]].v[k] as int)
            }),
            final(self).attempts@.subrange(0, old(self).attempts@.len() as int) == old(self).attempts@,
            forall|m: int|
                old(self).attempts@.len() <= m < final(self).attempts@.len() ==> (#[trigger] final(self).attempts@[m]).5
                    == (final(self).attempts@[m].2 && !final(self).attempts@[m].3
                    && !final(self).attempts@[m].4),
            old(self).triangles@.len() <= target_count && old(self).all_vertices_used() ==> {
                &&& final(self).points@ == old(self).points@
                &&& final(self).triangles@.len() == old(self).triangles@.len()
                &&& forall|t: int, k: int|
                    0 <= t < final(self).triangles@.len() && 0 <= k < 3 ==> #[trigger] final(self).triangles@[t].v[k]
                        == old(self).triangles@[t].v[k]
            },
    {
        let ghost s_in = old(self).triangles@;
        let ghost n_in = old(self).vertices@.len() as nat;
        let triangle_count = self.triangles.len();
        let mut t: usize = 0;
        while t < triangle_count
            invariant
                self.wf_base(),
                triangle_count == self.triangles@.len(),
                triangle_count == old(self).triangles@.len(),
                t <= triangle_count,
                forall|b: int| 0 <= b < t ==> !(#[trigger] self.triangles@[b]).deleted,
                forall|b: int, k: int|
                    0 <= b < triangle_count && 0 <= k < 3 ==> #[trigger] self.triangles@[b].v[k]
                        == old(self).triangles@[b].v[k],
                forall|b: int| 0 <= b < triangle_count ==> (#[trigger] self.triangles@[b]).v == old(self).triangles@[b].v,
                forall|b: int| 0 <= b < t ==> #[trigger] self.triangles@[b] == revived(old(self).triangles@)[b],
                forall|b: int| t <= b < triangle_count ==> #[trigger] self.triangles@[b] == old(self).triangles@[b],
                self.vertices@ == old(self).vertices@,
                self.points@ == old(self).points@,
                self.merges@ == old(self).merges@,
                self.attempts@ == old(self).attempts@,
            decreases triangle_count - t,
        {
            let mut x = self.triangles[t];
            x.deleted = false;
            assert(x == revived(old(self).triangles@)[t as int]);
            self.triangles[t] = x;
            proof {
                assert forall|b: int| 0 <= b < self.triangles@.len() implies corners_below(
                    #[trigger] self.triangles@[b],
                    self.vertices@.len() as nat,
                ) by {
                    if b == t {
                        assert(self.triangles@[b].v == old(self).triangles@[b].v);
                        assert(corners_below(old(self).triangles@[b], self.vertices@.len() as nat));
                    }
                }
            }
            t += 1;
        }
        proof {
            lemma_kept_all(self.triangles@);
            assert(self.triangles@ =~= revived(old(self).triangles@));
        }
        let ghost mut trail: Seq<Seq<Triangle>> = seq![self.triangles@];
        if triangle_count <= target_count {
            let ghost s = self.triangles@;
            let ghost n = self.vertices@.len();
            self.clean_mesh();
            proof {
                if old(self).all_vertices_used() {
                    let u = used_flags(s, n as nat);
                    assert forall|w: int| 0 <= w < n implies #[trigger] u[w] by {
                        assert(is_corner(old(self).triangles@, w));
                        let (b, k) = choose|b: int, k: int|
                            0 <= b < old(self).triangles@.len() && 0 <= k < 3
                                && #[trigger] old(self).triangles@[b].v[k] == w;
                        assert(s[b].v[k] == w);
                    }
                    lemma_rank_full(u, n as int);
                    assert forall|w: int| 0 <= w < n implies #[trigger] self.points@[w] == old(self).points@[w] by {
                        lemma_rank_full(u, w);
                    }
                    assert(self.points@ =~= old(self).points@);
                    assert forall|b: int, k: int|
                        0 <= b < self.triangles@.len() && 0 <= k < 3 implies #[trigger] self.triangles@[b].v[k]
                            == old(self).triangles@[b].v[k] by {
                        let a = s[b].v[k] as int;
                        assert(corners_below(s[b], n as nat));
                        assert(k == 0 || k == 1 || k == 2);
                        lemma_rank_full(u, a);
                    }
                }
                assert(self.merges@.subrange(0, old(self).merges@.len() as int) =~= old(self).merges@);
                assert(self.attempts@.subrange(0, old(self).attempts@.len() as int) =~= old(self).attempts@);
            }
            self.passes = 0;
            self.history = Ghost(trail);
            return;
        }
        assert(self.merges@.subrange(0, old(self).merges@.len() as int) =~= old(self).merges@);
        assert(self.attempts@.subrange(0, old(self).attempts@.len() as int) =~= old(self).attempts@);
        let mut deleted_triangles: usize = 0;
        let mut iteration: usize = 0;
        while iteration < 100
            invariant
                self.wf_base(),
                iteration > 0 ==> self.wf(),
                self.triangles@.len() <= triangle_count,
                live_count(self.triangles@) + deleted_triangles == triangle_count,
                self.merges@.subrange(0, old(self).merges@.len() as int) == old(self).merges@,
                self.merges@.len() >= old(self).merges@.len(),
                forall|m: int|
                    old(self).merges@.len() <= m < self.merges@.len() ==> (#[trigger] self.merges@[m]).2
                        == self.merges@[m].3 && self.merges@[m].4 > target_count,
                self.attempts@.subrange(0, old(self).attempts@.len() as int) == old(self).attempts@,
                self.attempts@.len() >= old(self).attempts@.len(),
                trail.len() >= 1,
                trail[0] == revived(old(self).triangles@),
                trail_ok(trail),
                trail.last() == self.triangles@,
                self.vertices@.len() == old(self).vertices@.len(),
                forall|m: int|
                    old(self).merges@.len() <= m < self.merges@.len() ==> (#[trigger] self.merges@[m]).2
                        == on_border(s_in, n_in, self.merges@[m].0) && self.merges@[m].3 == on_border(s_in, n_in, self.merges@[m].1),
                s_in == old(self).triangles@,
                n_in == old(self).vertices@.len(),
                triangle_count == s_in.len(),
                iteration == 0 ==> self.triangles@.len() == s_in.len() && forall|b: int|
                    0 <= b < triangle_count ==> (#[trigger] self.triangles@[b]).v == s_in[b].v,
                iteration > 0 ==> forall|w: int|
                    0 <= w < n_in ==> (#[trigger] self.vertices@[w]).border == on_border(s_in, n_in, w),
                forall|m: int|
                    old(self).attempts@.len() <= m < self.attempts@.len() ==> (#[trigger] self.attempts@[m]).5
                        == (self.attempts@[m].2 && !self.attempts@[m].3 && !self.attempts@[m].4),
                iteration <= 100,
            ensures
                iteration == 100 || live_count(self.triangles@) <= target_count,
            decreases 100 - iteration,
        {
            if triangle_count - deleted_triangles <= target_count {
                break;
            }
            if iteration % 5 == 0 {
                let ghost s = self.triangles@;
                self.update_mesh(iteration, g);
                proof {
                    if iteration > 0 {
                        assert(step_ok(trail.last(), self.triangles@));
                        lemma_trail_push(trail, self.triangles@);
                        trail = trail.push(self.triangles@);
                    }
                    if iteration == 0 {
                        assert forall|w: int| 0 <= w < n_in implies (#[trigger] self.vertices@[w]).border
                            == on_border(s_in, n_in, w) by {
                            lemma_on_border_corners(self.triangles@, s_in, n_in, w);
                        }
                    }
                    if iteration > 0 {
                        lemma_kept_bounds(s);
                        assert forall|b: int| 0 <= b < self.triangles@.len() implies !(#[trigger] self.triangles@[b]).deleted by {
                            assert(!s[kept(s)[b]].deleted);
                        }
                        lemma_kept_all(self.triangles@);
                    }
                }
            }
            let ghost before_clear = self.triangles@;
            self.clear_dirty();
            proof {
                assert(step_ok(before_clear, self.triangles@));
                lemma_trail_push(trail, self.triangles@);
                trail = trail.push(self.triangles@);
            }
            g.begin_pass(iteration);
            let nt = self.triangles.len();
            let mut i: usize = 0;
            while i < nt
                invariant_except_break
                    live_count(self.triangles@) > target_count,
                invariant
                    self.wf(),
                    nt == self.triangles@.len(),
                    nt <= triangle_count,
                    i <= nt,
                    live_count(self.triangles@) + deleted_triangles == triangle_count,
                    self.merges@.subrange(0, old(self).merges@.len() as int) == old(self).merges@,
                    self.merges@.len() >= old(self).merges@.len(),
                    forall|m: int|
                        old(self).merges@.len() <= m < self.merges@.len() ==> (#[trigger] self.merges@[m]).2
                            == self.merges@[m].3 && self.merges@[m].4 > target_count,
                    self.attempts@.subrange(0, old(self).attempts@.len() as int) == old(self).attempts@,
                    self.attempts@.len() >= old(self).attempts@.len(),
                    trail.len() >= 1,
                    trail[0] == revived(old(self).triangles@),
                    trail_ok(trail),
                    trail.last() == self.triangles@,
                trail.len() >= 1,
                trail[0] == revived(old(self).triangles@),
                trail_ok(trail),
                trail.last() == self.triangles@,
                    self.vertices@.len() == old(self).vertices@.len(),
                    n_in == old(self).vertices@.len(),
                    forall|w: int|
                        0 <= w < n_in ==> (#[trigger] self.vertices@[w]).border == on_border(s_in, n_in, w),
                    forall|m: int|
                        old(self).merges@.len() <= m < self.merges@.len() ==> (#[trigger] self.merges@[m]).2
                            == on_border(s_in, n_in, self.merges@[m].0) && self.merges@[m].3 == on_border(s_in, n_in, self.merges@[m].1),
                self.vertices@.len() == old(self).vertices@.len(),
                forall|m: int|
                    old(self).merges@.len() <= m < self.merges@.len() ==> (#[trigger] self.merges@[m]).2
                        == on_border(s_in, n_in, self.merges@[m].0) && self.merges@[m].3 == on_border(s_in, n_in, self.merges@[m].1),
                    forall|m: int|
                        old(self).attempts@.len() <= m < self.attempts@.len() ==> (#[trigger] self.attempts@[m]).5
                            == (self.attempts@[m].2 && !self.attempts@[m].3 && !self.attempts@[m].4),
                decreases nt - i,
            {
                let tri = self.triangles[i];
                if !tri.deleted && !tri.dirty && g.face_below(self.faces[i]) {
                    let mut j: usize = 0;
                    while j < 3
                        invariant_except_break
                            live_count(self.triangles@) > target_count,
                            !self.triangles@[i as int].deleted,
                            !self.triangles@[i as int].dirty,
                        invariant
                            self.wf(),
                            nt == self.triangles@.len(),
                            nt <= triangle_count,
                            i < nt,
                            j <= 3,
                            live_count(self.triangles@) + deleted_triangles == triangle_count,
                            self.merges@.subrange(0, old(self).merges@.len() as int) == old(self).merges@,
                            self.merges@.len() >= old(self).merges@.len(),
                            forall|m: int|
                                old(self).merges@.len() <= m < self.merges@.len() ==> (#[trigger] self.merges@[m]).2
                                    == self.merges@[m].3 && self.merges@[m].4 > target_count,
                            self.attempts@.subrange(0, old(self).attempts@.len() as int) == old(self).attempts@,
                            self.attempts@.len() >= old(self).attempts@.len(),
                            trail.len() >= 1,
                            trail[0] == revived(old(self).triangles@),
                            trail_ok(trail),
                            trail.last() == self.triangles@,
                    trail.len() >= 1,
                    trail[0] == revived(old(self).triangles@),
                    trail_ok(trail),
                    trail.last() == self.triangles@,
                trail.len() >= 1,
                trail[0] == revived(old(self).triangles@),
                trail_ok(trail),
                trail.last() == self.triangles@,
                            self.vertices@.len() == old(self).vertices@.len(),
                            n_in == old(self).vertices@.len(),
                            forall|w: int|
                                0 <= w < n_in ==> (#[trigger] self.vertices@[w]).border == on_border(s_in, n_in, w),
                            forall|m: int|
                                old(self).merges@.len() <= m < self.merges@.len() ==> (#[trigger] self.merges@[m]).2
                                    == on_border(s_in, n_in, self.merges@[m].0) && self.merges@[m].3 == on_border(s_in, n_in, self.merges@[m].1),
                    self.vertices@.len() == old(self).vertices@.len(),
                    forall|m: int|
                        old(self).merges@.len() <= m < self.merges@.len() ==> (#[trigger] self.merges@[m]).2
                            == on_border(s_in, n_in, self.merges@[m].0) && self.merges@[m].3 == on_border(s_in, n_in, self.merges@[m].1),
                self.vertices@.len() == old(self).vertices@.len(),
                forall|m: int|
                    old(self).merges@.len() <= m < self.merges@.len() ==> (#[trigger] self.merges@[m]).2
                        == on_border(s_in, n_in, self.merges@[m].0) && self.merges@[m].3 == on_border(s_in, n_in, self.merges@[m].1),
                            forall|m: int|
                                old(self).attempts@.len() <= m < self.attempts@.len() ==> (#[trigger] self.attempts@[m]).5
                                    == (self.attempts@[m].2 && !self.attempts@[m].3 && !self.attempts@[m].4),
                        decreases 3 - j,
                    {
                        if g.edge_below(self.faces[i], j) {
                            let ghost pre = self.merges@;
                            let ghost pa = self.attempts@;
                            let ghost before_try = self.triangles@;
                            let done = self.try_collapse(i, j, &mut deleted_triangles, g);
                            proof {
                                if done {
                                    let i0 = before_try[i as int].v[j as int];
                                    let i1 = before_try[i as int].v[(j + 1) % 3];
                                    assert(collapse_of(before_try, self.triangles@, i0, i1));
                                    assert(step_ok(before_try, self.triangles@));
                                    lemma_trail_push(trail, self.triangles@);
                                    trail = trail.push(self.triangles@);
                                }
                                assert(self.attempts@.subrange(0, old(self).attempts@.len() as int)
                                    =~= pa.subrange(0, old(self).attempts@.len() as int));
                            }
                            if done {
                                proof {
                                    assert(self.merges@.subrange(0, old(self).merges@.len() as int)
                                        =~= pre.subrange(0, old(self).merges@.len() as int));
                                }
                                break;
                            }
                        }
                        j += 1;
                    }
                }
                if triangle_count - deleted_triangles <= target_count {
                    break;
                }
                i += 1;
            }
            iteration += 1;
        }
        let ghost s = self.triangles@;
        self.clean_mesh();
        self.passes = iteration;
        self.history = Ghost(trail);
        proof {
            lemma_kept_bounds(s);
        }
    }

    /// Clears every triangle's dirty flag.
    fn clear_dirty(&mut self)
        requires
            old(self).wf(),
        ensures
            final(self).wf(),
            final(self).triangles@.len() == old(self).triangles@.len(),
            live_count(final(self).triangles@) == live_count(old(self).triangles@),
            final(self).triangles@ == cleared(old(self).triangles@),
            final(self).vertices@ == old(self).vertices@,
            final(self).merges@ == old(self).merges@,
            final(self).attempts@ == old(self).attempts@,
    {
        let nt = self.triangles.len();
        let mut t: usize = 0;
        while t < nt
            invariant
                self.wf(),
                nt == self.triangles@.len(),
                t <= nt,
                live_count(self.triangles@) == live_count(old(self).triangles@),
                self.vertices@ == old(self).vertices@,
                self.merges@ == old(self).merges@,
                self.attempts@ == old(self).attempts@,
                old(self).triangles@.len() == nt,
                forall|b: int| 0 <= b < t ==> #[trigger] self.triangles@[b] == cleared(old(self).triangles@)[b],
                forall|b: int| t <= b < nt ==> #[trigger] self.triangles@[b] == old(self).triangles@[b],
            decreases nt - t,
        {
            let ghost s = self.triangles@;
            let mut x = self.triangles[t];
            x.dirty = false;
            assert(x == cleared(old(self).triangles@)[t as int]);
            self.triangles[t] = x;
            proof {
                lemma_live_count_update(s, t as int, x);
                assert forall|b: int| 0 <= b < self.triangles@.len() implies corners_below(
                    #[trigger] self.triangles@[b],
                    self.vertices@.len() as nat,
                ) by {
                    assert(corners_below(s[b], self.vertices@.len() as nat));
                }
            }
            t += 1;
        }
        assert(self.triangles@ =~= cleared(old(self).triangles@));
    }

    /// Checks `mesh`, then builds the working mesh from it as `build` does.
    /// An invalid mesh is refused with the error `validate` gives.
    pub fn from<G: Geometry<V, Q, F>>(mesh: &IndexedMesh<V>, g: &G) -> (r: Result<Self, MeshError>)
        ensures
            r is Ok <==> mesh.wf(),
            r == Err::<Self, MeshError>(MeshError::PartialTriangle) <==> mesh.indices@.len() % 3 != 0,
            r == Err::<Self, MeshError>(MeshError::IndexOutOfRange) <==> (mesh.indices@.len() % 3 == 0
                && !crate::mesh::indices_in_range(mesh.indices@, mesh.positions@.len() as nat)),
            r matches Ok(s) ==> s.built_from(mesh),
    {
        match mesh.validate() {
            Err(e) => Err(e),
            Ok(()) => Ok(Self::build(mesh, g)),
        }
    }

    /// Built from `mesh`: one vertex per position, not on the border and
    /// with no adjacency yet; one live, clean triangle per index triple; no
    /// collapse recorded.
    pub open spec fn built_from(&self, mesh: &IndexedMesh<V>) -> bool {
        &&& self.wf()
        &&& self.points@ == mesh.positions@
        &&& self.triangles@.len() == mesh.indices@.len() / 3
        &&& forall|t: int, k: int|
            0 <= t < self.triangles@.len() && 0 <= k < 3 ==> #[trigger] self.triangles@[t].v[k]
                == mesh.indices@[3 * t + k]
        &&& forall|t: int|
            0 <= t < self.triangles@.len() ==> !(#[trigger] self.triangles@[t]).deleted
                && !self.triangles@[t].dirty
        &&& forall|w: int|
            0 <= w < self.vertices@.len() ==> !(#[trigger] self.vertices@[w]).border
                && self.vertices@[w].tstart == 0 && self.vertices@[w].tcount == 0
        &&& self.merges@.len() == 0
        &&& self.attempts@.len() == 0
    }

    /// Builds the working mesh: one vertex per position with an empty
    /// quadric, one live triangle per index triple.
    fn build<G: Geometry<V, Q, F>>(mesh: &IndexedMesh<V>, g: &G) -> (r: Self)
        requires
            mesh.wf(),
        ensures
            r.built_from(mesh),
    {
        let n = mesh.positions.len();
        let mut vertices: Vec<Vertex> = Vec::new();
        let mut points: Vec<V> = Vec::new();
        let mut quadrics: Vec<Q> = Vec::new();
        let mut i: usize = 0;
        while i < n
            invariant
                n == mesh.positions@.len(),
                i <= n,
                vertices@.len() == i,
                quadrics@.len() == i,
                points@ == mesh.positions@.subrange(0, i as int),
                forall|v: int| 0 <= v < i ==> (#[trigger] vertices@[v]).tstart == 0
                    && vertices@[v].tcount == 0 && !vertices@[v].border,
            decreases n - i,
        {
            vertices.push(Vertex { tstart: 0, tcount: 0, border: false });
            points.push(mesh.positions[i]);
            quadrics.push(g.zero_quadric());
            i += 1;
            assert(points@ =~= mesh.positions@.subrange(0, i as int));
        }
        let len = mesh.indices.len();
        let tris = len / 3;
        let mut triangles: Vec<Triangle> = Vec::new();
        let mut faces: Vec<F> = Vec::new();
        let mut t: usize = 0;
        while t < tris
            invariant
                valid_indices(mesh.indices@, n as nat),
                len == mesh.indices@.len(),
                tris == len / 3,
                t <= tris,
                triangles@.len() == t,
                faces@.len() == t,
                forall|s: int, k: int|
                    0 <= s < t && 0 <= k < 3 ==> #[trigger] triangles@[s].v[k] == mesh.indices@[3
                        * s + k],
                forall|s: int| 0 <= s < t ==> !(#[trigger] triangles@[s]).deleted && !triangles@[s].dirty,
            decreases tris - t,
        {
            let a = mesh.indices[3 * t];
            let b = mesh.indices[3 * t + 1];
            let c = mesh.indices[3 * t + 2];
            triangles.push(Triangle { v: [a, b, c], deleted: false, dirty: false });
            faces.push(g.blank_face());
            t += 1;
        }
        let r = Simplify {
            triangles,
            faces,
            vertices,
            points,
            quadrics,
            refs: Vec::new(),
            merges: Ghost(Seq::empty()),
            attempts: Ghost(Seq::empty()),
            passes: 0,
            history: Ghost(Seq::empty()),
        };
        assert forall|s: int| 0 <= s < r.triangles@.len() implies corners_below(
            #[trigger] r.triangles@[s],
            r.vertices@.len() as nat,
        ) by {
            assert(r.triangles@[s].v[0] == mesh.indices@[3 * s]);
            assert(r.triangles@[s].v[1] == mesh.indices@[3 * s + 1]);
            assert(r.triangles@[s].v[2] == mesh.indices@[3 * s + 2]);
        }
        assert(r.wf());
        assert(forall|w: int| 0 <= w < r.vertices@.len() ==> !(#[trigger] r.vertices@[w]).border);
        assert(r.points@ == mesh.positions@);
        assert(r.triangles@.len() == mesh.indices@.len() / 3);
        assert(forall|t: int| 0 <= t < r.triangles@.len() ==> !(#[trigger] r.triangles@[t]).deleted
                && !r.triangles@[t].dirty);
        assert(r.merges@.len() == 0);
        assert(r.attempts@.len() == 0);
        r
    }

    /// Writes the working mesh into `mesh`: every vertex position, and the
    /// corners of every live triangle. Normals are left for the caller to
    /// recompute.
    pub fn to(&self, mesh: &mut IndexedMesh<V>)
        requires
            self.wf(),
        ensures
            final(mesh).positions@ == self.points@,
            final(mesh).indices@ == live_indices(self.triangles@),
            final(mesh).normals@.len() == 0,
            final(mesh).wf(),
    {
        mesh.clear();
        let n = self.points.len();
        let mut i: usize = 0;
        while i < n
            invariant
                n == self.points@.len(),
                i <= n,
                mesh.positions@ == self.points@.subrange(0, i as int),
                mesh.normals@.len() == 0,
                mesh.indices@.len() == 0,
            decreases n - i,
        {
            mesh.positions.push(self.points[i]);
            i += 1;
            assert(mesh.positions@ =~= self.points@.subrange(0, i as int));
        }
        assert(mesh.positions@ =~= self.points@);
        let ghost s = self.triangles@;
        let mut t: usize = 0;
        while t < self.triangles.len()
            invariant
                self.wf(),
                s == self.triangles@,
                t <= s.len(),
                mesh.positions@ == self.points@,
                mesh.normals@.len() == 0,
                mesh.indices@ == live_indices(s.subrange(0, t as int)),
            decreases s.len() - t,
        {
            let tri = self.triangles[t];
            proof {
                let pre = s.subrange(0, t as int);
                let post = s.subrange(0, t + 1);
                assert(post.drop_last() =~= pre);
                lemma_kept_bounds(pre);
            }
            if !tri.deleted {
                mesh.indices.push(tri.v[0]);
                mesh.indices.push(tri.v[1]);
                mesh.indices.push(tri.v[2]);
            }
            proof {
                let pre = s.subrange(0, t as int);
                let post = s.subrange(0, t + 1);
                lemma_kept_bounds(post);
                assert forall|i: int| 0 <= i < live_indices(post).len() implies mesh.indices@[i]
                    == #[trigger] live_indices(post)[i] by {
                    if i < 3 * kept(pre).len() {
                        assert(kept(post)[i / 3] == kept(pre)[i / 3]);
                        assert(post[kept(pre)[i / 3]] == pre[kept(pre)[i / 3]]);
                    } else {
                        assert(i / 3 == kept(pre).len());
                    }
                }
                assert(mesh.indices@ =~= live_indices(post));
            }
            t += 1;
        }
        assert(s.subrange(0, s.len() as int) =~= s);
        proof {
            lemma_live_indices_valid(s, n as nat);
        }
    }
}

/// Some index of the list names vertex `w`.
pub open spec fn names(indices: Seq<u32>, w: int) -> bool {
    exists|i: int| 0 <= i < indices.len() && #[trigger] indices[i] == w
}

/// Decimates `mesh` towards `target_count` triangles: checks the mesh, builds
/// the working mesh, simplifies it with `g` and writes the result back.
///
/// An invalid mesh is refused with the error `validate` gives, and left as
/// it is. A valid one comes back valid, with no more triangles than before
/// and with no normals, for the caller to recompute; the result is the
/// number of passes run, at most 100, and fewer only if at most
/// `target_count` triangles remain. When the target asks for no reduction,
/// no pass runs and the triangle count stays; if moreover every position is
/// used, positions and indices come back unchanged.
pub fn simplify<V: Copy, Q: Copy, F: Copy, G: Geometry<V, Q, F>>(
    mesh: &mut IndexedMesh<V>,
    target_count: usize,
    g: &mut G,
) -> (r: Result<usize, MeshError>)
    ensures
        r is Ok <==> old(mesh).wf(),
        r == Err::<usize, MeshError>(MeshError::PartialTriangle) <==> old(mesh).indices@.len() % 3 != 0,
        r == Err::<usize, MeshError>(MeshError::IndexOutOfRange) <==> (old(mesh).indices@.len() % 3 == 0
            && !crate::mesh::indices_in_range(old(mesh).indices@, old(mesh).positions@.len() as nat)),
        r is Err ==> *final(mesh) == *old(mesh),
        r is Ok ==> final(mesh).wf(),
        r is Ok ==> triangles_of(final(mesh).indices@) <= triangles_of(old(mesh).indices@),
        r is Ok ==> final(mesh).normals@.len() == 0,
        r matches Ok(p) ==> p <= 100,
        r matches Ok(p) ==> triangles_of(final(mesh).indices@) <= target_count || p == 100,
        r matches Ok(p) ==> (triangles_of(old(mesh).indices@) <= target_count ==> p == 0
            && triangles_of(final(mesh).indices@) == triangles_of(old(mesh).indices@)),
        r is Ok && triangles_of(old(mesh).indices@) <= target_count && (forall|w: int|
            0 <= w < old(mesh).positions@.len() ==> #[trigger] names(old(mesh).indices@, w)) ==> {
            &&& final(mesh).positions@ == old(mesh).positions@
            &&& final(mesh).indices@ == old(mesh).indices@
        },
{
    match mesh.validate() {
        Err(e) => {
            return Err(e);
        },
        Ok(()) => {},
    }
    let mut simp = Simplify::build(mesh, g);
    let ghost s0 = simp;
    proof {
        assert forall|w: int|
            0 <= w < mesh.positions@.len() && names(mesh.indices@, w) implies is_corner(
            s0.triangles@,
            w,
        ) by {
            let i = choose|i: int| 0 <= i < mesh.indices@.len() && #[trigger] mesh.indices@[i] == w;
            assert(s0.triangles@[i / 3].v[i % 3] == mesh.indices@[3 * (i / 3) + i % 3]);
        }
    }
    simp.simplify_mesh(target_count, g);
    let ghost s1 = simp;
    simp.to(mesh);
    proof {
        lemma_kept_all(s1.triangles@);
        lemma_kept_all(s0.triangles@);
        if s0.triangles@.len() <= target_count && s0.all_vertices_used() {
            assert forall|i: int| 0 <= i < mesh.indices@.len() implies mesh.indices@[i] == old(mesh).indices@[i] by {
                assert(s1.triangles@[i / 3].v[i % 3] == s0.triangles@[i / 3].v[i % 3]);
                assert(s0.triangles@[i / 3].v[i % 3] == old(mesh).indices@[3 * (i / 3) + i % 3]);
            }
            assert(mesh.indices@ =~= old(mesh).indices@);
        }
    }
    Ok(simp.passes)
}

} // verus!
