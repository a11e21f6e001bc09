//! Dropping deleted triangles and unused vertices, and renumbering.

use vstd::prelude::*;

use crate::mesh::valid_indices;
use crate::simplification::{Simplify, Triangle, corners_below};

verus! {

/// Positions of the triangles of `s` that are not deleted, in order.
pub open spec fn kept(s: Seq<Triangle>) -> Seq<int>
    decreases s.len(),
{
    if s.len() == 0 {
        Seq::empty()
    } else {
        let r = kept(s.drop_last());
        if s.last().deleted {
            r
        } else {
            r.push(s.len() - 1)
        }
    }
}

/// Number of triangles of `s` that are not deleted.
pub open spec fn live_count(s: Seq<Triangle>) -> nat {
    kept(s).len()
}

/// Some live triangle of `s` has `v` as a corner.
pub open spec fn referenced(s: Seq<Triangle>, v: int) -> bool {
    exists|t: int, k: int|
        0 <= t < s.len() && 0 <= k < 3 && !s[t].deleted && #[trigger] s[t].v[k] == v
}

/// Some triangle of `s`, live or not, has `v` as a corner.
pub open spec fn is_corner(s: Seq<Triangle>, v: int) -> bool {
    exists|t: int, k: int| 0 <= t < s.len() && 0 <= k < 3 && #[trigger] s[t].v[k] == v
}

/// Number of `true` entries of `f` before position `v`.
pub open spec fn rank(f: Seq<bool>, v: int) -> nat
    decreases v,
{
    if v <= 0 {
        0
    } else {
        rank(f, v - 1) + if f[v - 1] { 1nat } else { 0nat }
    }
}

/// The index list of the live triangles of `s`, in order.
pub open spec fn live_indices(s: Seq<Triangle>) -> Seq<u32> {
    Seq::new(3 * kept(s).len(), |i: int| s[kept(s)[i / 3]].v[i % 3])
}

/// Replacing one triangle changes the number of live ones only by what its
/// deleted flag changes.
pub(crate) proof fn lemma_live_count_update(s: Seq<Triangle>, i: int, x: Triangle)
    requires
        0 <= i < s.len(),
    ensures
        live_count(s.update(i, x)) + (if s[i].deleted { 0int } else { 1int }) == live_count(s)
            + (if x.deleted { 0int } else { 1int }),
    decreases s.len(),
{
    let u = s.update(i, x);
    if i == s.len() - 1 {
        assert(u.drop_last() =~= s.drop_last());
    } else {
        assert(u.drop_last() =~= s.drop_last().update(i, x));
        lemma_live_count_update(s.drop_last(), i, x);
    }
}

/// A rank never exceeds the position it is taken at.
pub(crate) proof fn lemma_rank_le(f: Seq<bool>, v: int)
    requires
        v >= 0,
    ensures
        rank(f, v) <= v,
    decreases v,
{
    if v > 0 {
        lemma_rank_le(f, v - 1);
    }
}

/// Ranks grow with the position.
pub(crate) proof fn lemma_rank_mono(f: Seq<bool>, a: int, b: int)
    requires
        0 <= a <= b,
    ensures
        rank(f, a) <= rank(f, b),
    decreases b,
{
    if a < b {
        lemma_rank_mono(f, a, b - 1);
    }
}

/// Where every flag up to `v` is set, the rank is the position itself.
pub(crate) proof fn lemma_rank_full(f: Seq<bool>, v: int)
    requires
        0 <= v <= f.len(),
        forall|w: int| 0 <= w < v ==> #[trigger] f[w],
    ensures
        rank(f, v) == v,
    decreases v,
{
    if v > 0 {
        lemma_rank_full(f, v - 1);
    }
}

/// Every live triangle is listed by `kept`.
pub(crate) proof fn lemma_kept_complete(s: Seq<Triangle>, t: int)
    requires
        0 <= t < s.len(),
        !s[t].deleted,
    ensures
        exists|j: int| 0 <= j < kept(s).len() && #[trigger] kept(s)[j] == t,
    decreases s.len(),
{
    if t == s.len() - 1 {
        assert(kept(s)[kept(s).len() - 1] == t);
    } else {
        let p = s.drop_last();
        lemma_kept_complete(p, t);
        let j = choose|j: int| 0 <= j < kept(p).len() && #[trigger] kept(p)[j] == t;
        assert(kept(s)[j] == t);
    }
}

/// With no deleted triangle, `kept` lists every position.
pub(crate) proof fn lemma_kept_all(s: Seq<Triangle>)
    requires
        forall|t: int| 0 <= t < s.len() ==> !(#[trigger] s[t]).deleted,
    ensures
        kept(s) == Seq::new(s.len(), |j: int| j),
    decreases s.len(),
{
    if s.len() > 0 {
        lemma_kept_all(s.drop_last());
        assert(kept(s) =~= Seq::new(s.len(), |j: int| j));
    } else {
        assert(kept(s) =~= Seq::new(s.len(), |j: int| j));
    }
}

/// Which of `n` vertices some live triangle of `s` names.
pub open spec fn used_flags(s: Seq<Triangle>, n: nat) -> Seq<bool> {
    Seq::new(n, |w: int| referenced(s, w))
}

/// Positions listed by `kept` are increasing, below the length, and name
/// live triangles.
pub(crate) proof fn lemma_kept_bounds(s: Seq<Triangle>)
    ensures
        kept(s).len() <= s.len(),
        forall|j: int| 0 <= j < kept(s).len() ==> 0 <= #[trigger] kept(s)[j] < s.len(),
        forall|j: int| 0 <= j < kept(s).len() ==> !s[#[trigger] kept(s)[j]].deleted,
        forall|i: int, j: int| 0 <= i < j < kept(s).len() ==> kept(s)[i] < kept(s)[j],
    decreases s.len(),
{
    if s.len() > 0 {
        let p = s.drop_last();
        lemma_kept_bounds(p);
        assert forall|j: int| 0 <= j < kept(p).len() implies !s[#[trigger] kept(p)[j]].deleted by {
            assert(s[kept(p)[j]] == p[kept(p)[j]]);
        }
    }
}

/// The index list of the live triangles is valid when their corners are.
pub(crate) proof fn lemma_live_indices_valid(s: Seq<Triangle>, n: nat)
    requires
        forall|t: int| 0 <= t < s.len() ==> corners_below(#[trigger] s[t], n),
    ensures
        valid_indices(live_indices(s), n),
{
    lemma_kept_bounds(s);
    let l = live_indices(s);
    assert forall|i: int| 0 <= i < l.len() implies (#[trigger] l[i]) < n by {
        let t = kept(s)[i / 3];
        assert(corners_below(s[t], n));
    }
}

impl<V: Copy, Q: Copy, F: Copy> Simplify<V, Q, F> {
    /// Drops the deleted triangles and their face records, keeping the order
    /// of the others. Adjacency is left to be rebuilt.
    pub(crate) fn compact_triangles(&mut self)
        requires
            old(self).wf_base(),
        ensures
            final(self).wf_base(),
            final(self).triangles@.len() == kept(old(self).triangles@).len(),
            forall|j: int|
                0 <= j < final(self).triangles@.len() ==> #[trigger] final(self).triangles@[j]
                    == old(self).triangles@[kept(old(self).triangles@)[j]]
                    && final(self).faces@[j] == old(self).faces@[kept(old(self).triangles@)[j]],
            final(self).vertices@ == old(self).vertices@,
            final(self).points@ == old(self).points@,
            final(self).quadrics@ == old(self).quadrics@,
            final(self).merges@ == old(self).merges@,
            final(self).attempts@ == old(self).attempts@,
    {
        let ghost s = self.triangles@;
        let ghost f = self.faces@;
        let len = self.triangles.len();
        let mut dst: usize = 0;
        let mut i: usize = 0;
        while i < len
            invariant
                len == s.len(),
                self.triangles@.len() == len,
                self.faces@.len() == len,
                f.len() == len,
                i <= len,
                dst == kept(s.subrange(0, i as int)).len(),
                dst <= i,
                forall|j: int| 0 <= j < dst ==> 0 <= #[trigger] kept(s.subrange(0, i as int))[j] < i,
                forall|j: int|
                    0 <= j < dst ==> #[trigger] self.triangles@[j] == s[kept(
                        s.subrange(0, i as int),
                    )[j]] && self.faces@[j] == f[kept(s.subrange(0, i as int))[j]],
                forall|j: int| i <= j < len ==> #[trigger] self.triangles@[j] == s[j],
                forall|j: int| i <= j < len ==> #[trigger] self.faces@[j] == f[j],
                self.vertices@ == old(self).vertices@,
                self.points@ == old(self).points@,
                self.quadrics@ == old(self).quadrics@,
                self.merges@ == old(self).merges@,
                self.attempts@ == old(self).attempts@,
                s == old(self).triangles@,
                f == old(self).faces@,
            decreases len - i,
        {
            let ghost pre = s.subrange(0, i as int);
            let ghost post = s.subrange(0, i + 1);
            proof {
                assert(post.drop_last() =~= pre);
                lemma_kept_bounds(pre);
            }
            let t = self.triangles[i];
            let ghost bt = self.triangles@;
            let ghost bf = self.faces@;
            let ghost d0 = dst;
            if !t.deleted {
                let fc = self.faces[i];
                self.triangles[dst] = t;
                self.faces[dst] = fc;
                dst += 1;
            }
            proof {
                assert forall|j: int| 0 <= j < dst implies #[trigger] self.triangles@[j] == s[kept(post)[j]]
                    && self.faces@[j] == f[kept(post)[j]] by {
                    if j < d0 {
                        assert(kept(post)[j] == kept(pre)[j]);
                        assert(self.triangles@[j] == bt[j]);
                        assert(self.faces@[j] == bf[j]);
                    } else {
                        assert(kept(post)[j] == i);
                    }
                }
            }
            i += 1;
        }
        assert(s.subrange(0, len as int) =~= s);
        self.triangles.truncate(dst);
        self.faces.truncate(dst);
        proof {
            lemma_kept_bounds(s);
            assert forall|t: int| 0 <= t < self.triangles@.len() implies corners_below(
                #[trigger] self.triangles@[t],
                self.vertices@.len() as nat,
            ) by {
                assert(old(self).wf_base());
                assert(corners_below(s[kept(s)[t]], self.vertices@.len() as nat));
            }
        }
    }

    /// Final compaction: drops deleted triangles, drops the vertices that no
    /// live triangle names, and renumbers the corners to the vertices that
    /// remain, keeping the order of both. A vertex keeps its position,
    /// quadric and border flag; its new number is the count of kept
    /// vertices before it.
    pub(crate) fn clean_mesh(&mut self)
        requires
            old(self).wf_base(),
        ensures
            final(self).wf(),
            ({
                let s = old(self).triangles@;
                let n = old(self).vertices@.len();
                let u = used_flags(s, n as nat);
                &&& final(self).triangles@.len() == kept(s).len()
                &&& forall|j: int|
                    0 <= j < final(self).triangles@.len() ==> !(#[trigger] final(self).triangles@[j]).deleted
                        && final(self).faces@[j] == old(self).faces@[kept(s)[j]]
                &&& forall|j: int, k: int|
                    0 <= j < final(self).triangles@.len() && 0 <= k < 3 ==> #[trigger] final(self).triangles@[j].v[k]
                        == rank(u, s[kept(s)[j]].v[k] as int)
                &&& final(self).points@.len() == rank(u, n as int)
                &&& forall|w: int|
                    0 <= w < n && u[w] ==> final(self).points@[#[trigger] rank(u, w) as int]
                        == old(self).points@[w] && final(self).vertices@[rank(u, w) as int].border
                        == old(self).vertices@[w].border
            }),
            final(self).merges@ == old(self).merges@,
            final(self).attempts@ == old(self).attempts@,
    {
        let ghost s = self.triangles@;
        self.compact_triangles();
        let ghost c = self.triangles@;
        let ghost n = self.vertices@.len();
        proof {
            lemma_kept_bounds(s);
            let u = used_flags(s, n as nat);
            let uc = used_flags(c, n as nat);
            assert forall|a: int| 0 <= a < n implies #[trigger] uc[a] == u[a] by {
                if uc[a] {
                    let (b, k) = choose|b: int, k: int|
                        0 <= b < c.len() && 0 <= k < 3 && !c[b].deleted && #[trigger] c[b].v[k] == a;
                    assert(s[kept(s)[b]].v[k] == a);
                }
                if u[a] {
                    let (b, k) = choose|b: int, k: int|
                        0 <= b < s.len() && 0 <= k < 3 && !s[b].deleted && #[trigger] s[b].v[k] == a;
                    lemma_kept_complete(s, b);
                    let j = choose|j: int| 0 <= j < kept(s).len() && #[trigger] kept(s)[j] == b;
                    assert(c[j].v[k] == a);
                }
            }
            assert(uc =~= u);
        }
        let used = self.used_vertices();
        let ghost before = *self;
        proof {
            assert forall|a: int| 0 <= a < used@.len() && #[trigger] used@[a] implies a <= u32::MAX by {
                let (b, k) = choose|b: int, k: int|
                    0 <= b < c.len() && 0 <= k < 3 && !c[b].deleted && #[trigger] c[b].v[k] == a;
            }
        }
        let (remap, dst) = self.compact_vertices(&used);
        proof {
            let u = used_flags(s, n as nat);
            assert forall|b: int, k: int|
                0 <= b < c.len() && 0 <= k < 3 implies #[trigger] remap@[c[b].v[k] as int] < dst by {
                let a = c[b].v[k] as int;
                assert(corners_below(c[b], n as nat));
                assert(k == 0 || k == 1 || k == 2);
                assert(u[a]);
                lemma_rank_mono(u, a + 1, n as int);
            }
        }
        let ghost mid = *self;
        self.renumber(&remap, dst);
        proof {
            let u = used_flags(s, n as nat);
            assert forall|w: int|
                0 <= w < n && u[w] implies self.points@[#[trigger] rank(u, w) as int]
                    == old(self).points@[w] && self.vertices@[rank(u, w) as int].border
                    == old(self).vertices@[w].border by {
                assert(before.points@[w] == old(self).points@[w]);
                lemma_rank_mono(u, w + 1, n as int);
                assert(mid.points@[rank(u, w) as int] == old(self).points@[w]);
            }
            assert forall|j: int, k: int|
                0 <= j < self.triangles@.len() && 0 <= k < 3 implies #[trigger] self.triangles@[j].v[k]
                    == rank(u, s[kept(s)[j]].v[k] as int) by {
                let a = c[j].v[k] as int;
                assert(corners_below(c[j], n as nat));
                assert(k == 0 || k == 1 || k == 2);
                assert(u[a]);
            }
        }
    }

    /// Which vertices some triangle names, when none is deleted.
    pub(crate) fn used_vertices(&self) -> (r: Vec<bool>)
        requires
            self.wf_base(),
            forall|t: int| 0 <= t < self.triangles@.len() ==> !(#[trigger] self.triangles@[t]).deleted,
        ensures
            r@ == used_flags(self.triangles@, self.vertices@.len() as nat),
    {
        let n = self.vertices.len();
        let ghost c = self.triangles@;
        let mut used: Vec<bool> = Vec::new();
        let mut w: usize = 0;
        while w < n
            invariant
                used@.len() == w,
                w <= n,
                forall|a: int| 0 <= a < w ==> !(#[trigger] used@[a]),
            decreases n - w,
        {
            used.push(false);
            w += 1;
        }
        let nt = self.triangles.len();
        let mut t: usize = 0;
        while t < nt
            invariant
                self.wf_base(),
                c == self.triangles@,
                nt == c.len(),
                n == self.vertices@.len(),
                used@.len() == n,
                t <= nt,
                forall|a: int|
                    0 <= a < n ==> (#[trigger] used@[a] <==> exists|b: int, k: int|
                        0 <= b < t && 0 <= k < 3 && #[trigger] c[b].v[k] == a),
            decreases nt - t,
        {
            let tri = self.triangles[t];
            proof {
                assert(corners_below(tri, n as nat));
            }
            let ghost before = used@;
            used[tri.v[0] as usize] = true;
            used[tri.v[1] as usize] = true;
            used[tri.v[2] as usize] = true;
            proof {
                assert forall|a: int|
                    0 <= a < n implies (#[trigger] used@[a] <==> exists|b: int, k: int|
                        0 <= b < t + 1 && 0 <= k < 3 && #[trigger] c[b].v[k] == a) by {
                    if used@[a] && !before[a] {
                        if tri.v[0] == a {
                            assert(c[t as int].v[0] == a);
                        } else if tri.v[1] == a {
                            assert(c[t as int].v[1] == a);
                        } else {
                            assert(c[t as int].v[2] == a);
                        }
                    }
                    if exists|b: int, k: int| 0 <= b < t + 1 && 0 <= k < 3 && #[trigger] c[b].v[k] == a {
                        let (b, k) = choose|b: int, k: int|
                            0 <= b < t + 1 && 0 <= k < 3 && #[trigger] c[b].v[k] == a;
                        if b == t {
                            assert(k == 0 || k == 1 || k == 2);
                        }
                    }
                }
            }
            t += 1;
        }
        proof {
            let u = used_flags(c, n as nat);
            assert forall|a: int| 0 <= a < n implies #[trigger] used@[a] == u[a] by {
                if used@[a] {
                    let (b, k) = choose|b: int, k: int| 0 <= b < nt && 0 <= k < 3 && #[trigger] c[b].v[k] == a;
                    assert(!c[b].deleted);
                }
            }
            assert(used@ =~= u);
        }
        used
    }

    /// Moves each used vertex down to its rank among the used ones, and
    /// returns the new number of every used vertex and how many remain.
    /// Ranges are cleared; the lists are not yet shortened.
    pub(crate) fn compact_vertices(&mut self, used: &Vec<bool>) -> (r: (Vec<u32>, usize))
        requires
            old(self).wf_base(),
            used@.len() == old(self).vertices@.len(),
            forall|a: int| 0 <= a < used@.len() && #[trigger] used@[a] ==> a <= u32::MAX,
        ensures
            final(self).wf_base(),
            final(self).triangles@ == old(self).triangles@,
            final(self).faces@ == old(self).faces@,
            final(self).merges@ == old(self).merges@,
            final(self).attempts@ == old(self).attempts@,
            final(self).vertices@.len() == old(self).vertices@.len(),
            r.0@.len() == used@.len(),
            r.1 == rank(used@, used@.len() as int),
            r.1 <= used@.len(),
            forall|a: int| 0 <= a < used@.len() && used@[a] ==> #[trigger] r.0@[a] == rank(used@, a),
            forall|a: int|
                0 <= a < used@.len() && used@[a] ==> final(self).points@[#[trigger] rank(used@, a) as int]
                    == old(self).points@[a] && final(self).vertices@[rank(used@, a) as int].border
                    == old(self).vertices@[a].border,
            forall|a: int| 0 <= a < r.1 ==> (#[trigger] final(self).vertices@[a]).tstart == 0
                && final(self).vertices@[a].tcount == 0,
    {
        let ghost u = used@;
        let n = self.vertices.len();
        let mut remap: Vec<u32> = Vec::new();
        let mut dst: usize = 0;
        let mut w: usize = 0;
        while w < n
            invariant
                self.wf_base(),
                self.triangles@ == old(self).triangles@,
                self.faces@ == old(self).faces@,
                self.merges@ == old(self).merges@,
                self.attempts@ == old(self).attempts@,
                n == self.vertices@.len(),
                used@ == u,
                u.len() == n,
                forall|a: int| 0 <= a < n && #[trigger] u[a] ==> a <= u32::MAX,
                w <= n,
                dst == rank(u, w as int),
                dst <= w,
                remap@.len() == w,
                forall|a: int| 0 <= a < w && u[a] ==> #[trigger] remap@[a] == rank(u, a),
                forall|a: int|
                    0 <= a < w && u[a] ==> self.points@[#[trigger] rank(u, a) as int] == old(self).points@[a]
                        && self.vertices@[rank(u, a) as int].border == old(self).vertices@[a].border,
                forall|a: int| w <= a < n ==> #[trigger] self.points@[a] == old(self).points@[a],
                forall|a: int|
                    w <= a < n ==> (#[trigger] self.vertices@[a]).border == old(self).vertices@[a].border,
                forall|a: int| 0 <= a < dst ==> (#[trigger] self.vertices@[a]).tstart == 0
                    && self.vertices@[a].tcount == 0,
            decreases n - w,
        {
            proof {
                lemma_rank_le(u, w as int);
            }
            let ghost bp = self.points@;
            let ghost bv = self.vertices@;
            if used[w] {
                remap.push(dst as u32);
                let pw = self.points[w];
                self.points[dst] = pw;
                let qw = self.quadrics[w];
                self.quadrics[dst] = qw;
                let mut x = self.vertices[w];
                x.tstart = 0;
                x.tcount = 0;
                self.vertices[dst] = x;
                dst += 1;
            } else {
                remap.push(0);
            }
            proof {
                assert forall|a: int|
                    0 <= a < w + 1 && u[a] implies self.points@[#[trigger] rank(u, a) as int] == old(self).points@[a]
                        && self.vertices@[rank(u, a) as int].border == old(self).vertices@[a].border by {
                    if a < w {
                        lemma_rank_mono(u, a + 1, w as int);
                    }
                }
                assert forall|a: int| w + 1 <= a < n implies #[trigger] self.points@[a] == old(self).points@[a] by {
                    assert(self.points@[a] == bp[a]);
                }
                assert forall|a: int|
                    w + 1 <= a < n implies (#[trigger] self.vertices@[a]).border == old(self).vertices@[a].border by {
                    assert(self.vertices@[a] == bv[a]);
                }
            }
            w += 1;
        }
        (remap, dst)
    }

    /// Gives every corner its new vertex number, then shortens the vertex
    /// lists to the `dst` that remain and empties the adjacency list.
    pub(crate) fn renumber(&mut self, remap: &Vec<u32>, dst: usize)
        requires
            old(self).wf_base(),
            remap@.len() == old(self).vertices@.len(),
            dst <= old(self).vertices@.len(),
            forall|b: int, k: int|
                0 <= b < old(self).triangles@.len() && 0 <= k < 3 ==> #[trigger] remap@[old(
                    self,
                ).triangles@[b].v[k] as int] < dst,
            forall|a: int| 0 <= a < dst ==> (#[trigger] old(self).vertices@[a]).tstart == 0
                && old(self).vertices@[a].tcount == 0,
        ensures
            final(self).wf(),
            final(self).triangles@.len() == old(self).triangles@.len(),
            forall|b: int|
                0 <= b < final(self).triangles@.len() ==> (#[trigger] final(self).triangles@[b]).deleted
                    == old(self).triangles@[b].deleted,
            forall|b: int, k: int|
                0 <= b < final(self).triangles@.len() && 0 <= k < 3 ==> #[trigger] final(self).triangles@[b].v[k]
                    == remap@[old(self).triangles@[b].v[k] as int],
            final(self).faces@ == old(self).faces@,
            final(self).merges@ == old(self).merges@,
            final(self).attempts@ == old(self).attempts@,
            final(self).points@ == old(self).points@.subrange(0, dst as int),
            final(self).vertices@ == old(self).vertices@.subrange(0, dst as int),
    {
        let ghost c = self.triangles@;
        let n = self.vertices.len();
        let nt = self.triangles.len();
        let mut t: usize = 0;
        while t < nt
            invariant
                self.wf_base(),
                nt == self.triangles@.len(),
                nt == c.len(),
                n == self.vertices@.len(),
                remap@.len() == n,
                dst <= n,
                self.faces@ == old(self).faces@,
                self.merges@ == old(self).merges@,
                self.attempts@ == old(self).attempts@,
                self.points@ == old(self).points@,
                self.quadrics@ == old(self).quadrics@,
                self.vertices@ == old(self).vertices@,
                c == old(self).triangles@,
                forall|b: int, k: int|
                    0 <= b < nt && 0 <= k < 3 ==> #[trigger] remap@[c[b].v[k] as int] < dst,
                forall|b: int| 0 <= b < nt ==> (#[trigger] self.triangles@[b]).deleted == c[b].deleted,
                forall|b: int, k: int|
                    0 <= b < t && 0 <= k < 3 ==> #[trigger] self.triangles@[b].v[k] == remap@[c[b].v[k] as int],
                forall|b: int| 0 <= b < t ==> corners_below(#[trigger] self.triangles@[b], dst as nat),
                forall|b: int| t <= b < nt ==> #[trigger] self.triangles@[b] == c[b],
            decreases nt - t,
        {
            let mut tri = self.triangles[t];
            proof {
                assert(corners_below(c[t as int], n as nat));
                assert(remap@[c[t as int].v[0] as int] < dst);
                assert(remap@[c[t as int].v[1] as int] < dst);
                assert(remap@[c[t as int].v[2] as int] < dst);
            }
            tri.v[0] = remap[tri.v[0] as usize];
            tri.v[1] = remap[tri.v[1] as usize];
            tri.v[2] = remap[tri.v[2] as usize];
            self.triangles[t] = tri;
            t += 1;
        }
        self.points.truncate(dst);
        self.quadrics.truncate(dst);
        self.vertices.truncate(dst);
        self.refs.clear();
        assert forall|b: int| 0 <= b < self.triangles@.len() implies corners_below(
            #[trigger] self.triangles@[b],
            self.vertices@.len() as nat,
        ) by {}
    }
}

} // verus!
