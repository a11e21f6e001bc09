//! Per-vertex adjacency ranges of the working mesh, and the border rule.

use vstd::prelude::*;

use crate::simplification::{Simplify, Triangle, Ref, corners_below};

verus! {

/// The corners of all triangles of `s`, flattened: entry `3 t + k` is corner
/// `k` of triangle `t`.
pub open spec fn corner_seq(s: Seq<Triangle>) -> Seq<u32> {
    Seq::new(3 * s.len(), |i: int| s[i / 3].v[i % 3])
}

/// Number of entries of `c` equal to `v`.
pub open spec fn occ(c: Seq<u32>, v: int) -> nat
    decreases c.len(),
{
    if c.len() == 0 {
        0
    } else {
        occ(c.drop_last(), v) + if c.last() == v { 1nat } else { 0nat }
    }
}

/// Number of entries of `c` below `v`: where the adjacency range of
/// vertex `v` starts.
pub open spec fn occ_before(c: Seq<u32>, v: int) -> nat
    decreases v,
{
    if v <= 0 {
        0
    } else {
        occ_before(c, v - 1) + occ(c, v - 1)
    }
}

/// Where `u` occurs in `c`, in increasing order.
pub open spec fn positions_of(c: Seq<u32>, u: int) -> Seq<int>
    decreases c.len(),
{
    if c.len() == 0 {
        Seq::empty()
    } else {
        let r = positions_of(c.drop_last(), u);
        if c.last() == u {
            r.push(c.len() - 1)
        } else {
            r
        }
    }
}

/// There are as many positions of `u` as occurrences, each one holding `u`
/// and below the length.
pub(crate) proof fn lemma_positions_of(c: Seq<u32>, u: int)
    ensures
        positions_of(c, u).len() == occ(c, u),
        forall|j: int|
            0 <= j < positions_of(c, u).len() ==> 0 <= #[trigger] positions_of(c, u)[j] < c.len()
                && c[positions_of(c, u)[j]] == u,
    decreases c.len(),
{
    if c.len() > 0 {
        let p = c.drop_last();
        lemma_positions_of(p, u);
        assert forall|j: int|
            0 <= j < positions_of(c, u).len() implies 0 <= #[trigger] positions_of(c, u)[j] < c.len()
                && c[positions_of(c, u)[j]] == u by {
            if j < positions_of(p, u).len() {
                assert(positions_of(c, u)[j] == positions_of(p, u)[j]);
                assert(c[positions_of(p, u)[j]] == p[positions_of(p, u)[j]]);
            }
        }
    }
}

/// The corners of the triangles that have `u` as a corner: entry `3 i + k`
/// is corner `k` of the triangle of the `i`-th corner slot holding `u`, slots
/// taken in order and a triangle counted once per slot holding `u`.
pub open spec fn incident_corners(s: Seq<Triangle>, u: int) -> Seq<u32> {
    let ps = positions_of(corner_seq(s), u);
    Seq::new(3 * ps.len(), |q: int| s[ps[q / 3] / 3].v[q % 3])
}

/// The border rule over the triangles themselves: some vertex among the
/// first `n` has `w` exactly once among the corners of its triangles.
pub open spec fn on_border(s: Seq<Triangle>, n: nat, w: int) -> bool {
    exists|u: int| 0 <= u < n && occ(#[trigger] incident_corners(s, u), w) == 1
}

/// The border rule reads only the corners.
pub(crate) proof fn lemma_on_border_corners(s: Seq<Triangle>, t: Seq<Triangle>, n: nat, w: int)
    requires
        s.len() == t.len(),
        forall|i: int| 0 <= i < s.len() ==> (#[trigger] s[i]).v == t[i].v,
    ensures
        on_border(s, n, w) == on_border(t, n, w),
{
    assert(corner_seq(s) =~= corner_seq(t));
    assert forall|u: int| #[trigger] incident_corners(s, u) == incident_corners(t, u) by {
        let ps = positions_of(corner_seq(s), u);
        lemma_positions_of(corner_seq(s), u);
        assert forall|q: int| 0 <= q < 3 * ps.len() implies #[trigger] incident_corners(s, u)[q]
            == incident_corners(t, u)[q] by {
            let j = q / 3;
            assert(0 <= ps[j] < 3 * s.len());
            assert(s[ps[j] / 3].v == t[ps[j] / 3].v);
        }
        assert(incident_corners(s, u) =~= incident_corners(t, u));
    }
    if on_border(s, n, w) {
        let u = choose|u: int| 0 <= u < n && occ(#[trigger] incident_corners(s, u), w) == 1;
        assert(incident_corners(t, u) == incident_corners(s, u));
    }
    if on_border(t, n, w) {
        let u = choose|u: int| 0 <= u < n && occ(#[trigger] incident_corners(t, u), w) == 1;
        assert(incident_corners(t, u) == incident_corners(s, u));
    }
}

pub(crate) proof fn lemma_occ_le(c: Seq<u32>, v: int)
    ensures
        occ(c, v) <= c.len(),
    decreases c.len(),
{
    if c.len() > 0 {
        lemma_occ_le(c.drop_last(), v);
    }
}

pub(crate) proof fn lemma_occ_before_mono(c: Seq<u32>, a: int, b: int)
    requires
        0 <= a <= b,
    ensures
        occ_before(c, a) <= occ_before(c, b),
    decreases b,
{
    if a < b {
        lemma_occ_before_mono(c, a, b - 1);
    }
}

pub(crate) proof fn lemma_occ_before_push(c: Seq<u32>, x: u32, v: int)
    requires
        v >= 0,
    ensures
        occ_before(c.push(x), v) == occ_before(c, v) + if x < v { 1nat } else { 0nat },
    decreases v,
{
    if v > 0 {
        lemma_occ_before_push(c, x, v - 1);
        assert(c.push(x).drop_last() =~= c);
    }
}

/// When every entry is below `n`, the ranges of the `n` vertices fill the
/// whole list.
pub(crate) proof fn lemma_occ_before_total(c: Seq<u32>, n: int)
    requires
        n >= 0,
        forall|i: int| 0 <= i < c.len() ==> (#[trigger] c[i]) < n,
    ensures
        occ_before(c, n) == c.len(),
    decreases c.len(),
{
    if c.len() == 0 {
        assert(occ_before(c, n) == 0) by {
            lemma_occ_before_zero(c, n);
        }
    } else {
        let p = c.drop_last();
        assert(p.push(c.last()) =~= c);
        lemma_occ_before_total(p, n);
        lemma_occ_before_push(p, c.last(), n);
    }
}

/// A prefix of `c` holds no more copies of `v` than `c`.
pub(crate) proof fn lemma_occ_prefix_le(c: Seq<u32>, p: int, v: int)
    requires
        0 <= p <= c.len(),
    ensures
        occ(c.subrange(0, p), v) <= occ(c, v),
    decreases c.len() - p,
{
    if p < c.len() {
        lemma_occ_prefix_le(c, p + 1, v);
        assert(c.subrange(0, p + 1).drop_last() =~= c.subrange(0, p));
    } else {
        assert(c.subrange(0, p) =~= c);
    }
}

pub(crate) proof fn lemma_occ_before_zero(c: Seq<u32>, v: int)
    requires
        c.len() == 0,
    ensures
        occ_before(c, v) == 0,
    decreases v,
{
    if v > 0 {
        lemma_occ_before_zero(c, v - 1);
    }
}

impl<V: Copy, Q: Copy, F: Copy> Simplify<V, Q, F> {
    /// The adjacency list has one entry per corner slot, and every vertex's
    /// range, starting at the number of corner slots holding a smaller
    /// vertex, lists exactly the slots that hold it, each once, in order.
    pub open spec fn adjacency_exact(&self) -> bool {
        &&& self.refs@.len() == 3 * self.triangles@.len()
        &&& forall|v: int|
            0 <= v < self.vertices@.len() ==> {
                let c = corner_seq(self.triangles@);
                let ps = positions_of(c, v);
                &&& (#[trigger] self.vertices@[v]).tcount == occ(c, v)
                &&& self.vertices@[v].tstart == occ_before(c, v)
                &&& forall|i: int|
                    0 <= i < self.vertices@[v].tcount ==> {
                        let r = #[trigger] self.refs@[self.vertices@[v].tstart + i];
                        &&& self.triangles@[r.tid as int].v[r.tvertex as int] == v
                        &&& r.tid == ps[i] / 3
                        &&& r.tvertex == ps[i] % 3
                    }
            }
    }

    /// Rebuilds every vertex's adjacency range: count the corners of each
    /// vertex, lay the ranges out by prefix sums, then fill them in a second
    /// walk over the triangles.
    pub(crate) fn rebuild_refs(&mut self)
        requires
            old(self).wf_base(),
        ensures
            final(self).wf(),
            final(self).adjacency_exact(),
            final(self).triangles@ == old(self).triangles@,
            final(self).faces@ == old(self).faces@,
            final(self).points@ == old(self).points@,
            final(self).quadrics@ == old(self).quadrics@,
            final(self).merges@ == old(self).merges@,
            final(self).attempts@ == old(self).attempts@,
            forall|v: int|
                0 <= v < final(self).vertices@.len() ==> (#[trigger] final(self).vertices@[v]).border
                    == old(self).vertices@[v].border,
            final(self).vertices@.len() == old(self).vertices@.len(),
    {
        let ghost c = corner_seq(self.triangles@);
        let n = self.vertices.len();
        let nt = self.triangles.len();
        let total = 3 * nt;
        proof {
            assert forall|i: int| 0 <= i < c.len() implies (#[trigger] c[i]) < n by {
                assert(corners_below(self.triangles@[i / 3], n as nat));
            }
            lemma_occ_before_total(c, n as int);
        }
        let mut v: usize = 0;
        while v < n
            invariant
                self.wf_base(),
                n == self.vertices@.len(),
                v <= n,
                forall|u: int| 0 <= u < v ==> (#[trigger] self.vertices@[u]).tcount == 0,
                old(self).vertices@.len() == n,
                forall|u: int|
                    0 <= u < n ==> (#[trigger] self.vertices@[u]).border == old(self).vertices@[u].border,
                self.triangles@ == old(self).triangles@,
                self.faces@ == old(self).faces@,
                self.points@ == old(self).points@,
                self.quadrics@ == old(self).quadrics@,
                self.merges@ == old(self).merges@,
                self.attempts@ == old(self).attempts@,
            decreases n - v,
        {
            let mut x = self.vertices[v];
            x.tstart = 0;
            x.tcount = 0;
            self.vertices[v] = x;
            v += 1;
        }
        // count the corners of each vertex
        let mut p: usize = 0;
        while p < total
            invariant
                self.wf_base(),
                c == corner_seq(self.triangles@),
                n == self.vertices@.len(),
                nt == self.triangles@.len(),
                total == 3 * nt,
                p <= total,
                forall|u: int|
                    0 <= u < n ==> (#[trigger] self.vertices@[u]).tcount == occ(
                        c.subrange(0, p as int),
                        u,
                    ),
                old(self).vertices@.len() == n,
                forall|u: int|
                    0 <= u < n ==> (#[trigger] self.vertices@[u]).border == old(self).vertices@[u].border,
                self.triangles@ == old(self).triangles@,
                self.faces@ == old(self).faces@,
                self.points@ == old(self).points@,
                self.quadrics@ == old(self).quadrics@,
                self.merges@ == old(self).merges@,
                self.attempts@ == old(self).attempts@,
            decreases total - p,
        {
            let a = self.triangles[p / 3].v[p % 3] as usize;
            proof {
                assert(corners_below(self.triangles@[(p / 3) as int], n as nat));
                assert(c[p as int] == a);
                assert(c.subrange(0, p + 1).drop_last() =~= c.subrange(0, p as int));
                lemma_occ_le(c.subrange(0, p as int), a as int);
            }
            let mut x = self.vertices[a];
            x.tcount = x.tcount + 1;
            self.vertices[a] = x;
            p += 1;
        }
        assert(c.subrange(0, total as int) =~= c);
        // lay the ranges out
        let mut start: usize = 0;
        let mut v: usize = 0;
        while v < n
            invariant
                self.wf_base(),
                c == corner_seq(self.triangles@),
                c.len() == total,
                occ_before(c, n as int) == total,
                n == self.vertices@.len(),
                v <= n,
                start == occ_before(c, v as int),
                forall|u: int|
                    0 <= u < v ==> (#[trigger] self.vertices@[u]).tcount == 0
                        && self.vertices@[u].tstart == occ_before(c, u),
                forall|u: int|
                    v <= u < n ==> (#[trigger] self.vertices@[u]).tcount == occ(c, u),
                old(self).vertices@.len() == n,
                forall|u: int|
                    0 <= u < n ==> (#[trigger] self.vertices@[u]).border == old(self).vertices@[u].border,
                self.triangles@ == old(self).triangles@,
                self.faces@ == old(self).faces@,
                self.points@ == old(self).points@,
                self.quadrics@ == old(self).quadrics@,
                self.merges@ == old(self).merges@,
                self.attempts@ == old(self).attempts@,
            decreases n - v,
        {
            proof {
                lemma_occ_before_mono(c, v + 1, n as int);
            }
            let mut x = self.vertices[v];
            x.tstart = start;
            start = start + x.tcount;
            x.tcount = 0;
            self.vertices[v] = x;
            v += 1;
        }
        // fill the ranges
        let mut refs: Vec<Ref> = Vec::new();
        let mut i: usize = 0;
        while i < total
            invariant
                refs@.len() == i,
                i <= total,
                forall|r: int| 0 <= r < i ==> (#[trigger] refs@[r]).tid == 0
                    && refs@[r].tvertex == 0,
            decreases total - i,
        {
            refs.push(Ref { tid: 0, tvertex: 0 });
            i += 1;
        }
        self.refs = refs;
        let mut p: usize = 0;
        while p < total
            invariant
                self.wf_base(),
                c == corner_seq(self.triangles@),
                c.len() == total,
                total == 3 * nt,
                nt == self.triangles@.len(),
                self.refs@.len() == total,
                occ_before(c, n as int) == total,
                n == self.vertices@.len(),
                p <= total,
                forall|u: int|
                    0 <= u < n ==> (#[trigger] self.vertices@[u]).tcount == occ(
                        c.subrange(0, p as int),
                        u,
                    ) && self.vertices@[u].tstart == occ_before(c, u),
                forall|r: int|
                    0 <= r < total ==> ((#[trigger] self.refs@[r]).tid < nt || nt == 0)
                        && self.refs@[r].tvertex < 3,
                forall|u: int, j: int|
                    0 <= u < n && 0 <= j < self.vertices@[u].tcount ==> {
                        let r = #[trigger] self.refs@[self.vertices@[u].tstart + j];
                        &&& r.tid < nt
                        &&& r.tvertex < 3
                        &&& self.triangles@[r.tid as int].v[r.tvertex as int] == u
                        &&& r.tid == positions_of(c.subrange(0, p as int), u)[j] / 3
                        &&& r.tvertex == positions_of(c.subrange(0, p as int), u)[j] % 3
                    },
                old(self).vertices@.len() == n,
                forall|u: int|
                    0 <= u < n ==> (#[trigger] self.vertices@[u]).border == old(self).vertices@[u].border,
                self.triangles@ == old(self).triangles@,
                self.faces@ == old(self).faces@,
                self.points@ == old(self).points@,
                self.quadrics@ == old(self).quadrics@,
                self.merges@ == old(self).merges@,
                self.attempts@ == old(self).attempts@,
            decreases total - p,
        {
            let t = p / 3;
            let k = p % 3;
            let a = self.triangles[t].v[k] as usize;
            proof {
                assert(corners_below(self.triangles@[t as int], n as nat));
                assert(c[p as int] == a);
                assert(c.subrange(0, p + 1).drop_last() =~= c.subrange(0, p as int));
                lemma_occ_le(c.subrange(0, p as int), a as int);
                lemma_occ_prefix_le(c, p + 1, a as int);
                lemma_occ_before_mono(c, a + 1, n as int);
                lemma_positions_of(c.subrange(0, p as int), a as int);
            }
            let x = self.vertices[a];
            let pos = x.tstart + x.tcount;
            let ghost before = self.refs@;
            self.refs[pos] = Ref { tid: t, tvertex: k };
            let mut y = x;
            y.tcount = x.tcount + 1;
            self.vertices[a] = y;
            proof {
                assert forall|u: int, j: int|
                    0 <= u < n && 0 <= j < self.vertices@[u].tcount implies {
                        let r = #[trigger] self.refs@[self.vertices@[u].tstart + j];
                        &&& r.tid < nt
                        &&& r.tvertex < 3
                        &&& self.triangles@[r.tid as int].v[r.tvertex as int] == u
                        &&& r.tid == positions_of(c.subrange(0, p + 1), u)[j] / 3
                        &&& r.tvertex == positions_of(c.subrange(0, p + 1), u)[j] % 3
                    } by {
                    lemma_positions_of(c.subrange(0, p as int), u);
                    if u == a {
                        if j < x.tcount {
                            assert(self.refs@[x.tstart + j] == before[x.tstart + j]);
                        }
                    } else {
                        let q = self.vertices@[u].tstart + j;
                        assert(self.vertices@[u].tcount <= occ(c, u)) by {
                            lemma_occ_prefix_le(c, p as int, u);
                        }
                        if u < a {
                            lemma_occ_before_mono(c, u + 1, a as int);
                        } else {
                            lemma_occ_before_mono(c, a + 1, u);
                        }
                        lemma_occ_before_mono(c, u + 1, n as int);
                        assert(q != pos);
                        assert(self.refs@[q] == before[q]);
                    }
                }
            }
            p += 1;
        }
        proof {
            assert(c.subrange(0, total as int) =~= c);
            assert(self.refs@.len() == 3 * self.triangles@.len());
            assert forall|u: int| 0 <= u < n implies (#[trigger] self.vertices@[u]).tstart
                + self.vertices@[u].tcount <= self.refs@.len() by {
                lemma_occ_before_mono(c, u + 1, n as int);
            }
        }
    }

    /// The corners of the triangles in the adjacency range of `u`: entry
    /// `3 i + k` is corner `k` of the `i`-th triangle of the range.
    pub open spec fn neighbours(&self, u: int) -> Seq<u32> {
        let x = self.vertices@[u];
        Seq::new(
            (3 * x.tcount) as nat,
            |q: int| self.triangles@[self.refs@[x.tstart + q / 3].tid as int].v[q % 3],
        )
    }

    /// Vertex `w` appears exactly once among the corners around some vertex:
    /// the rule by which a vertex counts as lying on the border.
    pub open spec fn border_rule(&self, w: int) -> bool {
        exists|u: int| 0 <= u < self.vertices@.len() && occ(#[trigger] self.neighbours(u), w) == 1
    }

    /// With exact adjacency, the corners around a vertex are those of its
    /// incident triangles, and the border rule is the rule over the triangles.
    pub(crate) proof fn lemma_border_rule_incident(&self, w: int)
        requires
            self.wf(),
            self.adjacency_exact(),
        ensures
            self.border_rule(w) == on_border(self.triangles@, self.vertices@.len() as nat, w),
    {
        assert forall|u: int| 0 <= u < self.vertices@.len() implies #[trigger] self.neighbours(u)
            == incident_corners(self.triangles@, u) by {
            let c = corner_seq(self.triangles@);
            lemma_positions_of(c, u);
            let x = self.vertices@[u];
            assert forall|q: int| 0 <= q < 3 * x.tcount implies #[trigger] self.neighbours(u)[q]
                == incident_corners(self.triangles@, u)[q] by {
                let i = q / 3;
                let r = self.refs@[x.tstart + i];
                assert(r.tid == positions_of(c, u)[i] / 3);
            }
            assert(self.neighbours(u) =~= incident_corners(self.triangles@, u));
        }
        let n = self.vertices@.len() as nat;
        if self.border_rule(w) {
            let u = choose|u: int| 0 <= u < self.vertices@.len() && occ(#[trigger] self.neighbours(u), w) == 1;
            assert(occ(incident_corners(self.triangles@, u), w) == 1);
        }
        if on_border(self.triangles@, n, w) {
            let u = choose|u: int| 0 <= u < n && occ(#[trigger] incident_corners(self.triangles@, u), w) == 1;
            assert(occ(self.neighbours(u), w) == 1);
        }
    }

    /// Sets every vertex's border flag by the border rule.
    pub(crate) fn detect_borders(&mut self)
        requires
            old(self).wf(),
        ensures
            final(self).wf(),
            forall|w: int|
                0 <= w < final(self).vertices@.len() ==> (#[trigger] final(self).vertices@[w]).border
                    == old(self).border_rule(w),
            final(self).vertices@.len() == old(self).vertices@.len(),
            forall|w: int|
                0 <= w < final(self).vertices@.len() ==> (#[trigger] final(self).vertices@[w]).tstart
                    == old(self).vertices@[w].tstart && final(self).vertices@[w].tcount
                    == old(self).vertices@[w].tcount,
            final(self).triangles@ == old(self).triangles@,
            final(self).faces@ == old(self).faces@,
            final(self).points@ == old(self).points@,
            final(self).quadrics@ == old(self).quadrics@,
            final(self).refs@ == old(self).refs@,
            final(self).merges@ == old(self).merges@,
            final(self).attempts@ == old(self).attempts@,
    {
        let n = self.vertices.len();
        let mut w: usize = 0;
        while w < n
            invariant
                self.wf(),
                n == self.vertices@.len(),
                n == old(self).vertices@.len(),
                w <= n,
                forall|u: int| 0 <= u < w ==> !(#[trigger] self.vertices@[u]).border,
                forall|u: int|
                    0 <= u < n ==> (#[trigger] self.vertices@[u]).tstart == old(self).vertices@[u].tstart
                        && self.vertices@[u].tcount == old(self).vertices@[u].tcount,
                self.triangles@ == old(self).triangles@,
                self.faces@ == old(self).faces@,
                self.points@ == old(self).points@,
                self.quadrics@ == old(self).quadrics@,
                self.refs@ == old(self).refs@,
                self.merges@ == old(self).merges@,
                self.attempts@ == old(self).attempts@,
            decreases n - w,
        {
            let mut x = self.vertices[w];
            x.border = false;
            self.vertices[w] = x;
            w += 1;
        }
        let ghost o = *old(self);
        assert forall|u: int| 0 <= u < n implies #[trigger] self.neighbours(u) == o.neighbours(u) by {
            assert(self.neighbours(u) =~= o.neighbours(u));
        }
        let mut u: usize = 0;
        while u < n
            invariant
                self.wf(),
                n == self.vertices@.len(),
                n == o.vertices@.len(),
                u <= n,
                forall|a: int| 0 <= a < n ==> #[trigger] self.neighbours(a) == o.neighbours(a),
                forall|a: int| 0 <= a < n ==> (#[trigger] self.vertices@[a]).border == exists|b: int|
                    0 <= b < u && occ(#[trigger] o.neighbours(b), a) == 1,
                forall|a: int|
                    0 <= a < n ==> (#[trigger] self.vertices@[a]).tstart == o.vertices@[a].tstart
                        && self.vertices@[a].tcount == o.vertices@[a].tcount,
                self.triangles@ == o.triangles@,
                self.faces@ == o.faces@,
                self.points@ == o.points@,
                self.quadrics@ == o.quadrics@,
                self.refs@ == o.refs@,
                self.merges@ == o.merges@,
                self.attempts@ == o.attempts@,
            decreases n - u,
        {
            let ghost nb = o.neighbours(u as int);
            assert(self.neighbours(u as int) == nb);
            let (vids, once) = self.count_neighbours(u);
            let ghost before = self.vertices@;
            let mut j: usize = 0;
            while j < vids.len()
                invariant
                    self.wf(),
                    n == self.vertices@.len(),
                    u < n,
                    j <= vids@.len(),
                    vids@.len() == once@.len(),
                    forall|i: int| 0 <= i < vids@.len() ==> (#[trigger] vids@[i]) < n,
                    forall|i: int| 0 <= i < vids@.len() ==> #[trigger] once@[i] == (occ(nb, vids@[i] as int) == 1),
                    forall|w: int| #[trigger] occ(nb, w) > 0 ==> exists|i: int|
                        0 <= i < vids@.len() && #[trigger] vids@[i] == w,
                    forall|a: int| 0 <= a < n ==> (#[trigger] self.vertices@[a]).border == (before[a].border
                        || exists|i: int| 0 <= i < j && vids@[i] == a && #[trigger] once@[i]),
                    forall|a: int|
                        0 <= a < n ==> (#[trigger] self.vertices@[a]).tstart == before[a].tstart
                            && self.vertices@[a].tcount == before[a].tcount,
                    before.len() == n,
                    self.triangles@ == o.triangles@,
                    self.faces@ == o.faces@,
                    self.points@ == o.points@,
                    self.quadrics@ == o.quadrics@,
                    self.refs@ == o.refs@,
                    self.merges@ == o.merges@,
                    self.attempts@ == o.attempts@,
                decreases vids@.len() - j,
            {
                if once[j] {
                    let id = vids[j] as usize;
                    let mut x = self.vertices[id];
                    x.border = true;
                    self.vertices[id] = x;
                }
                j += 1;
            }
            proof {
                assert forall|a: int| 0 <= a < n implies #[trigger] self.neighbours(a) == o.neighbours(a) by {
                    assert(self.neighbours(a) =~= o.neighbours(a));
                }
                assert forall|a: int| 0 <= a < n implies (#[trigger] self.vertices@[a]).border == exists|b: int|
                    0 <= b < u + 1 && occ(#[trigger] o.neighbours(b), a) == 1 by {
                    if occ(nb, a) == 1 {
                        let i = choose|i: int| 0 <= i < vids@.len() && vids@[i] == a;
                        assert(once@[i]);
                    }
                    if self.vertices@[a].border && !before[a].border {
                        let i = choose|i: int| 0 <= i < vids@.len() && vids@[i] == a && #[trigger] once@[i];
                        assert(occ(o.neighbours(u as int), a) == 1);
                    }
                    if exists|b: int| 0 <= b < u + 1 && occ(#[trigger] o.neighbours(b), a) == 1 {
                        let b = choose|b: int| 0 <= b < u + 1 && occ(#[trigger] o.neighbours(b), a) == 1;
                        if b < u {
                            assert(before[a].border);
                        }
                    }
                }
            }
            u += 1;
        }
    }

    /// The distinct corners around vertex `u`, each with whether it occurs
    /// there exactly once.
    pub(crate) fn count_neighbours(&self, u: usize) -> (r: (Vec<u32>, Vec<bool>))
        requires
            self.wf(),
            u < self.vertices@.len(),
        ensures
            r.0@.len() == r.1@.len(),
            forall|i: int| 0 <= i < r.0@.len() ==> (#[trigger] r.0@[i]) < self.vertices@.len(),
            forall|i: int|
                0 <= i < r.0@.len() ==> #[trigger] r.1@[i] == (occ(
                    self.neighbours(u as int),
                    r.0@[i] as int,
                ) == 1),
            forall|w: int|
                occ(self.neighbours(u as int), w) > 0 ==> exists|i: int|
                    0 <= i < r.0@.len() && #[trigger] r.0@[i] == w,
    {
        let ghost nb = self.neighbours(u as int);
        let x = self.vertices[u];
        let mut vids: Vec<u32> = Vec::new();
        let mut once: Vec<bool> = Vec::new();
        let rl = self.refs.len();
        let mut i: usize = 0;
        while i < x.tcount
            invariant
                self.wf(),
                rl == self.refs@.len(),
                u < self.vertices@.len(),
                x == self.vertices@[u as int],
                nb == self.neighbours(u as int),
                nb.len() == 3 * x.tcount,
                i <= x.tcount,
                vids@.len() == once@.len(),
                forall|j: int| 0 <= j < vids@.len() ==> (#[trigger] vids@[j]) < self.vertices@.len(),
                forall|j: int, k: int| 0 <= j < k < vids@.len() ==> vids@[j] != vids@[k],
                forall|j: int|
                    0 <= j < vids@.len() ==> occ(nb.subrange(0, 3 * i), #[trigger] vids@[j] as int) > 0
                        && once@[j] == (occ(nb.subrange(0, 3 * i), vids@[j] as int) == 1),
                forall|w: int|
                    #[trigger] occ(nb.subrange(0, 3 * i), w) > 0 ==> exists|j: int|
                        0 <= j < vids@.len() && #[trigger] vids@[j] == w,
            decreases x.tcount - i,
        {
            assert(x.tstart + x.tcount <= self.refs@.len());
            let r = self.refs[x.tstart + i];
            let tri = self.triangles[r.tid];
            proof {
                assert(corners_below(tri, self.vertices@.len() as nat));
            }
            let mut k: usize = 0;
            while k < 3
                invariant
                    self.wf(),
                    u < self.vertices@.len(),
                    nb.len() == 3 * x.tcount,
                    i < x.tcount,
                    k <= 3,
                    corners_below(tri, self.vertices@.len() as nat),
                    forall|m: int| 0 <= m < 3 ==> nb[3 * i + m] == #[trigger] tri.v[m],
                    vids@.len() == once@.len(),
                    forall|j: int| 0 <= j < vids@.len() ==> (#[trigger] vids@[j]) < self.vertices@.len(),
                    forall|j: int, l: int| 0 <= j < l < vids@.len() ==> vids@[j] != vids@[l],
                    forall|j: int|
                        0 <= j < vids@.len() ==> occ(nb.subrange(0, 3 * i + k), #[trigger] vids@[j] as int) > 0
                            && once@[j] == (occ(nb.subrange(0, 3 * i + k), vids@[j] as int) == 1),
                    forall|w: int|
                        #[trigger] occ(nb.subrange(0, 3 * i + k), w) > 0 ==> exists|j: int|
                            0 <= j < vids@.len() && #[trigger] vids@[j] == w,
                decreases 3 - k,
            {
                let id = tri.v[k];
                let ghost pre = nb.subrange(0, 3 * i + k);
                let ghost post = nb.subrange(0, 3 * i + k + 1);
                proof {
                    assert(post.drop_last() =~= pre);
                    assert(post.last() == id);
                }
                let mut ofs: usize = 0;
                while ofs < vids.len() && vids[ofs] != id
                    invariant
                        ofs <= vids@.len(),
                        forall|j: int| 0 <= j < ofs ==> vids@[j] != id,
                    decreases vids@.len() - ofs,
                {
                    ofs += 1;
                }
                let ghost vids0 = vids@;
                if ofs == vids.len() {
                    proof {
                        if occ(pre, id as int) > 0 {
                            let j = choose|j: int| 0 <= j < vids0.len() && #[trigger] vids0[j] == id;
                        }
                    }
                    vids.push(id);
                    once.push(true);
                } else {
                    once[ofs] = false;
                }
                proof {
                    assert forall|w: int| occ(post, w) > 0 implies exists|j: int|
                        0 <= j < vids@.len() && #[trigger] vids@[j] == w by {
                        if w == id {
                            if ofs < vids0.len() {
                                assert(vids@[ofs as int] == w);
                            } else {
                                assert(vids@[vids0.len() as int] == w);
                            }
                        } else {
                            assert(occ(post, w) == occ(pre, w));
                            assert(occ(pre, w) > 0);
                            let j = choose|j: int| 0 <= j < vids0.len() && #[trigger] vids0[j] == w;
                            assert(vids@[j] == w);
                        }
                    }
                }
                k += 1;
            }
            proof {
                assert(3 * i + 3 == 3 * (i + 1));
            }
            i += 1;
        }
        assert(nb.subrange(0, 3 * x.tcount) =~= nb);
        (vids, once)
    }
}

} // verus!
