//! Uniform subdivision: every triangle split in three around its centroid.

use vstd::prelude::*;

use crate::mesh::{IndexedMesh, MeshError, valid_indices, indices_in_range};

verus! {

/// Entry `i` of one splitting pass over `idx`, whose new vertices are
/// numbered from `n`: triangle `t = (a, b, c)` becomes `(a, b, m)`,
/// `(b, c, m)`, `(c, a, m)` with `m = n + t`.
pub open spec fn split_entry(idx: Seq<u32>, n: nat, i: int) -> u32 {
    let t = i / 9;
    let r = i % 9;
    let a = idx[3 * t];
    let b = idx[3 * t + 1];
    let c = idx[3 * t + 2];
    let m = (n + t) as u32;
    if r == 0 { a }
    else if r == 1 { b }
    else if r == 2 { m }
    else if r == 3 { b }
    else if r == 4 { c }
    else if r == 5 { m }
    else if r == 6 { c }
    else if r == 7 { a }
    else { m }
}

/// The index list after one splitting pass.
pub open spec fn split_once(idx: Seq<u32>, n: nat) -> Seq<u32> {
    Seq::new(3 * idx.len(), |i: int| split_entry(idx, n, i))
}

/// The corners of each triangle of `idx`, in order: the corners whose
/// centroid each new vertex of one pass is.
pub open spec fn pass_sources(idx: Seq<u32>) -> Seq<(u32, u32, u32)> {
    Seq::new(idx.len() / 3, |t: int| (idx[3 * t], idx[3 * t + 1], idx[3 * t + 2]))
}

/// Index list and vertex count after `k` passes over `idx` with `n` vertices.
pub open spec fn split_rounds(idx: Seq<u32>, n: nat, k: nat) -> (Seq<u32>, nat)
    decreases k,
{
    if k == 0 {
        (idx, n)
    } else {
        let (j, m) = split_rounds(idx, n, (k - 1) as nat);
        (split_once(j, m), m + j.len() / 3)
    }
}

/// The corners of every vertex that `k` passes add, in the order they are added.
pub open spec fn split_sources(idx: Seq<u32>, n: nat, k: nat) -> Seq<(u32, u32, u32)>
    decreases k,
{
    if k == 0 {
        Seq::empty()
    } else {
        split_sources(idx, n, (k - 1) as nat) + pass_sources(
            split_rounds(idx, n, (k - 1) as nat).0,
        )
    }
}

/// Powers of three.
pub open spec fn pow3(k: nat) -> nat
    decreases k,
{
    if k == 0 { 1 } else { 3 * pow3((k - 1) as nat) }
}

/// Each pass triples the index list, and adds one vertex per triangle.
pub proof fn lemma_split_rounds_size(idx: Seq<u32>, n: nat, k: nat)
    requires
        idx.len() % 3 == 0,
    ensures
        split_rounds(idx, n, k).0.len() == pow3(k) * idx.len(),
        split_rounds(idx, n, k).0.len() % 3 == 0,
        split_rounds(idx, n, k).1 == n + split_sources(idx, n, k).len(),
        split_rounds(idx, n, k).1 >= n,
    decreases k,
{
    if k > 0 {
        lemma_split_rounds_size(idx, n, (k - 1) as nat);
        let (j, m) = split_rounds(idx, n, (k - 1) as nat);
        assert(split_rounds(idx, n, k).0 == split_once(j, m));
        assert(split_once(j, m).len() == 3 * j.len());
        let p = pow3((k - 1) as nat);
        assert(pow3(k) == 3 * p);
        assert(pow3(k) * idx.len() == 3 * (p * idx.len())) by (nonlinear_arith)
            requires pow3(k) == 3 * p;
    } else {
        assert(pow3(0) == 1);
        assert(1 * idx.len() == idx.len());
    }
}

/// Sizes grow with the number of passes.
pub proof fn lemma_split_rounds_grow(idx: Seq<u32>, n: nat, r: nat, k: nat)
    requires
        idx.len() % 3 == 0,
        r <= k,
    ensures
        split_rounds(idx, n, r).0.len() <= split_rounds(idx, n, k).0.len(),
        split_rounds(idx, n, r).1 <= split_rounds(idx, n, k).1,
    decreases k,
{
    if r < k {
        lemma_split_rounds_grow(idx, n, r, (k - 1) as nat);
        lemma_split_rounds_size(idx, n, (k - 1) as nat);
    }
}

/// One pass keeps the index list valid over the grown vertex count.
proof fn lemma_split_once_valid(idx: Seq<u32>, n: nat)
    requires
        valid_indices(idx, n),
        n + idx.len() / 3 <= u32::MAX as nat + 1,
    ensures
        valid_indices(split_once(idx, n), n + idx.len() / 3),
{
    let s = split_once(idx, n);
    assert forall|i: int| 0 <= i < s.len() implies (#[trigger] s[i]) < n + idx.len() / 3 by {
        let t = i / 9;
        assert(0 <= t < idx.len() / 3);
        assert(3 * t + 2 < idx.len());
    }
    assert(s.len() % 3 == 0);
}

/// Validity of the index list holds after any number of passes.
proof fn lemma_split_rounds_valid(idx: Seq<u32>, n: nat, k: nat)
    requires
        valid_indices(idx, n),
        split_rounds(idx, n, k).1 <= u32::MAX as nat + 1,
    ensures
        valid_indices(split_rounds(idx, n, k).0, split_rounds(idx, n, k).1),
    decreases k,
{
    if k > 0 {
        lemma_split_rounds_grow(idx, n, (k - 1) as nat, k);
        lemma_split_rounds_valid(idx, n, (k - 1) as nat);
        let (j, m) = split_rounds(idx, n, (k - 1) as nat);
        lemma_split_once_valid(j, m);
    }
}

/// Uniform subdivision of every triangle around its centroid.
pub struct Remesher {}

impl Remesher {
    /// Applies `iteration` splitting passes to a valid mesh whose result fits:
    /// each pass replaces every triangle by three around a new vertex that
    /// `centroid` computes from its corners. Each pass reads the whole output
    /// of the one before and writes a fresh index list.
    fn split_valid<V: Copy, C: Fn(V, V, V) -> V>(
        mesh: &mut IndexedMesh<V>,
        iteration: usize,
        centroid: C,
    )
        requires
            old(mesh).wf(),
            split_rounds(old(mesh).indices@, old(mesh).positions@.len(), iteration as nat).1
                <= u32::MAX as nat + 1,
            split_rounds(old(mesh).indices@, old(mesh).positions@.len(), iteration as nat).0.len()
                <= usize::MAX as nat,
            forall|a: V, b: V, c: V| centroid.requires((a, b, c)),
        ensures
            final(mesh).indices@ == split_rounds(
                old(mesh).indices@,
                old(mesh).positions@.len(),
                iteration as nat,
            ).0,
            final(mesh).positions@.len() == split_rounds(
                old(mesh).indices@,
                old(mesh).positions@.len(),
                iteration as nat,
            ).1,
            final(mesh).positions@.subrange(0, old(mesh).positions@.len() as int)
                == old(mesh).positions@,
            final(mesh).wf(),
            final(mesh).normals@ == old(mesh).normals@,
            ({
                let p = final(mesh).positions@;
                let n0 = old(mesh).positions@.len();
                let src = split_sources(old(mesh).indices@, n0, iteration as nat);
                &&& src.len() == p.len() - n0
                &&& forall|j: int|
                    0 <= j < src.len() ==> {
                        let (a, b, c) = #[trigger] src[j];
                        &&& a < n0 + j
                        &&& b < n0 + j
                        &&& c < n0 + j
                        &&& centroid.ensures((p[a as int], p[b as int], p[c as int]), p[n0 + j])
                    }
            }),
    {
        let ghost idx0 = mesh.indices@;
        let ghost n0 = mesh.positions@.len();
        let ghost p0 = mesh.positions@;
        proof {
            lemma_split_rounds_size(idx0, n0, iteration as nat);
        }
        let mut pass: usize = 0;
        while pass < iteration
            invariant
                pass <= iteration,
                idx0.len() % 3 == 0,
                valid_indices(idx0, n0),
                split_rounds(idx0, n0, iteration as nat).1 <= u32::MAX as nat + 1,
                split_rounds(idx0, n0, iteration as nat).0.len() <= usize::MAX as nat,
                forall|a: V, b: V, c: V| centroid.requires((a, b, c)),
                mesh.indices@ == split_rounds(idx0, n0, pass as nat).0,
                mesh.positions@.len() == split_rounds(idx0, n0, pass as nat).1,
                mesh.positions@.subrange(0, n0 as int) == p0,
                mesh.normals@ == old(mesh).normals@,
                ({
                    let p = mesh.positions@;
                    let src = split_sources(idx0, n0, pass as nat);
                    &&& src.len() == p.len() - n0
                    &&& forall|j: int|
                        0 <= j < src.len() ==> {
                            let (a, b, c) = #[trigger] src[j];
                            &&& a < n0 + j
                            &&& b < n0 + j
                            &&& c < n0 + j
                            &&& centroid.ensures(
                                (p[a as int], p[b as int], p[c as int]),
                                p[n0 + j],
                            )
                        }
                }),
            decreases iteration - pass,
        {
            proof {
                lemma_split_rounds_size(idx0, n0, pass as nat);
                lemma_split_rounds_size(idx0, n0, (pass + 1) as nat);
                lemma_split_rounds_grow(idx0, n0, (pass + 1) as nat, iteration as nat);
                lemma_split_rounds_valid(idx0, n0, pass as nat);
            }
            let ghost before = mesh.positions@;
            Self::split_pass(mesh, &centroid);
            proof {
                let src0 = split_sources(idx0, n0, pass as nat);
                let cur = split_rounds(idx0, n0, pass as nat);
                let src1 = split_sources(idx0, n0, (pass + 1) as nat);
                assert(src1 == src0 + pass_sources(cur.0));
                let p = mesh.positions@;
                assert forall|j: int| 0 <= j < src1.len() implies {
                    let (a, b, c) = #[trigger] src1[j];
                    &&& a < n0 + j
                    &&& b < n0 + j
                    &&& c < n0 + j
                    &&& centroid.ensures((p[a as int], p[b as int], p[c as int]), p[n0 + j])
                } by {
                    if j < src0.len() {
                        assert(src1[j] == src0[j]);
                        let (a, b, c) = src0[j];
                        assert(p[a as int] == before[a as int]);
                        assert(p[b as int] == before[b as int]);
                        assert(p[c as int] == before[c as int]);
                        assert(p[n0 + j] == before[n0 + j]);
                    } else {
                        let t = j - src0.len();
                        assert(src1[j] == pass_sources(cur.0)[t]);
                    }
                }
                assert(p.subrange(0, n0 as int) =~= p0) by {
                    assert(forall|k: int| 0 <= k < n0 ==> p[k] == before[k]);
                }
            }
            pass += 1;
        }
        proof {
            lemma_split_rounds_valid(idx0, n0, iteration as nat);
        }
    }

    /// Checks `mesh` and the size of the result, then applies `iteration`
    /// splitting passes: each pass replaces every triangle by three around a
    /// new vertex that `centroid` computes from its corners, reading the whole
    /// output of the pass before and writing a fresh index list. Normals are
    /// left for the caller to recompute.
    ///
    /// An invalid mesh gets the error `validate` gives; a result whose vertices
    /// 32-bit indices cannot all name, or whose index list would not fit in
    /// memory, gets `TooLarge`. The mesh is left as it is on any error.
    pub fn split_faces<V: Copy, C: Fn(V, V, V) -> V>(
        mesh: &mut IndexedMesh<V>,
        iteration: usize,
        centroid: C,
    ) -> (r: Result<(), MeshError>)
        requires
            forall|a: V, b: V, c: V| centroid.requires((a, b, c)),
        ensures
            r == Err::<(), MeshError>(MeshError::PartialTriangle) <==> old(mesh).indices@.len() % 3 != 0,
            r == Err::<(), MeshError>(MeshError::IndexOutOfRange) <==> (old(mesh).indices@.len() % 3 == 0
                && !indices_in_range(old(mesh).indices@, old(mesh).positions@.len() as nat)),
            r == Err::<(), MeshError>(MeshError::TooLarge) <==> (old(mesh).wf() && !(split_rounds(
                old(mesh).indices@,
                old(mesh).positions@.len(),
                iteration as nat,
            ).1 <= u32::MAX as nat + 1 && split_rounds(
                old(mesh).indices@,
                old(mesh).positions@.len(),
                iteration as nat,
            ).0.len() <= usize::MAX as nat)),
            r is Err ==> *final(mesh) == *old(mesh),
            r is Ok ==> final(mesh).indices@ == split_rounds(
                old(mesh).indices@,
                old(mesh).positions@.len(),
                iteration as nat,
            ).0,
            r is Ok ==> final(mesh).positions@.len() == split_rounds(
                old(mesh).indices@,
                old(mesh).positions@.len(),
                iteration as nat,
            ).1,
            r is Ok ==> final(mesh).wf(),
            r is Ok ==> final(mesh).positions@.subrange(0, old(mesh).positions@.len() as int)
                == old(mesh).positions@,
            r is Ok ==> final(mesh).normals@ == old(mesh).normals@,
            r is Ok ==> ({
                let p = final(mesh).positions@;
                let n0 = old(mesh).positions@.len();
                let src = split_sources(old(mesh).indices@, n0, iteration as nat);
                &&& src.len() == p.len() - n0
                &&& forall|j: int|
                    0 <= j < src.len() ==> {
                        let (a, b, c) = #[trigger] src[j];
                        &&& a < n0 + j
                        &&& b < n0 + j
                        &&& c < n0 + j
                        &&& centroid.ensures((p[a as int], p[b as int], p[c as int]), p[n0 + j])
                    }
            }),
    {
        match mesh.validate() {
            Err(e) => {
                return Err(e);
            },
            Ok(()) => {},
        }
        let ghost idx = mesh.indices@;
        let ghost n0 = mesh.positions@.len();
        let limit: u64 = u32::MAX as u64 + 1;
        if mesh.positions.len() as u64 > limit {
            proof {
                lemma_split_rounds_grow(idx, n0, 0, iteration as nat);
            }
            return Err(MeshError::TooLarge);
        }
        let mut n: u64 = mesh.positions.len() as u64;
        let mut len: usize = mesh.indices.len();
        let mut pass: usize = 0;
        while pass < iteration
            invariant
                *mesh == *old(mesh),
                mesh.wf(),
                idx == mesh.indices@,
                n0 == mesh.positions@.len(),
                limit == u32::MAX as nat + 1,
                pass <= iteration,
                idx.len() % 3 == 0,
                n == split_rounds(idx, n0, pass as nat).1,
                len == split_rounds(idx, n0, pass as nat).0.len(),
                n <= limit,
            decreases iteration - pass,
        {
            let ghost (j, m) = split_rounds(idx, n0, pass as nat);
            assert(split_rounds(idx, n0, (pass + 1) as nat) == (split_once(j, m), m + j.len() / 3));
            if len > usize::MAX / 3 || (len / 3) as u64 > limit - n {
                proof {
                    lemma_split_rounds_grow(idx, n0, (pass + 1) as nat, iteration as nat);
                }
                return Err(MeshError::TooLarge);
            }
            n = n + (len / 3) as u64;
            len = 3 * len;
            pass += 1;
        }
        Self::split_valid(mesh, iteration, centroid);
        Ok(())
    }

    /// One splitting pass, into an index list that starts empty.
    fn split_pass<V: Copy, C: Fn(V, V, V) -> V>(mesh: &mut IndexedMesh<V>, centroid: &C)
        requires
            valid_indices(old(mesh).indices@, old(mesh).positions@.len() as nat),
            old(mesh).positions@.len() + old(mesh).indices@.len() / 3 <= u32::MAX as nat + 1,
            3 * old(mesh).indices@.len() <= usize::MAX as nat,
            forall|a: V, b: V, c: V| centroid.requires((a, b, c)),
        ensures
            final(mesh).indices@ == split_once(old(mesh).indices@, old(mesh).positions@.len() as nat),
            final(mesh).positions@.len() == old(mesh).positions@.len() + old(mesh).indices@.len()
                / 3,
            final(mesh).positions@.subrange(0, old(mesh).positions@.len() as int)
                == old(mesh).positions@,
            final(mesh).normals@ == old(mesh).normals@,
            ({
                let p = final(mesh).positions@;
                let n = old(mesh).positions@.len();
                let src = pass_sources(old(mesh).indices@);
                forall|t: int|
                    0 <= t < src.len() ==> {
                        let (a, b, c) = #[trigger] src[t];
                        &&& a < n
                        &&& b < n
                        &&& c < n
                        &&& centroid.ensures((p[a as int], p[b as int], p[c as int]), p[n + t])
                    }
            }),
    {
        let ghost idx = mesh.indices@;
        let ghost p0 = mesh.positions@;
        let n = mesh.positions.len();
        let tris = mesh.indices.len() / 3;
        let mut out: Vec<u32> = Vec::with_capacity(3 * mesh.indices.len());
        let mut t: usize = 0;
        while t < tris
            invariant
                idx == mesh.indices@,
                tris == idx.len() / 3,
                valid_indices(idx, n as nat),
                n == p0.len(),
                n + tris <= u32::MAX as nat + 1,
                3 * idx.len() <= usize::MAX as nat,
                t <= tris,
                mesh.positions@.len() == n + t,
                mesh.positions@.subrange(0, n as int) == p0,
                mesh.normals@ == old(mesh).normals@,
                forall|a: V, b: V, c: V| centroid.requires((a, b, c)),
                out@ == split_once(idx, n as nat).subrange(0, 9 * t),
                forall|s: int|
                    0 <= s < t ==> {
                        let (a, b, c) = #[trigger] pass_sources(idx)[s];
                        &&& a < n
                        &&& b < n
                        &&& c < n
                        &&& centroid.ensures(
                            (mesh.positions@[a as int], mesh.positions@[b as int], mesh.positions@[c as int]),
                            mesh.positions@[n + s],
                        )
                    },
            decreases tris - t,
        {
            assert(3 * t + 2 < idx.len());
            let ia = mesh.indices[3 * t];
            let ib = mesh.indices[3 * t + 1];
            let ic = mesh.indices[3 * t + 2];
            let pa = mesh.positions[ia as usize];
            let pb = mesh.positions[ib as usize];
            let pc = mesh.positions[ic as usize];
            let m = centroid(pa, pb, pc);
            let new_idx = (n + t) as u32;
            let ghost before = mesh.positions@;
            mesh.positions.push(m);
            assert(mesh.positions@.subrange(0, n as int) =~= p0) by {
                assert(forall|k: int| 0 <= k < n ==> mesh.positions@[k] == before[k]);
            }
            out.push(ia);
            out.push(ib);
            out.push(new_idx);
            out.push(ib);
            out.push(ic);
            out.push(new_idx);
            out.push(ic);
            out.push(ia);
            out.push(new_idx);
            proof {
                let full = split_once(idx, n as nat);
                assert forall|k: int| 9 * t <= k < 9 * t + 9 implies #[trigger] full[k] == out@[k] by {
                    assert(k / 9 == t);
                }
                assert(out@ =~= full.subrange(0, 9 * (t + 1)));
                assert forall|s: int| 0 <= s < t + 1 implies {
                    let (a, b, c) = #[trigger] pass_sources(idx)[s];
                    &&& a < n
                    &&& b < n
                    &&& c < n
                    &&& centroid.ensures(
                        (mesh.positions@[a as int], mesh.positions@[b as int], mesh.positions@[c as int]),
                        mesh.positions@[n + s],
                    )
                } by {
                    assert(3 * s + 2 < idx.len());
                    assert(idx[3 * s] < n && idx[3 * s + 1] < n && idx[3 * s + 2] < n);
                    if s < t {
                        assert(mesh.positions@[n + s] == before[n + s]);
                    }
                }
            }
            t += 1;
        }
        assert(out@ =~= split_once(idx, n as nat));
        mesh.indices = out;
    }
}

} // verus!
