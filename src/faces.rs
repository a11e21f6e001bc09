//! Polygon faces, as mesh files list them, cut into triangles.

use vstd::prelude::*;
use vstd::arithmetic::div_mod::lemma_small_mod;

verus! {

/// Corner `q % 3` of triangle `q / 3` of the cut of polygon `f`: triangle
/// `t` takes the corners `2 t`, `2 t + 1` and `2 t + 2`, counted around the
/// polygon.
pub open spec fn fan_entry(f: Seq<i32>, q: int) -> u32 {
    f[(2 * (q / 3) + q % 3) % f.len() as int] as u32
}

/// The index list that cutting polygon `f` gives: one triangle for every
/// second corner, `(f.len() + 1) / 2` in all.
pub open spec fn triangulated(f: Seq<i32>) -> Seq<u32> {
    Seq::new(3 * ((f.len() + 1) / 2), |q: int| fan_entry(f, q))
}

/// Cuts a polygon, given by its corner indices, into triangles: starting at
/// every second corner, the triangle of that corner and the next two around
/// the polygon. Indices are taken as unsigned.
pub fn triangulate_face(face: &Vec<i32>) -> (r: Vec<u32>)
    requires
        3 * face@.len() + 3 <= usize::MAX,
    ensures
        r@ == triangulated(face@),
{
    let k = face.len();
    let mut out: Vec<u32> = Vec::new();
    let mut i: usize = 0;
    while i < k
        invariant
            k == face@.len(),
            3 * k + 3 <= usize::MAX,
            i % 2 == 0,
            i <= k + 1,
            out@ == triangulated(face@).subrange(0, 3 * (i / 2)),
        decreases k + 1 - i,
    {
        let a = #[verifier::truncate] (face[i] as u32);
        let b = #[verifier::truncate] (face[(i + 1) % k] as u32);
        let c = #[verifier::truncate] (face[(i + 2) % k] as u32);
        out.push(a);
        out.push(b);
        out.push(c);
        proof {
            let full = triangulated(face@);
            let t = i / 2;
            assert(t < (k + 1) / 2);
            assert(2 * t == i);
            lemma_small_mod(i as nat, k as nat);
            assert(full[3 * t] == a);
            assert(full[3 * t + 1] == b);
            assert(full[3 * t + 2] == c);
            assert forall|q: int| 3 * t <= q < 3 * t + 3 implies #[trigger] full[q] == out@[q] by {
                assert(q == 3 * t || q == 3 * t + 1 || q == 3 * t + 2);
            }
            assert(out@ =~= full.subrange(0, 3 * (t + 1)));
            assert((i + 2) / 2 == t + 1);
        }
        i += 2;
    }
    proof {
        assert(i / 2 == (k + 1) / 2);
    }
    assert(out@ =~= triangulated(face@));
    out
}

} // verus!
