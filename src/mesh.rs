//! The indexed mesh value type and its checks.

use vstd::prelude::*;

verus! {

/// Why a mesh was refused.
#[derive(Debug, Clone, Copy, PartialEq, Eq, Structural)]
pub enum MeshError {
    /// The index list is not a whole number of triangles.
    PartialTriangle,
    /// An index names a position that does not exist.
    IndexOutOfRange,
    /// The result would need more vertices than 32-bit indices can name, or
    /// more indices than memory can address.
    TooLarge,
}

/// Every index names one of `n` positions.
pub open spec fn indices_in_range(indices: Seq<u32>, n: nat) -> bool {
    forall|i: int| 0 <= i < indices.len() ==> (#[trigger] indices[i]) < n
}

/// The index list is a whole number of triangles over `n` positions.
pub open spec fn valid_indices(indices: Seq<u32>, n: nat) -> bool {
    &&& indices.len() % 3 == 0
    &&& indices_in_range(indices, n)
}

/// Number of triangles of an index list.
pub open spec fn triangles_of(indices: Seq<u32>) -> nat {
    indices.len() / 3
}

/// An indexed triangle mesh: positions, one normal per position once computed,
/// and three indices per triangle.
///
/// The vector type `V` is left open: the library only moves and indexes
/// positions, and leaves their arithmetic to the caller.
pub struct IndexedMesh<V> {
    pub positions: Vec<V>,
    pub normals: Vec<V>,
    pub indices: Vec<u32>,
}

impl<V> IndexedMesh<V> {
    /// The indices describe whole triangles over the positions that exist.
    pub open spec fn wf(&self) -> bool {
        valid_indices(self.indices@, self.positions.len() as nat)
    }

    /// A mesh with no positions, normals or triangles.
    pub fn new() -> (r: Self)
        ensures
            r.positions@.len() == 0,
            r.normals@.len() == 0,
            r.indices@.len() == 0,
    {
        IndexedMesh { positions: Vec::new(), normals: Vec::new(), indices: Vec::new() }
    }

    /// A mesh counts as empty when any of its three lists is.
    pub fn is_empty(&self) -> (r: bool)
        ensures
            r == (self.positions@.len() == 0 || self.normals@.len() == 0
                || self.indices@.len() == 0),
    {
        self.positions.len() == 0 || self.normals.len() == 0 || self.indices.len() == 0
    }

    /// Empties all three lists.
    pub fn clear(&mut self)
        ensures
            final(self).positions@.len() == 0,
            final(self).normals@.len() == 0,
            final(self).indices@.len() == 0,
    {
        self.positions.clear();
        self.normals.clear();
        self.indices.clear();
    }

    /// Number of triangles.
    pub fn triangle_count(&self) -> (r: usize)
        ensures
            r == triangles_of(self.indices@),
    {
        self.indices.len() / 3
    }

    /// Checks that the indices describe whole triangles over existing positions.
    pub fn validate(&self) -> (r: Result<(), MeshError>)
        ensures
            r is Ok <==> self.wf(),
            r == Err::<(), MeshError>(MeshError::PartialTriangle) <==> self.indices@.len() % 3
                != 0,
            r == Err::<(), MeshError>(MeshError::IndexOutOfRange) <==> (self.indices@.len() % 3
                == 0 && !indices_in_range(self.indices@, self.positions.len() as nat)),
    {
        if self.indices.len() % 3 != 0 {
            return Err(MeshError::PartialTriangle);
        }
        let n = self.positions.len();
        let mut i: usize = 0;
        while i < self.indices.len()
            invariant
                n == self.positions.len(),
                self.indices@.len() % 3 == 0,
                i <= self.indices.len(),
                forall|k: int| 0 <= k < i ==> (#[trigger] self.indices@[k]) < n,
            decreases self.indices.len() - i,
        {
            if self.indices[i] as usize >= n {
                assert(!indices_in_range(self.indices@, n as nat));
                return Err(MeshError::IndexOutOfRange);
            }
            i += 1;
        }
        Ok(())
    }
}

/// Index list of the canonical box: eight corners, twelve outward-facing
/// triangles, two per side.
pub open spec fn box_indices_spec() -> Seq<u32> {
    seq![
        1u32, 0, 2, 2, 3, 1,
        5, 1, 7, 3, 7, 1,
        4, 5, 6, 7, 6, 5,
        0, 4, 2, 6, 2, 4,
        3, 2, 7, 6, 7, 2,
        1, 4, 0, 4, 1, 5,
    ]
}

impl<V> Default for IndexedMesh<V> {
    fn default() -> (r: Self)
        ensures
            r.positions@.len() == 0,
            r.normals@.len() == 0,
            r.indices@.len() == 0,
    {
        IndexedMesh::new()
    }
}

impl<V: Copy> IndexedMesh<V> {
    /// The canonical box over eight corners numbered by the bits x (1),
    /// y (2) and z (4) of the positive half of each axis: twelve triangles,
    /// two per side, wound to face outward. Normals are left empty.
    pub fn box3d(corners: [V; 8]) -> (r: Self)
        ensures
            r.positions@ == corners@,
            r.indices@ == box_indices_spec(),
            r.normals@.len() == 0,
            r.wf(),
    {
        let mut positions: Vec<V> = Vec::new();
        let mut i: usize = 0;
        while i < 8
            invariant
                i <= 8,
                positions@ == corners@.subrange(0, i as int),
            decreases 8 - i,
        {
            positions.push(corners[i]);
            i += 1;
            assert(positions@ =~= corners@.subrange(0, i as int));
        }
        assert(positions@ =~= corners@);
        let indices: Vec<u32> = vec![
            1, 0, 2, 2, 3, 1,
            5, 1, 7, 3, 7, 1,
            4, 5, 6, 7, 6, 5,
            0, 4, 2, 6, 2, 4,
            3, 2, 7, 6, 7, 2,
            1, 4, 0, 4, 1, 5,
        ];
        assert(indices@ =~= box_indices_spec());
        IndexedMesh { positions, normals: Vec::new(), indices }
    }
}

} // verus!
