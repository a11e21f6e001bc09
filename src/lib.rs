//! Indexed triangle meshes, uniform subdivision, and quadric-error
//! decimation.
//!
//! The library owns the topology: index lists, adjacency, border detection,
//! edge-collapse bookkeeping and compaction. Arithmetic on coordinates is
//! left to the caller, through a centroid function for subdivision and the
//! `Geometry` interface for decimation.

use vstd::prelude::*;

pub mod mesh;
pub mod remesh;
pub mod simplification;
pub mod adjacency;
pub mod compaction;
pub mod faces;

verus! {

} // verus!
