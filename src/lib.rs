//! Voxel grid meshing with a reverse index from voxel faces to vertex ranges, and
//! incremental updates of the mesh after single voxel edits.
//!
//! A mesh holds, for each vertex, the voxel it belongs to, the voxel value it was emitted
//! for and the template vertex it copies; each emitted face is a quad of 4 vertices and 6
//! indices. The reverse index maps each quad's first vertex to its (voxel, face) and each
//! voxel to its quads, and every operation here keeps mesh and index consistent.

pub mod adj;
pub mod direction;
pub mod edits;
pub mod face;
pub mod grid;
pub mod mesh;
pub mod meshem;
pub mod metadata;
pub mod rle;
pub mod update;
pub mod vivi;

use vstd::prelude::*;

verus! {

/// (width, height, length) of a voxel grid; height is the vertical axis.
pub type Dimensions = (usize, usize, usize);

} // verus!
