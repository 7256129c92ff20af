use crate::face::Face;
use crate::grid::{valid_dims, voxel_count};
use crate::rle::RleVec;
use crate::vivi::{has_quad, VIVI};
use crate::Dimensions;
use vstd::prelude::*;

verus! {

/// The ways in which a voxel can change after the mesh was generated.
#[derive(Clone, Copy, Debug, PartialEq, Eq, Structural)]
pub enum VoxelChange {
    /// The voxel was removed.
    Broken,
    /// The voxel was placed.
    Added,
    /// Faces of the voxel were hidden from outside, by the snapshot's entries.
    CullFaces,
    /// Faces of the voxel were revealed from outside, by the snapshot's entries.
    AddFaces,
}

/// One logged change: the voxel value, its index in the grid, the kind of change, and the
/// values of its six neighbors by face index (`None` where empty or outside the grid).
pub type LoggedChange = (usize, usize, VoxelChange, [Option<usize>; 6]);

/// The metadata kept beside a mesh to update it: the grid dimensions, the reverse index,
/// which voxels gave geometry when the mesh was generated, and the pending changes.
pub struct MeshMD {
    pub vivi: VIVI,
    pub dims: Dimensions,
    pub changed_voxels: Vec<LoggedChange>,
    pub occupancy: RleVec,
}

/// The (voxel, face) pairs that a reverse map tracks.
pub open spec fn quads(m: Map<u32, (usize, Face)>) -> Set<(usize, Face)> {
    Set::new(|p: (usize, Face)| has_quad(m, p.0, p.1))
}

impl MeshMD {
    /// The dimensions are valid and the reverse index covers the whole grid.
    pub open spec fn wf(&self) -> bool {
        &&& valid_dims(self.dims)
        &&& self.vivi.wf()
        &&& self.vivi.voxels() == voxel_count(self.dims)
    }

    /// Logs a change of voxel `voxel_index` to value `voxel`, with the values of its six
    /// neighbors at the time of the change; `update_mesh` applies it later.
    pub fn log(
        &mut self,
        voxel_change: VoxelChange,
        voxel_index: usize,
        voxel: usize,
        neighboring_voxels: [Option<usize>; 6],
    )
        ensures
            final(self).changed_voxels@ == old(self).changed_voxels@.push(
                (voxel, voxel_index, voxel_change, neighboring_voxels),
            ),
            final(self).vivi == old(self).vivi,
            final(self).dims == old(self).dims,
            final(self).occupancy == old(self).occupancy,
    {
        self.changed_voxels.push((voxel, voxel_index, voxel_change, neighboring_voxels));
    }
}

} // verus!
