use crate::face::{face_index, face_of_index, lemma_from_index_spec, opposite_face, Face};
use crate::grid::{
    get_neighbor, neighbor_spec, valid_dims, voxel_count,
};
use crate::mesh::{
    consistent, covers, emit_quad, is_cube, is_custom, quad_of, Mesh, VoxelMesh, VoxelRegistry,
    MAX_VERTICES,
};
use crate::metadata::MeshMD;
use crate::rle::{rep, RleVec};
use crate::vivi::{has_quad, VIVI};
use crate::Dimensions;
use vstd::prelude::*;

verus! {

/// The meshing algorithms.
#[derive(Clone, Copy, Debug, PartialEq, Eq, Structural)]
pub enum MeshingAlgorithm {
    /// Every face of every voxel is emitted.
    Naive,
    /// A face is emitted only where no neighbor covers it.
    Culling,
}

/// Whether face `f` of voxel `i` is exposed: always in naive meshing; otherwise when the
/// neighbor there does not cover it, or, on the outer layer of the grid, when `outer`
/// does not list the face as covered.
pub open spec fn exposed(
    dims: Dimensions,
    outer: Seq<Face>,
    grid: Seq<usize>,
    reg: &VoxelRegistry,
    ma: MeshingAlgorithm,
    i: int,
    f: Face,
) -> bool {
    match ma {
        MeshingAlgorithm::Naive => true,
        MeshingAlgorithm::Culling => match neighbor_spec(dims, i, f) {
            None => !outer.contains(f),
            Some(j) => !covers(reg, grid[j], opposite_face(f)),
        },
    }
}

/// The quads of voxel `i` among its first `k` faces, in canonical face order: the exposed
/// faces that the template of its value has.
pub open spec fn voxel_quads(
    dims: Dimensions,
    outer: Seq<Face>,
    grid: Seq<usize>,
    reg: &VoxelRegistry,
    ma: MeshingAlgorithm,
    i: int,
    k: nat,
) -> Seq<(usize, Face)>
    decreases k,
{
    if k == 0 {
        Seq::empty()
    } else {
        let f = face_of_index((k - 1) as nat);
        let rest = voxel_quads(dims, outer, grid, reg, ma, i, (k - 1) as nat);
        if exposed(dims, outer, grid, reg, ma, i, f) && quad_of(reg, grid[i], f) is Some {
            rest.push((i as usize, f))
        } else {
            rest
        }
    }
}

/// The quads of the first `n` voxels, in grid order and then canonical face order.
pub open spec fn grid_quads(
    dims: Dimensions,
    outer: Seq<Face>,
    grid: Seq<usize>,
    reg: &VoxelRegistry,
    ma: MeshingAlgorithm,
    n: nat,
) -> Seq<(usize, Face)>
    decreases n,
{
    if n == 0 {
        Seq::empty()
    } else {
        grid_quads(dims, outer, grid, reg, ma, (n - 1) as nat) + voxel_quads(
            dims,
            outer,
            grid,
            reg,
            ma,
            n - 1,
            6,
        )
    }
}

/// Whether voxel `i` gives geometry: some face is exposed and its value is a cube or a
/// custom mesh.
pub open spec fn occupied(
    dims: Dimensions,
    outer: Seq<Face>,
    grid: Seq<usize>,
    reg: &VoxelRegistry,
    ma: MeshingAlgorithm,
    i: int,
) -> bool {
    (exists|f: Face| exposed(dims, outer, grid, reg, ma, i, f)) && (is_cube(reg, grid[i])
        || is_custom(reg, grid[i]))
}

proof fn lemma_voxel_quads_bounds(
    dims: Dimensions,
    outer: Seq<Face>,
    grid: Seq<usize>,
    reg: &VoxelRegistry,
    ma: MeshingAlgorithm,
    i: int,
    k: nat,
)
    requires
        0 <= i <= usize::MAX,
    ensures
        voxel_quads(dims, outer, grid, reg, ma, i, k).len() <= k,
        forall|q: int|
            0 <= q < voxel_quads(dims, outer, grid, reg, ma, i, k).len() ==> {
                let e = #[trigger] voxel_quads(dims, outer, grid, reg, ma, i, k)[q];
                e.0 == i && face_index(e.1) < k
            },
    decreases k,
{
    if k > 0 {
        lemma_voxel_quads_bounds(dims, outer, grid, reg, ma, i, (k - 1) as nat);
    }
}

proof fn lemma_grid_quads_bounds(
    dims: Dimensions,
    outer: Seq<Face>,
    grid: Seq<usize>,
    reg: &VoxelRegistry,
    ma: MeshingAlgorithm,
    n: nat,
)
    requires
        n <= usize::MAX,
    ensures
        grid_quads(dims, outer, grid, reg, ma, n).len() <= 6 * n,
        forall|q: int|
            0 <= q < grid_quads(dims, outer, grid, reg, ma, n).len() ==> (#[trigger] grid_quads(
                dims,
                outer,
                grid,
                reg,
                ma,
                n,
            )[q]).0 < n,
    decreases n,
{
    if n > 0 {
        lemma_grid_quads_bounds(dims, outer, grid, reg, ma, (n - 1) as nat);
        lemma_voxel_quads_bounds(dims, outer, grid, reg, ma, n - 1, 6);
    }
}

/// Whether `outer` lists `f`.
fn lists_face(outer: &[Face], f: Face) -> (r: bool)
    ensures
        r == outer@.contains(f),
{
    let mut i: usize = 0;
    while i < outer.len()
        invariant
            i <= outer@.len(),
            forall|j: int| 0 <= j < i ==> outer@[j] != f,
        decreases outer@.len() - i,
    {
        if outer[i] == f {
            return true;
        }
        i += 1;
    }
    false
}

/// Whether face `f` of voxel `i` is exposed.
fn face_exposed(
    dims: Dimensions,
    outer: &[Face],
    grid: &[usize],
    reg: &VoxelRegistry,
    ma: MeshingAlgorithm,
    i: usize,
    f: Face,
) -> (r: bool)
    requires
        valid_dims(dims),
        grid@.len() == voxel_count(dims),
        i < grid@.len(),
    ensures
        r == exposed(dims, outer@, grid@, reg, ma, i as int, f),
{
    match ma {
        MeshingAlgorithm::Naive => true,
        MeshingAlgorithm::Culling => match get_neighbor(i, f, dims) {
            None => !lists_face(outer, f),
            Some(j) => !reg.is_covering(&grid[j], f.opposite()),
        },
    }
}

/// Meshes a whole grid. For every voxel, in grid order, the exposed faces that the
/// template of its value has are emitted as quads in canonical face order, each recorded
/// in the reverse index; the occupancy records which voxels gave geometry.
pub fn mesh_grid(
    dims: Dimensions,
    outer_layer: &[Face],
    grid: &[usize],
    reg: &VoxelRegistry,
    ma: MeshingAlgorithm,
) -> (r: Option<(Mesh, MeshMD)>)
    requires
        valid_dims(dims),
        grid@.len() == voxel_count(dims),
        reg.wf(),
        24 * grid@.len() <= MAX_VERTICES,
    ensures
        r is Some,
        ({
            let (mesh, md) = r->0;
            let s = grid_quads(dims, outer_layer@, grid@, reg, ma, grid@.len());
            &&& md.wf()
            &&& md.dims == dims
            &&& md.changed_voxels@.len() == 0
            &&& consistent(reg, &mesh, &md.vivi)
            &&& mesh.vertices@.len() == 4 * s.len()
            &&& mesh.indices@.len() == 6 * s.len()
            &&& forall|q: int|
                0 <= q < s.len() ==> md.vivi@[(4 * q) as u32] == #[trigger] s[q]
                    && mesh.vertices@[4 * q].value == grid@[s[q].0 as int]
            &&& md.occupancy@.len() == grid@.len()
            &&& forall|i: int|
                0 <= i < grid@.len() ==> #[trigger] md.occupancy@[i] == occupied(
                    dims,
                    outer_layer@,
                    grid@,
                    reg,
                    ma,
                    i,
                )
        }),
{
    let n = grid.len();
    let mut mesh = Mesh::new();
    let mut vivi = VIVI::new(n);
    let mut occupancy = RleVec::new();
    let ghost outer = outer_layer@;
    let ghost g = grid@;
    let mut i: usize = 0;
    while i < n
        invariant
            valid_dims(dims),
            n == g.len(),
            g == grid@,
            outer == outer_layer@,
            g.len() == voxel_count(dims),
            reg.wf(),
            24 * n <= MAX_VERTICES,
            i <= n,
            vivi.voxels() == n,
            consistent(reg, &mesh, &vivi),
            mesh.vertices@.len() == 4 * grid_quads(dims, outer, g, reg, ma, i as nat).len(),
            forall|q: int|
                0 <= q < grid_quads(dims, outer, g, reg, ma, i as nat).len() ==> vivi@[(4
                    * q) as u32] == #[trigger] grid_quads(dims, outer, g, reg, ma, i as nat)[q]
                    && mesh.vertices@[4 * q].value == g[grid_quads(
                    dims,
                    outer,
                    g,
                    reg,
                    ma,
                    i as nat,
                )[q].0 as int],
            occupancy@.len() == i,
            forall|j: int| 0 <= j < i ==> #[trigger] occupancy@[j] == occupied(dims, outer, g, reg, ma, j),
        decreases n - i,
    {
        let value = grid[i];
        let ghost before = grid_quads(dims, outer, g, reg, ma, i as nat);
        proof {
            lemma_grid_quads_bounds(dims, outer, g, reg, ma, i as nat);
        }
        let mut any = false;
        let mut k: usize = 0;
        while k < 6
            invariant
                valid_dims(dims),
                n == g.len(),
                g == grid@,
                outer == outer_layer@,
                g.len() == voxel_count(dims),
                reg.wf(),
                24 * n <= MAX_VERTICES,
                i < n,
                k <= 6,
                value == g[i as int],
                vivi.voxels() == n,
                consistent(reg, &mesh, &vivi),
                before == grid_quads(dims, outer, g, reg, ma, i as nat),
                before.len() <= 6 * i,
                forall|q: int| 0 <= q < before.len() ==> (#[trigger] before[q]).0 < i,
                mesh.vertices@.len() == 4 * (before + voxel_quads(
                    dims,
                    outer,
                    g,
                    reg,
                    ma,
                    i as int,
                    k as nat,
                )).len(),
                forall|q: int|
                    0 <= q < (before + voxel_quads(dims, outer, g, reg, ma, i as int, k as nat)).len()
                        ==> vivi@[(4 * q) as u32] == #[trigger] (before + voxel_quads(
                        dims,
                        outer,
                        g,
                        reg,
                        ma,
                        i as int,
                        k as nat,
                    ))[q] && mesh.vertices@[4 * q].value == g[(before + voxel_quads(
                        dims,
                        outer,
                        g,
                        reg,
                        ma,
                        i as int,
                        k as nat,
                    ))[q].0 as int],
                any == exists|j: nat| j < k && exposed(dims, outer, g, reg, ma, i as int, #[trigger] face_of_index(j)),
            decreases 6 - k,
        {
            let face = Face::from_index(k);
            let ghost cur = before + voxel_quads(dims, outer, g, reg, ma, i as int, k as nat);
            proof {
                lemma_voxel_quads_bounds(dims, outer, g, reg, ma, i as int, k as nat);
            }
            if face_exposed(dims, outer_layer, grid, reg, ma, i, face) {
                any = true;
                match reg.quad(value, face) {
                    Some(t) => {
                        proof {
                            if has_quad(vivi@, i, face) {
                                let x = choose|x: u32| #[trigger]
                                    vivi@.contains_key(x) && vivi@[x] == (i, face);
                                let q = (x / 4) as int;
                                assert(vivi@[(4 * q) as u32] == cur[q]);
                                if q < before.len() {
                                    assert(before[q].0 < i);
                                } else {
                                    assert(cur[q] == voxel_quads(dims, outer, g, reg, ma, i as int, k as nat)[q - before.len()]);
                                }
                            }
                        }
                        let ghost pre_v = mesh.vertices@;
                        let ghost pre_m = vivi@;
                        emit_quad(&mut mesh, &mut vivi, reg, i, value, face, t);
                        proof {
                            let nxt = before + voxel_quads(dims, outer, g, reg, ma, i as int, (k + 1) as nat);
                            assert(nxt =~= cur.push((i, face)));
                            assert forall|q: int| 0 <= q < nxt.len() implies vivi@[(4 * q) as u32] == #[trigger] nxt[q]
                                && mesh.vertices@[4 * q].value == g[nxt[q].0 as int] by {
                                if q < cur.len() {
                                    assert(vivi@[(4 * q) as u32] == pre_m[(4 * q) as u32]);
                                    assert(mesh.vertices@[4 * q] == pre_v[4 * q]);
                                } else {
                                    assert(mesh.vertices@[4 * q] == mesh.vertices@[pre_v.len() as int]);
                                }
                            }
                        }
                    },
                    None => {
                        proof {
                            let nxt = before + voxel_quads(dims, outer, g, reg, ma, i as int, (k + 1) as nat);
                            assert(nxt =~= cur);
                        }
                    },
                }
            } else {
                proof {
                    let nxt = before + voxel_quads(dims, outer, g, reg, ma, i as int, (k + 1) as nat);
                    assert(nxt =~= cur);
                }
            }
            proof {
                lemma_from_index_spec(face);
                if exposed(dims, outer, g, reg, ma, i as int, face) {
                    assert(face_of_index(k as nat) == face);
                }
            }
            k += 1;
        }
        let shows = match reg.get_mesh(&value) {
            VoxelMesh::NormalCube(_) => true,
            VoxelMesh::CustomMesh(_) => true,
            VoxelMesh::Null => false,
        };
        proof {
            assert(grid_quads(dims, outer, g, reg, ma, (i + 1) as nat) == before + voxel_quads(dims, outer, g, reg, ma, i as int, 6));
            assert((exists|f: Face| exposed(dims, outer, g, reg, ma, i as int, f)) == any) by {
                if any {
                    let j = choose|j: nat| j < 6 && exposed(dims, outer, g, reg, ma, i as int, #[trigger] face_of_index(j));
                    assert(exposed(dims, outer, g, reg, ma, i as int, face_of_index(j)));
                }
                if exists|f: Face| exposed(dims, outer, g, reg, ma, i as int, f) {
                    let f = choose|f: Face| exposed(dims, outer, g, reg, ma, i as int, f);
                    lemma_from_index_spec(f);
                    assert(face_of_index(face_index(f)) == f);
                }
            }
        }
        let ghost pre_occ = occupancy@;
        occupancy.push(any && shows, 1);
        proof {
            assert(rep(any && shows, 1) =~= seq![any && shows]);
            assert forall|j: int| 0 <= j < i + 1 implies #[trigger] occupancy@[j] == occupied(dims, outer, g, reg, ma, j) by {
                if j < i {
                    assert(occupancy@[j] == pre_occ[j]);
                }
            }
        }
        i += 1;
    }
    let md = MeshMD { vivi, dims, changed_voxels: Vec::new(), occupancy };
    Some((mesh, md))
}

/// Meshing a grid in which no voxel is a normal cube emits no quad, so the mesh that
/// `mesh_grid` returns for it has no vertices and no indices.
pub proof fn lemma_no_solid_no_quads(
    dims: Dimensions,
    outer: Seq<Face>,
    grid: Seq<usize>,
    reg: &VoxelRegistry,
    ma: MeshingAlgorithm,
    n: nat,
)
    requires
        n <= grid.len(),
        forall|i: int| 0 <= i < grid.len() ==> !is_cube(reg, #[trigger] grid[i]),
    ensures
        grid_quads(dims, outer, grid, reg, ma, n).len() == 0,
    decreases n,
{
    if n > 0 {
        lemma_no_solid_no_quads(dims, outer, grid, reg, ma, (n - 1) as nat);
        lemma_no_solid_voxel(dims, outer, grid, reg, ma, n - 1, 6);
    }
}

proof fn lemma_no_solid_voxel(
    dims: Dimensions,
    outer: Seq<Face>,
    grid: Seq<usize>,
    reg: &VoxelRegistry,
    ma: MeshingAlgorithm,
    i: int,
    k: nat,
)
    requires
        !is_cube(reg, grid[i]),
    ensures
        voxel_quads(dims, outer, grid, reg, ma, i, k).len() == 0,
    decreases k,
{
    if k > 0 {
        lemma_no_solid_voxel(dims, outer, grid, reg, ma, i, (k - 1) as nat);
    }
}

} // verus!
