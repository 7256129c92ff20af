use crate::face::{face_index, opposite_face, Face};
use crate::grid::{
    across_chunk_spec, edge_indices_upto, get_neigbhor_across_chunk, is_horizontal,
    iter_faces_of_chunk, on_edge, voxel_count,
};
use crate::mesh::{consistent, covers, Mesh, VoxelRegistry, MAX_VERTICES};
use crate::metadata::{quads, MeshMD};
use crate::update::{apply_log, remove_voxel, update_mesh};
use crate::vivi::has_quad;
use crate::Dimensions;
use vstd::prelude::*;

verus! {

/// Whether the adjacent chunk's voxel across `side` from voxel `v` covers it.
pub open spec fn covered_across(
    reg: &VoxelRegistry,
    dims: Dimensions,
    side: Face,
    adjacent: Seq<usize>,
    v: usize,
) -> bool {
    on_edge(dims, v as int, side) && covers(
        reg,
        adjacent[across_chunk_spec(dims, v as int, side)],
        opposite_face(side),
    )
}

/// Makes the mesh of a chunk fit an adjacent chunk of the same dimensions that lies on its
/// `connection_side`: after the pending changes are applied, each quad on that side of
/// the chunk that the adjacent chunk's voxel covers is culled, as a `CullFaces` change
/// for that voxel and side would cull it.
pub fn introduce_adjacent_chunks(
    reg: &VoxelRegistry,
    main_mesh: &mut Mesh,
    main_md: &mut MeshMD,
    connection_side: Face,
    adjacent_chunk_grid: &[usize],
)
    requires
        reg.wf(),
        old(main_md).wf(),
        consistent(reg, old(main_mesh), &old(main_md).vivi),
        is_horizontal(connection_side),
        adjacent_chunk_grid@.len() == voxel_count(old(main_md).dims),
        forall|k: int|
            0 <= k < old(main_md).changed_voxels@.len() ==> (#[trigger] old(
                main_md,
            ).changed_voxels@[k]).1 < voxel_count(old(main_md).dims),
        old(main_mesh).vertices@.len() + 24 * old(main_md).changed_voxels@.len() <= MAX_VERTICES,
    ensures
        final(main_md).wf(),
        consistent(reg, final(main_mesh), &final(main_md).vivi),
        final(main_md).dims == old(main_md).dims,
        final(main_md).changed_voxels@.len() == 0,
        forall|v: usize, g: Face|
            #[trigger] has_quad(final(main_md).vivi@, v, g) <==> (apply_log(
                old(main_md).dims,
                reg,
                quads(old(main_md).vivi@),
                old(main_md).changed_voxels@,
            ).contains((v, g)) && !(g == connection_side && covered_across(
                reg,
                old(main_md).dims,
                connection_side,
                adjacent_chunk_grid@,
                v,
            ))),
{
    update_mesh(main_mesh, main_md, reg);
    let dims = main_md.dims;
    let ghost mid = main_md.vivi@;
    let edge = iter_faces_of_chunk(dims, connection_side);
    let ghost n = voxel_count(dims);
    proof {
        lemma_edge_indices(dims, connection_side, n as nat);
        let s = edge_indices_upto(dims, connection_side, n as nat);
        assert forall|q: int| 0 <= q < edge@.len() implies on_edge(dims, #[trigger] edge@[q] as int, connection_side) && edge@[q] < n by {
            assert(edge@.map_values(|x: usize| x as int)[q] == s[q]);
        }
        assert forall|v: usize| on_edge(dims, v as int, connection_side) && v < n implies exists|q: int| 0 <= q < edge@.len() && #[trigger] edge@[q] == v by {
            let q = choose|q: int| 0 <= q < s.len() && s[q] == v as int;
            assert(edge@.map_values(|x: usize| x as int)[q] == s[q]);
            assert(edge@[q] == v);
        }
        assert forall|x: u32| #[trigger] mid.contains_key(x) implies mid[x].0 < n by {}
    }
    let flags = side_flags(connection_side);
    let mut k: usize = 0;
    while k < edge.len()
        invariant
            reg.wf(),
            main_md.wf(),
            main_md.dims == dims,
            main_md.changed_voxels@.len() == 0,
            consistent(reg, main_mesh, &main_md.vivi),
            is_horizontal(connection_side),
            adjacent_chunk_grid@.len() == voxel_count(dims),
            forall|q: int| 0 <= q < 6 ==> flags[q] == (q == face_index(connection_side)),
            edge@.map_values(|x: usize| x as int) == edge_indices_upto(dims, connection_side, n as nat),
            n == voxel_count(dims),
            forall|q: int| 0 <= q < edge@.len() ==> on_edge(dims, #[trigger] edge@[q] as int, connection_side) && edge@[q] < n,
            forall|x: u32| #[trigger] mid.contains_key(x) ==> mid[x].0 < n,
            forall|v: usize| on_edge(dims, v as int, connection_side) && v < n ==> exists|q: int| 0 <= q < edge@.len() && #[trigger] edge@[q] == v,
            k <= edge@.len(),
            forall|v: usize, g: Face|
                #[trigger] has_quad(main_md.vivi@, v, g) <==> (has_quad(mid, v, g) && !(g == connection_side
                    && covered_across(reg, dims, connection_side, adjacent_chunk_grid@, v)
                    && listed(edge@, k as int, v))),
        decreases edge@.len() - k,
    {
        let index = edge[k];
        let adj_voxel_index = get_neigbhor_across_chunk(dims, index, connection_side);
        let adj_voxel = adjacent_chunk_grid[adj_voxel_index];
        let ghost pre = main_md.vivi@;
        if reg.is_covering(&adj_voxel, connection_side.opposite()) {
            remove_voxel(main_mesh, &mut main_md.vivi, reg, index, flags);
        }
        proof {
            assert forall|v: usize, g: Face|
                #[trigger] has_quad(main_md.vivi@, v, g) <==> (has_quad(mid, v, g) && !(g == connection_side
                    && covered_across(reg, dims, connection_side, adjacent_chunk_grid@, v)
                    && listed(edge@, k + 1, v))) by {
                assert(on_edge(dims, index as int, connection_side));
                assert(flags[face_index(g) as int] == (g == connection_side));
                if v == index {
                    assert(edge@[k as int] == v);
                    assert(listed(edge@, k + 1, v));
                    assert(covered_across(reg, dims, connection_side, adjacent_chunk_grid@, v) == covers(reg, adj_voxel, opposite_face(connection_side)));
                }
                if listed(edge@, k + 1, v) {
                    let q = choose|q: int| 0 <= q < k + 1 && #[trigger] edge@[q] == v;
                    if q != k {
                        assert(listed(edge@, k as int, v));
                    }
                }
                if listed(edge@, k as int, v) {
                    let q = choose|q: int| 0 <= q < k && #[trigger] edge@[q] == v;
                    assert(listed(edge@, k + 1, v));
                }
            }
        }
        k += 1;
    }
    proof {
        assert forall|v: usize, g: Face|
            #[trigger] has_quad(main_md.vivi@, v, g) <==> (has_quad(mid, v, g) && !(g
                == connection_side && covered_across(
                reg,
                dims,
                connection_side,
                adjacent_chunk_grid@,
                v,
            ))) by {
            if g == connection_side && covered_across(reg, dims, connection_side, adjacent_chunk_grid@, v) && has_quad(mid, v, g) {
                let x = choose|x: u32| #[trigger] mid.contains_key(x) && mid[x] == (v, g);
                assert(v < n);
                assert(listed(edge@, k as int, v));
            }
        }
        assert forall|v: usize, g: Face| has_quad(mid, v, g) == quads(mid).contains((v, g)) by {}
    }
}

/// The indices listed for a side are the voxels below `k` on that side, each once or more.
proof fn lemma_edge_indices(dims: Dimensions, side: Face, k: nat)
    ensures
        forall|q: int|
            0 <= q < edge_indices_upto(dims, side, k).len() ==> 0 <= #[trigger] edge_indices_upto(
                dims,
                side,
                k,
            )[q] < k && on_edge(dims, edge_indices_upto(dims, side, k)[q], side),
        forall|v: int|
            0 <= v < k && on_edge(dims, v, side) ==> exists|q: int|
                0 <= q < edge_indices_upto(dims, side, k).len() && #[trigger] edge_indices_upto(
                    dims,
                    side,
                    k,
                )[q] == v,
    decreases k,
{
    if k > 0 {
        lemma_edge_indices(dims, side, (k - 1) as nat);
        let rest = edge_indices_upto(dims, side, (k - 1) as nat);
        let s = edge_indices_upto(dims, side, k);
        assert forall|v: int| 0 <= v < k && on_edge(dims, v, side) implies exists|q: int|
            0 <= q < s.len() && #[trigger] s[q] == v by {
            if v == k - 1 {
                assert(s[rest.len() as int] == v);
            } else {
                let q = choose|q: int| 0 <= q < rest.len() && #[trigger] rest[q] == v;
                assert(s[q] == v);
            }
        }
    }
}

/// Whether `v` is among the first `k` entries of `edge`.
pub open spec fn listed(edge: Seq<usize>, k: int, v: usize) -> bool {
    exists|q: int| 0 <= q < k && #[trigger] edge[q] == v
}

/// The flags that mark only `side`.
fn side_flags(side: Face) -> (r: [bool; 6])
    ensures
        forall|q: int| 0 <= q < 6 ==> r[q] == (q == face_index(side)),
{
    let i = side.index();
    [i == 0, i == 1, i == 2, i == 3, i == 4, i == 5]
}

} // verus!
