use crate::face::{face_index, face_of_index, lemma_from_index_spec, opposite_face, Face};
use crate::grid::{get_neighbor, lemma_neighbor_in_grid, neighbor_spec, valid_dims, voxel_count};
use crate::mesh::{
    consistent, covers, emit_quad, emit_state, first_vertex, lemma_emit_keeps_records,
    lemma_first_vertex,
    lemma_remove_keeps_records, lemma_removed_has_quad, quad_of, quad_record, remove_quad_at,
    remove_state, Mesh, MeshState, VoxelRegistry, MAX_VERTICES,
};
use crate::edits::lemma_neighbor_not_self;
use crate::metadata::{quads, LoggedChange, MeshMD, VoxelChange};
use crate::vivi::{has_quad, VIVI};
use crate::Dimensions;
use vstd::prelude::*;

verus! {

/// Whether face `g` of voxel `v` faces voxel `i` and is covered by value `value` placed
/// at `i`.
pub open spec fn facing_covered(
    dims: Dimensions,
    reg: &VoxelRegistry,
    i: usize,
    value: usize,
    v: usize,
    g: Face,
) -> bool {
    neighbor_spec(dims, i as int, opposite_face(g)) == Some(v as int) && covers(
        reg,
        value,
        opposite_face(g),
    )
}

/// Whether face `g` of voxel `v` faces voxel `i` from a neighbor that the snapshot `nb`
/// records, and that neighbor's value has a template quad for `g`.
pub open spec fn revealed(
    dims: Dimensions,
    reg: &VoxelRegistry,
    i: usize,
    nb: [Option<usize>; 6],
    v: usize,
    g: Face,
) -> bool {
    let f = opposite_face(g);
    &&& nb[face_index(f) as int] is Some
    &&& neighbor_spec(dims, i as int, f) == Some(v as int)
    &&& quad_of(reg, nb[face_index(f) as int]->0, g) is Some
}

/// The state after removing, face by face in canonical order over the first `k` faces,
/// the quads of voxel `voxel` whose face `flags` marks and that are tracked.
pub open spec fn remove_faces_state(s: MeshState, voxel: usize, flags: Seq<bool>, k: nat) -> MeshState
    decreases k,
{
    if k == 0 {
        s
    } else {
        let prev = remove_faces_state(s, voxel, flags, (k - 1) as nat);
        let f = face_of_index((k - 1) as nat);
        if flags[k - 1] && has_quad(prev.2, voxel, f) {
            remove_state(prev, first_vertex(prev.2, voxel, f))
        } else {
            prev
        }
    }
}

/// The state after appending at the end, face by face in canonical order over the first
/// `k` faces, the quads of value `value` at voxel `voxel` whose face `flags` marks, that
/// the template has and that are not tracked yet.
pub open spec fn add_faces_state(
    s: MeshState,
    reg: &VoxelRegistry,
    voxel: usize,
    value: usize,
    flags: Seq<bool>,
    k: nat,
) -> MeshState
    decreases k,
{
    if k == 0 {
        s
    } else {
        let prev = add_faces_state(s, reg, voxel, value, flags, (k - 1) as nat);
        let f = face_of_index((k - 1) as nat);
        if flags[k - 1] && quad_of(reg, value, f) is Some && !has_quad(prev.2, voxel, f) {
            emit_state(prev, voxel, value, f, quad_of(reg, value, f)->0)
        } else {
            prev
        }
    }
}

/// The state after removing, neighbor by neighbor in canonical face order, the tracked
/// quads facing voxel `i` that value `value` placed there covers.
pub open spec fn remove_facing_state(
    s: MeshState,
    reg: &VoxelRegistry,
    dims: Dimensions,
    i: usize,
    value: usize,
    k: nat,
) -> MeshState
    decreases k,
{
    if k == 0 {
        s
    } else {
        let prev = remove_facing_state(s, reg, dims, i, value, (k - 1) as nat);
        let f = face_of_index((k - 1) as nat);
        let g = opposite_face(f);
        match neighbor_spec(dims, i as int, f) {
            Some(j) => if covers(reg, value, f) && has_quad(prev.2, j as usize, g) {
                remove_state(prev, first_vertex(prev.2, j as usize, g))
            } else {
                prev
            },
            None => prev,
        }
    }
}

/// The state after appending at the end, neighbor by neighbor in canonical face order,
/// the quad facing voxel `i` of each neighbor that the snapshot `nb` records, where its
/// value's template has it and it is not tracked yet.
pub open spec fn add_facing_state(
    s: MeshState,
    reg: &VoxelRegistry,
    dims: Dimensions,
    i: usize,
    nb: [Option<usize>; 6],
    k: nat,
) -> MeshState
    decreases k,
{
    if k == 0 {
        s
    } else {
        let prev = add_facing_state(s, reg, dims, i, nb, (k - 1) as nat);
        let f = face_of_index((k - 1) as nat);
        let g = opposite_face(f);
        match (nb[k - 1], neighbor_spec(dims, i as int, f)) {
            (Some(nv), Some(j)) => if quad_of(reg, nv, g) is Some && !has_quad(prev.2, j as usize, g) {
                emit_state(prev, j as usize, nv, g, quad_of(reg, nv, g)->0)
            } else {
                prev
            },
            _ => prev,
        }
    }
}

/// The old buffers are a prefix of the new ones, and every old entry of the map stays.
pub open spec fn extends(old_s: MeshState, new_s: MeshState) -> bool {
    &&& old_s.0.len() <= new_s.0.len()
    &&& new_s.0.subrange(0, old_s.0.len() as int) == old_s.0
    &&& old_s.1.len() <= new_s.1.len()
    &&& new_s.1.subrange(0, old_s.1.len() as int) == old_s.1
    &&& forall|x: u32| #[trigger] old_s.2.contains_key(x) ==> new_s.2.contains_key(x) && new_s.2[x] == old_s.2[x]
}

/// Removes the quads of voxel `voxel_index` for the faces marked in `neig` that it has.
pub fn remove_voxel(
    mesh: &mut Mesh,
    vivi: &mut VIVI,
    reg: &VoxelRegistry,
    voxel_index: usize,
    neig: [bool; 6],
)
    requires
        reg.wf(),
        consistent(reg, old(mesh), old(vivi)),
        voxel_index < old(vivi).voxels(),
    ensures
        consistent(reg, final(mesh), final(vivi)),
        final(vivi).voxels() == old(vivi).voxels(),
        final(mesh).vertices@.len() <= old(mesh).vertices@.len(),
        forall|v: usize, f: Face|
            has_quad(final(vivi)@, v, f) <==> (has_quad(old(vivi)@, v, f) && !(v == voxel_index
                && neig[face_index(f) as int])),
        (final(mesh).vertices@, final(mesh).indices@, final(vivi)@) == remove_faces_state(
            (old(mesh).vertices@, old(mesh).indices@, old(vivi)@),
            voxel_index,
            neig@,
            6,
        ),
        forall|v: usize, f: Face|
            #[trigger] has_quad(final(vivi)@, v, f) ==> quad_record(
                (final(mesh).vertices@, final(mesh).indices@, final(vivi)@),
                v,
                f,
            ) == quad_record((old(mesh).vertices@, old(mesh).indices@, old(vivi)@), v, f),
{
    let ghost s0: MeshState = (mesh.vertices@, mesh.indices@, vivi@);
    let mut i: usize = 0;
    while i < 6
        invariant
            reg.wf(),
            consistent(reg, mesh, vivi),
            voxel_index < vivi.voxels(),
            vivi.voxels() == old(vivi).voxels(),
            mesh.vertices@.len() <= old(mesh).vertices@.len(),
            i <= 6,
            forall|v: usize, f: Face|
                has_quad(vivi@, v, f) <==> (has_quad(old(vivi)@, v, f) && !(v == voxel_index
                    && neig[face_index(f) as int] && face_index(f) < i)),
            s0 == (old(mesh).vertices@, old(mesh).indices@, old(vivi)@),
            (mesh.vertices@, mesh.indices@, vivi@) == remove_faces_state(s0, voxel_index, neig@, i as nat),
            forall|v: usize, f: Face|
                #[trigger] has_quad(vivi@, v, f) ==> quad_record((mesh.vertices@, mesh.indices@, vivi@), v, f)
                    == quad_record(s0, v, f),
        decreases 6 - i,
    {
        let face = Face::from_index(i);
        if neig[i] {
            match vivi.get_quad_index(face, voxel_index) {
                Some(x) => {
                    let ghost pre = *vivi;
                    let ghost ps: MeshState = (mesh.vertices@, mesh.indices@, vivi@);
                    let ghost n = mesh.vertices@.len() as int;
                    proof {
                        lemma_first_vertex(&pre, x);
                    }
                    remove_quad_at(mesh, vivi, reg, x);
                    proof {
                        assert forall|v: usize, f: Face| #[trigger] has_quad(vivi@, v, f) implies quad_record(
                            (mesh.vertices@, mesh.indices@, vivi@), v, f) == quad_record(s0, v, f) by {
                            lemma_removed_has_quad(&pre, n, x, v, f);
                            lemma_remove_keeps_records(reg, &pre, ps, x, v, f);
                        }
                        assert forall|v: usize, f: Face|
                            has_quad(vivi@, v, f) <==> (has_quad(old(vivi)@, v, f) && !(v
                                == voxel_index && neig[face_index(f) as int] && face_index(f) < i
                                + 1)) by {
                            lemma_removed_has_quad(&pre, n, x, v, f);
                        }
                    }
                },
                None => {},
            }
        }
        proof {
            assert(face == face_of_index(i as nat));
        }
        i += 1;
    }
}

/// Emits at the end of the mesh the quads of voxel value `value` at voxel `voxel_index`
/// for the faces marked in `neig` that its template has and that are not there yet.
pub fn add_voxel_after_gen(
    neig: [bool; 6],
    mesh: &mut Mesh,
    vivi: &mut VIVI,
    reg: &VoxelRegistry,
    voxel_index: usize,
    value: usize,
)
    requires
        reg.wf(),
        consistent(reg, old(mesh), old(vivi)),
        voxel_index < old(vivi).voxels(),
        old(mesh).vertices@.len() + 24 <= MAX_VERTICES,
    ensures
        consistent(reg, final(mesh), final(vivi)),
        final(vivi).voxels() == old(vivi).voxels(),
        final(mesh).vertices@.len() <= old(mesh).vertices@.len() + 24,
        forall|v: usize, f: Face|
            has_quad(final(vivi)@, v, f) <==> (has_quad(old(vivi)@, v, f) || (v == voxel_index
                && neig[face_index(f) as int] && quad_of(reg, value, f) is Some)),
        (final(mesh).vertices@, final(mesh).indices@, final(vivi)@) == add_faces_state(
            (old(mesh).vertices@, old(mesh).indices@, old(vivi)@),
            reg,
            voxel_index,
            value,
            neig@,
            6,
        ),
        extends(
            (old(mesh).vertices@, old(mesh).indices@, old(vivi)@),
            (final(mesh).vertices@, final(mesh).indices@, final(vivi)@),
        ),
        forall|v: usize, f: Face|
            #[trigger] has_quad(old(vivi)@, v, f) ==> quad_record(
                (final(mesh).vertices@, final(mesh).indices@, final(vivi)@),
                v,
                f,
            ) == quad_record((old(mesh).vertices@, old(mesh).indices@, old(vivi)@), v, f),
{
    let ghost s0: MeshState = (mesh.vertices@, mesh.indices@, vivi@);
    proof {
        assert(s0.0.subrange(0, s0.0.len() as int) =~= s0.0);
        assert(s0.1.subrange(0, s0.1.len() as int) =~= s0.1);
    }
    let mut i: usize = 0;
    while i < 6
        invariant
            reg.wf(),
            consistent(reg, mesh, vivi),
            voxel_index < vivi.voxels(),
            vivi.voxels() == old(vivi).voxels(),
            i <= 6,
            mesh.vertices@.len() <= old(mesh).vertices@.len() + 4 * i,
            old(mesh).vertices@.len() + 24 <= MAX_VERTICES,
            forall|v: usize, f: Face|
                has_quad(vivi@, v, f) <==> (has_quad(old(vivi)@, v, f) || (v == voxel_index
                    && neig[face_index(f) as int] && quad_of(reg, value, f) is Some
                    && face_index(f) < i)),
            s0 == (old(mesh).vertices@, old(mesh).indices@, old(vivi)@),
            (mesh.vertices@, mesh.indices@, vivi@) == add_faces_state(s0, reg, voxel_index, value, neig@, i as nat),
            extends(s0, (mesh.vertices@, mesh.indices@, vivi@)),
            forall|v: usize, f: Face|
                #[trigger] has_quad(s0.2, v, f) ==> quad_record((mesh.vertices@, mesh.indices@, vivi@), v, f)
                    == quad_record(s0, v, f),
        decreases 6 - i,
    {
        let face = Face::from_index(i);
        if neig[i] {
            match reg.quad(value, face) {
                Some(t) => {
                    if vivi.get_quad_index(face, voxel_index).is_none() {
                        let ghost pre = vivi@;
                        let ghost ps: MeshState = (mesh.vertices@, mesh.indices@, vivi@);
                        let ghost n = mesh.vertices@.len();
                        emit_quad(mesh, vivi, reg, voxel_index, value, face, t);
                        proof {
                            assert forall|y: u32| #[trigger] ps.2.contains_key(y) implies y + 4 <= ps.0.len() by {}
                            assert forall|v: usize, f: Face| #[trigger] has_quad(s0.2, v, f) implies quad_record(
                                (mesh.vertices@, mesh.indices@, vivi@), v, f) == quad_record(s0, v, f) by {
                                let z = choose|z: u32| #[trigger] s0.2.contains_key(z) && s0.2[z] == (v, f);
                                assert(ps.2.contains_key(z));
                                lemma_emit_keeps_records(vivi, ps, voxel_index, value, face, t, v, f);
                            }
                            assert(mesh.vertices@.subrange(0, s0.0.len() as int) =~= s0.0);
                            assert(mesh.indices@.subrange(0, s0.1.len() as int) =~= s0.1);
                            assert(ps.0.subrange(0, s0.0.len() as int) == s0.0);
                            assert(ps.1.subrange(0, s0.1.len() as int) == s0.1);
                            assert forall|v: usize, f: Face|
                                has_quad(vivi@, v, f) <==> (has_quad(old(vivi)@, v, f) || (v
                                    == voxel_index && neig[face_index(f) as int] && quad_of(
                                    reg,
                                    value,
                                    f,
                                ) is Some && face_index(f) < i + 1)) by {
                                if v == voxel_index && f == face {
                                    assert(vivi@.contains_key(n as u32));
                                } else if has_quad(vivi@, v, f) {
                                    let y = choose|y: u32| #[trigger]
                                        vivi@.contains_key(y) && vivi@[y] == (v, f);
                                    assert(pre.contains_key(y) && pre[y] == (v, f));
                                } else if has_quad(pre, v, f) {
                                    let y = choose|y: u32| #[trigger]
                                        pre.contains_key(y) && pre[y] == (v, f);
                                    assert(vivi@.contains_key(y) && vivi@[y] == (v, f));
                                }
                            }
                        }
                    }
                },
                None => {},
            }
        }
        i += 1;
    }
}

/// Removes the quads of the neighbors of voxel `voxel_index` that face it and that
/// voxel value `value`, placed there, covers.
pub fn remove_quads_facing(
    mesh: &mut Mesh,
    vivi: &mut VIVI,
    reg: &VoxelRegistry,
    voxel_index: usize,
    value: usize,
    dims: Dimensions,
)
    requires
        reg.wf(),
        consistent(reg, old(mesh), old(vivi)),
        valid_dims(dims),
        old(vivi).voxels() == voxel_count(dims),
        voxel_index < voxel_count(dims),
    ensures
        consistent(reg, final(mesh), final(vivi)),
        final(vivi).voxels() == old(vivi).voxels(),
        final(mesh).vertices@.len() <= old(mesh).vertices@.len(),
        forall|v: usize, g: Face|
            has_quad(final(vivi)@, v, g) <==> (has_quad(old(vivi)@, v, g) && !facing_covered(
                dims,
                reg,
                voxel_index,
                value,
                v,
                g,
            )),
        (final(mesh).vertices@, final(mesh).indices@, final(vivi)@) == remove_facing_state(
            (old(mesh).vertices@, old(mesh).indices@, old(vivi)@),
            reg,
            dims,
            voxel_index,
            value,
            6,
        ),
        forall|v: usize, g: Face|
            #[trigger] has_quad(final(vivi)@, v, g) ==> quad_record(
                (final(mesh).vertices@, final(mesh).indices@, final(vivi)@),
                v,
                g,
            ) == quad_record((old(mesh).vertices@, old(mesh).indices@, old(vivi)@), v, g),
{
    let ghost s0: MeshState = (mesh.vertices@, mesh.indices@, vivi@);
    let mut i: usize = 0;
    while i < 6
        invariant
            reg.wf(),
            consistent(reg, mesh, vivi),
            valid_dims(dims),
            vivi.voxels() == voxel_count(dims),
            voxel_index < voxel_count(dims),
            vivi.voxels() == old(vivi).voxels(),
            mesh.vertices@.len() <= old(mesh).vertices@.len(),
            i <= 6,
            forall|v: usize, g: Face|
                has_quad(vivi@, v, g) <==> (has_quad(old(vivi)@, v, g) && !(facing_covered(
                    dims,
                    reg,
                    voxel_index,
                    value,
                    v,
                    g,
                ) && face_index(opposite_face(g)) < i)),
            s0 == (old(mesh).vertices@, old(mesh).indices@, old(vivi)@),
            (mesh.vertices@, mesh.indices@, vivi@) == remove_facing_state(s0, reg, dims, voxel_index, value, i as nat),
            forall|v: usize, g: Face|
                #[trigger] has_quad(vivi@, v, g) ==> quad_record((mesh.vertices@, mesh.indices@, vivi@), v, g)
                    == quad_record(s0, v, g),
        decreases 6 - i,
    {
        let face = Face::from_index(i);
        let back = face.opposite();
        proof {
            lemma_neighbor_in_grid(dims, voxel_index as int, face);
        }
        match get_neighbor(voxel_index, face, dims) {
            Some(j) => {
                if reg.is_covering(&value, face) {
                    match vivi.get_quad_index(back, j) {
                        Some(x) => {
                            let ghost pre = *vivi;
                            let ghost ps: MeshState = (mesh.vertices@, mesh.indices@, vivi@);
                            let ghost n = mesh.vertices@.len() as int;
                            proof {
                                lemma_first_vertex(&pre, x);
                            }
                            remove_quad_at(mesh, vivi, reg, x);
                            proof {
                                assert forall|v: usize, g: Face| #[trigger] has_quad(vivi@, v, g) implies quad_record(
                                    (mesh.vertices@, mesh.indices@, vivi@), v, g) == quad_record(s0, v, g) by {
                                    lemma_removed_has_quad(&pre, n, x, v, g);
                                    lemma_remove_keeps_records(reg, &pre, ps, x, v, g);
                                }
                                assert forall|v: usize, g: Face|
                                    has_quad(vivi@, v, g) <==> (has_quad(old(vivi)@, v, g) && !(
                                    facing_covered(dims, reg, voxel_index, value, v, g)
                                        && face_index(opposite_face(g)) < i + 1)) by {
                                    lemma_removed_has_quad(&pre, n, x, v, g);
                                }
                            }
                        },
                        None => {},
                    }
                }
            },
            None => {},
        }
        i += 1;
    }
}

/// Emits, for each face of voxel `voxel_index` whose neighbor the snapshot `nb` records,
/// that neighbor's quad facing the voxel.
pub fn add_quads_facing(
    mesh: &mut Mesh,
    vivi: &mut VIVI,
    reg: &VoxelRegistry,
    voxel_index: usize,
    nb: [Option<usize>; 6],
    dims: Dimensions,
)
    requires
        reg.wf(),
        consistent(reg, old(mesh), old(vivi)),
        valid_dims(dims),
        old(vivi).voxels() == voxel_count(dims),
        voxel_index < voxel_count(dims),
        old(mesh).vertices@.len() + 24 <= MAX_VERTICES,
    ensures
        consistent(reg, final(mesh), final(vivi)),
        final(vivi).voxels() == old(vivi).voxels(),
        final(mesh).vertices@.len() <= old(mesh).vertices@.len() + 24,
        forall|v: usize, g: Face|
            has_quad(final(vivi)@, v, g) <==> (has_quad(old(vivi)@, v, g) || revealed(
                dims,
                reg,
                voxel_index,
                nb,
                v,
                g,
            )),
        (final(mesh).vertices@, final(mesh).indices@, final(vivi)@) == add_facing_state(
            (old(mesh).vertices@, old(mesh).indices@, old(vivi)@),
            reg,
            dims,
            voxel_index,
            nb,
            6,
        ),
        extends(
            (old(mesh).vertices@, old(mesh).indices@, old(vivi)@),
            (final(mesh).vertices@, final(mesh).indices@, final(vivi)@),
        ),
        forall|v: usize, g: Face|
            #[trigger] has_quad(old(vivi)@, v, g) ==> quad_record(
                (final(mesh).vertices@, final(mesh).indices@, final(vivi)@),
                v,
                g,
            ) == quad_record((old(mesh).vertices@, old(mesh).indices@, old(vivi)@), v, g),
{
    let ghost s0: MeshState = (mesh.vertices@, mesh.indices@, vivi@);
    proof {
        assert(s0.0.subrange(0, s0.0.len() as int) =~= s0.0);
        assert(s0.1.subrange(0, s0.1.len() as int) =~= s0.1);
    }
    let mut i: usize = 0;
    while i < 6
        invariant
            reg.wf(),
            consistent(reg, mesh, vivi),
            valid_dims(dims),
            vivi.voxels() == voxel_count(dims),
            voxel_index < voxel_count(dims),
            vivi.voxels() == old(vivi).voxels(),
            i <= 6,
            mesh.vertices@.len() <= old(mesh).vertices@.len() + 4 * i,
            old(mesh).vertices@.len() + 24 <= MAX_VERTICES,
            forall|v: usize, g: Face|
                has_quad(vivi@, v, g) <==> (has_quad(old(vivi)@, v, g) || (revealed(
                    dims,
                    reg,
                    voxel_index,
                    nb,
                    v,
                    g,
                ) && face_index(opposite_face(g)) < i)),
            s0 == (old(mesh).vertices@, old(mesh).indices@, old(vivi)@),
            (mesh.vertices@, mesh.indices@, vivi@) == add_facing_state(s0, reg, dims, voxel_index, nb, i as nat),
            extends(s0, (mesh.vertices@, mesh.indices@, vivi@)),
            forall|v: usize, g: Face|
                #[trigger] has_quad(s0.2, v, g) ==> quad_record((mesh.vertices@, mesh.indices@, vivi@), v, g)
                    == quad_record(s0, v, g),
        decreases 6 - i,
    {
        let face = Face::from_index(i);
        let back = face.opposite();
        proof {
            lemma_neighbor_in_grid(dims, voxel_index as int, face);
        }
        match (nb[i], get_neighbor(voxel_index, face, dims)) {
            (Some(nv), Some(j)) => {
                match reg.quad(nv, back) {
                    Some(t) => {
                        if vivi.get_quad_index(back, j).is_none() {
                            let ghost pre = vivi@;
                            let ghost ps: MeshState = (mesh.vertices@, mesh.indices@, vivi@);
                            let ghost n = mesh.vertices@.len();
                            emit_quad(mesh, vivi, reg, j, nv, back, t);
                            proof {
                                assert forall|y: u32| #[trigger] ps.2.contains_key(y) implies y + 4 <= ps.0.len() by {}
                                assert forall|v: usize, g: Face| #[trigger] has_quad(s0.2, v, g) implies quad_record(
                                    (mesh.vertices@, mesh.indices@, vivi@), v, g) == quad_record(s0, v, g) by {
                                    let z = choose|z: u32| #[trigger] s0.2.contains_key(z) && s0.2[z] == (v, g);
                                    assert(ps.2.contains_key(z));
                                    lemma_emit_keeps_records(vivi, ps, j, nv, back, t, v, g);
                                }
                                assert(mesh.vertices@.subrange(0, s0.0.len() as int) =~= s0.0);
                                assert(mesh.indices@.subrange(0, s0.1.len() as int) =~= s0.1);
                                assert forall|v: usize, g: Face|
                                    has_quad(vivi@, v, g) <==> (has_quad(old(vivi)@, v, g) || (
                                    revealed(dims, reg, voxel_index, nb, v, g) && face_index(
                                        opposite_face(g),
                                    ) < i + 1)) by {
                                    if v == j && g == back {
                                        assert(vivi@.contains_key(n as u32));
                                    } else if has_quad(vivi@, v, g) {
                                        let y = choose|y: u32| #[trigger]
                                            vivi@.contains_key(y) && vivi@[y] == (v, g);
                                        assert(pre.contains_key(y) && pre[y] == (v, g));
                                    } else if has_quad(pre, v, g) {
                                        let y = choose|y: u32| #[trigger]
                                            pre.contains_key(y) && pre[y] == (v, g);
                                        assert(vivi@.contains_key(y) && vivi@[y] == (v, g));
                                    }
                                }
                            }
                        }
                    },
                    None => {},
                }
            },
            _ => {},
        }
        i += 1;
    }
}

/// Whether the snapshot `nb` leaves face `g` of a newly placed voxel exposed: the
/// neighbor there is absent or does not cover it.
pub open spec fn snapshot_exposes(reg: &VoxelRegistry, nb: [Option<usize>; 6], g: Face) -> bool {
    match nb[face_index(g) as int] {
        None => true,
        Some(n) => !covers(reg, n, opposite_face(g)),
    }
}

/// Whether face `g` of voxel `v` has a quad after change `e`, given whether it had one.
pub open spec fn step_has(
    dims: Dimensions,
    reg: &VoxelRegistry,
    e: LoggedChange,
    had: bool,
    v: usize,
    g: Face,
) -> bool {
    let value = e.0;
    let i = e.1;
    let nb = e.3;
    match e.2 {
        VoxelChange::Added => (had || (v == i && snapshot_exposes(reg, nb, g) && quad_of(
            reg,
            value,
            g,
        ) is Some)) && !facing_covered(dims, reg, i, value, v, g),
        VoxelChange::Broken => (had && v != i) || revealed(dims, reg, i, nb, v, g),
        VoxelChange::CullFaces => had && !(v == i && nb[face_index(g) as int] is Some),
        VoxelChange::AddFaces => had || (v == i && nb[face_index(g) as int] is Some && quad_of(
            reg,
            value,
            g,
        ) is Some),
    }
}

/// The tracked quads after change `e`.
pub open spec fn apply_change(
    dims: Dimensions,
    reg: &VoxelRegistry,
    s: Set<(usize, Face)>,
    e: LoggedChange,
) -> Set<(usize, Face)> {
    Set::new(|p: (usize, Face)| step_has(dims, reg, e, s.contains(p), p.0, p.1))
}

/// The tracked quads after the changes of `log`, in order.
pub open spec fn apply_log(
    dims: Dimensions,
    reg: &VoxelRegistry,
    s: Set<(usize, Face)>,
    log: Seq<LoggedChange>,
) -> Set<(usize, Face)>
    decreases log.len(),
{
    if log.len() == 0 {
        s
    } else {
        apply_change(dims, reg, apply_log(dims, reg, s, log.drop_last()), log.last())
    }
}

/// The faces that a newly placed voxel exposes by its snapshot, by face index.
pub open spec fn exposed_flags(reg: &VoxelRegistry, nb: [Option<usize>; 6]) -> Seq<bool> {
    Seq::new(6, |k: int| snapshot_exposes(reg, nb, face_of_index(k as nat)))
}

/// The faces that a snapshot marks, by face index.
pub open spec fn present_flags(nb: [Option<usize>; 6]) -> Seq<bool> {
    Seq::new(6, |k: int| nb[k] is Some)
}

/// The state after applying change `e`.
pub open spec fn entry_state(s: MeshState, reg: &VoxelRegistry, dims: Dimensions, e: LoggedChange) -> MeshState {
    let value = e.0;
    let i = e.1;
    let nb = e.3;
    match e.2 {
        VoxelChange::Added => remove_facing_state(
            add_faces_state(s, reg, i, value, exposed_flags(reg, nb), 6),
            reg,
            dims,
            i,
            value,
            6,
        ),
        VoxelChange::Broken => add_facing_state(
            remove_faces_state(s, i, Seq::new(6, |k: int| true), 6),
            reg,
            dims,
            i,
            nb,
            6,
        ),
        VoxelChange::CullFaces => remove_faces_state(s, i, present_flags(nb), 6),
        VoxelChange::AddFaces => add_faces_state(s, reg, i, value, present_flags(nb), 6),
    }
}

/// The state after applying the changes of `log` in order.
pub open spec fn log_state(s: MeshState, reg: &VoxelRegistry, dims: Dimensions, log: Seq<LoggedChange>) -> MeshState
    decreases log.len(),
{
    if log.len() == 0 {
        s
    } else {
        entry_state(log_state(s, reg, dims, log.drop_last()), reg, dims, log.last())
    }
}

/// Flushing a log in two parts, one after the other, gives the same vertices, indices and
/// reverse map as flushing it at once.
pub proof fn lemma_log_state_concat(
    s: MeshState,
    reg: &VoxelRegistry,
    dims: Dimensions,
    a: Seq<LoggedChange>,
    b: Seq<LoggedChange>,
)
    ensures
        log_state(s, reg, dims, a + b) == log_state(log_state(s, reg, dims, a), reg, dims, b),
    decreases b.len(),
{
    if b.len() == 0 {
        assert(a + b =~= a);
    } else {
        assert((a + b).drop_last() =~= a + b.drop_last());
        assert((a + b).last() == b.last());
        lemma_log_state_concat(s, reg, dims, a, b.drop_last());
    }
}

fn exposed_flag(reg: &VoxelRegistry, nb: [Option<usize>; 6], i: usize) -> (r: bool)
    requires
        i < 6,
    ensures
        r == snapshot_exposes(reg, nb, Face::from_index_spec(i)),
{
    match nb[i] {
        None => true,
        Some(n) => !reg.is_covering(&n, Face::from_index(i).opposite()),
    }
}

fn present_flag(nb: [Option<usize>; 6], i: usize) -> (r: bool)
    requires
        i < 6,
    ensures
        r == nb[i as int] is Some,
{
    nb[i].is_some()
}

/// Applies one logged change to the mesh and its reverse index.
pub fn apply_entry(
    mesh: &mut Mesh,
    vivi: &mut VIVI,
    reg: &VoxelRegistry,
    dims: Dimensions,
    e: LoggedChange,
)
    requires
        reg.wf(),
        consistent(reg, old(mesh), old(vivi)),
        valid_dims(dims),
        old(vivi).voxels() == voxel_count(dims),
        e.1 < voxel_count(dims),
        old(mesh).vertices@.len() + 24 <= MAX_VERTICES,
    ensures
        consistent(reg, final(mesh), final(vivi)),
        final(vivi).voxels() == old(vivi).voxels(),
        final(mesh).vertices@.len() <= old(mesh).vertices@.len() + 24,
        quads(final(vivi)@) == apply_change(dims, reg, quads(old(vivi)@), e),
        (final(mesh).vertices@, final(mesh).indices@, final(vivi)@) == entry_state(
            (old(mesh).vertices@, old(mesh).indices@, old(vivi)@),
            reg,
            dims,
            e,
        ),
        forall|v: usize, f: Face|
            has_quad(old(vivi)@, v, f) && #[trigger] has_quad(final(vivi)@, v, f) ==> quad_record(
                (final(mesh).vertices@, final(mesh).indices@, final(vivi)@),
                v,
                f,
            ) == quad_record((old(mesh).vertices@, old(mesh).indices@, old(vivi)@), v, f),
{
    let (value, index, change, nb) = e;
    let ghost s0: MeshState = (mesh.vertices@, mesh.indices@, vivi@);
    let ghost v0 = vivi@;
    match change {
        VoxelChange::Added => {
            let neig = [
                exposed_flag(reg, nb, 0),
                exposed_flag(reg, nb, 1),
                exposed_flag(reg, nb, 2),
                exposed_flag(reg, nb, 3),
                exposed_flag(reg, nb, 4),
                exposed_flag(reg, nb, 5),
            ];
            proof {
                assert forall|g: Face| neig[face_index(g) as int] == snapshot_exposes(reg, nb, g) by {
                    lemma_from_index_spec(g);
                }
                assert(neig@ =~= exposed_flags(reg, nb));
            }
            add_voxel_after_gen(neig, mesh, vivi, reg, index, value);
            let ghost s1: MeshState = (mesh.vertices@, mesh.indices@, vivi@);
            let ghost v1 = vivi@;
            remove_quads_facing(mesh, vivi, reg, index, value, dims);
            proof {
                assert forall|v: usize, f: Face|
                    has_quad(v0, v, f) && #[trigger] has_quad(vivi@, v, f) implies quad_record(
                    (mesh.vertices@, mesh.indices@, vivi@), v, f) == quad_record(s0, v, f) by {
                    assert(has_quad(v1, v, f));
                }
            }
        },
        VoxelChange::Broken => {
            let all = [true; 6];
            proof {
                assert(all@ =~= Seq::new(6, |k: int| true));
            }
            remove_voxel(mesh, vivi, reg, index, all);
            let ghost v1 = vivi@;
            add_quads_facing(mesh, vivi, reg, index, nb, dims);
            proof {
                assert forall|v: usize, f: Face|
                    has_quad(v0, v, f) && #[trigger] has_quad(vivi@, v, f) implies quad_record(
                    (mesh.vertices@, mesh.indices@, vivi@), v, f) == quad_record(s0, v, f) by {
                    lemma_neighbor_not_self(dims, index as int, opposite_face(f));
                    assert(all[face_index(f) as int]);
                    if v != index {
                        assert(has_quad(v1, v, f));
                    }
                }
            }
        },
        VoxelChange::CullFaces => {
            let neig = [
                present_flag(nb, 0),
                present_flag(nb, 1),
                present_flag(nb, 2),
                present_flag(nb, 3),
                present_flag(nb, 4),
                present_flag(nb, 5),
            ];
            proof {
                assert(neig@ =~= present_flags(nb));
            }
            remove_voxel(mesh, vivi, reg, index, neig);
        },
        VoxelChange::AddFaces => {
            let neig = [
                present_flag(nb, 0),
                present_flag(nb, 1),
                present_flag(nb, 2),
                present_flag(nb, 3),
                present_flag(nb, 4),
                present_flag(nb, 5),
            ];
            proof {
                assert(neig@ =~= present_flags(nb));
            }
            add_voxel_after_gen(neig, mesh, vivi, reg, index, value);
        },
    }
    proof {
        assert(quads(vivi@) =~= apply_change(dims, reg, quads(old(vivi)@), e));
    }
}

/// Applies the logged changes to the mesh in the order in which they were logged, and
/// clears the log.
pub fn update_mesh(mesh: &mut Mesh, metadata: &mut MeshMD, reg: &VoxelRegistry)
    requires
        reg.wf(),
        old(metadata).wf(),
        consistent(reg, old(mesh), &old(metadata).vivi),
        forall|k: int|
            0 <= k < old(metadata).changed_voxels@.len() ==> (#[trigger] old(
                metadata,
            ).changed_voxels@[k]).1 < voxel_count(old(metadata).dims),
        old(mesh).vertices@.len() + 24 * old(metadata).changed_voxels@.len() <= MAX_VERTICES,
    ensures
        final(metadata).wf(),
        consistent(reg, final(mesh), &final(metadata).vivi),
        final(metadata).dims == old(metadata).dims,
        final(metadata).changed_voxels@.len() == 0,
        quads(final(metadata).vivi@) == apply_log(
            old(metadata).dims,
            reg,
            quads(old(metadata).vivi@),
            old(metadata).changed_voxels@,
        ),
        (final(mesh).vertices@, final(mesh).indices@, final(metadata).vivi@) == log_state(
            (old(mesh).vertices@, old(mesh).indices@, old(metadata).vivi@),
            reg,
            old(metadata).dims,
            old(metadata).changed_voxels@,
        ),
        final(metadata).occupancy == old(metadata).occupancy,
{
    let mut log: Vec<LoggedChange> = Vec::new();
    std::mem::swap(&mut log, &mut metadata.changed_voxels);
    let dims = metadata.dims;
    let ghost start = quads(metadata.vivi@);
    let ghost start_state: MeshState = (mesh.vertices@, mesh.indices@, metadata.vivi@);
    let mut k: usize = 0;
    while k < log.len()
        invariant
            reg.wf(),
            valid_dims(dims),
            dims == old(metadata).dims,
            metadata.dims == dims,
            log@ == old(metadata).changed_voxels@,
            metadata.changed_voxels@.len() == 0,
            metadata.vivi.voxels() == voxel_count(dims),
            consistent(reg, mesh, &metadata.vivi),
            start == quads(old(metadata).vivi@),
            k <= log@.len(),
            forall|j: int| 0 <= j < log@.len() ==> (#[trigger] log@[j]).1 < voxel_count(dims),
            mesh.vertices@.len() + 24 * (log@.len() - k) <= MAX_VERTICES,
            quads(metadata.vivi@) == apply_log(dims, reg, start, log@.take(k as int)),
            start_state == (old(mesh).vertices@, old(mesh).indices@, old(metadata).vivi@),
            (mesh.vertices@, mesh.indices@, metadata.vivi@) == log_state(start_state, reg, dims, log@.take(k as int)),
            metadata.occupancy == old(metadata).occupancy,
        decreases log@.len() - k,
    {
        let e = log[k];
        apply_entry(mesh, &mut metadata.vivi, reg, dims, e);
        proof {
            assert(log@.take(k + 1).drop_last() =~= log@.take(k as int));
        }
        k += 1;
    }
    proof {
        assert(log@.take(k as int) =~= log@);
    }
}

} // verus!
