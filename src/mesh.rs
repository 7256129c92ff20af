use crate::face::{face_index, Face};
use crate::vivi::{has_quad, VIVI};
use vstd::prelude::*;

verus! {

/// The largest number of vertices a mesh may hold, so that a vertex index always leaves
/// the three high bits of a 32-bit value free for a face tag.
pub const MAX_VERTICES: usize = 0x1fff_fff0;

/// The geometry of one face of a voxel template: its 4 template vertices in canonical
/// order, and its two triangles as 6 positions among those 4.
#[derive(Clone, Copy, Debug)]
pub struct QuadTemplate {
    pub vertices: [u32; 4],
    pub triangles: [u32; 6],
}

/// The template geometry of a cubic voxel, one optional quad per face in canonical face
/// order (Top, Bottom, Right, Left, Back, Forward).
#[derive(Clone, Copy, Debug)]
pub struct CubeTemplate {
    pub faces: [Option<QuadTemplate>; 6],
}

/// How a voxel value is meshed.
#[derive(Clone, Copy, Debug)]
pub enum VoxelMesh<T> {
    NormalCube(T),
    CustomMesh(T),
    Null,
}

impl<T> VoxelMesh<T> {
    /// The template of a cube or custom mesh; the mesh must not be `Null`.
    pub fn unwrap(self) -> (r: T)
        requires
            !(self is Null),
        ensures
            self matches VoxelMesh::NormalCube(t) ==> r == t,
            self matches VoxelMesh::CustomMesh(t) ==> r == t,
    {
        match self {
            VoxelMesh::NormalCube(t) => t,
            VoxelMesh::CustomMesh(t) => t,
            VoxelMesh::Null => vstd::pervasive::unreached(),
        }
    }

    /// The template of a cube or custom mesh, as `unwrap`; the mesh must not be `Null`,
    /// and `_msg` names what was expected for the caller's own reports.
    pub fn expect(self, _msg: &str) -> (r: T)
        requires
            !(self is Null),
        ensures
            self matches VoxelMesh::NormalCube(t) ==> r == t,
            self matches VoxelMesh::CustomMesh(t) ==> r == t,
    {
        self.unwrap()
    }
}

/// What the registry knows of one voxel value: how it is meshed, and which of its sides
/// cover the voxel next to them (by face index).
#[derive(Clone, Copy, Debug)]
pub struct VoxelDef {
    pub mesh: VoxelMesh<CubeTemplate>,
    pub covering: [bool; 6],
}

/// The voxel registry: voxel value `v` is described by `voxels[v]`. A value with no
/// entry is empty: it has no mesh and covers nothing.
pub struct VoxelRegistry {
    pub voxels: Vec<VoxelDef>,
}

/// Whether voxel value `v` covers the voxel next to its `side`.
pub open spec fn covers(reg: &VoxelRegistry, v: usize, side: Face) -> bool {
    v < reg.voxels@.len() && reg.voxels@[v as int].covering[face_index(side) as int]
}

/// Whether voxel value `v` is meshed as a normal cube.
pub open spec fn is_cube(reg: &VoxelRegistry, v: usize) -> bool {
    v < reg.voxels@.len() && reg.voxels@[v as int].mesh is NormalCube
}

/// Whether voxel value `v` is meshed as a custom mesh.
pub open spec fn is_custom(reg: &VoxelRegistry, v: usize) -> bool {
    v < reg.voxels@.len() && reg.voxels@[v as int].mesh is CustomMesh
}

/// The template quad of face `f` of voxel value `v`, for a normal cube that has one.
pub open spec fn quad_of(reg: &VoxelRegistry, v: usize, f: Face) -> Option<QuadTemplate> {
    if is_cube(reg, v) {
        match reg.voxels@[v as int].mesh {
            VoxelMesh::NormalCube(t) => t.faces[face_index(f) as int],
            _ => None,
        }
    } else {
        None
    }
}

/// A template quad's triangles only name its own 4 vertices.
pub open spec fn quad_wf(t: QuadTemplate) -> bool {
    forall|k: int| 0 <= k < 6 ==> #[trigger] t.triangles[k] < 4
}

impl VoxelRegistry {
    /// Every template quad is well formed.
    pub open spec fn wf(&self) -> bool {
        forall|v: usize, f: Face| #[trigger] quad_of(self, v, f) matches Some(t) ==> quad_wf(t)
    }

    /// Whether voxel value `voxel` covers the voxel next to its `side`.
    pub fn is_covering(&self, voxel: &usize, side: Face) -> (r: bool)
        ensures
            r == covers(self, *voxel, side),
    {
        if *voxel < self.voxels.len() {
            self.voxels[*voxel].covering[side.index()]
        } else {
            false
        }
    }

    /// How voxel value `voxel` is meshed; `Null` for a value with no entry.
    pub fn get_mesh(&self, voxel: &usize) -> (r: VoxelMesh<CubeTemplate>)
        ensures
            *voxel < self.voxels@.len() ==> r == self.voxels@[*voxel as int].mesh,
            *voxel >= self.voxels@.len() ==> r is Null,
    {
        if *voxel < self.voxels.len() {
            self.voxels[*voxel].mesh
        } else {
            VoxelMesh::Null
        }
    }

    /// The template quad of face `f` of voxel value `voxel`, where it is a normal cube
    /// with such a face.
    pub fn quad(&self, voxel: usize, f: Face) -> (r: Option<QuadTemplate>)
        ensures
            r == quad_of(self, voxel, f),
    {
        if voxel < self.voxels.len() {
            match self.voxels[voxel].mesh {
                VoxelMesh::NormalCube(t) => t.faces[f.index()],
                _ => None,
            }
        } else {
            None
        }
    }
}

/// One vertex of the output mesh: the template vertex `source` of voxel value `value`,
/// placed at grid voxel `voxel`.
#[derive(Clone, Copy, Debug, PartialEq, Eq, Structural)]
pub struct MeshVertex {
    pub voxel: usize,
    pub value: usize,
    pub source: u32,
}

/// A triangle mesh: vertices and a triangle index buffer.
pub struct Mesh {
    pub vertices: Vec<MeshVertex>,
    pub indices: Vec<u32>,
}

/// The 4 vertices that a quad of template `t` of value `value` gets at voxel `voxel`.
pub open spec fn quad_vertices(voxel: usize, value: usize, t: QuadTemplate) -> Seq<MeshVertex> {
    Seq::new(4, |k: int| MeshVertex { voxel, value, source: t.vertices[k] })
}

/// The 6 indices of a quad of template `t` whose first vertex is `base`.
pub open spec fn quad_indices(base: int, t: QuadTemplate) -> Seq<u32> {
    Seq::new(6, |k: int| (base + t.triangles[k]) as u32)
}

/// Quad `q` of the buffers is the template quad of the face that `m` records for it,
/// placed at the voxel that `m` records.
pub open spec fn quad_ok(
    reg: &VoxelRegistry,
    verts: Seq<MeshVertex>,
    idx: Seq<u32>,
    m: Map<u32, (usize, Face)>,
    q: int,
) -> bool {
    let x = (4 * q) as u32;
    let value = verts[4 * q].value;
    &&& m.contains_key(x)
    &&& quad_of(reg, value, m[x].1) is Some
    &&& verts.subrange(4 * q, 4 * q + 4) == quad_vertices(m[x].0, value, quad_of(reg, value, m[x].1)->0)
    &&& idx.subrange(6 * q, 6 * q + 6) == quad_indices(4 * q, quad_of(reg, value, m[x].1)->0)
}

/// The buffers hold whole quads, each tracked by `m` under its first vertex and laid out
/// from its template; `m` tracks nothing else.
pub open spec fn mesh_ok(
    reg: &VoxelRegistry,
    verts: Seq<MeshVertex>,
    idx: Seq<u32>,
    m: Map<u32, (usize, Face)>,
) -> bool {
    &&& verts.len() % 4 == 0
    &&& verts.len() <= MAX_VERTICES
    &&& idx.len() == verts.len() / 4 * 6
    &&& forall|x: u32| #[trigger] m.contains_key(x) <==> (x % 4 == 0 && x < verts.len())
    &&& forall|q: int| 0 <= q < verts.len() / 4 ==> #[trigger] quad_ok(reg, verts, idx, m, q)
}

impl Mesh {
    /// An empty mesh.
    pub fn new() -> (r: Mesh)
        ensures
            r.vertices@.len() == 0,
            r.indices@.len() == 0,
    {
        Mesh { vertices: Vec::new(), indices: Vec::new() }
    }

    /// The number of vertices.
    pub fn count_vertices(&self) -> (r: usize)
        ensures
            r == self.vertices@.len(),
    {
        self.vertices.len()
    }

    /// The number of triangle indices.
    pub fn count_indices(&self) -> (r: usize)
        ensures
            r == self.indices@.len(),
    {
        self.indices.len()
    }
}

/// The triangles of a mesh, each as its 3 vertex indices.
pub fn extract_indices_data(mesh: &Mesh) -> (r: Vec<[u32; 3]>)
    requires
        mesh.indices@.len() % 3 == 0,
    ensures
        r@.len() * 3 == mesh.indices@.len(),
        forall|t: int, k: int|
            0 <= t < r@.len() && 0 <= k < 3 ==> #[trigger] r@[t][k] == mesh.indices@[3 * t + k],
{
    let mut r: Vec<[u32; 3]> = Vec::new();
    let mut i: usize = 0;
    while i < mesh.indices.len()
        invariant
            mesh.indices@.len() % 3 == 0,
            i % 3 == 0,
            i <= mesh.indices@.len(),
            r@.len() * 3 == i,
            forall|t: int, k: int|
                0 <= t < r@.len() && 0 <= k < 3 ==> #[trigger] r@[t][k] == mesh.indices@[3 * t + k],
        decreases mesh.indices@.len() - i,
    {
        let tri = [mesh.indices[i], mesh.indices[i + 1], mesh.indices[i + 2]];
        r.push(tri);
        i += 3;
    }
    r
}

/// The joint invariant of a mesh and its reverse index.
pub open spec fn consistent(reg: &VoxelRegistry, mesh: &Mesh, vivi: &VIVI) -> bool {
    &&& vivi.wf()
    &&& mesh_ok(reg, mesh.vertices@, mesh.indices@, vivi@)
}

/// Appends the quad of `face` of voxel value `value` at voxel `voxel` to the end of the
/// mesh and records it in the reverse index.
pub fn emit_quad(
    mesh: &mut Mesh,
    vivi: &mut VIVI,
    reg: &VoxelRegistry,
    voxel: usize,
    value: usize,
    face: Face,
    t: QuadTemplate,
)
    requires
        reg.wf(),
        consistent(reg, old(mesh), old(vivi)),
        voxel < old(vivi).voxels(),
        !has_quad(old(vivi)@, voxel, face),
        quad_of(reg, value, face) == Some(t),
        old(mesh).vertices@.len() + 4 <= MAX_VERTICES,
    ensures
        consistent(reg, final(mesh), final(vivi)),
        final(vivi).voxels() == old(vivi).voxels(),
        final(mesh).vertices@ == old(mesh).vertices@ + quad_vertices(voxel, value, t),
        final(mesh).indices@ == old(mesh).indices@ + quad_indices(
            old(mesh).vertices@.len() as int,
            t,
        ),
        final(vivi)@ == old(vivi)@.insert(old(mesh).vertices@.len() as u32, (voxel, face)),
{
    let base = mesh.vertices.len();
    let ghost old_verts = mesh.vertices@;
    let ghost old_idx = mesh.indices@;
    let ghost m = vivi@;
    assert(quad_wf(t));
    let mut k: usize = 0;
    while k < 4
        invariant
            k <= 4,
            mesh.vertices@ == old_verts + quad_vertices(voxel, value, t).take(k as int),
            mesh.indices@ == old_idx,
        decreases 4 - k,
    {
        mesh.vertices.push(MeshVertex { voxel, value, source: t.vertices[k] });
        assert(quad_vertices(voxel, value, t).take(k + 1) =~= quad_vertices(voxel, value, t).take(
            k as int,
        ).push(MeshVertex { voxel, value, source: t.vertices[k as int] }));
        k += 1;
    }
    assert(quad_vertices(voxel, value, t).take(4) =~= quad_vertices(voxel, value, t));
    let mut k: usize = 0;
    while k < 6
        invariant
            k <= 6,
            quad_wf(t),
            base + 4 <= MAX_VERTICES,
            mesh.indices@ == old_idx + quad_indices(base as int, t).take(k as int),
            mesh.vertices@ == old_verts + quad_vertices(voxel, value, t),
        decreases 6 - k,
    {
        assert(t.triangles[k as int] < 4);
        mesh.indices.push(base as u32 + t.triangles[k]);
        assert(quad_indices(base as int, t).take(k + 1) =~= quad_indices(base as int, t).take(
            k as int,
        ).push((base + t.triangles[k as int]) as u32));
        k += 1;
    }
    assert(quad_indices(base as int, t).take(6) =~= quad_indices(base as int, t));
    proof {
        assert(!m.contains_key(base as u32));
    }
    vivi.insert(face, voxel, base as u32);
    proof {
        let verts = mesh.vertices@;
        let idx = mesh.indices@;
        let m2 = vivi@;
        assert(verts.len() == base + 4);
        assert forall|x: u32| #[trigger] m2.contains_key(x) <==> (x % 4 == 0 && x < verts.len()) by {
            if x == base as u32 {
            } else {
                assert(m.contains_key(x) <==> (x % 4 == 0 && x < old_verts.len()));
            }
        }
        assert forall|q: int| 0 <= q < verts.len() / 4 implies #[trigger] quad_ok(
            reg,
            verts,
            idx,
            m2,
            q,
        ) by {
            if q < base / 4 {
                assert(quad_ok(reg, old_verts, old_idx, m, q));
                assert((4 * q) as u32 != base as u32);
                assert(verts.subrange(4 * q, 4 * q + 4) =~= old_verts.subrange(4 * q, 4 * q + 4));
                assert(idx.subrange(6 * q, 6 * q + 6) =~= old_idx.subrange(6 * q, 6 * q + 6));
                assert(verts[4 * q] == old_verts[4 * q]);
            } else {
                assert(4 * q == base);
                assert(verts.subrange(4 * q, 4 * q + 4) =~= quad_vertices(voxel, value, t));
                assert(idx.subrange(6 * q, 6 * q + 6) =~= quad_indices(base as int, t));
                assert(verts[4 * q] == quad_vertices(voxel, value, t)[0]);
            }
        }
    }
}

/// The vertices left after removing the 4 that start at `x`.
pub open spec fn removed_vertices(verts: Seq<MeshVertex>, x: int) -> Seq<MeshVertex> {
    verts.take(x) + verts.skip(x + 4)
}

/// The indices left after removing the 6 of quad `q`; those of later quads follow their
/// vertices 4 places down.
pub open spec fn removed_indices(idx: Seq<u32>, q: int) -> Seq<u32> {
    idx.take(6 * q) + idx.skip(6 * q + 6).map_values(|i: u32| (i - 4) as u32)
}

/// The reverse map after removing the quad that starts at `x` from a mesh of `n`
/// vertices: later quads are found 4 vertices down.
pub open spec fn removed_map(m: Map<u32, (usize, Face)>, x: u32, n: int) -> Map<
    u32,
    (usize, Face),
> {
    Map::new(
        |y: u32| y % 4 == 0 && y + 4 < n,
        |y: u32|
            if y < x {
                m[y]
            } else {
                m[(y + 4) as u32]
            },
    )
}

/// Each index of a consistent mesh names a vertex of its own quad.
proof fn lemma_index_in_quad(
    reg: &VoxelRegistry,
    verts: Seq<MeshVertex>,
    idx: Seq<u32>,
    m: Map<u32, (usize, Face)>,
    j: int,
)
    requires
        reg.wf(),
        mesh_ok(reg, verts, idx, m),
        0 <= j < idx.len(),
    ensures
        4 * (j / 6) <= idx[j] < 4 * (j / 6) + 4,
{
    let q = j / 6;
    assert(0 <= q < verts.len() / 4);
    assert(quad_ok(reg, verts, idx, m, q));
    let x = (4 * q) as u32;
    let t = quad_of(reg, verts[4 * q].value, m[x].1)->0;
    assert(quad_wf(t));
    assert(idx[j] == idx.subrange(6 * q, 6 * q + 6)[j - 6 * q]);
    assert(t.triangles[j - 6 * q] < 4);
}

/// Removing a tracked quad as the removal primitive does keeps mesh and index consistent.
proof fn lemma_removed_ok(
    reg: &VoxelRegistry,
    verts: Seq<MeshVertex>,
    idx: Seq<u32>,
    m: Map<u32, (usize, Face)>,
    x: u32,
)
    requires
        reg.wf(),
        mesh_ok(reg, verts, idx, m),
        m.contains_key(x),
    ensures
        mesh_ok(
            reg,
            removed_vertices(verts, x as int),
            removed_indices(idx, (x / 4) as int),
            removed_map(m, x, verts.len() as int),
        ),
        removed_vertices(verts, x as int).len() == verts.len() - 4,
{
    let n = verts.len() as int;
    let q = x / 4;
    let v2 = removed_vertices(verts, x as int);
    let i2 = removed_indices(idx, q as int);
    let m2 = removed_map(m, x, n);
    assert(x % 4 == 0 && x < n);
    assert(v2.len() == n - 4);
    assert(i2.len() == idx.len() - 6);
    assert forall|y: u32| #[trigger] m2.contains_key(y) <==> (y % 4 == 0 && y < v2.len()) by {}
    assert forall|p: int| 0 <= p < v2.len() / 4 implies #[trigger] quad_ok(reg, v2, i2, m2, p) by {
        lemma_removed_quad_ok(reg, verts, idx, m, x, p);
    }
}

/// One quad of the buffers left by the removal primitive is laid out as its entry says.
#[verifier::rlimit(40)]
proof fn lemma_removed_quad_ok(
    reg: &VoxelRegistry,
    verts: Seq<MeshVertex>,
    idx: Seq<u32>,
    m: Map<u32, (usize, Face)>,
    x: u32,
    p: int,
)
    requires
        reg.wf(),
        mesh_ok(reg, verts, idx, m),
        m.contains_key(x),
        0 <= p < (verts.len() - 4) / 4,
    ensures
        quad_ok(
            reg,
            removed_vertices(verts, x as int),
            removed_indices(idx, (x / 4) as int),
            removed_map(m, x, verts.len() as int),
            p,
        ),
{
    let n = verts.len() as int;
    let q = x / 4;
    let v2 = removed_vertices(verts, x as int);
    let i2 = removed_indices(idx, q as int);
    let m2 = removed_map(m, x, n);
    assert(x % 4 == 0 && x < n);
    let y = (4 * p) as u32;
    if p < q {
        assert(quad_ok(reg, verts, idx, m, p));
        assert(v2.subrange(4 * p, 4 * p + 4) =~= verts.subrange(4 * p, 4 * p + 4));
        assert(i2.subrange(6 * p, 6 * p + 6) =~= idx.subrange(6 * p, 6 * p + 6));
        assert(v2[4 * p] == verts[4 * p]);
        assert(m2[y] == m[y]);
    } else {
        let next = p + 1;
        assert(quad_ok(reg, verts, idx, m, next));
        let y_next = (4 * next) as u32;
        assert(m2[y] == m[y_next]);
        assert(v2.subrange(4 * p, 4 * p + 4) =~= verts.subrange(4 * next, 4 * next + 4));
        assert(v2[4 * p] == verts[4 * next]);
        let t = quad_of(reg, verts[4 * next].value, m[y_next].1)->0;
        assert(quad_wf(t));
        assert forall|k: int| 0 <= k < 6 implies #[trigger] i2.subrange(6 * p, 6 * p + 6)[k] == quad_indices(
            4 * p,
            t,
        )[k] by {
            assert(i2[6 * p + k] == (idx[6 * next + k] - 4) as u32);
            assert(idx[6 * next + k] == idx.subrange(6 * next, 6 * next + 6)[k]);
            assert(t.triangles[k] < 4);
        }
        assert(i2.subrange(6 * p, 6 * p + 6) =~= quad_indices(4 * p, t));
    }
}

/// Removes the quad that starts at vertex `x` from the mesh and from the reverse index.
/// The last quad of the buffers is popped; any other is cut out, the later vertices and
/// their indices move 4 places down, and the reverse index follows each of them.
pub fn remove_quad_at(mesh: &mut Mesh, vivi: &mut VIVI, reg: &VoxelRegistry, x: u32)
    requires
        reg.wf(),
        consistent(reg, old(mesh), old(vivi)),
        old(vivi)@.contains_key(x),
    ensures
        consistent(reg, final(mesh), final(vivi)),
        final(vivi).voxels() == old(vivi).voxels(),
        final(mesh).vertices@ == removed_vertices(old(mesh).vertices@, x as int),
        final(mesh).indices@ == removed_indices(old(mesh).indices@, (x / 4) as int),
        final(vivi)@ == removed_map(old(vivi)@, x, old(mesh).vertices@.len() as int),
        final(mesh).vertices@.len() == old(mesh).vertices@.len() - 4,
{
    let ghost verts = mesh.vertices@;
    let ghost idx = mesh.indices@;
    let ghost m = vivi@;
    proof {
        lemma_removed_ok(reg, verts, idx, m, x);
    }
    let n = mesh.vertices.len();
    let xs = x as usize;
    let q6 = xs / 4 * 6;
    assert(verts =~= verts.take(xs as int) + verts.skip(xs as int));
    assert(q6 + 6 <= idx.len()) by {
        assert(xs / 4 < n / 4);
    }
    let mut k: usize = 0;
    while k < 4
        invariant
            k <= 4,
            xs + 4 <= n,
            mesh.vertices@ == verts.take(xs as int) + verts.skip(xs + k),
            mesh.indices@ == idx,
            verts.len() == n,
        decreases 4 - k,
    {
        mesh.vertices.remove(xs);
        assert(mesh.vertices@ =~= verts.take(xs as int) + verts.skip(xs + k + 1));
        k += 1;
    }
    assert(idx =~= idx.take(q6 as int) + idx.skip(q6 as int));
    let mut k: usize = 0;
    while k < 6
        invariant
            k <= 6,
            q6 + 6 <= idx.len(),
            mesh.vertices@ == verts.take(xs as int) + verts.skip(xs + 4),
            mesh.indices@ == idx.take(q6 as int) + idx.skip(q6 + k),
        decreases 6 - k,
    {
        mesh.indices.remove(q6);
        assert(mesh.indices@ =~= idx.take(q6 as int) + idx.skip(q6 + k + 1));
        k += 1;
    }
    let len = mesh.indices.len();
    let mut i: usize = q6;
    while i < len
        invariant
            reg.wf(),
            mesh_ok(reg, verts, idx, m),
            q6 <= i <= len,
            len == idx.len() - 6,
            q6 == x / 4 * 6,
            mesh.vertices@ == verts.take(xs as int) + verts.skip(xs + 4),
            mesh.indices@.len() == len,
            forall|j: int|
                0 <= j < len ==> #[trigger] mesh.indices@[j] == if j < q6 {
                    idx[j]
                } else if j < i {
                    (idx[j + 6] - 4) as u32
                } else {
                    idx[j + 6]
                },
        decreases len - i,
    {
        proof {
            lemma_index_in_quad(reg, verts, idx, m, i + 6);
            assert((i + 6) / 6 >= 1);
        }
        let v = mesh.indices[i];
        mesh.indices.set(i, v - 4);
        i += 1;
    }
    assert(mesh.indices@ =~= removed_indices(idx, (x / 4) as int));
    assert(mesh.vertices@ =~= removed_vertices(verts, x as int));
    vivi.remove_quad(x);
    let mut p: usize = xs + 4;
    while p < n
        invariant
            vivi.wf(),
            vivi.voxels() == old(vivi).voxels(),
            mesh_ok(reg, verts, idx, m),
            m.contains_key(x),
            n == verts.len(),
            xs == x,
            xs + 4 <= p <= n,
            p % 4 == 0,
            vivi@ == Map::new(
                |y: u32| y % 4 == 0 && y < n && y + 4 != p,
                |y: u32|
                    if x <= y && y + 4 < p {
                        m[(y + 4) as u32]
                    } else {
                        m[y]
                    },
            ),
        decreases n - p,
    {
        proof {
            assert(vivi@.contains_key(p as u32));
            assert(!vivi@.contains_key((p - 4) as u32));
        }
        vivi.change_quad_index(p as u32, (p - 4) as u32);
        proof {
            assert(vivi@ =~= Map::new(
                |y: u32| y % 4 == 0 && y < n && y + 4 != p + 4,
                |y: u32|
                    if x <= y && y + 4 < p + 4 {
                        m[(y + 4) as u32]
                    } else {
                        m[y]
                    },
            ));
        }
        p += 4;
    }
    proof {
        assert(vivi@ =~= removed_map(m, x, n as int));
    }
}

/// After removing the quad at `x`, exactly the other (voxel, face) pairs remain tracked.
pub proof fn lemma_removed_has_quad(vivi: &VIVI, n: int, x: u32, v: usize, f: Face)
    requires
        vivi.wf(),
        forall|y: u32| #[trigger] vivi@.contains_key(y) <==> (y % 4 == 0 && y < n),
        vivi@.contains_key(x),
        n <= MAX_VERTICES,
    ensures
        has_quad(removed_map(vivi@, x, n), v, f) <==> (has_quad(vivi@, v, f) && vivi@[x] != (v, f)),
{
    let m = vivi@;
    let m2 = removed_map(m, x, n);
    if has_quad(m2, v, f) {
        let y = choose|y: u32| #[trigger] m2.contains_key(y) && m2[y] == (v, f);
        assert(y % 4 == 0 && y + 4 < n);
        let z = if y < x { y } else { (y + 4) as u32 };
        assert(m.contains_key(z));
        assert(m[z] == (v, f));
        if m[x] == (v, f) {
            vivi.lemma_unique(x, z);
        }
    }
    if has_quad(m, v, f) && m[x] != (v, f) {
        let z = choose|z: u32| #[trigger] m.contains_key(z) && m[z] == (v, f);
        assert(z != x);
        let y = if z < x { z } else { (z - 4) as u32 };
        assert(m2.contains_key(y) && m2[y] == (v, f));
    }
}

/// A consistent mesh with nothing tracked is empty.
pub proof fn lemma_untracked_empty(reg: &VoxelRegistry, mesh: &Mesh, vivi: &VIVI)
    requires
        consistent(reg, mesh, vivi),
        forall|v: usize, f: Face| !has_quad(vivi@, v, f),
    ensures
        mesh.vertices@.len() == 0,
        mesh.indices@.len() == 0,
{
    if mesh.vertices@.len() > 0 {
        assert(vivi@.contains_key(0u32));
        assert(has_quad(vivi@, vivi@[0u32].0, vivi@[0u32].1));
    }
}

/// Reverse-index consistency: in a consistent mesh, every quad that the reverse index
/// tracks for (voxel, face) starts at a multiple of 4 inside the buffers, and its 4
/// vertices are the template vertices of that face, in canonical order, of the voxel
/// value it was emitted for, placed at that voxel. Every operation of this library that
/// changes a mesh keeps it consistent.
pub proof fn lemma_reverse_index_consistency(reg: &VoxelRegistry, mesh: &Mesh, vivi: &VIVI, x: u32)
    requires
        consistent(reg, mesh, vivi),
        vivi@.contains_key(x),
    ensures
        x % 4 == 0,
        x + 4 <= mesh.vertices@.len(),
        ({
            let value = mesh.vertices@[x as int].value;
            let (v, f) = vivi@[x];
            &&& quad_of(reg, value, f) is Some
            &&& mesh.vertices@.subrange(x as int, x + 4) == quad_vertices(
                v,
                value,
                quad_of(reg, value, f)->0,
            )
        }),
{
    let q = x / 4;
    assert(quad_ok(reg, mesh.vertices@, mesh.indices@, vivi@, q as int));
    assert((4 * q) as u32 == x);
}

/// The parts of a mesh and its reverse index that the update operations change: the
/// vertices, the indices and the map from first vertex to (voxel, face).
pub type MeshState = (Seq<MeshVertex>, Seq<u32>, Map<u32, (usize, Face)>);

/// The first vertex of the quad tracked for `(v, f)` in `m` (meaningful where one is).
pub open spec fn first_vertex(m: Map<u32, (usize, Face)>, v: usize, f: Face) -> u32 {
    choose|x: u32| m.contains_key(x) && m[x] == (v, f)
}

/// The 4 vertex records of the quad tracked for `(v, f)` in state `s`.
pub open spec fn quad_record(s: MeshState, v: usize, f: Face) -> Seq<MeshVertex> {
    let x = first_vertex(s.2, v, f) as int;
    s.0.subrange(x, x + 4)
}

/// The state after removing the quad that starts at `x`, as `remove_quad_at` does.
pub open spec fn remove_state(s: MeshState, x: u32) -> MeshState {
    (
        removed_vertices(s.0, x as int),
        removed_indices(s.1, (x / 4) as int),
        removed_map(s.2, x, s.0.len() as int),
    )
}

/// The state after appending the quad of template `t` for face `face` of value `value`
/// at voxel `voxel`, as `emit_quad` does.
pub open spec fn emit_state(
    s: MeshState,
    voxel: usize,
    value: usize,
    face: Face,
    t: QuadTemplate,
) -> MeshState {
    (
        s.0 + quad_vertices(voxel, value, t),
        s.1 + quad_indices(s.0.len() as int, t),
        s.2.insert(s.0.len() as u32, (voxel, face)),
    )
}

/// The quad that a well-formed index tracks under `x` is the one `first_vertex` names.
pub proof fn lemma_first_vertex(vivi: &VIVI, x: u32)
    requires
        vivi.wf(),
        vivi@.contains_key(x),
    ensures
        first_vertex(vivi@, vivi@[x].0, vivi@[x].1) == x,
{
    let y = first_vertex(vivi@, vivi@[x].0, vivi@[x].1);
    assert(vivi@.contains_key(y) && vivi@[y] == vivi@[x]);
    vivi.lemma_unique(x, y);
}

/// Removing one quad leaves the vertex records of every other tracked quad as they were.
pub proof fn lemma_remove_keeps_records(reg: &VoxelRegistry, vivi: &VIVI, s: MeshState, x: u32, v: usize, f: Face)
    requires
        vivi.wf(),
        s.2 == vivi@,
        mesh_ok(reg, s.0, s.1, s.2),
        s.2.contains_key(x),
        has_quad(s.2, v, f),
        s.2[x] != (v, f),
    ensures
        quad_record(remove_state(s, x), v, f) == quad_record(s, v, f),
{
    let m = s.2;
    let z = first_vertex(m, v, f);
    lemma_first_vertex(vivi, z);
    assert(z != x);
    let s2 = remove_state(s, x);
    let y = if z < x { z } else { (z - 4) as u32 };
    assert(z % 4 == 0 && z < s.0.len());
    assert(s2.2.contains_key(y) && s2.2[y] == (v, f));
    let w = first_vertex(s2.2, v, f);
    assert(s2.2.contains_key(w) && s2.2[w] == (v, f));
    // the map after removal is injective on its (voxel, face) values as well
    let zw = if w < x { w } else { (w + 4) as u32 };
    assert(m.contains_key(zw) && m[zw] == (v, f));
    vivi.lemma_unique(zw, z);
    assert(w == y);
    assert(s2.0.subrange(y as int, y + 4) =~= s.0.subrange(z as int, z + 4));
}

/// Appending a quad leaves the vertex records of every tracked quad as they were.
pub proof fn lemma_emit_keeps_records(
    after: &VIVI,
    s: MeshState,
    voxel: usize,
    value: usize,
    face: Face,
    t: QuadTemplate,
    v: usize,
    f: Face,
)
    requires
        after.wf(),
        after@ == emit_state(s, voxel, value, face, t).2,
        forall|y: u32| #[trigger] s.2.contains_key(y) ==> y + 4 <= s.0.len(),
        s.0.len() <= MAX_VERTICES,
        !has_quad(s.2, voxel, face),
        has_quad(s.2, v, f),
    ensures
        quad_record(emit_state(s, voxel, value, face, t), v, f) == quad_record(s, v, f),
{
    let s2 = emit_state(s, voxel, value, face, t);
    let z = first_vertex(s.2, v, f);
    assert(s.2.contains_key(z) && s.2[z] == (v, f));
    assert(z + 4 <= s.0.len());
    assert(z != s.0.len() as u32);
    assert(after@.contains_key(z) && after@[z] == (v, f));
    lemma_first_vertex(after, z);
    assert(s2.0.subrange(z as int, z + 4) =~= s.0.subrange(z as int, z + 4));
}

} // verus!
