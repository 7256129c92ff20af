use crate::face::{face_index, opposite_face, Face};
use crate::grid::{
    coords, lemma_coords_of_index, lemma_index_of_coords, lemma_neighbor_in_grid,
    lemma_neighbor_symmetry, neighbor_spec, valid_dims, voxel_count,
};
use crate::mesh::{consistent, covers, is_cube, quad_of, Mesh, VoxelRegistry, MAX_VERTICES};
use crate::meshem::{exposed, grid_quads, voxel_quads, MeshingAlgorithm};
use crate::metadata::{quads, LoggedChange, MeshMD, VoxelChange};
use crate::vivi::{has_quad, VIVI};
use vstd::set_lib::{lemma_int_range, lemma_map_size, set_int_range};
use crate::update::{apply_change, apply_log};
use crate::Dimensions;
use vstd::prelude::*;

verus! {

/// A voxel value that is no cube and covers no side.
pub open spec fn is_empty(reg: &VoxelRegistry, v: usize) -> bool {
    !is_cube(reg, v) && forall|f: Face| !#[trigger] covers(reg, v, f)
}

/// Whether face `f` of voxel `i` of grid `g` is exposed: no neighbor there, or one that
/// does not cover it.
pub open spec fn exposed_in(dims: Dimensions, reg: &VoxelRegistry, g: Seq<usize>, i: int, f: Face) -> bool {
    match neighbor_spec(dims, i, f) {
        None => true,
        Some(j) => !covers(reg, g[j], opposite_face(f)),
    }
}

/// The quads of grid `g` under culling: each exposed face of a voxel whose value's
/// template has that face.
pub open spec fn grid_quad_set(dims: Dimensions, reg: &VoxelRegistry, g: Seq<usize>) -> Set<
    (usize, Face),
> {
    Set::new(
        |p: (usize, Face)|
            p.0 < g.len() && quad_of(reg, g[p.0 as int], p.1) is Some && exposed_in(
                dims,
                reg,
                g,
                p.0 as int,
                p.1,
            ),
    )
}

/// `nb` is a snapshot of the neighbors of voxel `i` in grid `g`: each entry holds the
/// neighbor's value, or `None` where there is no neighbor or an empty one.
pub open spec fn snapshot_of(
    dims: Dimensions,
    reg: &VoxelRegistry,
    g: Seq<usize>,
    i: int,
    nb: [Option<usize>; 6],
) -> bool {
    forall|f: Face|
        match #[trigger] nb[face_index(f) as int] {
            None => neighbor_spec(dims, i, f) is None || is_empty(
                reg,
                g[neighbor_spec(dims, i, f)->0],
            ),
            Some(x) => neighbor_spec(dims, i, f) is Some && g[neighbor_spec(dims, i, f)->0] == x,
        }
}

/// A voxel is not its own neighbor.
pub proof fn lemma_neighbor_not_self(dims: Dimensions, i: int, f: Face)
    requires
        valid_dims(dims),
        0 <= i < voxel_count(dims),
    ensures
        neighbor_spec(dims, i, f) != Some(i),
{
    lemma_coords_of_index(dims, i);
    let c = coords(dims, i);
    match f {
        Face::Top => if c.1 + 1 < dims.1 {
            lemma_index_of_coords(dims, c.0, c.1 + 1, c.2);
        },
        Face::Bottom => if c.1 > 0 {
            lemma_index_of_coords(dims, c.0, c.1 - 1, c.2);
        },
        Face::Right => if c.0 + 1 < dims.0 {
            lemma_index_of_coords(dims, c.0 + 1, c.1, c.2);
        },
        Face::Left => if c.0 > 0 {
            lemma_index_of_coords(dims, c.0 - 1, c.1, c.2);
        },
        Face::Back => if c.2 + 1 < dims.2 {
            lemma_index_of_coords(dims, c.0, c.1, c.2 + 1);
        },
        Face::Forward => if c.2 > 0 {
            lemma_index_of_coords(dims, c.0, c.1, c.2 - 1);
        },
    }
}

/// `j` is the neighbor of `i` through `f` exactly when `i` is the neighbor of `j`
/// through the opposite face.
proof fn lemma_neighbor_iff(dims: Dimensions, i: int, j: int, f: Face)
    requires
        valid_dims(dims),
        0 <= i < voxel_count(dims),
        0 <= j < voxel_count(dims),
    ensures
        neighbor_spec(dims, i, f) == Some(j) <==> neighbor_spec(dims, j, opposite_face(f)) == Some(i),
{
    lemma_neighbor_symmetry(dims, i, f);
    lemma_neighbor_symmetry(dims, j, opposite_face(f));
    assert(opposite_face(opposite_face(f)) == f);
}

/// Breaking a voxel of a grid, with a snapshot of its neighbors, turns the quads of the
/// grid into those of the grid with that voxel emptied.
pub proof fn lemma_break_step(
    dims: Dimensions,
    reg: &VoxelRegistry,
    g: Seq<usize>,
    i: int,
    nb: [Option<usize>; 6],
    value: usize,
    empty: usize,
)
    requires
        valid_dims(dims),
        g.len() == voxel_count(dims),
        0 <= i < g.len(),
        is_empty(reg, empty),
        snapshot_of(dims, reg, g, i, nb),
    ensures
        apply_change(dims, reg, grid_quad_set(dims, reg, g), (value, i as usize, VoxelChange::Broken, nb))
            == grid_quad_set(dims, reg, g.update(i, empty)),
{
    let e: LoggedChange = (value, i as usize, VoxelChange::Broken, nb);
    let g2 = g.update(i, empty);
    let s1 = apply_change(dims, reg, grid_quad_set(dims, reg, g), e);
    let s2 = grid_quad_set(dims, reg, g2);
    assert forall|p: (usize, Face)| s1.contains(p) == s2.contains(p) by {
        let v = p.0 as int;
        let gf = p.1;
        let f = opposite_face(gf);
        assert(opposite_face(f) == gf);
        lemma_neighbor_not_self(dims, i, f);
        lemma_neighbor_in_grid(dims, i, f);
        if v < g.len() {
            lemma_neighbor_iff(dims, i, v, f);
            lemma_neighbor_in_grid(dims, v, gf);
            if v != i {
                assert(g2[v] == g[v]);
                if neighbor_spec(dims, v, gf) == Some(i) {
                    assert(!covers(reg, empty, f));
                    assert(nb[face_index(f) as int] matches Some(x) ==> x == g[v]);
                } else {
                    match neighbor_spec(dims, v, gf) {
                        Some(j) => assert(g2[j] == g[j]),
                        None => {},
                    }
                }
            }
        }
    }
    assert(s1 =~= s2);
}

/// Placing a value on an empty voxel of a grid, with a snapshot of its neighbors, turns
/// the quads of the grid into those of the grid with that voxel set.
pub proof fn lemma_add_step(
    dims: Dimensions,
    reg: &VoxelRegistry,
    g: Seq<usize>,
    i: int,
    nb: [Option<usize>; 6],
    value: usize,
)
    requires
        valid_dims(dims),
        g.len() == voxel_count(dims),
        0 <= i < g.len(),
        is_empty(reg, g[i]),
        snapshot_of(dims, reg, g, i, nb),
    ensures
        apply_change(dims, reg, grid_quad_set(dims, reg, g), (value, i as usize, VoxelChange::Added, nb))
            == grid_quad_set(dims, reg, g.update(i, value)),
{
    let e: LoggedChange = (value, i as usize, VoxelChange::Added, nb);
    let g2 = g.update(i, value);
    let s1 = apply_change(dims, reg, grid_quad_set(dims, reg, g), e);
    let s2 = grid_quad_set(dims, reg, g2);
    assert forall|p: (usize, Face)| s1.contains(p) == s2.contains(p) by {
        let v = p.0 as int;
        let gf = p.1;
        let f = opposite_face(gf);
        assert(opposite_face(f) == gf);
        lemma_neighbor_not_self(dims, i, f);
        lemma_neighbor_in_grid(dims, i, f);
        if v < g.len() {
            lemma_neighbor_iff(dims, i, v, f);
            lemma_neighbor_in_grid(dims, v, gf);
            if v == i {
                assert(!covers(reg, g[i], gf));
                match neighbor_spec(dims, i, gf) {
                    Some(j) => {
                        lemma_neighbor_not_self(dims, i, gf);
                        assert(g2[j] == g[j]);
                    },
                    None => {},
                }
            } else {
                assert(g2[v] == g[v]);
                if neighbor_spec(dims, v, gf) == Some(i) {
                    assert(!covers(reg, g[i], f));
                } else {
                    match neighbor_spec(dims, v, gf) {
                        Some(j) => assert(g2[j] == g[j]),
                        None => {},
                    }
                }
            }
        }
    }
    assert(s1 =~= s2);
}

/// Grid `g` after emptying, one after the other, the first `k` voxels of `order`.
pub open spec fn emptied(g: Seq<usize>, order: Seq<usize>, empty: usize, k: nat) -> Seq<usize>
    decreases k,
{
    if k == 0 {
        g
    } else {
        emptied(g, order, empty, (k - 1) as nat).update(order[k - 1] as int, empty)
    }
}

/// The log that breaks the voxels of `order` one after the other, each logged with its
/// value at that time and its snapshot.
pub open spec fn break_log(
    g: Seq<usize>,
    order: Seq<usize>,
    empty: usize,
    snaps: Seq<[Option<usize>; 6]>,
) -> Seq<LoggedChange> {
    Seq::new(
        order.len(),
        |k: int|
            (
                emptied(g, order, empty, k as nat)[order[k] as int],
                order[k],
                VoxelChange::Broken,
                snaps[k],
            ),
    )
}

/// The log that places the broken voxels back, the last broken first, each with the value
/// and the snapshot that its break was logged with.
pub open spec fn restore_log(
    g: Seq<usize>,
    order: Seq<usize>,
    empty: usize,
    snaps: Seq<[Option<usize>; 6]>,
) -> Seq<LoggedChange> {
    Seq::new(
        order.len(),
        |k: int|
            {
                let j = order.len() - 1 - k;
                (
                    emptied(g, order, empty, j as nat)[order[j] as int],
                    order[j],
                    VoxelChange::Added,
                    snaps[j],
                )
            },
    )
}

/// Applying two logs one after the other is applying their concatenation.
pub proof fn lemma_apply_log_concat(
    dims: Dimensions,
    reg: &VoxelRegistry,
    s: Set<(usize, Face)>,
    a: Seq<LoggedChange>,
    b: Seq<LoggedChange>,
)
    ensures
        apply_log(dims, reg, s, a + b) == apply_log(dims, reg, apply_log(dims, reg, s, a), b),
    decreases b.len(),
{
    if b.len() == 0 {
        assert(a + b =~= a);
    } else {
        assert((a + b).drop_last() =~= a + b.drop_last());
        assert((a + b).last() == b.last());
        lemma_apply_log_concat(dims, reg, s, a, b.drop_last());
    }
}

proof fn lemma_emptied_len(g: Seq<usize>, order: Seq<usize>, empty: usize, k: nat)
    requires
        k <= order.len(),
        forall|q: int| 0 <= q < order.len() ==> #[trigger] order[q] < g.len(),
    ensures
        emptied(g, order, empty, k).len() == g.len(),
    decreases k,
{
    if k > 0 {
        lemma_emptied_len(g, order, empty, (k - 1) as nat);
        assert(order[k - 1] < g.len());
    }
}

/// A snapshot of a voxel's neighbors does not depend on the voxel itself.
proof fn lemma_snapshot_keeps(
    dims: Dimensions,
    reg: &VoxelRegistry,
    g: Seq<usize>,
    i: int,
    nb: [Option<usize>; 6],
    x: usize,
)
    requires
        valid_dims(dims),
        g.len() == voxel_count(dims),
        0 <= i < g.len(),
        snapshot_of(dims, reg, g, i, nb),
    ensures
        snapshot_of(dims, reg, g.update(i, x), i, nb),
{
    assert forall|f: Face|
        match #[trigger] nb[face_index(f) as int] {
            None => neighbor_spec(dims, i, f) is None || is_empty(
                reg,
                g.update(i, x)[neighbor_spec(dims, i, f)->0],
            ),
            Some(y) => neighbor_spec(dims, i, f) is Some && g.update(i, x)[neighbor_spec(
                dims,
                i,
                f,
            )->0] == y,
        } by {
        lemma_neighbor_not_self(dims, i, f);
        lemma_neighbor_in_grid(dims, i, f);
    }
}

/// The requirements of a break-and-restore cycle: every voxel of `order` lies in the
/// grid, and each snapshot is one of the grid at the time of its break.
pub open spec fn cycle_ok(
    dims: Dimensions,
    reg: &VoxelRegistry,
    g: Seq<usize>,
    order: Seq<usize>,
    empty: usize,
    snaps: Seq<[Option<usize>; 6]>,
) -> bool {
    &&& snaps.len() == order.len()
    &&& forall|k: int|
        0 <= k < order.len() ==> #[trigger] order[k] < g.len() && snapshot_of(
            dims,
            reg,
            emptied(g, order, empty, k as nat),
            order[k] as int,
            snaps[k],
        )
}

proof fn lemma_breaks(
    dims: Dimensions,
    reg: &VoxelRegistry,
    g: Seq<usize>,
    order: Seq<usize>,
    empty: usize,
    snaps: Seq<[Option<usize>; 6]>,
    k: nat,
)
    requires
        valid_dims(dims),
        g.len() == voxel_count(dims),
        is_empty(reg, empty),
        cycle_ok(dims, reg, g, order, empty, snaps),
        k <= order.len(),
    ensures
        apply_log(
            dims,
            reg,
            grid_quad_set(dims, reg, g),
            break_log(g, order, empty, snaps).take(k as int),
        ) == grid_quad_set(dims, reg, emptied(g, order, empty, k)),
    decreases k,
{
    let log = break_log(g, order, empty, snaps);
    if k == 0 {
        assert(log.take(0) =~= Seq::<LoggedChange>::empty());
    } else {
        let j = (k - 1) as nat;
        lemma_breaks(dims, reg, g, order, empty, snaps, j);
        assert(log.take(k as int).drop_last() =~= log.take(j as int));
        assert(order[j as int] < g.len());
        lemma_emptied_len(g, order, empty, j);
        let gj = emptied(g, order, empty, j);
        lemma_break_step(dims, reg, gj, order[j as int] as int, snaps[j as int], gj[order[j as int] as int], empty);
    }
}

proof fn lemma_restores(
    dims: Dimensions,
    reg: &VoxelRegistry,
    g: Seq<usize>,
    order: Seq<usize>,
    empty: usize,
    snaps: Seq<[Option<usize>; 6]>,
    k: nat,
)
    requires
        valid_dims(dims),
        g.len() == voxel_count(dims),
        is_empty(reg, empty),
        cycle_ok(dims, reg, g, order, empty, snaps),
        k <= order.len(),
    ensures
        apply_log(
            dims,
            reg,
            grid_quad_set(dims, reg, emptied(g, order, empty, order.len())),
            restore_log(g, order, empty, snaps).take(k as int),
        ) == grid_quad_set(dims, reg, emptied(g, order, empty, (order.len() - k) as nat)),
    decreases k,
{
    let log = restore_log(g, order, empty, snaps);
    if k == 0 {
        assert(log.take(0) =~= Seq::<LoggedChange>::empty());
    } else {
        let k1 = (k - 1) as nat;
        lemma_restores(dims, reg, g, order, empty, snaps, k1);
        assert(log.take(k as int).drop_last() =~= log.take(k1 as int));
        let j = (order.len() - k) as nat;
        let i = order[j as int] as int;
        assert(i < g.len());
        lemma_emptied_len(g, order, empty, j);
        let gj = emptied(g, order, empty, j);
        let gj1 = emptied(g, order, empty, j + 1);
        assert(gj1 == gj.update(i, empty));
        lemma_snapshot_keeps(dims, reg, gj, i, snaps[j as int], empty);
        lemma_add_step(dims, reg, gj1, i, snaps[j as int], gj[i]);
        assert(gj1.update(i, gj[i]) =~= gj);
        assert(log.take(k as int).last() == log[k1 as int]);
    }
}

/// Breaking voxels of a grid one after the other, each logged with a snapshot of its
/// neighbors at that time, and then placing them back in the reverse order with the same
/// values and snapshots, leaves the set of quads as it was. (In the order of breaking
/// instead, a voxel placed back early would read a snapshot that shows neighbors not yet
/// placed back.)
pub proof fn lemma_full_cycle(
    dims: Dimensions,
    reg: &VoxelRegistry,
    g: Seq<usize>,
    order: Seq<usize>,
    empty: usize,
    snaps: Seq<[Option<usize>; 6]>,
)
    requires
        valid_dims(dims),
        g.len() == voxel_count(dims),
        is_empty(reg, empty),
        cycle_ok(dims, reg, g, order, empty, snaps),
    ensures
        apply_log(
            dims,
            reg,
            grid_quad_set(dims, reg, g),
            break_log(g, order, empty, snaps) + restore_log(g, order, empty, snaps),
        ) == grid_quad_set(dims, reg, g),
{
    let m = order.len();
    let b = break_log(g, order, empty, snaps);
    let r = restore_log(g, order, empty, snaps);
    lemma_apply_log_concat(dims, reg, grid_quad_set(dims, reg, g), b, r);
    lemma_breaks(dims, reg, g, order, empty, snaps, m);
    assert(b.take(m as int) =~= b);
    lemma_restores(dims, reg, g, order, empty, snaps, m);
    assert(r.take(m as int) =~= r);
}

/// A consistent mesh has 4 vertices and 6 indices for each quad that its reverse index
/// tracks.
pub proof fn lemma_quad_count(reg: &VoxelRegistry, mesh: &Mesh, vivi: &VIVI)
    requires
        consistent(reg, mesh, vivi),
    ensures
        quads(vivi@).finite(),
        mesh.vertices@.len() == 4 * quads(vivi@).len(),
        mesh.indices@.len() == 6 * quads(vivi@).len(),
{
    let m = vivi@;
    let n = mesh.vertices@.len() as int;
    let nq = n / 4;
    let f = |q: int| (4 * q) as u32;
    let r = set_int_range(0, nq);
    lemma_int_range(0, nq);
    assert forall|y: u32| #[trigger] m.dom().contains(y) == r.map(f).contains(y) by {
        if m.dom().contains(y) {
            let q = (y / 4) as int;
            assert(r.contains(q) && f(q) == y);
        }
        if r.map(f).contains(y) {
            let q = choose|q: int| r.contains(q) && f(q) == y;
            assert(4 * q < n);
        }
    }
    assert(r.map(f) =~= m.dom());
    assert forall|q1: int, q2: int| r.contains(q1) && r.contains(q2) && #[trigger] f(q1) == #[trigger] f(q2)
        implies q1 == q2 by {
        assert(4 * q1 < n && 4 * q2 < n);
        assert(n <= MAX_VERTICES);
    }
    lemma_map_size(r, m.dom(), f);
    assert forall|x1: u32, x2: u32|
        m.dom().contains(x1) && m.dom().contains(x2) && #[trigger] m[x1] == #[trigger] m[x2]
        implies x1 == x2 by {
        vivi.lemma_unique(x1, x2);
    }
    assert(m.is_injective());
    m.lemma_injective_values_len();
    assert forall|p: (usize, Face)| #[trigger] quads(m).contains(p) == m.values().contains(p) by {
        if m.values().contains(p) {
            let x = choose|x: u32| #[trigger] m.dom().contains(x) && m[x] == p;
            assert(m.contains_key(x) && m[x] == (p.0, p.1));
        }
        if quads(m).contains(p) {
            assert(has_quad(m, p.0, p.1));
            let x = choose|x: u32| #[trigger] m.contains_key(x) && m[x] == (p.0, p.1);
            assert(m.dom().contains(x) && m[x] == p);
        }
    }
    assert(quads(m) =~= m.values());
}

proof fn lemma_voxel_quads_members(
    dims: Dimensions,
    reg: &VoxelRegistry,
    g: Seq<usize>,
    i: int,
    k: nat,
)
    requires
        0 <= i < g.len(),
        g.len() <= usize::MAX,
        k <= 6,
    ensures
        forall|p: (usize, Face)|
            #[trigger] voxel_quads(dims, Seq::empty(), g, reg, MeshingAlgorithm::Culling, i, k).contains(p)
                <==> (p.0 == i && face_index(p.1) < k && quad_of(reg, g[i], p.1) is Some
                && exposed_in(dims, reg, g, i, p.1)),
    decreases k,
{
    if k > 0 {
        let k1 = (k - 1) as nat;
        lemma_voxel_quads_members(dims, reg, g, i, k1);
        let rest = voxel_quads(dims, Seq::empty(), g, reg, MeshingAlgorithm::Culling, i, k1);
        let all = voxel_quads(dims, Seq::empty(), g, reg, MeshingAlgorithm::Culling, i, k);
        let f = crate::face::face_of_index(k1);
        assert(face_index(f) == k1);
        assert(exposed(dims, Seq::empty(), g, reg, MeshingAlgorithm::Culling, i, f) == exposed_in(dims, reg, g, i, f));
        assert forall|p: (usize, Face)| #[trigger] all.contains(p) <==> (p.0 == i && face_index(p.1) < k
            && quad_of(reg, g[i], p.1) is Some && exposed_in(dims, reg, g, i, p.1)) by {
            assert(exposed(dims, Seq::empty(), g, reg, MeshingAlgorithm::Culling, i, p.1) == exposed_in(dims, reg, g, i, p.1));
            if all != rest {
                assert(all == rest.push((i as usize, f)));
                if all.contains(p) && !rest.contains(p) {
                    let q = choose|q: int| 0 <= q < all.len() && all[q] == p;
                    assert(q == rest.len());
                }
                if rest.contains(p) {
                    let q = choose|q: int| 0 <= q < rest.len() && rest[q] == p;
                    assert(all[q] == p);
                }
                if p == (i as usize, f) {
                    assert(all[rest.len() as int] == p);
                }
            }
            if face_index(p.1) == k1 {
                assert(p.1 == f);
            }
        }
    }
}

proof fn lemma_grid_quads_members(dims: Dimensions, reg: &VoxelRegistry, g: Seq<usize>, n: nat)
    requires
        n <= g.len(),
        g.len() <= usize::MAX,
    ensures
        forall|p: (usize, Face)|
            #[trigger] grid_quads(dims, Seq::empty(), g, reg, MeshingAlgorithm::Culling, n).contains(p)
                <==> (p.0 < n && grid_quad_set(dims, reg, g).contains(p)),
    decreases n,
{
    if n > 0 {
        let n1 = (n - 1) as nat;
        lemma_grid_quads_members(dims, reg, g, n1);
        lemma_voxel_quads_members(dims, reg, g, n1 as int, 6);
        let a = grid_quads(dims, Seq::empty(), g, reg, MeshingAlgorithm::Culling, n1);
        let b = voxel_quads(dims, Seq::empty(), g, reg, MeshingAlgorithm::Culling, n1 as int, 6);
        assert forall|p: (usize, Face)| #[trigger] (a + b).contains(p) <==> (p.0 < n && grid_quad_set(dims, reg, g).contains(p)) by {
            assert(face_index(p.1) < 6);
            if (a + b).contains(p) {
                let q = choose|q: int| 0 <= q < (a + b).len() && (a + b)[q] == p;
                if q < a.len() {
                    assert(a[q] == p);
                } else {
                    assert(b[q - a.len()] == p);
                }
            }
            if a.contains(p) {
                let q = choose|q: int| 0 <= q < a.len() && a[q] == p;
                assert((a + b)[q] == p);
            }
            if b.contains(p) {
                let q = choose|q: int| 0 <= q < b.len() && b[q] == p;
                assert((a + b)[a.len() + q] == p);
            }
        }
    }
}

/// The quads tracked after meshing a grid with culling and no outer face culled (as
/// `mesh_grid` describes its result) are the grid's quads.
pub proof fn lemma_mesh_grid_quads(
    dims: Dimensions,
    reg: &VoxelRegistry,
    g: Seq<usize>,
    mesh: &Mesh,
    vivi: &VIVI,
)
    requires
        g.len() <= usize::MAX,
        consistent(reg, mesh, vivi),
        mesh.vertices@.len() == 4 * grid_quads(dims, Seq::empty(), g, reg, MeshingAlgorithm::Culling, g.len()).len(),
        forall|q: int|
            0 <= q < grid_quads(dims, Seq::empty(), g, reg, MeshingAlgorithm::Culling, g.len()).len()
                ==> vivi@[(4 * q) as u32] == #[trigger] grid_quads(dims, Seq::empty(), g, reg, MeshingAlgorithm::Culling, g.len())[q],
    ensures
        quads(vivi@) == grid_quad_set(dims, reg, g),
{
    let s = grid_quads(dims, Seq::empty(), g, reg, MeshingAlgorithm::Culling, g.len());
    let m = vivi@;
    lemma_grid_quads_members(dims, reg, g, g.len());
    assert forall|p: (usize, Face)| #[trigger] quads(m).contains(p) == grid_quad_set(dims, reg, g).contains(p) by {
        if quads(m).contains(p) {
            let x = choose|x: u32| #[trigger] m.contains_key(x) && m[x] == (p.0, p.1);
            let q = (x / 4) as int;
            assert(m[(4 * q) as u32] == s[q]);
            assert(s.contains(p));
        }
        if grid_quad_set(dims, reg, g).contains(p) {
            assert(s.contains(p));
            let q = choose|q: int| 0 <= q < s.len() && s[q] == p;
            assert(m.contains_key((4 * q) as u32));
            assert(has_quad(m, p.0, p.1));
        }
    }
    assert(quads(m) =~= grid_quad_set(dims, reg, g));
}

/// Meshing a grid with culling and no outer face culled, then breaking voxels one after
/// the other (each logged with a snapshot of its neighbors at that time) and applying the
/// log, then placing them back in the reverse order with the same values and snapshots
/// and applying that log, gives a mesh with as many vertices and indices as the first.
pub proof fn lemma_full_cycle_counts(
    dims: Dimensions,
    reg: &VoxelRegistry,
    g: Seq<usize>,
    order: Seq<usize>,
    empty: usize,
    snaps: Seq<[Option<usize>; 6]>,
    mesh0: &Mesh,
    md0: &MeshMD,
    mesh1: &Mesh,
    md1: &MeshMD,
)
    requires
        valid_dims(dims),
        g.len() == voxel_count(dims),
        is_empty(reg, empty),
        cycle_ok(dims, reg, g, order, empty, snaps),
        consistent(reg, mesh0, &md0.vivi),
        mesh0.vertices@.len() == 4 * grid_quads(dims, Seq::empty(), g, reg, MeshingAlgorithm::Culling, g.len()).len(),
        forall|q: int|
            0 <= q < grid_quads(dims, Seq::empty(), g, reg, MeshingAlgorithm::Culling, g.len()).len()
                ==> md0.vivi@[(4 * q) as u32] == #[trigger] grid_quads(dims, Seq::empty(), g, reg, MeshingAlgorithm::Culling, g.len())[q],
        consistent(reg, mesh1, &md1.vivi),
        quads(md1.vivi@) == apply_log(
            dims,
            reg,
            apply_log(dims, reg, quads(md0.vivi@), break_log(g, order, empty, snaps)),
            restore_log(g, order, empty, snaps),
        ),
    ensures
        mesh1.vertices@.len() == mesh0.vertices@.len(),
        mesh1.indices@.len() == mesh0.indices@.len(),
{
    lemma_mesh_grid_quads(dims, reg, g, mesh0, &md0.vivi);
    lemma_apply_log_concat(
        dims,
        reg,
        quads(md0.vivi@),
        break_log(g, order, empty, snaps),
        restore_log(g, order, empty, snaps),
    );
    lemma_full_cycle(dims, reg, g, order, empty, snaps);
    lemma_quad_count(reg, mesh0, &md0.vivi);
    lemma_quad_count(reg, mesh1, &md1.vivi);
}

} // verus!
