use crate::direction::{dir_of_change, from_cords_change, Direction};
use crate::face::{face_index, face_of_index, opposite_face, Face};
use crate::mesh::{covers, VoxelRegistry};
use crate::Dimensions;
use vstd::arithmetic::div_mod::{lemma_fundamental_div_mod, lemma_fundamental_div_mod_converse};
use vstd::prelude::*;

verus! {

/// The dimensions are positive and the voxel count fits in a machine word.
pub open spec fn valid_dims(dims: Dimensions) -> bool {
    dims.0 > 0 && dims.1 > 0 && dims.2 > 0 && dims.0 * dims.1 * dims.2 <= usize::MAX
}

/// The number of voxels of a grid.
pub open spec fn voxel_count(dims: Dimensions) -> int {
    dims.0 * dims.1 * dims.2
}

/// The linear index of the voxel at (width, height, length) coordinates (w, h, l).
pub open spec fn linear(dims: Dimensions, w: int, h: int, l: int) -> int {
    h * (dims.0 * dims.2) + l * dims.0 + w
}

/// Coordinates lie inside the grid.
pub open spec fn in_bounds(dims: Dimensions, w: int, h: int, l: int) -> bool {
    0 <= w < dims.0 && 0 <= h < dims.1 && 0 <= l < dims.2
}

/// The (width, height, length) coordinates of a linear index.
pub open spec fn coords(dims: Dimensions, i: int) -> (int, int, int) {
    let layer = dims.0 * dims.2;
    (i % layer % dims.0 as int, i / layer, i % layer / dims.0 as int)
}

/// The linear index of the face neighbor of voxel `i`, or `None` where it lies outside the
/// grid.
pub open spec fn neighbor_spec(dims: Dimensions, i: int, face: Face) -> Option<int> {
    let c = coords(dims, i);
    match face {
        Face::Top => if c.1 + 1 < dims.1 {
            Some(linear(dims, c.0, c.1 + 1, c.2))
        } else {
            None
        },
        Face::Bottom => if c.1 > 0 {
            Some(linear(dims, c.0, c.1 - 1, c.2))
        } else {
            None
        },
        Face::Right => if c.0 + 1 < dims.0 {
            Some(linear(dims, c.0 + 1, c.1, c.2))
        } else {
            None
        },
        Face::Left => if c.0 > 0 {
            Some(linear(dims, c.0 - 1, c.1, c.2))
        } else {
            None
        },
        Face::Back => if c.2 + 1 < dims.2 {
            Some(linear(dims, c.0, c.1, c.2 + 1))
        } else {
            None
        },
        Face::Forward => if c.2 > 0 {
            Some(linear(dims, c.0, c.1, c.2 - 1))
        } else {
            None
        },
    }
}

/// Whether voxel `i` lies on the outer layer of the grid on the side of `face`.
pub open spec fn on_edge(dims: Dimensions, i: int, face: Face) -> bool {
    let c = coords(dims, i);
    match face {
        Face::Top => c.1 == dims.1 - 1,
        Face::Bottom => c.1 == 0,
        Face::Right => c.0 == dims.0 - 1,
        Face::Left => c.0 == 0,
        Face::Back => c.2 == dims.2 - 1,
        Face::Forward => c.2 == 0,
    }
}

/// The index that an adjacent chunk of the same dimensions uses for the voxel that touches
/// voxel `i` through the horizontal `face` (only defined for voxels on that edge).
pub open spec fn across_chunk_spec(dims: Dimensions, i: int, face: Face) -> int {
    let c = coords(dims, i);
    match face {
        Face::Right => linear(dims, 0, c.1, c.2),
        Face::Left => linear(dims, dims.0 - 1, c.1, c.2),
        Face::Back => linear(dims, c.0, c.1, 0),
        Face::Forward => linear(dims, c.0, c.1, dims.2 - 1),
        _ => i,
    }
}

/// Whether a face is horizontal (not Top nor Bottom).
pub open spec fn is_horizontal(face: Face) -> bool {
    face != Face::Top && face != Face::Bottom
}

proof fn lemma_layer_bounds(dims: Dimensions)
    requires
        valid_dims(dims),
    ensures
        dims.0 * dims.2 > 0,
        dims.0 * dims.2 <= voxel_count(dims),
        voxel_count(dims) == dims.1 * (dims.0 * dims.2),
        dims.0 * dims.1 <= voxel_count(dims),
{
    assert(dims.0 * dims.2 > 0) by (nonlinear_arith)
        requires
            dims.0 > 0,
            dims.2 > 0,
    ;
    assert(dims.0 * dims.1 * dims.2 == dims.1 * (dims.0 * dims.2)) by (nonlinear_arith);
    assert(dims.0 * dims.1 <= dims.0 * dims.1 * dims.2) by (nonlinear_arith)
        requires
            dims.0 > 0,
            dims.1 > 0,
            dims.2 > 0,
    ;
    assert(dims.1 * (dims.0 * dims.2) >= dims.0 * dims.2) by (nonlinear_arith)
        requires
            dims.1 >= 1,
            dims.0 * dims.2 > 0,
    ;
}

/// The coordinates of every index of the grid lie inside the grid and lead back to the
/// index.
pub proof fn lemma_coords_of_index(dims: Dimensions, i: int)
    requires
        valid_dims(dims),
        0 <= i < voxel_count(dims),
    ensures
        in_bounds(dims, coords(dims, i).0, coords(dims, i).1, coords(dims, i).2),
        linear(dims, coords(dims, i).0, coords(dims, i).1, coords(dims, i).2) == i,
{
    lemma_layer_bounds(dims);
    let layer = dims.0 * dims.2;
    let w = dims.0 as int;
    let c = coords(dims, i);
    lemma_fundamental_div_mod(i, layer);
    let r = i % layer;
    lemma_fundamental_div_mod(r, w);
    assert(0 <= r < layer);
    assert(i / layer < dims.1) by (nonlinear_arith)
        requires
            i == layer * (i / layer) + r,
            0 <= r,
            i < dims.1 * layer,
            layer > 0,
    ;
    assert(i / layer >= 0) by (nonlinear_arith)
        requires
            i >= 0,
            layer > 0,
    ;
    assert(0 <= r / w < dims.2) by (nonlinear_arith)
        requires
            r == w * (r / w) + r % w,
            0 <= r % w < w,
            0 <= r < w * dims.2,
            layer == w * dims.2,
            w > 0,
    ;
    assert(linear(dims, c.0, c.1, c.2) == i) by (nonlinear_arith)
        requires
            i == layer * (i / layer) + r,
            r == w * (r / w) + r % w,
            c == (r % w, i / layer, r / w),
            layer == dims.0 * dims.2,
            w == dims.0,
    ;
}

/// Coordinates inside the grid are recovered from their linear index.
pub proof fn lemma_index_of_coords(dims: Dimensions, w: int, h: int, l: int)
    requires
        valid_dims(dims),
        in_bounds(dims, w, h, l),
    ensures
        coords(dims, linear(dims, w, h, l)) == (w, h, l),
        0 <= linear(dims, w, h, l) < voxel_count(dims),
{
    lemma_layer_bounds(dims);
    let layer = dims.0 * dims.2;
    let wd = dims.0 as int;
    let i = linear(dims, w, h, l);
    let r = l * wd + w;
    assert(0 <= r < layer) by (nonlinear_arith)
        requires
            0 <= w < wd,
            0 <= l < dims.2,
            layer == wd * dims.2,
            r == l * wd + w,
    ;
    assert(i == h * layer + r);
    lemma_fundamental_div_mod_converse(i, layer, h, r);
    lemma_fundamental_div_mod_converse(r, wd, l, w);
    assert(0 <= i < dims.1 * layer) by (nonlinear_arith)
        requires
            i == h * layer + r,
            0 <= h < dims.1,
            0 <= r < layer,
    ;
}

/// Addressing round trip: mapping an index to coordinates and back gives the index.
pub proof fn lemma_round_trip(dims: Dimensions, i: int)
    requires
        valid_dims(dims),
        0 <= i < voxel_count(dims),
    ensures
        ({
            let c = coords(dims, i);
            linear(dims, c.0, c.1, c.2) == i
        }),
{
    lemma_coords_of_index(dims, i);
}

/// A neighbor is an index of the grid.
pub proof fn lemma_neighbor_in_grid(dims: Dimensions, i: int, face: Face)
    requires
        valid_dims(dims),
        0 <= i < voxel_count(dims),
    ensures
        neighbor_spec(dims, i, face) is Some ==> 0 <= neighbor_spec(dims, i, face)->0
            < voxel_count(dims),
        neighbor_spec(dims, i, face) is Some <==> !on_edge(dims, i, face),
{
    lemma_coords_of_index(dims, i);
    let c = coords(dims, i);
    match face {
        Face::Top => if c.1 + 1 < dims.1 {
            lemma_index_of_coords(dims, c.0, c.1 + 1, c.2);
        },
        Face::Bottom => if c.1 > 0 {
            lemma_index_of_coords(dims, c.0, c.1 - 1, c.2);
        },
        Face::Right => if c.0 + 1 < dims.0 {
            lemma_index_of_coords(dims, c.0 + 1, c.1, c.2);
        },
        Face::Left => if c.0 > 0 {
            lemma_index_of_coords(dims, c.0 - 1, c.1, c.2);
        },
        Face::Back => if c.2 + 1 < dims.2 {
            lemma_index_of_coords(dims, c.0, c.1, c.2 + 1);
        },
        Face::Forward => if c.2 > 0 {
            lemma_index_of_coords(dims, c.0, c.1, c.2 - 1);
        },
    }
}

/// Neighbor symmetry: if `j` is the neighbor of `i` through `face`, then `i` is the
/// neighbor of `j` through the opposite face.
pub proof fn lemma_neighbor_symmetry(dims: Dimensions, i: int, face: Face)
    requires
        valid_dims(dims),
        0 <= i < voxel_count(dims),
    ensures
        neighbor_spec(dims, i, face) is Some ==> neighbor_spec(
            dims,
            neighbor_spec(dims, i, face)->0,
            opposite_face(face),
        ) == Some(i),
{
    lemma_coords_of_index(dims, i);
    let c = coords(dims, i);
    match face {
        Face::Top => if c.1 + 1 < dims.1 {
            lemma_index_of_coords(dims, c.0, c.1 + 1, c.2);
        },
        Face::Bottom => if c.1 > 0 {
            lemma_index_of_coords(dims, c.0, c.1 - 1, c.2);
        },
        Face::Right => if c.0 + 1 < dims.0 {
            lemma_index_of_coords(dims, c.0 + 1, c.1, c.2);
        },
        Face::Left => if c.0 > 0 {
            lemma_index_of_coords(dims, c.0 - 1, c.1, c.2);
        },
        Face::Back => if c.2 + 1 < dims.2 {
            lemma_index_of_coords(dims, c.0, c.1, c.2 + 1);
        },
        Face::Forward => if c.2 > 0 {
            lemma_index_of_coords(dims, c.0, c.1, c.2 - 1);
        },
    }
}

/// Whether `x` lies in the half-open range `bot..top`.
pub fn in_range(x: usize, bot: usize, top: usize) -> (r: bool)
    ensures
        r == (bot <= x && x < top),
{
    bot <= x && x < top
}

/// The (width, height, length) coordinates of a linear index of the grid.
pub fn three_d_cords(oned: usize, dims: Dimensions) -> (r: (usize, usize, usize))
    requires
        valid_dims(dims),
        oned < voxel_count(dims),
    ensures
        r.0 as int == coords(dims, oned as int).0,
        r.1 as int == coords(dims, oned as int).1,
        r.2 as int == coords(dims, oned as int).2,
        in_bounds(dims, r.0 as int, r.1 as int, r.2 as int),
        linear(dims, r.0 as int, r.1 as int, r.2 as int) == oned,
{
    proof {
        lemma_layer_bounds(dims);
        lemma_coords_of_index(dims, oned as int);
    }
    let layer = dims.0 * dims.2;
    let h = oned / layer;
    let rest = oned % layer;
    let l = rest / dims.0;
    let w = rest % dims.0;
    (w, h, l)
}

/// The coordinates of a linear index as an array `[width, height, length]`.
pub fn three_d_cords_arr(oned: usize, dims: Dimensions) -> (r: [usize; 3])
    requires
        valid_dims(dims),
        oned < voxel_count(dims),
    ensures
        r[0] as int == coords(dims, oned as int).0,
        r[1] as int == coords(dims, oned as int).1,
        r[2] as int == coords(dims, oned as int).2,
        in_bounds(dims, r[0] as int, r[1] as int, r[2] as int),
        linear(dims, r[0] as int, r[1] as int, r[2] as int) == oned,
{
    let (w, h, l) = three_d_cords(oned, dims);
    [w, h, l]
}

/// The linear index of in-bounds coordinates `[width, height, length]`.
pub fn one_d_cords(threed: [usize; 3], dims: Dimensions) -> (r: usize)
    requires
        valid_dims(dims),
        in_bounds(dims, threed[0] as int, threed[1] as int, threed[2] as int),
    ensures
        r == linear(dims, threed[0] as int, threed[1] as int, threed[2] as int),
        r < voxel_count(dims),
{
    proof {
        lemma_layer_bounds(dims);
        lemma_index_of_coords(dims, threed[0] as int, threed[1] as int, threed[2] as int);
        assert(threed[2] * dims.0 >= 0) by (nonlinear_arith);
        assert(threed[1] * (dims.0 * dims.2) >= 0) by (nonlinear_arith);
    }
    threed[1] * (dims.0 * dims.2) + threed[2] * dims.0 + threed[0]
}

/// The linear index of coordinates `[width, height, length]`, or `None` where they lie
/// outside the grid.
pub fn one_d_cords_safe(threed: [usize; 3], dims: Dimensions) -> (r: Option<usize>)
    requires
        valid_dims(dims),
    ensures
        r is Some <==> in_bounds(dims, threed[0] as int, threed[1] as int, threed[2] as int),
        r is Some ==> r->0 == linear(dims, threed[0] as int, threed[1] as int, threed[2] as int),
{
    if threed[0] >= dims.0 || threed[1] >= dims.1 || threed[2] >= dims.2 {
        None
    } else {
        Some(one_d_cords(threed, dims))
    }
}

/// The faces among the first `k` in canonical order on whose side voxel `i` lies on the
/// outer layer of the grid.
pub open spec fn edge_faces_upto(dims: Dimensions, i: int, k: nat) -> Seq<Face>
    decreases k,
{
    if k == 0 {
        Seq::empty()
    } else {
        let f = face_of_index((k - 1) as nat);
        let rest = edge_faces_upto(dims, i, (k - 1) as nat);
        if on_edge(dims, i, f) {
            rest.push(f)
        } else {
            rest
        }
    }
}

/// The horizontal outer-layer faces of voxel `i` among the first `k` faces, each with the
/// index that the adjacent chunk uses for the voxel across that face.
pub open spec fn across_upto(dims: Dimensions, i: int, k: nat) -> Seq<(Face, int)>
    decreases k,
{
    if k == 0 {
        Seq::empty()
    } else {
        let f = face_of_index((k - 1) as nat);
        let rest = across_upto(dims, i, (k - 1) as nat);
        if on_edge(dims, i, f) && is_horizontal(f) {
            rest.push((f, across_chunk_spec(dims, i, f)))
        } else {
            rest
        }
    }
}

/// The indices below `k`, in increasing order, of the voxels on the outer layer of the
/// grid on the side of `face`.
pub open spec fn edge_indices_upto(dims: Dimensions, face: Face, k: nat) -> Seq<int>
    decreases k,
{
    if k == 0 {
        Seq::empty()
    } else {
        let rest = edge_indices_upto(dims, face, (k - 1) as nat);
        if on_edge(dims, (k - 1) as int, face) {
            rest.push((k - 1) as int)
        } else {
            rest
        }
    }
}

/// The neighbor of `voxel` through `face`, or `None` where it would lie outside the grid.
pub fn get_neighbor(voxel: usize, face: Face, dims: Dimensions) -> (r: Option<usize>)
    requires
        valid_dims(dims),
        voxel < voxel_count(dims),
    ensures
        match r {
            Some(j) => neighbor_spec(dims, voxel as int, face) == Some(j as int),
            None => neighbor_spec(dims, voxel as int, face) is None,
        },
        r is Some ==> r->0 < voxel_count(dims),
{
    let a = three_d_cords(voxel, dims);
    proof {
        lemma_neighbor_in_grid(dims, voxel as int, face);
    }
    match face {
        Face::Top => if a.1 + 1 < dims.1 {
            Some(one_d_cords([a.0, a.1 + 1, a.2], dims))
        } else {
            None
        },
        Face::Bottom => if a.1 > 0 {
            Some(one_d_cords([a.0, a.1 - 1, a.2], dims))
        } else {
            None
        },
        Face::Back => if a.2 + 1 < dims.2 {
            Some(one_d_cords([a.0, a.1, a.2 + 1], dims))
        } else {
            None
        },
        Face::Forward => if a.2 > 0 {
            Some(one_d_cords([a.0, a.1, a.2 - 1], dims))
        } else {
            None
        },
        Face::Right => if a.0 + 1 < dims.0 {
            Some(one_d_cords([a.0 + 1, a.1, a.2], dims))
        } else {
            None
        },
        Face::Left => if a.0 > 0 {
            Some(one_d_cords([a.0 - 1, a.1, a.2], dims))
        } else {
            None
        },
    }
}

/// Whether voxel `index` lies on the outer layer of the grid on the side of `face`.
pub fn is_on_edge(dims: Dimensions, index: usize, face: Face) -> (r: bool)
    requires
        valid_dims(dims),
        index < voxel_count(dims),
    ensures
        r == on_edge(dims, index as int, face),
{
    let c = three_d_cords(index, dims);
    match face {
        Face::Top => c.1 == dims.1 - 1,
        Face::Bottom => c.1 == 0,
        Face::Right => c.0 == dims.0 - 1,
        Face::Left => c.0 == 0,
        Face::Back => c.2 == dims.2 - 1,
        Face::Forward => c.2 == 0,
    }
}

/// The faces, in canonical order, on whose side voxel `index` lies on the outer layer of
/// the grid.
pub fn is_block_on_edge(dims: Dimensions, index: usize) -> (r: Vec<Face>)
    requires
        valid_dims(dims),
        index < voxel_count(dims),
    ensures
        r@ == edge_faces_upto(dims, index as int, 6),
{
    let mut to_return: Vec<Face> = Vec::new();
    let mut i: usize = 0;
    while i < 6
        invariant
            valid_dims(dims),
            index < voxel_count(dims),
            i <= 6,
            to_return@ == edge_faces_upto(dims, index as int, i as nat),
        decreases 6 - i,
    {
        let face = Face::from_index(i);
        if is_on_edge(dims, index, face) {
            to_return.push(face);
        }
        i += 1;
    }
    to_return
}

/// The indices, in increasing order, of the voxels on the outer layer of the grid on the
/// side of `face`.
pub fn iter_faces_of_chunk(dims: Dimensions, face: Face) -> (r: Vec<usize>)
    requires
        valid_dims(dims),
    ensures
        r@.map_values(|x: usize| x as int) == edge_indices_upto(dims, face, voxel_count(dims) as nat),
{
    proof {
        lemma_layer_bounds(dims);
    }
    let n = dims.0 * dims.1 * dims.2;
    let mut all: Vec<usize> = Vec::new();
    let mut i: usize = 0;
    while i < n
        invariant
            valid_dims(dims),
            n == voxel_count(dims),
            i <= n,
            all@.map_values(|x: usize| x as int) == edge_indices_upto(dims, face, i as nat),
        decreases n - i,
    {
        if is_on_edge(dims, i, face) {
            all.push(i);
            assert(all@.map_values(|x: usize| x as int) =~= edge_indices_upto(dims, face, i as nat).push(i as int));
        }
        i += 1;
    }
    all
}

/// The index that an adjacent chunk of the same dimensions uses for the voxel touching
/// `index` through the horizontal `face`; `index` must lie on that edge.
pub fn get_neigbhor_across_chunk(dims: Dimensions, index: usize, face: Face) -> (r: usize)
    requires
        valid_dims(dims),
        index < voxel_count(dims),
        is_horizontal(face),
        on_edge(dims, index as int, face),
    ensures
        r == across_chunk_spec(dims, index as int, face),
        r < voxel_count(dims),
{
    let c = three_d_cords(index, dims);
    proof {
        lemma_coords_of_index(dims, index as int);
    }
    match face {
        Face::Right => one_d_cords([0, c.1, c.2], dims),
        Face::Left => one_d_cords([dims.0 - 1, c.1, c.2], dims),
        Face::Back => one_d_cords([c.0, c.1, 0], dims),
        _ => one_d_cords([c.0, c.1, dims.2 - 1], dims),
    }
}

/// The horizontal faces on which voxel `index` lies on the outer layer, in canonical order,
/// each with the index that the adjacent chunk uses for the voxel across that face.
pub fn get_neigbhors_from_across_chunks(dims: Dimensions, index: usize) -> (r: Vec<(Face, usize)>)
    requires
        valid_dims(dims),
        index < voxel_count(dims),
    ensures
        r@.map_values(|p: (Face, usize)| (p.0, p.1 as int)) == across_upto(dims, index as int, 6),
{
    let mut out: Vec<(Face, usize)> = Vec::new();
    let mut i: usize = 0;
    while i < 6
        invariant
            valid_dims(dims),
            index < voxel_count(dims),
            i <= 6,
            out@.map_values(|p: (Face, usize)| (p.0, p.1 as int)) == across_upto(dims, index as int, i as nat),
        decreases 6 - i,
    {
        let face = Face::from_index(i);
        if i >= 2 && is_on_edge(dims, index, face) {
            let j = get_neigbhor_across_chunk(dims, index, face);
            out.push((face, j));
            assert(out@.map_values(|p: (Face, usize)| (p.0, p.1 as int)) =~= across_upto(dims, index as int, i as nat).push((face, j as int)));
        }
        i += 1;
    }
    out
}

/// The voxel reached from voxel `i` by the offset (dx, dy, dz), and the horizontal
/// direction of the chunk it lies in (`None` for this chunk): width and length wrap into
/// the neighboring chunks, East for width and North for length. `None` where the height
/// leaves the grid.
pub open spec fn offset_spec(dims: Dimensions, i: int, dx: int, dy: int, dz: int) -> Option<
    (Option<Direction>, int),
> {
    let c = coords(dims, i);
    let h = c.1 + dy;
    if h < 0 || h >= dims.1 {
        None
    } else {
        let w = c.0 + dx;
        let l = c.2 + dz;
        Some(
            (
                dir_of_change(w / dims.0 as int, l / dims.2 as int),
                linear(dims, w % dims.0 as int, h, l % dims.2 as int),
            ),
        )
    }
}

/// The voxel reached from `index` by the offset (dx, dy, dz), with the direction of the
/// neighboring chunk it lies in when the offset crosses the chunk's width or length;
/// `None` where it leaves the grid's height. The horizontal offsets span one chunk at most.
pub fn offset_by(dims: Dimensions, index: usize, dx: i32, dy: i32, dz: i32) -> (r: Option<
    (Option<Direction>, usize),
>)
    requires
        valid_dims(dims),
        index < voxel_count(dims),
        dims.0 <= i32::MAX && dims.1 <= i32::MAX && dims.2 <= i32::MAX,
        -dims.0 <= dx <= dims.0,
        -dims.2 <= dz <= dims.2,
    ensures
        match r {
            None => offset_spec(dims, index as int, dx as int, dy as int, dz as int) is None,
            Some((d, j)) => offset_spec(dims, index as int, dx as int, dy as int, dz as int)
                == Some((d, j as int)),
        },
        r matches Some((_, j)) ==> j < voxel_count(dims),
{
    let c = three_d_cords(index, dims);
    proof {
        lemma_coords_of_index(dims, index as int);
    }
    let h: i64 = c.1 as i64 + dy as i64;
    if h < 0 || h >= dims.1 as i64 {
        return None;
    }
    let w: i64 = c.0 as i64 + dx as i64;
    let l: i64 = c.2 as i64 + dz as i64;
    let width = dims.0 as i64;
    let length = dims.2 as i64;
    let (cw, nw): (i32, i64) = if w < 0 {
        (-1, w + width)
    } else if w >= width {
        (1, w - width)
    } else {
        (0, w)
    };
    let (cl, nl): (i32, i64) = if l < 0 {
        (-1, l + length)
    } else if l >= length {
        (1, l - length)
    } else {
        (0, l)
    };
    proof {
        lemma_fundamental_div_mod_converse(w as int, width as int, cw as int, nw as int);
        lemma_fundamental_div_mod_converse(l as int, length as int, cl as int, nl as int);
    }
    let dir = from_cords_change([cw, cl]);
    let j = one_d_cords([nw as usize, h as usize, nl as usize], dims);
    Some((dir, j))
}

/// Whether voxel value `voxel` covers every side marked in `faces`.
pub fn covering_multiple_faces(reg: &VoxelRegistry, voxel: &usize, faces: [bool; 6]) -> (r: bool)
    ensures
        r == forall|f: Face| #[trigger] faces[face_index(f) as int] ==> covers(reg, *voxel, f),
{
    let mut i: usize = 0;
    while i < 6
        invariant
            i <= 6,
            forall|f: Face| face_index(f) < i && #[trigger] faces[face_index(f) as int] ==> covers(reg, *voxel, f),
        decreases 6 - i,
    {
        let face = Face::from_index(i);
        if faces[i] && !reg.is_covering(voxel, face) {
            return false;
        }
        i += 1;
    }
    true
}

} // verus!
