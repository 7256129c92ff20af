use meshem::adj::introduce_adjacent_chunks;
use meshem::face::Face;
use meshem::grid::get_neighbor;
use meshem::mesh::{CubeTemplate, Mesh, QuadTemplate, VoxelDef, VoxelMesh, VoxelRegistry};
use meshem::meshem::{mesh_grid, MeshingAlgorithm};
use meshem::metadata::{MeshMD, VoxelChange};
use meshem::update::update_mesh;
use meshem::Dimensions;

const AIR: usize = 0;
const STONE: usize = 1;
const GLASS: usize = 2;
const ALL_FACES: [Face; 6] = [
    Face::Top,
    Face::Bottom,
    Face::Right,
    Face::Left,
    Face::Back,
    Face::Forward,
];
const TRIANGLES: [u32; 6] = [0, 1, 2, 2, 3, 0];

fn cube_template() -> CubeTemplate {
    let mut faces = [None; 6];
    for (f, slot) in faces.iter_mut().enumerate() {
        let b = 4 * f as u32;
        *slot = Some(QuadTemplate { vertices: [b, b + 1, b + 2, b + 3], triangles: TRIANGLES });
    }
    CubeTemplate { faces }
}

fn registry() -> VoxelRegistry {
    VoxelRegistry {
        voxels: vec![
            VoxelDef { mesh: VoxelMesh::Null, covering: [false; 6] },
            VoxelDef { mesh: VoxelMesh::NormalCube(cube_template()), covering: [true; 6] },
            VoxelDef { mesh: VoxelMesh::NormalCube(cube_template()), covering: [false; 6] },
        ],
    }
}

fn snapshot(grid: &[usize], index: usize, dims: Dimensions) -> [Option<usize>; 6] {
    let mut nb = [None; 6];
    for f in ALL_FACES {
        if let Some(j) = get_neighbor(index, f, dims) {
            if grid[j] != AIR {
                nb[f.index()] = Some(grid[j]);
            }
        }
    }
    nb
}

/// Every listed quad holds its template's vertices and indices, and nothing else is there.
fn check_consistency(mesh: &Mesh, md: &MeshMD) {
    let n = md.vivi.voxel_count();
    let mut listed = 0;
    for v in 0..n {
        for f in ALL_FACES {
            if let Some(x) = md.vivi.get_quad_index(f, v) {
                listed += 1;
                let x = x as usize;
                assert_eq!(x % 4, 0);
                for k in 0..4 {
                    let vert = mesh.vertices[x + k];
                    assert_eq!(vert.voxel, v);
                    assert_eq!(vert.source, (4 * f.index() + k) as u32);
                }
                for k in 0..6 {
                    assert_eq!(mesh.indices[x / 4 * 6 + k], x as u32 + TRIANGLES[k]);
                }
            }
        }
    }
    assert_eq!(listed * 4, mesh.count_vertices());
    assert_eq!(listed * 6, mesh.count_indices());
}

#[test]
fn break_and_restore_middle_of_row() {
    let reg = registry();
    let dims = (3, 1, 1);
    let mut grid = vec![STONE; 3];
    let (mut mesh, mut md) = mesh_grid(dims, &[], &grid, &reg, MeshingAlgorithm::Culling).unwrap();
    assert_eq!(mesh.count_vertices(), 14 * 4);
    let nb = snapshot(&grid, 1, dims);
    grid[1] = AIR;
    md.log(VoxelChange::Broken, 1, STONE, nb);
    update_mesh(&mut mesh, &mut md, &reg);
    assert_eq!(mesh.count_vertices(), 12 * 4);
    assert_eq!(mesh.count_indices(), 12 * 6);
    assert!(md.vivi.get_quad_index(Face::Right, 0).is_some());
    assert!(md.vivi.get_quad_index(Face::Left, 2).is_some());
    for f in ALL_FACES {
        assert!(md.vivi.get_quad_index(f, 1).is_none());
    }
    check_consistency(&mesh, &md);

    grid[1] = STONE;
    md.log(VoxelChange::Added, 1, STONE, nb);
    update_mesh(&mut mesh, &mut md, &reg);
    assert_eq!(mesh.count_vertices(), 14 * 4);
    assert_eq!(mesh.count_indices(), 14 * 6);
    assert!(md.vivi.get_quad_index(Face::Right, 0).is_none());
    assert!(md.vivi.get_quad_index(Face::Left, 2).is_none());
    assert!(md.vivi.get_quad_index(Face::Top, 1).is_some());
    assert!(md.vivi.get_quad_index(Face::Right, 1).is_none());
    check_consistency(&mesh, &md);
}

#[test]
fn full_cycle_keeps_counts() {
    let reg = registry();
    let dims = (2, 2, 2);
    let mut grid = vec![STONE; 8];
    grid[5] = AIR;
    let (mut mesh, mut md) = mesh_grid(dims, &[], &grid, &reg, MeshingAlgorithm::Culling).unwrap();
    let vertices = mesh.count_vertices();
    let indices = mesh.count_indices();
    let order = [3, 0, 7, 1, 6, 2, 4];
    let mut snapshots = vec![];
    for &i in order.iter() {
        let nb = snapshot(&grid, i, dims);
        grid[i] = AIR;
        md.log(VoxelChange::Broken, i, STONE, nb);
        snapshots.push((i, nb));
    }
    update_mesh(&mut mesh, &mut md, &reg);
    assert_eq!(mesh.count_vertices(), 0);
    assert_eq!(mesh.count_indices(), 0);
    for &(i, nb) in snapshots.iter().rev() {
        grid[i] = STONE;
        md.log(VoxelChange::Added, i, STONE, nb);
    }
    update_mesh(&mut mesh, &mut md, &reg);
    assert_eq!(mesh.count_vertices(), vertices);
    assert_eq!(mesh.count_indices(), indices);
    check_consistency(&mesh, &md);
}

#[test]
fn removal_in_the_middle_relocates_later_quads() {
    let reg = registry();
    let dims = (3, 1, 1);
    let grid = [STONE, AIR, STONE];
    let (mut mesh, mut md) = mesh_grid(dims, &[], &grid, &reg, MeshingAlgorithm::Culling).unwrap();
    // voxel 0's quads come first; cull its Top face, which is not the last quad
    let mut nb = [None; 6];
    nb[Face::Top.index()] = Some(STONE);
    md.log(VoxelChange::CullFaces, 0, STONE, nb);
    update_mesh(&mut mesh, &mut md, &reg);
    assert_eq!(mesh.count_vertices(), 11 * 4);
    assert!(md.vivi.get_quad_index(Face::Top, 0).is_none());
    assert_eq!(md.vivi.get_quad_index(Face::Bottom, 0), Some(0));
    assert_eq!(md.vivi.get_quad_index(Face::Forward, 2), Some(40));
    check_consistency(&mesh, &md);

    md.log(VoxelChange::AddFaces, 0, STONE, nb);
    update_mesh(&mut mesh, &mut md, &reg);
    assert_eq!(mesh.count_vertices(), 12 * 4);
    assert_eq!(md.vivi.get_quad_index(Face::Top, 0), Some(44));
    check_consistency(&mesh, &md);

    // revealing a face that is already there adds nothing
    md.log(VoxelChange::AddFaces, 0, STONE, nb);
    update_mesh(&mut mesh, &mut md, &reg);
    assert_eq!(mesh.count_vertices(), 12 * 4);
}

#[test]
fn added_next_to_non_covering_voxel() {
    let reg = registry();
    let dims = (2, 1, 1);
    let mut grid = vec![GLASS, AIR];
    let (mut mesh, mut md) = mesh_grid(dims, &[], &grid, &reg, MeshingAlgorithm::Culling).unwrap();
    assert_eq!(mesh.count_vertices(), 24);
    let nb = snapshot(&grid, 1, dims);
    grid[1] = STONE;
    md.log(VoxelChange::Added, 1, STONE, nb);
    update_mesh(&mut mesh, &mut md, &reg);
    // glass does not cover the stone, so the stone keeps its Left face; the stone covers
    // the glass, whose Right face goes
    assert!(md.vivi.get_quad_index(Face::Left, 1).is_some());
    assert!(md.vivi.get_quad_index(Face::Right, 0).is_none());
    assert_eq!(mesh.count_vertices(), (5 + 6) * 4);
    check_consistency(&mesh, &md);
}

#[test]
fn adjacent_chunks_are_stitched() {
    let reg = registry();
    let dims = (2, 1, 1);
    let grid = [STONE, STONE];
    let (mut mesh, mut md) = mesh_grid(dims, &[], &grid, &reg, MeshingAlgorithm::Culling).unwrap();
    assert_eq!(mesh.count_vertices(), 10 * 4);
    introduce_adjacent_chunks(&reg, &mut mesh, &mut md, Face::Right, &[STONE, AIR]);
    assert_eq!(mesh.count_vertices(), 9 * 4);
    assert!(md.vivi.get_quad_index(Face::Right, 1).is_none());
    assert!(md.vivi.get_quad_index(Face::Left, 0).is_some());
    check_consistency(&mesh, &md);
    introduce_adjacent_chunks(&reg, &mut mesh, &mut md, Face::Left, &[AIR, GLASS]);
    assert_eq!(mesh.count_vertices(), 9 * 4);
    introduce_adjacent_chunks(&reg, &mut mesh, &mut md, Face::Back, &[STONE, AIR]);
    assert!(md.vivi.get_quad_index(Face::Back, 0).is_none());
    assert!(md.vivi.get_quad_index(Face::Back, 1).is_some());
    assert_eq!(mesh.count_vertices(), 8 * 4);
    check_consistency(&mesh, &md);
}

#[test]
fn flushing_in_two_parts_matches_one_flush() {
    let reg = registry();
    let dims = (3, 2, 2);
    let grid = vec![STONE; 12];
    let (mut mesh_a, mut md_a) = mesh_grid(dims, &[], &grid, &reg, MeshingAlgorithm::Culling).unwrap();
    let (mut mesh_b, mut md_b) = mesh_grid(dims, &[], &grid, &reg, MeshingAlgorithm::Culling).unwrap();
    let mut g = grid.clone();
    let mut log = vec![];
    for &i in [4usize, 0, 11, 5].iter() {
        let nb = snapshot(&g, i, dims);
        g[i] = AIR;
        log.push((i, nb));
    }
    for &(i, nb) in log.iter() {
        md_a.log(VoxelChange::Broken, i, STONE, nb);
    }
    update_mesh(&mut mesh_a, &mut md_a, &reg);
    for (k, &(i, nb)) in log.iter().enumerate() {
        md_b.log(VoxelChange::Broken, i, STONE, nb);
        if k == 1 {
            update_mesh(&mut mesh_b, &mut md_b, &reg);
        }
    }
    update_mesh(&mut mesh_b, &mut md_b, &reg);
    assert_eq!(mesh_a.vertices, mesh_b.vertices);
    assert_eq!(mesh_a.indices, mesh_b.indices);
    check_consistency(&mesh_a, &md_a);
}

#[test]
fn repeated_reveal_leaves_buffers_alone() {
    let reg = registry();
    let (mut mesh, mut md) =
        mesh_grid((1, 1, 1), &[], &[STONE], &reg, MeshingAlgorithm::Culling).unwrap();
    let vertices = mesh.vertices.clone();
    let indices = mesh.indices.clone();
    md.log(VoxelChange::AddFaces, 0, STONE, [Some(STONE); 6]);
    update_mesh(&mut mesh, &mut md, &reg);
    assert_eq!(mesh.vertices, vertices);
    assert_eq!(mesh.indices, indices);
}

#[test]
fn broken_voxel_keeps_other_records() {
    let reg = registry();
    let dims = (3, 1, 1);
    let mut grid = vec![STONE; 3];
    let (mut mesh, mut md) = mesh_grid(dims, &[], &grid, &reg, MeshingAlgorithm::Culling).unwrap();
    let top2 = md.vivi.get_quad_index(Face::Top, 2).unwrap() as usize;
    let before: Vec<_> = mesh.vertices[top2..top2 + 4].to_vec();
    let nb = snapshot(&grid, 0, dims);
    grid[0] = AIR;
    md.log(VoxelChange::Broken, 0, STONE, nb);
    update_mesh(&mut mesh, &mut md, &reg);
    let now = md.vivi.get_quad_index(Face::Top, 2).unwrap() as usize;
    assert_eq!(mesh.vertices[now..now + 4].to_vec(), before);
    // the revealed Left face of voxel 1 is appended at the end
    assert_eq!(
        md.vivi.get_quad_index(Face::Left, 1),
        Some((mesh.count_vertices() - 4) as u32)
    );
}
