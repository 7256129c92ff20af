use meshem::face::Face;
use meshem::grid::covering_multiple_faces;
use meshem::mesh::{
    extract_indices_data, CubeTemplate, Mesh, QuadTemplate, VoxelDef, VoxelMesh, VoxelRegistry,
};
use meshem::meshem::{mesh_grid, MeshingAlgorithm};
use meshem::metadata::{MeshMD, VoxelChange};
use meshem::update::update_mesh;
use meshem::vivi::VIVI;

const AIR: usize = 0;
const STONE: usize = 1;
const ALL_FACES: [Face; 6] = [
    Face::Top,
    Face::Bottom,
    Face::Right,
    Face::Left,
    Face::Back,
    Face::Forward,
];
const TRIANGLES: [u32; 6] = [0, 1, 2, 2, 3, 0];

fn cube_template() -> CubeTemplate {
    let mut faces = [None; 6];
    for (f, slot) in faces.iter_mut().enumerate() {
        let b = 4 * f as u32;
        *slot = Some(QuadTemplate { vertices: [b, b + 1, b + 2, b + 3], triangles: TRIANGLES });
    }
    CubeTemplate { faces }
}

fn registry() -> VoxelRegistry {
    VoxelRegistry {
        voxels: vec![
            VoxelDef { mesh: VoxelMesh::Null, covering: [false; 6] },
            VoxelDef { mesh: VoxelMesh::NormalCube(cube_template()), covering: [true; 6] },
        ],
    }
}

/// Every listed quad holds its template's vertices and indices.
fn check_consistency(mesh: &Mesh, md: &MeshMD) {
    let n = md.vivi.voxel_count();
    let mut listed = 0;
    for v in 0..n {
        for f in ALL_FACES {
            if let Some(x) = md.vivi.get_quad_index(f, v) {
                listed += 1;
                let x = x as usize;
                assert_eq!(x % 4, 0);
                for k in 0..4 {
                    let vert = mesh.vertices[x + k];
                    assert_eq!(vert.voxel, v);
                    assert_eq!(vert.source, (4 * f.index() + k) as u32);
                }
                for k in 0..6 {
                    assert_eq!(mesh.indices[x / 4 * 6 + k], x as u32 + TRIANGLES[k]);
                }
            }
        }
    }
    assert_eq!(listed * 4, mesh.count_vertices());
    assert_eq!(listed * 6, mesh.count_indices());
    assert_eq!(listed, md.vivi.len());
}

#[test]
fn full_cube_of_eight() {
    let reg = registry();
    let grid = vec![STONE; 8];
    let (mesh, md) = mesh_grid((2, 2, 2), &[], &grid, &reg, MeshingAlgorithm::Culling).unwrap();
    assert_eq!(mesh.count_vertices(), 96);
    assert_eq!(mesh.count_indices(), 144);
    check_consistency(&mesh, &md);
    // voxel 0 is the bottom-left-forward corner
    assert!(md.vivi.get_quad_index(Face::Bottom, 0).is_some());
    assert!(md.vivi.get_quad_index(Face::Top, 0).is_none());
}

#[test]
fn single_voxel_mesh() {
    let reg = registry();
    let (mesh, md) = mesh_grid((1, 1, 1), &[], &[STONE], &reg, MeshingAlgorithm::Culling).unwrap();
    assert_eq!(mesh.count_vertices(), 24);
    assert_eq!(mesh.count_indices(), 36);
    for (i, v) in mesh.vertices.iter().enumerate() {
        assert_eq!(v.source, i as u32);
        assert_eq!(v.value, STONE);
        assert_eq!(v.voxel, 0);
    }
    for (i, &x) in mesh.indices.iter().enumerate() {
        assert_eq!(x, (i / 6 * 4) as u32 + TRIANGLES[i % 6]);
    }
    for (i, f) in ALL_FACES.iter().enumerate() {
        assert_eq!(md.vivi.get_quad_index(*f, 0), Some(4 * i as u32));
    }
    assert_eq!(md.occupancy.get(0), Some(true));
    check_consistency(&mesh, &md);
}

#[test]
fn break_single_voxel() {
    let reg = registry();
    let (mut mesh, mut md) =
        mesh_grid((1, 1, 1), &[], &[STONE], &reg, MeshingAlgorithm::Culling).unwrap();
    md.log(VoxelChange::Broken, 0, STONE, [None; 6]);
    update_mesh(&mut mesh, &mut md, &reg);
    assert_eq!(mesh.count_vertices(), 0);
    assert_eq!(mesh.count_indices(), 0);
    assert_eq!(md.vivi.len(), 0);
    assert_eq!(md.changed_voxels.len(), 0);
}

#[test]
fn row_with_gap() {
    let reg = registry();
    let grid = [STONE, AIR, STONE];
    let (mesh, md) = mesh_grid((3, 1, 1), &[], &grid, &reg, MeshingAlgorithm::Culling).unwrap();
    // the middle voxel is empty, so both solid voxels expose all six faces
    assert_eq!(mesh.count_vertices(), 48);
    assert_eq!(mesh.count_indices(), 72);
    assert!(md.vivi.get_quad_index(Face::Right, 0).is_some());
    assert!(md.vivi.get_quad_index(Face::Left, 2).is_some());
    assert_eq!(md.occupancy.get(1), Some(false));
    check_consistency(&mesh, &md);
}

#[test]
fn empty_grid_gives_empty_mesh() {
    let reg = registry();
    let grid = vec![AIR; 27];
    let (mesh, md) = mesh_grid((3, 3, 3), &[], &grid, &reg, MeshingAlgorithm::Culling).unwrap();
    assert_eq!(mesh.count_vertices(), 0);
    assert_eq!(mesh.count_indices(), 0);
    assert_eq!(md.vivi.len(), 0);
    let (mesh, _) = mesh_grid((3, 3, 3), &[], &grid, &reg, MeshingAlgorithm::Naive).unwrap();
    assert_eq!(mesh.count_vertices(), 0);
}

#[test]
fn outer_layer_mask_culls_listed_edges() {
    let reg = registry();
    let (mesh, md) =
        mesh_grid((1, 1, 1), &[Face::Bottom], &[STONE], &reg, MeshingAlgorithm::Culling).unwrap();
    assert_eq!(mesh.count_vertices(), 20);
    assert!(md.vivi.get_quad_index(Face::Bottom, 0).is_none());
    assert_eq!(md.vivi.get_quad_index(Face::Top, 0), Some(0));
    assert_eq!(md.vivi.get_quad_index(Face::Right, 0), Some(4));
    let all = [Face::Top, Face::Bottom, Face::Right, Face::Left, Face::Back, Face::Forward];
    let (mesh, md) = mesh_grid((1, 1, 1), &all, &[STONE], &reg, MeshingAlgorithm::Culling).unwrap();
    assert_eq!(mesh.count_vertices(), 0);
    assert_eq!(md.occupancy.get(0), Some(false));
}

#[test]
fn naive_meshing_emits_every_face() {
    let reg = registry();
    let grid = vec![STONE; 8];
    let (mesh, md) = mesh_grid((2, 2, 2), &[], &grid, &reg, MeshingAlgorithm::Naive).unwrap();
    assert_eq!(mesh.count_vertices(), 8 * 24);
    assert_eq!(mesh.count_indices(), 8 * 36);
    check_consistency(&mesh, &md);
}

#[test]
fn reverse_index_operations() {
    let mut vivi = VIVI::new(3);
    vivi.insert(Face::Top, 1, 8);
    vivi.insert(Face::Left, 1, 12);
    vivi.insert(Face::Top, 2, 0);
    assert_eq!(vivi.len(), 3);
    assert_eq!(vivi.get_quad_index(Face::Top, 1), Some(8));
    assert_eq!(vivi.get_quad_index(Face::Left, 1), Some(12));
    assert_eq!(vivi.get_quad_index(Face::Right, 1), None);
    assert_eq!(vivi.get_quad_index(Face::Top, 0), None);
    vivi.change_quad_index(12, 4);
    assert_eq!(vivi.get_quad_index(Face::Left, 1), Some(4));
    vivi.remove_quad(8);
    assert_eq!(vivi.get_quad_index(Face::Top, 1), None);
    assert_eq!(vivi.get_quad_index(Face::Left, 1), Some(4));
    assert_eq!(vivi.get_quad_index(Face::Top, 2), Some(0));
    assert_eq!(vivi.len(), 2);
}

#[test]
fn voxel_mesh_unwrap() {
    let t = cube_template();
    assert_eq!(VoxelMesh::NormalCube(7u8).unwrap(), 7);
    assert_eq!(VoxelMesh::CustomMesh(9u8).expect("a mesh"), 9);
    assert_eq!(VoxelMesh::NormalCube(t).unwrap().faces[2].unwrap().vertices, [8, 9, 10, 11]);
    let reg = registry();
    assert!(reg.is_covering(&STONE, Face::Top));
    assert!(!reg.is_covering(&AIR, Face::Top));
    assert!(!reg.is_covering(&42, Face::Top));
    assert!(matches!(reg.get_mesh(&AIR), VoxelMesh::Null));
    assert!(matches!(reg.get_mesh(&42), VoxelMesh::Null));
    assert!(reg.quad(STONE, Face::Back).is_some());
    assert!(reg.quad(AIR, Face::Back).is_none());
}

#[test]
fn covering_several_sides() {
    let mut reg = registry();
    let mut slab = [false; 6];
    slab[Face::Bottom.index()] = true;
    reg.voxels.push(VoxelDef { mesh: VoxelMesh::NormalCube(cube_template()), covering: slab });
    let slab_value = 2;
    let mut bottom_and_top = [false; 6];
    bottom_and_top[Face::Bottom.index()] = true;
    assert!(covering_multiple_faces(&reg, &slab_value, bottom_and_top));
    bottom_and_top[Face::Top.index()] = true;
    assert!(!covering_multiple_faces(&reg, &slab_value, bottom_and_top));
    assert!(covering_multiple_faces(&reg, &STONE, [true; 6]));
    assert!(covering_multiple_faces(&reg, &AIR, [false; 6]));
    assert!(!covering_multiple_faces(&reg, &AIR, bottom_and_top));
}

#[test]
fn triangles_of_a_mesh() {
    let reg = registry();
    let (mesh, _) = mesh_grid((1, 1, 1), &[], &[STONE], &reg, MeshingAlgorithm::Culling).unwrap();
    let tris = extract_indices_data(&mesh);
    assert_eq!(tris.len(), 12);
    assert_eq!(tris[0], [0, 1, 2]);
    assert_eq!(tris[1], [2, 3, 0]);
    assert_eq!(tris[11], [22, 23, 20]);
}

#[test]
fn row_with_gap_under_outer_mask() {
    let reg = registry();
    let grid = [STONE, AIR, STONE];
    let outer = [Face::Top, Face::Bottom, Face::Back, Face::Forward];
    let (mesh, md) = mesh_grid((3, 1, 1), &outer, &grid, &reg, MeshingAlgorithm::Culling).unwrap();
    assert_eq!(mesh.count_vertices(), 16);
    assert!(md.vivi.get_quad_index(Face::Right, 0).is_some());
    assert!(md.vivi.get_quad_index(Face::Left, 0).is_some());
    assert!(md.vivi.get_quad_index(Face::Left, 2).is_some());
    assert!(md.vivi.get_quad_index(Face::Right, 2).is_some());
    for f in ALL_FACES {
        assert!(md.vivi.get_quad_index(f, 1).is_none());
    }
    check_consistency(&mesh, &md);
}
