use meshem::direction::{from_cords_change, to_cords, Direction};
use meshem::face::{face_from_u32, face_to_u32, Face, OFFSET_CONST, REVERSE_OFFSET_CONST};
use meshem::grid::{
    get_neighbor, get_neigbhor_across_chunk, get_neigbhors_from_across_chunks, in_range,
    is_block_on_edge, iter_faces_of_chunk, offset_by, one_d_cords, one_d_cords_safe, three_d_cords,
    three_d_cords_arr,
};

const ALL_FACES: [Face; 6] = [
    Face::Top,
    Face::Bottom,
    Face::Right,
    Face::Left,
    Face::Back,
    Face::Forward,
];

#[test]
fn round_trip_addressing() {
    let dims = (3, 4, 5);
    for i in 0..60 {
        let (w, h, l) = three_d_cords(i, dims);
        assert!(w < 3 && h < 4 && l < 5);
        assert_eq!(one_d_cords([w, h, l], dims), i);
        assert_eq!(three_d_cords_arr(i, dims), [w, h, l]);
    }
    assert_eq!(three_d_cords(0, dims), (0, 0, 0));
    assert_eq!(three_d_cords(1, dims), (1, 0, 0));
    assert_eq!(three_d_cords(3, dims), (0, 0, 1));
    assert_eq!(three_d_cords(15, dims), (0, 1, 0));
    assert_eq!(three_d_cords(59, dims), (2, 3, 4));
    assert_eq!(one_d_cords([2, 1, 3], dims), 15 + 9 + 2);
}

#[test]
fn safe_linear_index() {
    let dims = (2, 2, 2);
    assert_eq!(one_d_cords_safe([1, 1, 1], dims), Some(7));
    assert_eq!(one_d_cords_safe([2, 0, 0], dims), None);
    assert_eq!(one_d_cords_safe([0, 2, 0], dims), None);
    assert_eq!(one_d_cords_safe([0, 0, 2], dims), None);
    assert!(in_range(3, 3, 4));
    assert!(!in_range(4, 3, 4));
    assert!(!in_range(2, 3, 4));
}

#[test]
fn face_opposite_involution() {
    for f in ALL_FACES {
        assert_eq!(f.opposite().opposite(), f);
        assert_ne!(f.opposite(), f);
    }
    assert_eq!(Face::Top.opposite(), Face::Bottom);
    assert_eq!(Face::Right.opposite(), Face::Left);
    assert_eq!(Face::Back.opposite(), Face::Forward);
}

#[test]
fn face_tags_and_indices() {
    for (i, f) in ALL_FACES.iter().enumerate() {
        assert_eq!(f.index(), i);
        assert_eq!(Face::from_index(i), *f);
        let tag = face_to_u32(*f);
        assert_eq!(tag & OFFSET_CONST, 0);
        assert_eq!(face_from_u32(tag), *f);
        let packed = 12345u32 | tag;
        assert_eq!(packed & OFFSET_CONST, 12345);
        assert_eq!(packed & REVERSE_OFFSET_CONST, tag);
    }
    assert_eq!(face_to_u32(Face::Top), 2_684_354_560);
    assert_eq!(face_to_u32(Face::Forward), 0);
}

#[test]
fn neighbors_in_grid() {
    let dims = (2, 2, 2);
    assert_eq!(get_neighbor(0, Face::Top, dims), Some(4));
    assert_eq!(get_neighbor(5, Face::Top, dims), None);
    assert_eq!(get_neighbor(0, Face::Right, dims), Some(1));
    assert_eq!(get_neighbor(0, Face::Left, dims), None);
    assert_eq!(get_neighbor(0, Face::Back, dims), Some(2));
    assert_eq!(get_neighbor(0, Face::Forward, dims), None);
    assert_eq!(get_neighbor(7, Face::Bottom, dims), Some(3));
}

#[test]
fn neighbor_symmetry() {
    let dims = (3, 2, 4);
    for i in 0..24 {
        for f in ALL_FACES {
            if let Some(j) = get_neighbor(i, f, dims) {
                assert_eq!(get_neighbor(j, f.opposite(), dims), Some(i));
            }
        }
    }
}

#[test]
fn edges_of_grid() {
    let dims = (2, 2, 2);
    assert_eq!(
        is_block_on_edge(dims, 0),
        vec![Face::Bottom, Face::Left, Face::Forward]
    );
    assert_eq!(is_block_on_edge(dims, 7), vec![Face::Top, Face::Right, Face::Back]);
    let dims = (3, 3, 3);
    assert_eq!(is_block_on_edge(dims, 13), Vec::<Face>::new());
    assert_eq!(iter_faces_of_chunk((2, 2, 2), Face::Right), vec![1, 3, 5, 7]);
    assert_eq!(iter_faces_of_chunk((2, 2, 2), Face::Bottom), vec![0, 1, 2, 3]);
    assert_eq!(iter_faces_of_chunk((3, 1, 1), Face::Back), vec![0, 1, 2]);
}

#[test]
fn neighbors_across_chunks() {
    let dims = (3, 2, 4);
    // voxel (2, 1, 3) is on the Right, Top and Back edges
    let i = one_d_cords([2, 1, 3], dims);
    assert_eq!(get_neigbhor_across_chunk(dims, i, Face::Right), one_d_cords([0, 1, 3], dims));
    assert_eq!(get_neigbhor_across_chunk(dims, i, Face::Back), one_d_cords([2, 1, 0], dims));
    let j = one_d_cords([0, 0, 0], dims);
    assert_eq!(get_neigbhor_across_chunk(dims, j, Face::Left), one_d_cords([2, 0, 0], dims));
    assert_eq!(get_neigbhor_across_chunk(dims, j, Face::Forward), one_d_cords([0, 0, 3], dims));
    assert_eq!(
        get_neigbhors_from_across_chunks(dims, i),
        vec![
            (Face::Right, one_d_cords([0, 1, 3], dims)),
            (Face::Back, one_d_cords([2, 1, 0], dims)),
        ]
    );
    let inner = one_d_cords([1, 0, 1], dims);
    assert_eq!(get_neigbhors_from_across_chunks(dims, inner), vec![]);
}

#[test]
fn compass_directions() {
    assert_eq!(
        Direction::add_direction(Some(Direction::North), Some(Direction::East)),
        Some(Direction::NoEast)
    );
    assert_eq!(
        Direction::add_direction(None, Some(Direction::West)),
        Some(Direction::West)
    );
    assert_eq!(Direction::add_direction(Some(Direction::SoWest), None), Some(Direction::SoWest));
    assert_eq!(Direction::add_direction(None, None), None);
    assert_eq!(
        Direction::add_direction(Some(Direction::NoEast), Some(Direction::South)),
        Some(Direction::East)
    );
    assert_eq!(Direction::NoWest.opposite(), Direction::SoEast);
    assert_eq!(Direction::North.opposite().opposite(), Direction::North);
    assert_eq!(
        Direction::SoEast.decompose(),
        (Some(Direction::South), Some(Direction::East))
    );
    assert_eq!(Direction::West.decompose(), (None, Some(Direction::West)));
    assert_eq!(to_cords(Some(Direction::NoWest)), [-1, 1]);
    assert_eq!(to_cords(None), [0, 0]);
    assert_eq!(from_cords_change([2, -3]), Some(Direction::SoEast));
    assert_eq!(from_cords_change([0, 0]), None);
    assert_eq!(from_cords_change([-1, 0]), Some(Direction::West));
    assert_eq!(Direction::from_face(Face::Back), Direction::North);
    assert_eq!(Direction::from_face(Face::Left), Direction::West);
    assert_eq!(Direction::NoEast.to_face(), Face::Back);
    assert_eq!(Direction::East.to_face(), Face::Right);
    assert_eq!(Direction::from_u8(6), Direction::NoWest);
    assert_eq!(Direction::SoWest.index(), 7);
    assert_eq!(Direction::SoWest.name(), "SoWest");
}

#[test]
fn offsets_wrap_across_chunks() {
    let dims = (3, 2, 4);
    let i = one_d_cords([2, 0, 3], dims);
    assert_eq!(offset_by(dims, i, 0, 1, 0), Some((None, one_d_cords([2, 1, 3], dims))));
    assert_eq!(offset_by(dims, i, 0, -1, 0), None);
    assert_eq!(offset_by(dims, i, 0, 2, 0), None);
    assert_eq!(
        offset_by(dims, i, 1, 0, 0),
        Some((Some(Direction::East), one_d_cords([0, 0, 3], dims)))
    );
    assert_eq!(
        offset_by(dims, i, 1, 1, 1),
        Some((Some(Direction::NoEast), one_d_cords([0, 1, 0], dims)))
    );
    let j = one_d_cords([0, 1, 0], dims);
    assert_eq!(
        offset_by(dims, j, -1, 0, -1),
        Some((Some(Direction::SoWest), one_d_cords([2, 1, 3], dims)))
    );
    assert_eq!(
        offset_by(dims, j, 1, -1, -1),
        Some((Some(Direction::South), one_d_cords([1, 0, 3], dims)))
    );
}
