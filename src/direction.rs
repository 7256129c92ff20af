use crate::face::Face;
use vstd::prelude::*;

verus! {

/// The eight horizontal compass directions in which a neighboring chunk can lie.
#[derive(Clone, Copy, Debug, PartialEq, Eq, Structural)]
pub enum Direction {
    North,
    South,
    East,
    West,
    NoEast,
    NoWest,
    SoEast,
    SoWest,
}

/// The (east, north) unit step of a direction; no direction is no step.
pub open spec fn dir_cords(d: Option<Direction>) -> (int, int) {
    match d {
        None => (0, 0),
        Some(Direction::North) => (0, 1),
        Some(Direction::South) => (0, -1),
        Some(Direction::East) => (1, 0),
        Some(Direction::West) => (-1, 0),
        Some(Direction::NoEast) => (1, 1),
        Some(Direction::NoWest) => (-1, 1),
        Some(Direction::SoEast) => (1, -1),
        Some(Direction::SoWest) => (-1, -1),
    }
}

/// The direction of a step, by the signs of its (east, north) components; no step is no
/// direction.
pub open spec fn dir_of_change(x: int, y: int) -> Option<Direction> {
    if y < 0 {
        if x > 0 {
            Some(Direction::SoEast)
        } else if x == 0 {
            Some(Direction::South)
        } else {
            Some(Direction::SoWest)
        }
    } else if y == 0 {
        if x > 0 {
            Some(Direction::East)
        } else if x == 0 {
            None
        } else {
            Some(Direction::West)
        }
    } else {
        if x > 0 {
            Some(Direction::NoEast)
        } else if x == 0 {
            Some(Direction::North)
        } else {
            Some(Direction::NoWest)
        }
    }
}

/// The direction pointing the other way.
pub open spec fn opposite_dir(d: Direction) -> Direction {
    match d {
        Direction::North => Direction::South,
        Direction::South => Direction::North,
        Direction::East => Direction::West,
        Direction::West => Direction::East,
        Direction::SoEast => Direction::NoWest,
        Direction::NoWest => Direction::SoEast,
        Direction::SoWest => Direction::NoEast,
        Direction::NoEast => Direction::SoWest,
    }
}

/// The composition of two crossings: the direction of the sum of their steps. Composing
/// a direction with its opposite is left undefined.
pub open spec fn add_dir_spec(d1: Option<Direction>, d2: Option<Direction>) -> Option<Direction> {
    if d1 is None {
        d2
    } else if d2 is None {
        d1
    } else {
        let a = dir_cords(d1);
        let b = dir_cords(d2);
        dir_of_change(a.0 + b.0, a.1 + b.1)
    }
}

/// The (north-south, east-west) components of a direction.
pub open spec fn decompose_spec(d: Direction) -> (Option<Direction>, Option<Direction>) {
    match d {
        Direction::North => (Some(Direction::North), None),
        Direction::South => (Some(Direction::South), None),
        Direction::East => (None, Some(Direction::East)),
        Direction::West => (None, Some(Direction::West)),
        Direction::SoEast => (Some(Direction::South), Some(Direction::East)),
        Direction::NoWest => (Some(Direction::North), Some(Direction::West)),
        Direction::SoWest => (Some(Direction::South), Some(Direction::West)),
        Direction::NoEast => (Some(Direction::North), Some(Direction::East)),
    }
}

/// The direction of a horizontal face.
pub open spec fn dir_of_face(f: Face) -> Direction {
    match f {
        Face::Back => Direction::North,
        Face::Forward => Direction::South,
        Face::Right => Direction::East,
        Face::Left => Direction::West,
        Face::Top => Direction::North,
        Face::Bottom => Direction::South,
    }
}

/// The face that a direction points through: its north-south face for a diagonal.
pub open spec fn face_of_dir(d: Direction) -> Face {
    match d {
        Direction::NoWest | Direction::NoEast | Direction::North => Face::Back,
        Direction::SoWest | Direction::SoEast | Direction::South => Face::Forward,
        Direction::West => Face::Left,
        Direction::East => Face::Right,
    }
}

/// The unit step of a direction as `[east, north]`; `None` is no step.
pub fn to_cords(dir: Option<Direction>) -> (r: [i32; 2])
    ensures
        r[0] as int == dir_cords(dir).0,
        r[1] as int == dir_cords(dir).1,
{
    match dir {
        None => [0, 0],
        Some(Direction::North) => [0, 1],
        Some(Direction::South) => [0, -1],
        Some(Direction::East) => [1, 0],
        Some(Direction::West) => [-1, 0],
        Some(Direction::NoEast) => [1, 1],
        Some(Direction::NoWest) => [-1, 1],
        Some(Direction::SoEast) => [1, -1],
        Some(Direction::SoWest) => [-1, -1],
    }
}

/// The direction of a step `[east, north]`, by the signs of its components; `None` for
/// no step.
pub fn from_cords_change(change: [i32; 2]) -> (r: Option<Direction>)
    ensures
        r == dir_of_change(change[0] as int, change[1] as int),
{
    if change[1] < 0 {
        if change[0] > 0 {
            Some(Direction::SoEast)
        } else if change[0] == 0 {
            Some(Direction::South)
        } else {
            Some(Direction::SoWest)
        }
    } else if change[1] == 0 {
        if change[0] > 0 {
            Some(Direction::East)
        } else if change[0] == 0 {
            None
        } else {
            Some(Direction::West)
        }
    } else {
        if change[0] > 0 {
            Some(Direction::NoEast)
        } else if change[0] == 0 {
            Some(Direction::North)
        } else {
            Some(Direction::NoWest)
        }
    }
}

impl Direction {
    /// Composes two chunk crossings (for example North and East give NoEast). The two
    /// must not be opposite directions.
    pub fn add_direction(dir1: Option<Direction>, dir2: Option<Direction>) -> (r: Option<
        Direction,
    >)
        requires
            !(dir1 matches Some(a) && dir2 matches Some(b) && b == opposite_dir(a)),
        ensures
            r == add_dir_spec(dir1, dir2),
    {
        if dir1.is_none() {
            return dir2;
        }
        if dir2.is_none() {
            return dir1;
        }
        let d1 = to_cords(dir1);
        let d2 = to_cords(dir2);
        from_cords_change([d1[0] + d2[0], d1[1] + d2[1]])
    }

    /// The direction pointing the other way.
    pub fn opposite(&self) -> (r: Direction)
        ensures
            r == opposite_dir(*self),
    {
        match self {
            Direction::North => Direction::South,
            Direction::South => Direction::North,
            Direction::East => Direction::West,
            Direction::West => Direction::East,
            Direction::SoEast => Direction::NoWest,
            Direction::NoWest => Direction::SoEast,
            Direction::SoWest => Direction::NoEast,
            Direction::NoEast => Direction::SoWest,
        }
    }

    /// The (north-south, east-west) components of the direction.
    pub fn decompose(&self) -> (r: (Option<Direction>, Option<Direction>))
        ensures
            r == decompose_spec(*self),
    {
        match self {
            Direction::North => (Some(Direction::North), None),
            Direction::South => (Some(Direction::South), None),
            Direction::East => (None, Some(Direction::East)),
            Direction::West => (None, Some(Direction::West)),
            Direction::SoEast => (Some(Direction::South), Some(Direction::East)),
            Direction::NoWest => (Some(Direction::North), Some(Direction::West)),
            Direction::SoWest => (Some(Direction::South), Some(Direction::West)),
            Direction::NoEast => (Some(Direction::North), Some(Direction::East)),
        }
    }

    /// The direction of a horizontal face: Back is North, Forward South, Right East and
    /// Left West. Top and Bottom have no direction.
    pub fn from_face(f: Face) -> (r: Direction)
        requires
            f != Face::Top && f != Face::Bottom,
        ensures
            r == dir_of_face(f),
            face_of_dir(r) == f,
    {
        match f {
            Face::Back => Direction::North,
            Face::Forward => Direction::South,
            Face::Right => Direction::East,
            _ => Direction::West,
        }
    }

    /// The face that the direction points through; a diagonal gives its north-south face.
    pub fn to_face(self) -> (r: Face)
        ensures
            r == face_of_dir(self),
    {
        match self {
            Direction::NoWest | Direction::NoEast | Direction::North => Face::Back,
            Direction::SoWest | Direction::SoEast | Direction::South => Face::Forward,
            Direction::West => Face::Left,
            Direction::East => Face::Right,
        }
    }

    /// The small integer of the direction, from North 0 to SoWest 7.
    pub fn index(self) -> (r: usize)
        ensures
            r < 8,
            r == match self {
                Direction::North => 0usize,
                Direction::South => 1,
                Direction::East => 2,
                Direction::West => 3,
                Direction::NoEast => 4,
                Direction::NoWest => 5,
                Direction::SoEast => 6,
                Direction::SoWest => 7,
            },
    {
        match self {
            Direction::North => 0,
            Direction::South => 1,
            Direction::East => 2,
            Direction::West => 3,
            Direction::NoEast => 4,
            Direction::NoWest => 5,
            Direction::SoEast => 6,
            Direction::SoWest => 7,
        }
    }

    /// The direction numbered `v` from North 1 to SoWest 8.
    pub fn from_u8(v: u8) -> (r: Direction)
        requires
            1 <= v <= 8,
        ensures
            r == match v {
                1u8 => Direction::North,
                2 => Direction::South,
                3 => Direction::East,
                4 => Direction::West,
                5 => Direction::NoEast,
                6 => Direction::NoWest,
                7 => Direction::SoEast,
                _ => Direction::SoWest,
            },
    {
        match v {
            1 => Direction::North,
            2 => Direction::South,
            3 => Direction::East,
            4 => Direction::West,
            5 => Direction::NoEast,
            6 => Direction::NoWest,
            7 => Direction::SoEast,
            _ => Direction::SoWest,
        }
    }

    /// The name of the direction.
    pub fn name(self) -> (r: &'static str)
        ensures
            r@ == match self {
                Direction::North => "North"@,
                Direction::South => "South"@,
                Direction::East => "East"@,
                Direction::West => "West"@,
                Direction::NoEast => "NoEast"@,
                Direction::NoWest => "NoWest"@,
                Direction::SoEast => "SoEast"@,
                Direction::SoWest => "SoWest"@,
            },
    {
        match self {
            Direction::North => "North",
            Direction::South => "South",
            Direction::East => "East",
            Direction::West => "West",
            Direction::NoEast => "NoEast",
            Direction::NoWest => "NoWest",
            Direction::SoEast => "SoEast",
            Direction::SoWest => "SoWest",
        }
    }
}

/// The components of a direction compose back into the direction.
pub proof fn lemma_decompose_compose(d: Direction)
    ensures
        add_dir_spec(decompose_spec(d).0, decompose_spec(d).1) == Some(d),
{
}

/// The opposite of the opposite of a direction is the direction itself.
pub proof fn lemma_opposite_dir_involution(d: Direction)
    ensures
        opposite_dir(opposite_dir(d)) == d,
{
}

} // verus!
