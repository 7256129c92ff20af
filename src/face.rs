use vstd::prelude::*;

verus! {

/// Mask of the bits of a tagged 32-bit value that carry a vertex or voxel index.
pub const OFFSET_CONST: u32 = 0x1fff_ffff;

/// Mask of the three high bits of a tagged 32-bit value that carry a face tag.
pub const REVERSE_OFFSET_CONST: u32 = 0xe000_0000;

/// The six faces of a cubic voxel.
#[derive(Clone, Copy, Debug, PartialEq, Eq, Structural)]
pub enum Face {
    Top,
    Bottom,
    Right,
    Left,
    Back,
    Forward,
}

/// The small integer of a face, in canonical face order.
pub open spec fn face_index(f: Face) -> nat {
    match f {
        Face::Top => 0,
        Face::Bottom => 1,
        Face::Right => 2,
        Face::Left => 3,
        Face::Back => 4,
        Face::Forward => 5,
    }
}

/// The face with the given small integer.
pub open spec fn face_of_index(i: nat) -> Face
    recommends
        i < 6,
{
    if i == 0 {
        Face::Top
    } else if i == 1 {
        Face::Bottom
    } else if i == 2 {
        Face::Right
    } else if i == 3 {
        Face::Left
    } else if i == 4 {
        Face::Back
    } else {
        Face::Forward
    }
}

/// The high-bit pattern that tags a 32-bit index with a face.
pub open spec fn face_tag(f: Face) -> u32 {
    match f {
        Face::Top => 0xa000_0000,
        Face::Bottom => 0x8000_0000,
        Face::Right => 0x6000_0000,
        Face::Left => 0x4000_0000,
        Face::Back => 0x2000_0000,
        Face::Forward => 0,
    }
}

/// Whether `u` is the tag of some face.
pub open spec fn is_face_tag(u: u32) -> bool {
    u == 0xa000_0000u32 || u == 0x8000_0000u32 || u == 0x6000_0000u32 || u == 0x4000_0000u32
        || u == 0x2000_0000u32 || u == 0u32
}

/// The face whose tag is `u`.
pub open spec fn face_of_tag(u: u32) -> Face {
    if u == 0xa000_0000u32 {
        Face::Top
    } else if u == 0x8000_0000u32 {
        Face::Bottom
    } else if u == 0x6000_0000u32 {
        Face::Right
    } else if u == 0x4000_0000u32 {
        Face::Left
    } else if u == 0x2000_0000u32 {
        Face::Back
    } else {
        Face::Forward
    }
}

/// The face on the other side of the voxel.
pub open spec fn opposite_face(f: Face) -> Face {
    match f {
        Face::Top => Face::Bottom,
        Face::Bottom => Face::Top,
        Face::Right => Face::Left,
        Face::Left => Face::Right,
        Face::Back => Face::Forward,
        Face::Forward => Face::Back,
    }
}

/// The tag of a face, to be or-ed into the high bits of an index.
pub fn face_to_u32(f: Face) -> (r: u32)
    ensures
        r == face_tag(f),
        is_face_tag(r),
        r & OFFSET_CONST == 0,
{
    let r: u32 = match f {
        Face::Top => 0xa000_0000,
        Face::Bottom => 0x8000_0000,
        Face::Right => 0x6000_0000,
        Face::Left => 0x4000_0000,
        Face::Back => 0x2000_0000,
        Face::Forward => 0,
    };
    proof {
        lemma_tag_low_bits_clear(r);
    }
    r
}

/// The face whose tag is `u`; `u` must be a face tag.
pub fn face_from_u32(u: u32) -> (r: Face)
    requires
        is_face_tag(u),
    ensures
        r == face_of_tag(u),
        face_tag(r) == u,
{
    if u == 0xa000_0000u32 {
        Face::Top
    } else if u == 0x8000_0000u32 {
        Face::Bottom
    } else if u == 0x6000_0000u32 {
        Face::Right
    } else if u == 0x4000_0000u32 {
        Face::Left
    } else if u == 0x2000_0000u32 {
        Face::Back
    } else {
        Face::Forward
    }
}

/// A face tag has none of the index bits set.
pub proof fn lemma_tag_low_bits_clear(t: u32)
    requires
        is_face_tag(t),
    ensures
        t & OFFSET_CONST == 0,
        t & REVERSE_OFFSET_CONST == t,
{
    assert(t & 0x1fff_ffffu32 == 0 && t & 0xe000_0000u32 == t) by (bit_vector)
        requires
            t == 0xa000_0000u32 || t == 0x8000_0000u32 || t == 0x6000_0000u32 || t
                == 0x4000_0000u32 || t == 0x2000_0000u32 || t == 0u32,
    ;
}

/// Tagging an index below the reserved bits with a face tag loses nothing: the index and
/// the tag are both recovered by masking.
pub proof fn lemma_tag_round_trip(x: u32, t: u32)
    requires
        x <= OFFSET_CONST,
        is_face_tag(t),
    ensures
        (x | t) & OFFSET_CONST == x,
        (x | t) & REVERSE_OFFSET_CONST == t,
        (x | t) & !OFFSET_CONST == t,
{
    assert((x | t) & 0x1fff_ffffu32 == x && (x | t) & 0xe000_0000u32 == t && (x | t) & !0x1fff_ffffu32 == t)
        by (bit_vector)
        requires
            x <= 0x1fff_ffffu32,
            t == 0xa000_0000u32 || t == 0x8000_0000u32 || t == 0x6000_0000u32 || t
                == 0x4000_0000u32 || t == 0x2000_0000u32 || t == 0u32,
    ;
}

/// Distinct faces have distinct tags.
pub proof fn lemma_face_tag_injective(a: Face, b: Face)
    ensures
        face_tag(a) == face_tag(b) <==> a == b,
        is_face_tag(face_tag(a)),
        face_of_tag(face_tag(a)) == a,
{
}

/// The opposite of the opposite of a face is the face itself.
pub proof fn lemma_opposite_involution(f: Face)
    ensures
        opposite_face(opposite_face(f)) == f,
{
}

impl Face {
    /// The face with the given small integer, as a specification.
    pub open spec fn from_index_spec(i: usize) -> Face {
        face_of_index(i as nat)
    }

    /// The face on the other side of the voxel.
    pub fn opposite(&self) -> (r: Face)
        ensures
            r == opposite_face(*self),
    {
        match *self {
            Face::Top => Face::Bottom,
            Face::Bottom => Face::Top,
            Face::Right => Face::Left,
            Face::Left => Face::Right,
            Face::Back => Face::Forward,
            Face::Forward => Face::Back,
        }
    }

    /// The small integer of the face: Top 0, Bottom 1, Right 2, Left 3, Back 4, Forward 5.
    pub fn index(self) -> (r: usize)
        ensures
            r == face_index(self),
            r < 6,
    {
        match self {
            Face::Top => 0,
            Face::Bottom => 1,
            Face::Right => 2,
            Face::Left => 3,
            Face::Back => 4,
            Face::Forward => 5,
        }
    }

    /// The face with the given small integer, which must be below 6.
    pub fn from_index(i: usize) -> (r: Face)
        requires
            i < 6,
        ensures
            r == face_of_index(i as nat),
            face_index(r) == i,
    {
        match i {
            0 => Face::Top,
            1 => Face::Bottom,
            2 => Face::Right,
            3 => Face::Left,
            4 => Face::Back,
            _ => Face::Forward,
        }
    }
}

/// The face index and its inverse agree, in both directions.
pub proof fn lemma_from_index_spec(f: Face)
    ensures
        Face::from_index_spec(face_index(f) as usize) == f,
{
}

/// The face index and its inverse agree.
pub proof fn lemma_face_index_round_trip(f: Face)
    ensures
        face_of_index(face_index(f)) == f,
        face_index(f) < 6,
{
}

} // verus!
