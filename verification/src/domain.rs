//! Domain identifiers: user and satellite handles, and the beam color.

use vstd::prelude::*;

verus! {

/// The number of users a single satellite may serve at once.
pub const MAX_FANOUT: usize = 32;

/// A beam color: one of four disjoint channels, plus the internal sentinel
/// `Init` that marks an unassigned slot. Assigned beams never carry `Init`.
#[derive(Clone, Copy, Debug, PartialEq, Eq, Structural)]
pub enum Color {
    Init,
    A,
    B,
    C,
    D,
}

impl Color {
    /// The color with the given numeric code, 1 through 4.
    pub fn from_id(id: i32) -> (c: Self)
        requires
            1 <= id <= 4,
        ensures
            c == Self::spec_from_id(id as int),
    {
        match id {
            1 => Self::A,
            2 => Self::B,
            3 => Self::C,
            _ => Self::D,
        }
    }

    /// What `from_id` returns for each code.
    pub open spec fn spec_from_id(id: int) -> Self {
        if id == 1 {
            Self::A
        } else if id == 2 {
            Self::B
        } else if id == 3 {
            Self::C
        } else {
            Self::D
        }
    }

    /// The numeric code of a color; the sentinel `Init` has code 0.
    pub fn id(self) -> (id: i32)
        ensures
            id == self.spec_id(),
    {
        match self {
            Self::Init => 0,
            Self::A => 1,
            Self::B => 2,
            Self::C => 3,
            Self::D => 4,
        }
    }

    /// The numeric code of each color.
    pub open spec fn spec_id(self) -> int {
        match self {
            Self::Init => 0,
            Self::A => 1,
            Self::B => 2,
            Self::C => 3,
            Self::D => 4,
        }
    }

    /// The cycle successor: A -> B -> C -> D -> A, and Init -> A.
    pub fn next(self) -> (c: Self)
        ensures
            c == self.spec_next(),
    {
        match self {
            Self::Init => Self::A,
            Self::A => Self::B,
            Self::B => Self::C,
            Self::C => Self::D,
            Self::D => Self::A,
        }
    }

    /// What `next` returns for each color.
    pub open spec fn spec_next(self) -> Self {
        match self {
            Self::Init => Self::A,
            Self::A => Self::B,
            Self::B => Self::C,
            Self::C => Self::D,
            Self::D => Self::A,
        }
    }
}

/// Round trip between colors and their codes: `from_id` inverts `id` on the
/// four assignable colors, and `id` inverts `from_id` on the codes 1 to 4.
pub proof fn lemma_color_id_round_trip()
    ensures
        forall|c: Color| c != Color::Init ==> Color::spec_from_id(c.spec_id()) == c,
        forall|id: int| 1 <= id <= 4 ==> Color::spec_from_id(id).spec_id() == id,
{
}

/// Four applications of the cycle successor return to the starting color,
/// and the successor of an assignable color is assignable.
pub proof fn lemma_color_cycle()
    ensures
        forall|c: Color|
            c != Color::Init ==> c.spec_next().spec_next().spec_next().spec_next() == c,
        forall|c: Color| c.spec_next() != Color::Init,
{
}

/// An opaque satellite handle.
#[derive(Clone, Copy, Debug, PartialEq, Eq, Structural, PartialOrd, Ord, Hash)]
pub struct Sat(pub u64);

impl Sat {
    pub fn new(id: u64) -> (s: Self)
        ensures
            s.0 == id,
    {
        Self(id)
    }
}

impl Default for Sat {
    fn default() -> (s: Self)
        ensures
            s.0 == 0,
    {
        Self(0)
    }
}

/// An opaque user handle.
#[derive(Clone, Copy, Debug, PartialEq, Eq, Structural, PartialOrd, Ord, Hash)]
pub struct User(pub u64);

impl User {
    pub fn new(id: u64) -> (u: Self)
        ensures
            u.0 == id,
    {
        Self(id)
    }
}

impl Default for User {
    fn default() -> (u: Self)
        ensures
            u.0 == 0,
    {
        Self(0)
    }
}

} // verus!
