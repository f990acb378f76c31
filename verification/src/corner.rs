use vstd::prelude::*;
use vstd::std_specs::convert::FromSpecImpl;
use vstd::std_specs::convert::TryFromSpecImpl;
use crate::edge::{HexEdge, edge_at, edge_ord};

verus! {

/// One of the six corners of a hexagon, numbered 0 to 5 in counter-clockwise
/// order starting with the right corner.
#[derive(Debug, Clone, Copy, PartialEq, Eq, Hash, PartialOrd, Ord, Structural)]
pub enum HexCorner {
    Right,
    TopRight,
    TopLeft,
    Left,
    BottomLeft,
    BottomRight,
}

/// The number of a corner, counter-clockwise from the right corner.
pub open spec fn corner_ord(c: HexCorner) -> int {
    match c {
        HexCorner::Right => 0,
        HexCorner::TopRight => 1,
        HexCorner::TopLeft => 2,
        HexCorner::Left => 3,
        HexCorner::BottomLeft => 4,
        HexCorner::BottomRight => 5,
    }
}

/// The corner with the given number, taken modulo 6.
pub open spec fn corner_at(i: int) -> HexCorner {
    let k = i % 6;
    if k == 0 {
        HexCorner::Right
    } else if k == 1 {
        HexCorner::TopRight
    } else if k == 2 {
        HexCorner::TopLeft
    } else if k == 3 {
        HexCorner::Left
    } else if k == 4 {
        HexCorner::BottomLeft
    } else {
        HexCorner::BottomRight
    }
}

/// Corners and edges alternate around a hexagon: the first edge adjacent to
/// a corner ends at it and the second starts at it, the two edges adjacent to
/// a corner are one step apart, and an edge is the second edge adjacent to its
/// first end and the first edge adjacent to its second end.
pub proof fn lemma_corners_and_edges_alternate(c: HexCorner, e: HexEdge)
    ensures
        corner_at(edge_ord(edge_at(corner_ord(c) + 5)) + 1) == c,
        corner_at(edge_ord(edge_at(corner_ord(c)))) == c,
        edge_at(edge_ord(edge_at(corner_ord(c) + 5)) + 1) == edge_at(corner_ord(c)),
        edge_at(corner_ord(corner_at(edge_ord(e)))) == e,
        edge_at(corner_ord(corner_at(edge_ord(e) + 1)) + 5) == e,
        corner_at(corner_ord(corner_at(edge_ord(e))) + 1) == corner_at(edge_ord(e) + 1),
{
}

impl HexCorner {
    /// All corners in counter-clockwise order.
    pub const ALL: [HexCorner; 6] = [
        HexCorner::Right,
        HexCorner::TopRight,
        HexCorner::TopLeft,
        HexCorner::Left,
        HexCorner::BottomLeft,
        HexCorner::BottomRight,
    ];

    pub(crate) fn ordinal(self) -> (r: i64)
        ensures
            r == corner_ord(self),
    {
        match self {
            HexCorner::Right => 0,
            HexCorner::TopRight => 1,
            HexCorner::TopLeft => 2,
            HexCorner::Left => 3,
            HexCorner::BottomLeft => 4,
            HexCorner::BottomRight => 5,
        }
    }

    pub(crate) fn from_ordinal(i: i64) -> (r: HexCorner)
        requires
            0 <= i < 6,
        ensures
            r == corner_at(i as int),
            corner_ord(r) == i,
    {
        if i == 0 {
            HexCorner::Right
        } else if i == 1 {
            HexCorner::TopRight
        } else if i == 2 {
            HexCorner::TopLeft
        } else if i == 3 {
            HexCorner::Left
        } else if i == 4 {
            HexCorner::BottomLeft
        } else {
            HexCorner::BottomRight
        }
    }

    /// Returns true iff the given edge touches this corner.
    pub fn touches_edge(self, edge: HexEdge) -> (r: bool)
        ensures
            r == (self == corner_at(edge_ord(edge)) || self == corner_at(edge_ord(edge) + 1)),
    {
        edge.touches_corner(self)
    }

    /// Returns the result of rotating this corner by the given number of steps,
    /// where each step is a 60 degree rotation counter-clockwise.  The number
    /// of steps can be negative, in which case the rotation is clockwise.
    pub fn rotate(self, steps: i32) -> (r: HexCorner)
        ensures
            r == corner_at(corner_ord(self) + steps),
            corner_ord(r) == (corner_ord(self) + steps) % 6,
    {
        let k = (self.ordinal() + steps as i64) % 6;
        let k = if k < 0 { k + 6 } else { k };
        Self::from_ordinal(k)
    }

    /// Returns the corner that is opposite this corner, which is the result of
    /// rotating this corner by 180 degrees.
    pub fn opposite(self) -> (r: HexCorner)
        ensures
            r == corner_at(corner_ord(self) + 3),
            corner_ord(r) == (corner_ord(self) + 3) % 6,
    {
        self.rotate(3)
    }

    /// Returns a number in the range -2..=3 indicating how many steps you would
    /// need to rotate this corner to get to the other corner.
    pub fn steps_to(self, other: HexCorner) -> (r: i32)
        ensures
            -2 <= r <= 3,
            (corner_ord(self) + r) % 6 == corner_ord(other),
    {
        let diff = (other.ordinal() - self.ordinal() + 6) % 6;
        if diff > 3 {
            (diff - 6) as i32
        } else {
            diff as i32
        }
    }

    /// Returns the two edges that are adjacent to this corner.  The order is
    /// the previous edge (clockwise) first, then the next edge
    /// (counter-clockwise).
    pub fn adjacent_edges(self) -> (r: [HexEdge; 2])
        ensures
            r@[0] == edge_at(corner_ord(self) + 5),
            r@[1] == edge_at(corner_ord(self)),
    {
        match self {
            HexCorner::Right => [HexEdge::BottomRight, HexEdge::TopRight],
            HexCorner::TopRight => [HexEdge::TopRight, HexEdge::Top],
            HexCorner::TopLeft => [HexEdge::Top, HexEdge::TopLeft],
            HexCorner::Left => [HexEdge::TopLeft, HexEdge::BottomLeft],
            HexCorner::BottomLeft => [HexEdge::BottomLeft, HexEdge::Bottom],
            HexCorner::BottomRight => [HexEdge::Bottom, HexEdge::BottomRight],
        }
    }
}

/// The two upper corners of a hexagon, used to name each corner of the grid
/// in exactly one way.
#[derive(Debug, Clone, Copy, PartialEq, Eq, Hash, PartialOrd, Ord, Structural)]
pub enum NormHexCorner {
    TopRight,
    TopLeft,
}

/// The plain corner that a normalized corner stands for.
pub open spec fn norm_corner_to_corner(c: NormHexCorner) -> HexCorner {
    match c {
        NormHexCorner::TopRight => HexCorner::TopRight,
        NormHexCorner::TopLeft => HexCorner::TopLeft,
    }
}

/// The normalized corner that a plain corner is, if it is one.
pub open spec fn corner_to_norm_corner(c: HexCorner) -> Option<NormHexCorner> {
    match c {
        HexCorner::TopRight => Some(NormHexCorner::TopRight),
        HexCorner::TopLeft => Some(NormHexCorner::TopLeft),
        _ => None,
    }
}

impl NormHexCorner {
    /// All normalized corners in counter-clockwise order.
    pub const ALL: [NormHexCorner; 2] = [NormHexCorner::TopRight, NormHexCorner::TopLeft];

    /// The plain corner that this normalized corner stands for.
    pub fn to_corner(self) -> (r: HexCorner)
        ensures
            r == norm_corner_to_corner(self),
    {
        match self {
            NormHexCorner::TopRight => HexCorner::TopRight,
            NormHexCorner::TopLeft => HexCorner::TopLeft,
        }
    }

    /// The normalized corner that `corner` is, or `None` for any other corner.
    pub fn from_corner(corner: HexCorner) -> (r: Option<NormHexCorner>)
        ensures
            r == corner_to_norm_corner(corner),
    {
        match corner {
            HexCorner::TopRight => Some(NormHexCorner::TopRight),
            HexCorner::TopLeft => Some(NormHexCorner::TopLeft),
            _ => None,
        }
    }
}

impl From<NormHexCorner> for HexCorner {
    fn from(corner: NormHexCorner) -> (r: HexCorner) {
        corner.to_corner()
    }
}

impl FromSpecImpl<NormHexCorner> for HexCorner {
    open spec fn obeys_from_spec() -> bool {
        true
    }

    open spec fn from_spec(v: NormHexCorner) -> HexCorner {
        norm_corner_to_corner(v)
    }
}

impl TryFrom<HexCorner> for NormHexCorner {
    type Error = ();

    fn try_from(corner: HexCorner) -> (r: Result<NormHexCorner, ()>) {
        match NormHexCorner::from_corner(corner) {
            Some(c) => Ok(c),
            None => Err(()),
        }
    }
}

impl TryFromSpecImpl<HexCorner> for NormHexCorner {
    open spec fn obeys_try_from_spec() -> bool {
        true
    }

    open spec fn try_from_spec(v: HexCorner) -> Result<NormHexCorner, ()> {
        match corner_to_norm_corner(v) {
            Some(c) => Ok(c),
            None => Err(()),
        }
    }
}

} // verus!
