use vstd::prelude::*;
use vstd::std_specs::convert::FromSpecImpl;
use vstd::std_specs::convert::TryFromSpecImpl;
use crate::corner::{HexCorner, corner_at, corner_ord};

verus! {

/// One of the six edges of a hexagon, numbered 0 to 5 in counter-clockwise
/// order starting with the top-right edge.
#[derive(Debug, Clone, Copy, PartialEq, Eq, Hash, Structural)]
pub enum HexEdge {
    TopRight,
    Top,
    TopLeft,
    BottomLeft,
    Bottom,
    BottomRight,
}

/// The number of an edge, counter-clockwise from the top-right edge.
pub open spec fn edge_ord(e: HexEdge) -> int {
    match e {
        HexEdge::TopRight => 0,
        HexEdge::Top => 1,
        HexEdge::TopLeft => 2,
        HexEdge::BottomLeft => 3,
        HexEdge::Bottom => 4,
        HexEdge::BottomRight => 5,
    }
}

/// The edge with the given number, taken modulo 6.
pub open spec fn edge_at(i: int) -> HexEdge {
    let k = i % 6;
    if k == 0 {
        HexEdge::TopRight
    } else if k == 1 {
        HexEdge::Top
    } else if k == 2 {
        HexEdge::TopLeft
    } else if k == 3 {
        HexEdge::BottomLeft
    } else if k == 4 {
        HexEdge::Bottom
    } else {
        HexEdge::BottomRight
    }
}

/// The (du, dv) step from a hexagon to its neighbor across the given edge.
pub open spec fn edge_dir(e: HexEdge) -> (int, int) {
    match e {
        HexEdge::TopRight => (1, 1),
        HexEdge::Top => (0, 2),
        HexEdge::TopLeft => (-1, 1),
        HexEdge::BottomLeft => (-1, -1),
        HexEdge::Bottom => (0, -2),
        HexEdge::BottomRight => (1, -1),
    }
}

pub proof fn lemma_edge_at_ord(e: HexEdge)
    ensures
        edge_at(edge_ord(e)) == e,
        0 <= edge_ord(e) < 6,
{
}

impl HexEdge {
    /// All edges in counter-clockwise order.
    pub const ALL: [HexEdge; 6] = [
        HexEdge::TopRight,
        HexEdge::Top,
        HexEdge::TopLeft,
        HexEdge::BottomLeft,
        HexEdge::Bottom,
        HexEdge::BottomRight,
    ];

    pub(crate) fn ordinal(self) -> (r: i64)
        ensures
            r == edge_ord(self),
    {
        match self {
            HexEdge::TopRight => 0,
            HexEdge::Top => 1,
            HexEdge::TopLeft => 2,
            HexEdge::BottomLeft => 3,
            HexEdge::Bottom => 4,
            HexEdge::BottomRight => 5,
        }
    }

    pub(crate) fn from_ordinal(i: i64) -> (r: HexEdge)
        requires
            0 <= i < 6,
        ensures
            r == edge_at(i as int),
            edge_ord(r) == i,
    {
        if i == 0 {
            HexEdge::TopRight
        } else if i == 1 {
            HexEdge::Top
        } else if i == 2 {
            HexEdge::TopLeft
        } else if i == 3 {
            HexEdge::BottomLeft
        } else if i == 4 {
            HexEdge::Bottom
        } else {
            HexEdge::BottomRight
        }
    }

    /// Gets the corners that this edge connects in counter-clockwise order.
    pub fn ends(self) -> (r: [HexCorner; 2])
        ensures
            r@[0] == corner_at(edge_ord(self)),
            r@[1] == corner_at(edge_ord(self) + 1),
    {
        match self {
            HexEdge::TopRight => [HexCorner::Right, HexCorner::TopRight],
            HexEdge::Top => [HexCorner::TopRight, HexCorner::TopLeft],
            HexEdge::TopLeft => [HexCorner::TopLeft, HexCorner::Left],
            HexEdge::BottomLeft => [HexCorner::Left, HexCorner::BottomLeft],
            HexEdge::Bottom => [HexCorner::BottomLeft, HexCorner::BottomRight],
            HexEdge::BottomRight => [HexCorner::BottomRight, HexCorner::Right],
        }
    }

    /// Returns true iff the given corner is one of the two ends of this edge.
    pub fn touches_corner(self, corner: HexCorner) -> (r: bool)
        ensures
            r == (corner == corner_at(edge_ord(self)) || corner == corner_at(edge_ord(self) + 1)),
    {
        let ends = self.ends();
        ends[0] == corner || ends[1] == corner
    }

    /// Rotates this edge counter-clockwise by `steps` sixths of a turn
    /// (clockwise when `steps` is negative).
    pub fn rotate(self, steps: i32) -> (r: HexEdge)
        ensures
            r == edge_at(edge_ord(self) + steps),
            edge_ord(r) == (edge_ord(self) + steps) % 6,
    {
        let k = (self.ordinal() + steps as i64) % 6;
        let k = if k < 0 { k + 6 } else { k };
        Self::from_ordinal(k)
    }

    /// The edge on the opposite side of the hexagon.
    pub fn opposite(self) -> (r: HexEdge)
        ensures
            r == edge_at(edge_ord(self) + 3),
            edge_ord(r) == (edge_ord(self) + 3) % 6,
    {
        self.rotate(3)
    }

    /// Returns a number in the range -2..=3 indicating how many steps you would
    /// need to rotate this edge to get to the other edge.
    pub fn steps_to(self, other: HexEdge) -> (r: i32)
        ensures
            -2 <= r <= 3,
            (edge_ord(self) + r) % 6 == edge_ord(other),
    {
        let diff = (other.ordinal() - self.ordinal() + 6) % 6;
        if diff > 3 {
            (diff - 6) as i32
        } else {
            diff as i32
        }
    }
}

/// The three upper edges of a hexagon, used to name each edge of the grid in
/// exactly one way.
#[derive(Debug, Clone, Copy, PartialEq, Eq, Hash, Structural)]
pub enum NormHexEdge {
    TopRight,
    Top,
    TopLeft,
}

/// The plain edge that a normalized edge stands for.
pub open spec fn norm_edge_to_edge(e: NormHexEdge) -> HexEdge {
    match e {
        NormHexEdge::TopRight => HexEdge::TopRight,
        NormHexEdge::Top => HexEdge::Top,
        NormHexEdge::TopLeft => HexEdge::TopLeft,
    }
}

/// The normalized edge that a plain upper edge is, if it is one.
pub open spec fn edge_to_norm_edge(e: HexEdge) -> Option<NormHexEdge> {
    match e {
        HexEdge::TopRight => Some(NormHexEdge::TopRight),
        HexEdge::Top => Some(NormHexEdge::Top),
        HexEdge::TopLeft => Some(NormHexEdge::TopLeft),
        _ => None,
    }
}

impl NormHexEdge {
    /// All normalized edges in counter-clockwise order.
    pub const ALL: [NormHexEdge; 3] = [NormHexEdge::TopRight, NormHexEdge::Top, NormHexEdge::TopLeft];

    /// The plain edge that this normalized edge stands for.
    pub fn to_edge(self) -> (r: HexEdge)
        ensures
            r == norm_edge_to_edge(self),
    {
        match self {
            NormHexEdge::TopRight => HexEdge::TopRight,
            NormHexEdge::Top => HexEdge::Top,
            NormHexEdge::TopLeft => HexEdge::TopLeft,
        }
    }

    /// The normalized edge that `edge` is, or `None` for a lower edge.
    pub fn from_edge(edge: HexEdge) -> (r: Option<NormHexEdge>)
        ensures
            r == edge_to_norm_edge(edge),
    {
        match edge {
            HexEdge::TopRight => Some(NormHexEdge::TopRight),
            HexEdge::Top => Some(NormHexEdge::Top),
            HexEdge::TopLeft => Some(NormHexEdge::TopLeft),
            _ => None,
        }
    }

    /// The edge on the opposite side of the hexagon.
    pub fn opposite(self) -> (r: HexEdge)
        ensures
            r == edge_at(edge_ord(norm_edge_to_edge(self)) + 3),
    {
        self.to_edge().opposite()
    }
}

impl From<NormHexEdge> for HexEdge {
    fn from(edge: NormHexEdge) -> (r: HexEdge) {
        edge.to_edge()
    }
}

impl FromSpecImpl<NormHexEdge> for HexEdge {
    open spec fn obeys_from_spec() -> bool {
        true
    }

    open spec fn from_spec(v: NormHexEdge) -> HexEdge {
        norm_edge_to_edge(v)
    }
}

impl TryFrom<HexEdge> for NormHexEdge {
    type Error = ();

    fn try_from(edge: HexEdge) -> (r: Result<NormHexEdge, ()>) {
        match NormHexEdge::from_edge(edge) {
            Some(e) => Ok(e),
            None => Err(()),
        }
    }
}

impl TryFromSpecImpl<HexEdge> for NormHexEdge {
    open spec fn obeys_try_from_spec() -> bool {
        true
    }

    open spec fn try_from_spec(v: HexEdge) -> Result<NormHexEdge, ()> {
        match edge_to_norm_edge(v) {
            Some(e) => Ok(e),
            None => Err(()),
        }
    }
}

} // verus!
