use vstd::prelude::*;
use vstd::std_specs::ops::{AddSpecImpl, SubSpecImpl};
use crate::HexCoord;
use crate::corner::{HexCorner, corner_at, corner_ord};
use crate::delta::{
    HexDelta, delta_of, fits_pair, is_even_pair, pair_add, pair_sub, group_delta,
};
use crate::edge::{HexEdge, edge_at, edge_dir, edge_ord};

verus! {

broadcast use group_delta;

/// A position in a hexagonal grid, represented by two rectangular coordinates
/// (u, v), where u + v is always even.  The origin (0, 0) is at the bottom left
/// corner of the grid.  The u coordinate increases to the right, and the v
/// coordinate increases upwards.
#[derive(Debug, Clone, Copy, PartialEq, Eq, Hash, Structural)]
pub struct HexPos(HexCoord, HexCoord);

/// The position with the given coordinates (meaningful when the pair is even
/// and fits).
pub closed spec fn pos_of(p: (int, int)) -> HexPos {
    HexPos(p.0 as i32, p.1 as i32)
}

impl View for HexPos {
    type V = (int, int);

    closed spec fn view(&self) -> (int, int) {
        (self.0 as int, self.1 as int)
    }
}

pub broadcast proof fn lemma_pos_of_view(p: HexPos)
    ensures
        pos_of(#[trigger] p@) == p,
        fits_pair(p@),
{
}

pub broadcast proof fn lemma_view_pos_of(p: (int, int))
    requires
        fits_pair(p),
    ensures
        #[trigger] pos_of(p)@ == p,
{
}

pub broadcast group group_pos {
    lemma_pos_of_view,
    lemma_view_pos_of,
}

/// The position of the neighbor of `p` across edge `e`.
pub open spec fn neighbor_of(p: (int, int), e: HexEdge) -> (int, int) {
    pair_add(p, edge_dir(e))
}

/// True when the neighbor of `p` across `e` has representable coordinates.
pub open spec fn neighbor_fits(p: (int, int), e: HexEdge) -> bool {
    fits_pair(neighbor_of(p, e))
}

/// The two other hexagons that share corner `c` of `p`, each with the name of
/// the shared corner relative to that hexagon.
pub open spec fn corner_neighbors(p: (int, int), c: HexCorner) -> ((int, int), HexCorner, (int, int), HexCorner) {
    (
        neighbor_of(p, edge_at(corner_ord(c) + 5)),
        corner_at(corner_ord(c) + 2),
        neighbor_of(p, edge_at(corner_ord(c))),
        corner_at(corner_ord(c) + 4),
    )
}

/// The edge across which `q` neighbors `p`, if it does.
pub open spec fn neighbor_edge_of(p: (int, int), q: (int, int)) -> Option<HexEdge> {
    if q == neighbor_of(p, HexEdge::TopRight) {
        Some(HexEdge::TopRight)
    } else if q == neighbor_of(p, HexEdge::Top) {
        Some(HexEdge::Top)
    } else if q == neighbor_of(p, HexEdge::TopLeft) {
        Some(HexEdge::TopLeft)
    } else if q == neighbor_of(p, HexEdge::BottomLeft) {
        Some(HexEdge::BottomLeft)
    } else if q == neighbor_of(p, HexEdge::Bottom) {
        Some(HexEdge::Bottom)
    } else if q == neighbor_of(p, HexEdge::BottomRight) {
        Some(HexEdge::BottomRight)
    } else {
        None
    }
}

/// Crossing an edge and then the opposite edge leads back.
pub proof fn lemma_neighbor_opposite(p: (int, int), e: HexEdge)
    ensures
        neighbor_of(neighbor_of(p, e), edge_at(edge_ord(e) + 3)) == p,
{
}

/// `q` neighbors `p` across `e` exactly when `neighbor_edge_of` names `e`; so
/// at most one edge leads from `p` to `q`.
pub proof fn lemma_neighbor_edge_of(p: (int, int), q: (int, int), e: HexEdge)
    ensures
        (neighbor_edge_of(p, q) == Some(e)) == (q == neighbor_of(p, e)),
{
}

/// Being neighbors is symmetric, across opposite edges.
pub proof fn lemma_neighbor_edge_symmetric(p: (int, int), q: (int, int))
    ensures
        neighbor_edge_of(p, q) is Some ==> neighbor_edge_of(q, p) == Some(
            edge_at(edge_ord(neighbor_edge_of(p, q).unwrap()) + 3),
        ),
        neighbor_edge_of(p, q) is None ==> neighbor_edge_of(q, p) is None,
{
}

impl HexPos {
    /// Every position has an even coordinate sum.
    #[verifier::type_invariant]
    pub open spec fn wf(self) -> bool {
        is_even_pair(self@)
    }

    /// Creates a new `HexPos` with the given u and v values.  The sum of u and
    /// v must be even.
    pub fn new(u: HexCoord, v: HexCoord) -> (r: HexPos)
        requires
            (u + v) % 2 == 0,
        ensures
            r@ == (u as int, v as int),
    {
        HexPos(u, v)
    }

    /// Returns the u coordinate of the hexagon position.
    pub fn u(self) -> (r: HexCoord)
        ensures
            r == self@.0,
    {
        self.0
    }

    /// Returns the v coordinate of the hexagon position.
    pub fn v(self) -> (r: HexCoord)
        ensures
            r == self@.1,
    {
        self.1
    }

    /// Returns the u and v coordinates of the hexagon position as a tuple.
    pub fn u_v(self) -> (r: (HexCoord, HexCoord))
        ensures
            (r.0 as int, r.1 as int) == self@,
    {
        (self.0, self.1)
    }

    /// Gets the neighboring hex position in the given direction.
    pub fn neighbor(self, edge: HexEdge) -> (r: HexPos)
        requires
            neighbor_fits(self@, edge),
        ensures
            r@ == neighbor_of(self@, edge),
    {
        proof {
            use_type_invariant(&self);
        }
        let HexPos(u, v) = self;
        match edge {
            HexEdge::TopRight => HexPos(u + 1, v + 1),
            HexEdge::Top => HexPos(u, v + 2),
            HexEdge::TopLeft => HexPos(u - 1, v + 1),
            HexEdge::BottomLeft => HexPos(u - 1, v - 1),
            HexEdge::Bottom => HexPos(u, v - 2),
            HexEdge::BottomRight => HexPos(u + 1, v - 1),
        }
    }

    /// Returns true iff the given position is a neighbor of this position.
    pub fn is_neighbor(self, other: HexPos) -> (r: bool)
        ensures
            r == (neighbor_edge_of(self@, other@) is Some),
    {
        self.neighbor_edge(other).is_some()
    }

    /// Gets the edge of this position that is shared by a neighboring position,
    /// if any.  Returns None if the other position is not a neighbor.
    pub fn neighbor_edge(self, other: HexPos) -> (r: Option<HexEdge>)
        ensures
            r == neighbor_edge_of(self@, other@),
    {
        let du = other.0 as i64 - self.0 as i64;
        let dv = other.1 as i64 - self.1 as i64;
        if du == 1 && dv == 1 {
            Some(HexEdge::TopRight)
        } else if du == 0 && dv == 2 {
            Some(HexEdge::Top)
        } else if du == -1 && dv == 1 {
            Some(HexEdge::TopLeft)
        } else if du == -1 && dv == -1 {
            Some(HexEdge::BottomLeft)
        } else if du == 0 && dv == -2 {
            Some(HexEdge::Bottom)
        } else if du == 1 && dv == -1 {
            Some(HexEdge::BottomRight)
        } else {
            None
        }
    }

    /// Gets the two neighboring hex positions that share the given corner of
    /// this position, paired with the corner relative to that neighbor.
    pub fn neighbors_at_corner(self, corner: HexCorner) -> (r: [(HexPos, HexCorner); 2])
        requires
            fits_pair(corner_neighbors(self@, corner).0),
            fits_pair(corner_neighbors(self@, corner).2),
        ensures
            r@[0].0@ == corner_neighbors(self@, corner).0,
            r@[0].1 == corner_neighbors(self@, corner).1,
            r@[1].0@ == corner_neighbors(self@, corner).2,
            r@[1].1 == corner_neighbors(self@, corner).3,
    {
        proof {
            use_type_invariant(&self);
        }
        let HexPos(u, v) = self;
        match corner {
            HexCorner::Right => [
                (HexPos(u + 1, v - 1), HexCorner::TopLeft),
                (HexPos(u + 1, v + 1), HexCorner::BottomLeft),
            ],
            HexCorner::TopRight => [
                (HexPos(u + 1, v + 1), HexCorner::Left),
                (HexPos(u, v + 2), HexCorner::BottomRight),
            ],
            HexCorner::TopLeft => [
                (HexPos(u, v + 2), HexCorner::BottomLeft),
                (HexPos(u - 1, v + 1), HexCorner::Right),
            ],
            HexCorner::Left => [
                (HexPos(u - 1, v + 1), HexCorner::BottomRight),
                (HexPos(u - 1, v - 1), HexCorner::TopRight),
            ],
            HexCorner::BottomLeft => [
                (HexPos(u - 1, v - 1), HexCorner::Right),
                (HexPos(u, v - 2), HexCorner::TopLeft),
            ],
            HexCorner::BottomRight => [
                (HexPos(u, v - 2), HexCorner::TopRight),
                (HexPos(u + 1, v - 1), HexCorner::Left),
            ],
        }
    }
}

impl core::ops::Add<HexDelta> for HexPos {
    type Output = HexPos;

    fn add(self, other: HexDelta) -> (r: HexPos)
        ensures
            r@ == pair_add(self@, other@),
    {
        proof {
            use_type_invariant(&self);
            use_type_invariant(&other);
        }
        HexPos(self.0 + other.du(), self.1 + other.dv())
    }
}

impl AddSpecImpl<HexDelta> for HexPos {
    open spec fn obeys_add_spec() -> bool {
        true
    }

    open spec fn add_req(self, rhs: HexDelta) -> bool {
        fits_pair(pair_add(self@, rhs@))
    }

    open spec fn add_spec(self, rhs: HexDelta) -> HexPos {
        pos_of(pair_add(self@, rhs@))
    }
}

impl core::ops::Sub<HexDelta> for HexPos {
    type Output = HexPos;

    fn sub(self, other: HexDelta) -> (r: HexPos)
        ensures
            r@ == pair_sub(self@, other@),
    {
        proof {
            use_type_invariant(&self);
            use_type_invariant(&other);
        }
        HexPos(self.0 - other.du(), self.1 - other.dv())
    }
}

impl SubSpecImpl<HexDelta> for HexPos {
    open spec fn obeys_sub_spec() -> bool {
        true
    }

    open spec fn sub_req(self, rhs: HexDelta) -> bool {
        fits_pair(pair_sub(self@, rhs@))
    }

    open spec fn sub_spec(self, rhs: HexDelta) -> HexPos {
        pos_of(pair_sub(self@, rhs@))
    }
}

impl core::ops::Sub for HexPos {
    type Output = HexDelta;

    fn sub(self, other: HexPos) -> (r: HexDelta)
        ensures
            r@ == pair_sub(self@, other@),
    {
        proof {
            use_type_invariant(&self);
            use_type_invariant(&other);
        }
        HexDelta::new(self.0 - other.0, self.1 - other.1)
    }
}

impl SubSpecImpl for HexPos {
    open spec fn obeys_sub_spec() -> bool {
        true
    }

    open spec fn sub_req(self, rhs: HexPos) -> bool {
        fits_pair(pair_sub(self@, rhs@))
    }

    open spec fn sub_spec(self, rhs: HexPos) -> HexDelta {
        delta_of(pair_sub(self@, rhs@))
    }
}

impl core::ops::Add<HexPos> for HexDelta {
    type Output = HexPos;

    fn add(self, pos: HexPos) -> (r: HexPos)
        ensures
            r@ == pair_add(pos@, self@),
    {
        pos + self
    }
}

impl AddSpecImpl<HexPos> for HexDelta {
    open spec fn obeys_add_spec() -> bool {
        true
    }

    open spec fn add_req(self, rhs: HexPos) -> bool {
        fits_pair(pair_add(rhs@, self@))
    }

    open spec fn add_spec(self, rhs: HexPos) -> HexPos {
        pos_of(pair_add(rhs@, self@))
    }
}

} // verus!
