use vstd::prelude::*;
use vstd::std_specs::convert::FromSpecImpl;
use vstd::std_specs::ops::{AddSpecImpl, SubSpecImpl};
use crate::HexCoord;
use crate::corner::{HexCorner, NormHexCorner, corner_at, corner_ord, norm_corner_to_corner};
use crate::delta::{HexDelta, fits_pair, pair_add, pair_sub, group_delta};
use crate::pos::{HexPos, corner_neighbors, group_pos, pos_of};

verus! {

broadcast use {group_delta, group_pos};

/// The unique name of corner `c` of the hexagon at `p`: one of the two upper
/// corners of some hexagon.
pub open spec fn corner_norm(p: (int, int), c: HexCorner) -> ((int, int), NormHexCorner) {
    match c {
        HexCorner::Right => (pair_add(p, (1, -1)), NormHexCorner::TopLeft),
        HexCorner::TopRight => (p, NormHexCorner::TopRight),
        HexCorner::TopLeft => (p, NormHexCorner::TopLeft),
        HexCorner::Left => (pair_add(p, (-1, -1)), NormHexCorner::TopRight),
        HexCorner::BottomLeft => (pair_add(p, (0, -2)), NormHexCorner::TopLeft),
        HexCorner::BottomRight => (pair_add(p, (0, -2)), NormHexCorner::TopRight),
    }
}

/// The three names `(position, corner)` of the grid corner whose unique name
/// is `(p, c)`, in the order that [`HexCornerPos::variants`] returns them.
pub open spec fn corner_variants(p: (int, int), c: NormHexCorner) -> Seq<((int, int), HexCorner)> {
    match c {
        NormHexCorner::TopRight => seq![
            (p, HexCorner::TopRight),
            (pair_add(p, (1, 1)), HexCorner::Left),
            (pair_add(p, (0, 2)), HexCorner::BottomRight),
        ],
        NormHexCorner::TopLeft => seq![
            (p, HexCorner::TopLeft),
            (pair_add(p, (0, 2)), HexCorner::BottomLeft),
            (pair_add(p, (-1, 1)), HexCorner::Right),
        ],
    }
}

/// Two names denote the same grid corner exactly when the second is the first
/// or one of the two names that `neighbors_at_corner` gives for it.
pub proof fn lemma_corner_norm_same(p: (int, int), c: HexCorner, q: (int, int), d: HexCorner)
    ensures
        (corner_norm(p, c) == corner_norm(q, d)) == ((q == p && d == c) || (q
            == corner_neighbors(p, c).0 && d == corner_neighbors(p, c).1) || (q
            == corner_neighbors(p, c).2 && d == corner_neighbors(p, c).3)),
{
}

/// The three variants of a corner are its three names: each of them has that
/// unique name, and every name of it is one of them.
pub proof fn lemma_corner_variants(p: (int, int), c: NormHexCorner, q: (int, int), d: HexCorner)
    ensures
        (corner_norm(q, d) == (p, c)) == corner_variants(p, c).contains((q, d)),
{
    let vs = corner_variants(p, c);
    if corner_norm(q, d) == (p, c) {
        match d {
            HexCorner::Right => assert(vs[2] == (q, d)),
            HexCorner::TopRight => assert(vs[0] == (q, d)),
            HexCorner::TopLeft => assert(vs[0] == (q, d)),
            HexCorner::Left => assert(vs[1] == (q, d)),
            HexCorner::BottomLeft => assert(vs[1] == (q, d)),
            HexCorner::BottomRight => assert(vs[2] == (q, d)),
        }
    }
}

/// A position of a corner of a hexagon in a hexagonal grid.
///
/// Each corner has three possible representations, which are equivalent. The
/// `norm` method returns a normalized representation of the corner position,
/// which is unique for each corner.
#[derive(Debug, Clone, Copy, PartialEq, Eq, Hash, Structural)]
pub struct HexCornerPos {
    pub pos: HexPos,
    pub corner: HexCorner,
}

impl HexCornerPos {
    /// The position and corner as plain values.
    pub open spec fn key(self) -> ((int, int), HexCorner) {
        (self.pos@, self.corner)
    }

    /// True when every name of this corner has representable coordinates.
    pub open spec fn names_fit(self) -> bool {
        let n = corner_norm(self.pos@, self.corner);
        fits_pair(n.0) && fits_pair(pair_add(n.0, (1, 1))) && fits_pair(pair_add(n.0, (0, 2)))
            && fits_pair(pair_add(n.0, (-1, 1)))
    }

    /// Creates the corner position of `corner` of the hexagon at `pos`.
    pub fn new(pos: HexPos, corner: HexCorner) -> (r: HexCornerPos)
        ensures
            r.pos == pos,
            r.corner == corner,
    {
        HexCornerPos { pos, corner }
    }

    /// Returns the u coordinate of the hexagon position.
    pub fn u(self) -> (r: HexCoord)
        ensures
            r == self.pos@.0,
    {
        self.pos.u()
    }

    /// Returns the v coordinate of the hexagon position.
    pub fn v(self) -> (r: HexCoord)
        ensures
            r == self.pos@.1,
    {
        self.pos.v()
    }

    /// Returns the `HexPos` of the hexagon position.
    pub fn pos(self) -> (r: HexPos)
        ensures
            r == self.pos,
    {
        self.pos
    }

    /// Returns the `HexCorner` of the corner position.
    pub fn corner(self) -> (r: HexCorner)
        ensures
            r == self.corner,
    {
        self.corner
    }

    /// Returns the `HexPos` and `HexCorner` of the corner position as a tuple.
    pub fn pos_corner(self) -> (r: (HexPos, HexCorner))
        ensures
            r == (self.pos, self.corner),
    {
        (self.pos, self.corner)
    }

    /// Returns the u and v coordinates of the hexagon position and the
    /// `HexCorner` of the corner position as a tuple.
    pub fn u_v_corner(self) -> (r: (HexCoord, HexCoord, HexCorner))
        ensures
            r.0 == self.pos@.0,
            r.1 == self.pos@.1,
            r.2 == self.corner,
    {
        (self.pos.u(), self.pos.v(), self.corner)
    }

    /// Returns a normalized representation of the corner position, which is
    /// unique for each corner.
    pub fn norm(self) -> (r: (HexPos, NormHexCorner))
        requires
            fits_pair(corner_norm(self.pos@, self.corner).0),
        ensures
            (r.0@, r.1) == corner_norm(self.pos@, self.corner),
    {
        let pos = self.pos;
        match self.corner {
            HexCorner::Right => (pos + HexDelta::new(1, -1), NormHexCorner::TopLeft),
            HexCorner::TopRight => (pos, NormHexCorner::TopRight),
            HexCorner::TopLeft => (pos, NormHexCorner::TopLeft),
            HexCorner::Left => (pos + HexDelta::new(-1, -1), NormHexCorner::TopRight),
            HexCorner::BottomLeft => (pos + HexDelta::new(0, -2), NormHexCorner::TopLeft),
            HexCorner::BottomRight => (pos + HexDelta::new(0, -2), NormHexCorner::TopRight),
        }
    }

    /// Returns the three equivalent representations of the corner position, for which
    /// `norm` returns the same value.
    pub fn variants(self) -> (r: [HexCornerPos; 3])
        requires
            self.names_fit(),
        ensures
            forall|i: int|
                0 <= i < 3 ==> #[trigger] r@[i].key() == corner_variants(
                    corner_norm(self.pos@, self.corner).0,
                    corner_norm(self.pos@, self.corner).1,
                )[i],
    {
        let (pos, corner) = self.norm();
        match corner {
            NormHexCorner::TopRight => [
                HexCornerPos::new(pos, HexCorner::TopRight),
                HexCornerPos::new(pos + HexDelta::new(1, 1), HexCorner::Left),
                HexCornerPos::new(pos + HexDelta::new(0, 2), HexCorner::BottomRight),
            ],
            NormHexCorner::TopLeft => [
                HexCornerPos::new(pos, HexCorner::TopLeft),
                HexCornerPos::new(pos + HexDelta::new(0, 2), HexCorner::BottomLeft),
                HexCornerPos::new(pos + HexDelta::new(-1, 1), HexCorner::Right),
            ],
        }
    }
}

impl From<(HexPos, HexCorner)> for HexCornerPos {
    fn from(pc: (HexPos, HexCorner)) -> (r: HexCornerPos) {
        HexCornerPos { pos: pc.0, corner: pc.1 }
    }
}

impl FromSpecImpl<(HexPos, HexCorner)> for HexCornerPos {
    open spec fn obeys_from_spec() -> bool {
        true
    }

    open spec fn from_spec(v: (HexPos, HexCorner)) -> HexCornerPos {
        HexCornerPos { pos: v.0, corner: v.1 }
    }
}

impl From<(HexPos, NormHexCorner)> for HexCornerPos {
    fn from(pc: (HexPos, NormHexCorner)) -> (r: HexCornerPos) {
        HexCornerPos { pos: pc.0, corner: pc.1.to_corner() }
    }
}

impl FromSpecImpl<(HexPos, NormHexCorner)> for HexCornerPos {
    open spec fn obeys_from_spec() -> bool {
        true
    }

    open spec fn from_spec(v: (HexPos, NormHexCorner)) -> HexCornerPos {
        HexCornerPos { pos: v.0, corner: norm_corner_to_corner(v.1) }
    }
}

impl core::ops::Add<HexDelta> for HexCornerPos {
    type Output = HexCornerPos;

    fn add(self, delta: HexDelta) -> (r: HexCornerPos)
        ensures
            r.pos@ == pair_add(self.pos@, delta@),
            r.corner == self.corner,
    {
        HexCornerPos { pos: self.pos + delta, corner: self.corner }
    }
}

impl AddSpecImpl<HexDelta> for HexCornerPos {
    open spec fn obeys_add_spec() -> bool {
        true
    }

    open spec fn add_req(self, rhs: HexDelta) -> bool {
        fits_pair(pair_add(self.pos@, rhs@))
    }

    open spec fn add_spec(self, rhs: HexDelta) -> HexCornerPos {
        HexCornerPos { pos: pos_of(pair_add(self.pos@, rhs@)), corner: self.corner }
    }
}

impl core::ops::Sub<HexDelta> for HexCornerPos {
    type Output = HexCornerPos;

    fn sub(self, delta: HexDelta) -> (r: HexCornerPos)
        ensures
            r.pos@ == pair_sub(self.pos@, delta@),
            r.corner == self.corner,
    {
        HexCornerPos { pos: self.pos - delta, corner: self.corner }
    }
}

impl SubSpecImpl<HexDelta> for HexCornerPos {
    open spec fn obeys_sub_spec() -> bool {
        true
    }

    open spec fn sub_req(self, rhs: HexDelta) -> bool {
        fits_pair(pair_sub(self.pos@, rhs@))
    }

    open spec fn sub_spec(self, rhs: HexDelta) -> HexCornerPos {
        HexCornerPos { pos: pos_of(pair_sub(self.pos@, rhs@)), corner: self.corner }
    }
}

} // verus!
