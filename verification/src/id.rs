use vstd::prelude::*;
use crate::{HexCoord, Sixths};
use crate::corner::{HexCorner, corner_at, corner_ord};
use crate::corner_pos::HexCornerPos;
use crate::delta::{
    HexDelta, fits_pair, is_even_pair, lemma_rotate_compose, lemma_rotate_even, pair_add,
    pair_neg, pair_sub, rotate_pair, group_delta,
};
use crate::edge::{HexEdge, edge_at, edge_ord};
use crate::edge_pos::HexEdgePos;
use crate::pos::{HexPos, group_pos, pos_of};

verus! {

broadcast use {group_delta, group_pos};

/// The position `p` rotated around `center` by `steps` sixths of a turn.
pub open spec fn rotate_around_pair(p: (int, int), center: (int, int), steps: int) -> (int, int) {
    pair_add(rotate_pair(pair_sub(p, center), steps), center)
}

/// True when rotating `p` around `center` only meets representable values.
pub open spec fn rotate_around_fits(p: (int, int), center: (int, int), steps: int) -> bool {
    &&& fits_pair(pair_sub(p, center))
    &&& fits_pair(rotate_pair(pair_sub(p, center), steps))
    &&& fits_pair(rotate_around_pair(p, center, steps))
}

/// Rotating around a center by `steps` and then by `-steps` gives back the
/// starting position.
#[verifier::rlimit(40)]
pub proof fn lemma_rotate_around_inverse(p: (int, int), center: (int, int), steps: int)
    requires
        is_even_pair(p),
        is_even_pair(center),
    ensures
        rotate_around_pair(rotate_around_pair(p, center, steps), center, -steps) == p,
{
    let d = pair_sub(p, center);
    lemma_rotate_compose(d, steps, -steps);
    let r = rotate_pair(d, steps);
    assert(pair_sub(pair_add(r, center), center) == r);
}

/// Rotations around the same center compose by adding their steps.
#[verifier::rlimit(40)]
pub proof fn lemma_rotate_around_compose(p: (int, int), center: (int, int), a: int, b: int)
    requires
        is_even_pair(p),
        is_even_pair(center),
    ensures
        rotate_around_pair(rotate_around_pair(p, center, a), center, b) == rotate_around_pair(
            p,
            center,
            a + b,
        ),
{
    let d = pair_sub(p, center);
    lemma_rotate_compose(d, a, b);
    let r = rotate_pair(d, a);
    assert(pair_sub(pair_add(r, center), center) == r);
}

/// The center of a rotation stays where it is.
pub proof fn lemma_rotate_around_center(center: (int, int), steps: int)
    ensures
        rotate_around_pair(center, center, steps) == center,
{
}

/// Rotating a position around a center and back gives it back; what lies
/// between fits whenever the forward rotation does.
#[verifier::spinoff_prover]
proof fn lemma_pos_rotate_back(p: (int, int), center: (int, int), steps: int)
    requires
        is_even_pair(p),
        fits_pair(p),
        is_even_pair(center),
        rotate_around_fits(p, center, steps),
    ensures
        is_even_pair(pos_of(rotate_around_pair(p, center, steps))@),
        rotate_around_fits(pos_of(rotate_around_pair(p, center, steps))@, center, -steps),
        rotate_around_pair(pos_of(rotate_around_pair(p, center, steps))@, center, -steps) == p,
        steps % 6 == 0 ==> rotate_around_pair(p, center, steps) == p,
{
    let d = pair_sub(p, center);
    lemma_rotate_even(d, steps);
    lemma_rotate_compose(d, steps, -steps);
    let q = rotate_around_pair(p, center, steps);
    assert(pos_of(q)@ == q);
    assert(pair_sub(q, center) == rotate_pair(d, steps));
    assert(is_even_pair(q)) by {
        let r = rotate_pair(d, steps);
        assert((r.0 + center.0 + r.1 + center.1) % 2 == 0);
    }
    lemma_rotate_around_inverse(p, center, steps);
}

/// Shifting a position by a delta and by its opposite gives it back.
proof fn lemma_pos_shift_back(p: (int, int), delta: (int, int), back: (int, int))
    requires
        is_even_pair(p),
        fits_pair(p),
        is_even_pair(delta),
        back == pair_neg(delta),
        fits_pair(pair_add(p, delta)),
    ensures
        is_even_pair(pos_of(pair_add(p, delta))@),
        fits_pair(pair_add(pos_of(pair_add(p, delta))@, back)),
        pair_add(pos_of(pair_add(p, delta))@, back) == p,
        delta == (0int, 0int) ==> pair_add(p, delta) == p,
{
    assert(pos_of(pair_add(p, delta))@ == pair_add(p, delta));
    assert((p.0 + delta.0 + p.1 + delta.1) % 2 == 0);
}

/// Turning a corner by `steps` and back gives it back; a whole number of
/// turns leaves it as it is.
proof fn lemma_corner_rotate_back(c: HexCorner, steps: int)
    ensures
        corner_at(corner_ord(corner_at(corner_ord(c) + steps)) - steps) == c,
        steps % 6 == 0 ==> corner_at(corner_ord(c) + steps) == c,
{
    let o = corner_ord(c);
    lemma_ord_rotate_back(o, steps);
    assert(corner_ord(corner_at(o + steps)) == (o + steps) % 6);
}

/// Turning an edge by `steps` and back gives it back; a whole number of
/// turns leaves it as it is.
proof fn lemma_edge_rotate_back(e: HexEdge, steps: int)
    ensures
        edge_at(edge_ord(edge_at(edge_ord(e) + steps)) - steps) == e,
        steps % 6 == 0 ==> edge_at(edge_ord(e) + steps) == e,
{
    let o = edge_ord(e);
    lemma_ord_rotate_back(o, steps);
    assert(edge_ord(edge_at(o + steps)) == (o + steps) % 6);
}

proof fn lemma_ord_rotate_back(o: int, steps: int)
    requires
        0 <= o < 6,
    ensures
        ((o + steps) % 6 - steps) % 6 == o,
        steps % 6 == 0 ==> (o + steps) % 6 == o,
{
    let q = (o + steps) / 6;
    assert(o + steps == 6 * q + (o + steps) % 6);
    assert((o + steps) % 6 - steps == o - 6 * q);
    vstd::arithmetic::div_mod::lemma_mod_multiples_vanish(-q, o, 6);
    assert(o - 6 * q == 6 * (-q) + o);
    if steps % 6 == 0 {
        let k = steps / 6;
        assert(steps == 6 * k);
        vstd::arithmetic::div_mod::lemma_mod_multiples_vanish(k, o, 6);
    }
}

/// A trait for types that identify a hexagon, or a part of one, in a
/// hexagonal grid.  It is implemented for `HexPos`, `HexCornerPos` and
/// `HexEdgePos`, and can be implemented for other types that represent
/// hexagons in a hexagonal grid.
pub trait HexId: Sized {
    /// The position of the hexagon.
    spec fn id_pos(&self) -> HexPos;

    /// The corners of the hexagon that this value names.
    spec fn id_corners(&self) -> Seq<HexCorner>;

    /// The edges of the hexagon that this value names.
    spec fn id_edges(&self) -> Seq<HexEdge>;

    /// True when rotating this value around `center` only meets representable values.
    spec fn rotate_fits(&self, center: HexPos, steps: int) -> bool;

    /// This value rotated around `center` by `steps` sixths of a turn.
    spec fn rotated_id(&self, center: HexPos, steps: int) -> Self;

    /// True when shifting this value by `delta` only meets representable values.
    spec fn shift_fits(&self, delta: HexDelta) -> bool;

    /// This value shifted by `delta`.
    spec fn shifted_id(&self, delta: HexDelta) -> Self;

    /// Rotating around `center` by `steps` and then by `-steps` gives the
    /// value back, and a whole number of turns leaves it where it is.
    proof fn lemma_rotate_back(&self, center: HexPos, steps: int)
        requires
            is_even_pair(self.id_pos()@),
            is_even_pair(center@),
            self.rotate_fits(center, steps),
        ensures
            is_even_pair(self.rotated_id(center, steps).id_pos()@),
            self.rotated_id(center, steps).rotate_fits(center, -steps),
            self.rotated_id(center, steps).rotated_id(center, -steps) == *self,
            steps % 6 == 0 ==> self.rotated_id(center, steps) == *self,
    ;

    /// Shifting by `delta` and then by its opposite `back` gives the value
    /// back, and shifting by nothing leaves it where it is.
    proof fn lemma_shift_back(&self, delta: HexDelta, back: HexDelta)
        requires
            is_even_pair(self.id_pos()@),
            is_even_pair(delta@),
            back@ == pair_neg(delta@),
            self.shift_fits(delta),
        ensures
            is_even_pair(self.shifted_id(delta).id_pos()@),
            self.shifted_id(delta).shift_fits(back),
            self.shifted_id(delta).shifted_id(back) == *self,
            delta@ == (0int, 0int) ==> self.shifted_id(delta) == *self,
    ;

    /// Two values that a shift by the same delta takes to the same place
    /// are the same.
    proof fn lemma_shift_injective(&self, other: &Self, delta: HexDelta)
        requires
            self.shift_fits(delta),
            other.shift_fits(delta),
            self.shifted_id(delta) == other.shifted_id(delta),
        ensures
            *self == *other,
    ;

    /// Returns the position of the hexagon in the grid.
    fn pos(&self) -> (r: HexPos)
        ensures
            r == self.id_pos(),
    ;

    /// Returns the relevant corners of the hexagon.
    fn corners(&self) -> (r: Vec<HexCorner>)
        ensures
            r@ == self.id_corners(),
    ;

    /// Returns the relevant edges of the hexagon.
    fn edges(&self) -> (r: Vec<HexEdge>)
        ensures
            r@ == self.id_edges(),
    ;

    /// Returns the result of rotating the hexagon around the given center by
    /// the given number of 60 degree steps.
    fn rotate_around(self, center: HexPos, steps: Sixths) -> (r: Self)
        requires
            self.rotate_fits(center, steps as int),
        ensures
            r == self.rotated_id(center, steps as int),
    ;

    /// Returns the result of shifting the hexagon by the given delta.
    fn shift(self, delta: HexDelta) -> (r: Self)
        requires
            self.shift_fits(delta),
        ensures
            r == self.shifted_id(delta),
    ;

    /// True iff `other` names the same thing as `self`.
    fn is_same(&self, other: &Self) -> (r: bool)
        ensures
            r == (*self == *other),
    ;

    /// Shorthand for `self.pos().u()`.
    fn u(&self) -> (r: HexCoord)
        ensures
            r == self.id_pos()@.0,
    {
        self.pos().u()
    }

    /// Shorthand for `self.pos().v()`.
    fn v(&self) -> (r: HexCoord)
        ensures
            r == self.id_pos()@.1,
    {
        self.pos().v()
    }

    /// Shorthand for `self.pos().u_v()`.
    fn u_v(&self) -> (r: (HexCoord, HexCoord))
        ensures
            (r.0 as int, r.1 as int) == self.id_pos()@,
    {
        self.pos().u_v()
    }
}

impl HexId for HexPos {
    open spec fn id_pos(&self) -> HexPos {
        *self
    }

    open spec fn id_corners(&self) -> Seq<HexCorner> {
        Seq::empty()
    }

    open spec fn id_edges(&self) -> Seq<HexEdge> {
        Seq::empty()
    }

    open spec fn rotate_fits(&self, center: HexPos, steps: int) -> bool {
        rotate_around_fits(self@, center@, steps)
    }

    open spec fn rotated_id(&self, center: HexPos, steps: int) -> HexPos {
        pos_of(rotate_around_pair(self@, center@, steps))
    }

    open spec fn shift_fits(&self, delta: HexDelta) -> bool {
        fits_pair(pair_add(self@, delta@))
    }

    open spec fn shifted_id(&self, delta: HexDelta) -> HexPos {
        pos_of(pair_add(self@, delta@))
    }

    proof fn lemma_rotate_back(&self, center: HexPos, steps: int) {
        lemma_pos_rotate_back(self@, center@, steps);
    }

    proof fn lemma_shift_back(&self, delta: HexDelta, back: HexDelta) {
        lemma_pos_shift_back(self@, delta@, back@);
    }

    proof fn lemma_shift_injective(&self, other: &HexPos, delta: HexDelta) {
        assert(pos_of(pair_add(self@, delta@))@ == pos_of(pair_add(other@, delta@))@);
    }

    fn pos(&self) -> (r: HexPos) {
        *self
    }

    fn corners(&self) -> (r: Vec<HexCorner>) {
        Vec::new()
    }

    fn edges(&self) -> (r: Vec<HexEdge>) {
        Vec::new()
    }

    fn rotate_around(self, center: HexPos, steps: Sixths) -> (r: HexPos) {
        (self - center).rotated(steps) + center
    }

    fn shift(self, delta: HexDelta) -> (r: HexPos) {
        self + delta
    }

    fn is_same(&self, other: &HexPos) -> (r: bool) {
        *self == *other
    }
}

impl HexId for HexCornerPos {
    open spec fn id_pos(&self) -> HexPos {
        self.pos
    }

    open spec fn id_corners(&self) -> Seq<HexCorner> {
        seq![self.corner]
    }

    open spec fn id_edges(&self) -> Seq<HexEdge> {
        Seq::empty()
    }

    open spec fn rotate_fits(&self, center: HexPos, steps: int) -> bool {
        rotate_around_fits(self.pos@, center@, steps)
    }

    open spec fn rotated_id(&self, center: HexPos, steps: int) -> HexCornerPos {
        HexCornerPos {
            pos: pos_of(rotate_around_pair(self.pos@, center@, steps)),
            corner: corner_at(corner_ord(self.corner) + steps),
        }
    }

    open spec fn shift_fits(&self, delta: HexDelta) -> bool {
        fits_pair(pair_add(self.pos@, delta@))
    }

    open spec fn shifted_id(&self, delta: HexDelta) -> HexCornerPos {
        HexCornerPos { pos: pos_of(pair_add(self.pos@, delta@)), corner: self.corner }
    }

    proof fn lemma_rotate_back(&self, center: HexPos, steps: int) {
        lemma_pos_rotate_back(self.pos@, center@, steps);
        lemma_corner_rotate_back(self.corner, steps);
    }

    proof fn lemma_shift_back(&self, delta: HexDelta, back: HexDelta) {
        lemma_pos_shift_back(self.pos@, delta@, back@);
    }

    proof fn lemma_shift_injective(&self, other: &Self, delta: HexDelta) {
        assert(pos_of(pair_add(self.pos@, delta@))@ == pos_of(pair_add(other.pos@, delta@))@);
        assert(self.pos@ == other.pos@);
    }

    fn pos(&self) -> (r: HexPos) {
        self.pos
    }

    fn corners(&self) -> (r: Vec<HexCorner>) {
        let mut v = Vec::new();
        v.push(self.corner);
        v
    }

    fn edges(&self) -> (r: Vec<HexEdge>) {
        Vec::new()
    }

    fn rotate_around(self, center: HexPos, steps: Sixths) -> (r: HexCornerPos) {
        HexCornerPos {
            pos: self.pos.rotate_around(center, steps),
            corner: self.corner.rotate(steps),
        }
    }

    fn shift(self, delta: HexDelta) -> (r: HexCornerPos) {
        HexCornerPos { pos: self.pos.shift(delta), corner: self.corner }
    }

    fn is_same(&self, other: &HexCornerPos) -> (r: bool) {
        *self == *other
    }
}

impl HexId for HexEdgePos<HexEdge> {
    open spec fn id_pos(&self) -> HexPos {
        self.pos
    }

    open spec fn id_corners(&self) -> Seq<HexCorner> {
        Seq::empty()
    }

    open spec fn id_edges(&self) -> Seq<HexEdge> {
        seq![self.edge]
    }

    open spec fn rotate_fits(&self, center: HexPos, steps: int) -> bool {
        rotate_around_fits(self.pos@, center@, steps)
    }

    open spec fn rotated_id(&self, center: HexPos, steps: int) -> HexEdgePos<HexEdge> {
        HexEdgePos {
            pos: pos_of(rotate_around_pair(self.pos@, center@, steps)),
            edge: edge_at(edge_ord(self.edge) + steps),
        }
    }

    open spec fn shift_fits(&self, delta: HexDelta) -> bool {
        fits_pair(pair_add(self.pos@, delta@))
    }

    open spec fn shifted_id(&self, delta: HexDelta) -> HexEdgePos<HexEdge> {
        HexEdgePos { pos: pos_of(pair_add(self.pos@, delta@)), edge: self.edge }
    }

    proof fn lemma_rotate_back(&self, center: HexPos, steps: int) {
        lemma_pos_rotate_back(self.pos@, center@, steps);
        lemma_edge_rotate_back(self.edge, steps);
    }

    proof fn lemma_shift_back(&self, delta: HexDelta, back: HexDelta) {
        lemma_pos_shift_back(self.pos@, delta@, back@);
    }

    proof fn lemma_shift_injective(&self, other: &Self, delta: HexDelta) {
        assert(pos_of(pair_add(self.pos@, delta@))@ == pos_of(pair_add(other.pos@, delta@))@);
        assert(self.pos@ == other.pos@);
    }

    fn pos(&self) -> (r: HexPos) {
        self.pos
    }

    fn corners(&self) -> (r: Vec<HexCorner>) {
        Vec::new()
    }

    fn edges(&self) -> (r: Vec<HexEdge>) {
        let mut v = Vec::new();
        v.push(self.edge);
        v
    }

    fn rotate_around(self, center: HexPos, steps: Sixths) -> (r: HexEdgePos<HexEdge>) {
        HexEdgePos {
            pos: self.pos.rotate_around(center, steps),
            edge: self.edge.rotate(steps),
        }
    }

    fn shift(self, delta: HexDelta) -> (r: HexEdgePos<HexEdge>) {
        HexEdgePos { pos: self.pos.shift(delta), edge: self.edge }
    }

    fn is_same(&self, other: &HexEdgePos<HexEdge>) -> (r: bool) {
        *self == *other
    }
}

} // verus!
