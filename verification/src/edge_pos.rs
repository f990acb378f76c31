use vstd::prelude::*;
use vstd::std_specs::convert::FromSpecImpl;
use crate::HexCoord;
use crate::delta::group_delta;
use crate::edge::{
    HexEdge, NormHexEdge, edge_at, edge_ord, edge_to_norm_edge, norm_edge_to_edge,
};
use crate::pos::{HexPos, group_pos, lemma_neighbor_opposite, neighbor_fits, neighbor_of};

verus! {

broadcast use {group_delta, group_pos};

/// The unique name of edge `e` of the hexagon at `p`: one of the three upper
/// edges of some hexagon.
pub open spec fn edge_norm(p: (int, int), e: HexEdge) -> ((int, int), NormHexEdge) {
    match edge_to_norm_edge(e) {
        Some(n) => (p, n),
        None => (neighbor_of(p, e), edge_to_norm_edge(edge_at(edge_ord(e) + 3)).unwrap()),
    }
}

/// Two names denote the same grid edge exactly when they are equal or name
/// the same edge from the two hexagons on either side of it.
pub proof fn lemma_edge_norm_same(p: (int, int), e: HexEdge, q: (int, int), f: HexEdge)
    ensures
        (edge_norm(p, e) == edge_norm(q, f)) == ((q == p && f == e) || (q == neighbor_of(p, e)
            && f == edge_at(edge_ord(e) + 3))),
{
}

/// A position of an edge of a hexagon in a hexagonal grid.
///
/// Each edge has two possible representations, which are equivalent. The
/// `norm` method returns a normalized representation of the edge position,
/// which is unique for each edge.
#[derive(Debug, Clone, Copy, PartialEq, Eq, Hash, Structural)]
pub struct HexEdgePos<E = HexEdge> {
    pub pos: HexPos,
    pub edge: E,
}

impl<E: Copy> HexEdgePos<E> {
    /// Creates the edge position of `edge` of the hexagon at `pos`.
    pub fn new(pos: HexPos, edge: E) -> (r: HexEdgePos<E>)
        ensures
            r.pos == pos,
            r.edge == edge,
    {
        HexEdgePos { pos, edge }
    }

    /// Returns the `HexPos` of the hexagon position.
    pub fn pos(self) -> (r: HexPos)
        ensures
            r == self.pos,
    {
        self.pos
    }

    /// Returns the u coordinate of the hexagon position.
    pub fn u(self) -> (r: HexCoord)
        ensures
            r == self.pos@.0,
    {
        self.pos.u()
    }

    /// Returns the v coordinate of the hexagon position.
    pub fn v(self) -> (r: HexCoord)
        ensures
            r == self.pos@.1,
    {
        self.pos.v()
    }

    /// Returns the edge of the edge position.
    pub fn edge(self) -> (r: E)
        ensures
            r == self.edge,
    {
        self.edge
    }

    /// Returns the `HexPos` and the edge of the edge position as a tuple.
    pub fn pos_edge(self) -> (r: (HexPos, E))
        ensures
            r == (self.pos, self.edge),
    {
        (self.pos, self.edge)
    }

    /// Returns the u and v coordinates of the hexagon position and the
    /// edge of the edge position as a tuple.
    pub fn u_v_edge(self) -> (r: (HexCoord, HexCoord, E))
        ensures
            r.0 == self.pos@.0,
            r.1 == self.pos@.1,
            r.2 == self.edge,
    {
        (self.pos.u(), self.pos.v(), self.edge)
    }
}

impl HexEdgePos<HexEdge> {
    /// The position and edge as plain values.
    pub open spec fn key(self) -> ((int, int), HexEdge) {
        (self.pos@, self.edge)
    }

    /// Returns a normalized representation of the edge position, which is
    /// unique for each edge.
    pub fn norm(self) -> (r: HexEdgePos<NormHexEdge>)
        requires
            edge_to_norm_edge(self.edge) is None ==> neighbor_fits(self.pos@, self.edge),
        ensures
            (r.pos@, r.edge) == edge_norm(self.pos@, self.edge),
    {
        match NormHexEdge::from_edge(self.edge) {
            Some(norm_edge) => HexEdgePos { pos: self.pos, edge: norm_edge },
            None => {
                let opposite = NormHexEdge::from_edge(self.edge.opposite());
                HexEdgePos { pos: self.pos.neighbor(self.edge), edge: opposite.unwrap() }
            },
        }
    }

    /// Returns the two equivalent representations of the edge position, for which
    /// `norm` returns the same value.
    pub fn variants(self) -> (r: [HexEdgePos<HexEdge>; 2])
        requires
            neighbor_fits(self.pos@, self.edge),
        ensures
            r@[0].key() == (edge_norm(self.pos@, self.edge).0, norm_edge_to_edge(
                edge_norm(self.pos@, self.edge).1,
            )),
            r@[1].key() == (
                neighbor_of(
                    edge_norm(self.pos@, self.edge).0,
                    norm_edge_to_edge(edge_norm(self.pos@, self.edge).1),
                ),
                edge_at(edge_ord(norm_edge_to_edge(edge_norm(self.pos@, self.edge).1)) + 3),
            ),
            edge_norm(r@[0].pos@, r@[0].edge) == edge_norm(self.pos@, self.edge),
            edge_norm(r@[1].pos@, r@[1].edge) == edge_norm(self.pos@, self.edge),
    {
        let n = self.norm();
        let (pos, edge) = n.pos_edge();
        let plain = edge.to_edge();
        proof {
            lemma_neighbor_opposite(self.pos@, self.edge);
            if edge_to_norm_edge(self.edge) is None {
                assert(plain == edge_at(edge_ord(self.edge) + 3));
                assert(neighbor_of(pos@, plain) == self.pos@);
            } else {
                assert(plain == self.edge);
            }
        }
        [HexEdgePos { pos, edge: plain }, HexEdgePos { pos: pos.neighbor(plain), edge: edge.opposite() }]
    }
}

impl HexEdgePos<NormHexEdge> {
    /// A normalized edge position is its own normalized representation.
    pub fn norm(self) -> (r: HexEdgePos<NormHexEdge>)
        ensures
            r == self,
    {
        self
    }
}

impl<E> From<(HexPos, E)> for HexEdgePos<E> {
    fn from(pe: (HexPos, E)) -> (r: HexEdgePos<E>) {
        HexEdgePos { pos: pe.0, edge: pe.1 }
    }
}

impl<E> FromSpecImpl<(HexPos, E)> for HexEdgePos<E> {
    open spec fn obeys_from_spec() -> bool {
        true
    }

    open spec fn from_spec(v: (HexPos, E)) -> HexEdgePos<E> {
        HexEdgePos { pos: v.0, edge: v.1 }
    }
}

} // verus!
