use vstd::prelude::*;
use std::collections::HashSet;
use crate::connected::{
    connected_group, connected_hexes, escapes, is_top, lemma_above_top_escapes,
    lemma_group_in_hexes, lemma_top_unique, neighbors_fit, top_of, topmost,
};
use crate::container::HexPosContainer;
use crate::delta::{fits_pair, group_delta};
use crate::edge::{HexEdge, edge_at, edge_ord};
use crate::edge_pos::HexEdgePos;
use crate::pos::{HexPos, neighbor_of, group_pos};

verus! {

broadcast use {
    group_delta,
    group_pos,
    vstd::std_specs::hash::group_hash_axioms,
    vstd::seq_lib::group_seq_properties,
    vstd::set::group_set_axioms,
};

/// True when edge `x.1` of the hexagon at `x.0` separates it from a position
/// that is not among `hexes`.
pub open spec fn is_exterior(hexes: Seq<(int, int)>, x: ((int, int), HexEdge)) -> bool {
    !hexes.contains(neighbor_of(x.0, x.1))
}

/// The first edge of `p`, counting counter-clockwise from edge number `i`,
/// whose neighbor is not among `hexes`.
pub open spec fn first_exterior_from(hexes: Seq<(int, int)>, p: (int, int), i: int) -> Option<
    HexEdge,
>
    decreases 6 - i,
{
    if i >= 6 {
        None
    } else if !hexes.contains(neighbor_of(p, edge_at(i))) {
        Some(edge_at(i))
    } else {
        first_exterior_from(hexes, p, i + 1)
    }
}

/// The first edge of `p`, counting counter-clockwise from the top-right edge,
/// whose neighbor is not among `hexes`.
pub open spec fn first_exterior_edge(hexes: Seq<(int, int)>, p: (int, int)) -> Option<HexEdge> {
    first_exterior_from(hexes, p, 0)
}

/// The edge reached from `x` after `k` steps along the boundary of `hexes`.
pub open spec fn walk_from(hexes: Seq<(int, int)>, x: ((int, int), HexEdge), k: nat) -> (
    (int, int),
    HexEdge,
)
    decreases k,
{
    if k == 0 {
        x
    } else {
        walk_from(hexes, boundary_next(hexes, x), (k - 1) as nat)
    }
}

/// The top edge of the topmost hexagon of the contiguous group of `start`,
/// which lies on the outer boundary of the group.
pub open spec fn group_top_edge(hexes: Seq<(int, int)>, start: (int, int)) -> ((int, int), HexEdge) {
    (top_of(connected_group(hexes, start)), HexEdge::Top)
}

/// The edge with which the walk around the contiguous group of `start`
/// begins: the first exterior edge of `start` when the boundary walked from
/// it reaches the group's top edge within six steps per hexagon, so that it
/// is the outer boundary; otherwise the group's top edge.
pub open spec fn outer_start(hexes: Seq<(int, int)>, start: (int, int)) -> ((int, int), HexEdge) {
    let first = (start, first_exterior_edge(hexes, start).unwrap());
    if exists|k: nat| k <= 6 * hexes.len() && #[trigger] walk_from(hexes, first, k) == group_top_edge(hexes, start) {
        first
    } else {
        group_top_edge(hexes, start)
    }
}

/// The first exterior edge, not among `ys`, of the first hexagon of `hexes`
/// from index `i` on that has such an edge.
pub open spec fn first_unwalked(hexes: Seq<(int, int)>, ys: Seq<((int, int), HexEdge)>, i: int) -> Option<
    ((int, int), HexEdge),
>
    decreases hexes.len() - i,
{
    if i < 0 || i >= hexes.len() {
        None
    } else {
        match first_exterior_edge(hexes, hexes[i]) {
            Some(e) => if !ys.contains((hexes[i], e)) {
                Some((hexes[i], e))
            } else {
                first_unwalked(hexes, ys, i + 1)
            },
            None => first_unwalked(hexes, ys, i + 1),
        }
    }
}

/// The edge that a perimeter walk over `hexes` returns after the edges `ys`:
/// the boundary edge after the last one while that one is new; otherwise,
/// when walking every boundary, the first exterior edge not yet returned of
/// the first hexagon that has one, and when walking around the group of a
/// starting hexagon, nothing more.  A walk around such a group begins with
/// its [`outer_start`] edge.
pub open spec fn perimeter_next(
    hexes: Seq<(int, int)>,
    origin: Option<(int, int)>,
    ys: Seq<((int, int), HexEdge)>,
) -> Option<((int, int), HexEdge)> {
    if ys.len() > 0 && !ys.contains(boundary_next(hexes, ys.last())) {
        Some(boundary_next(hexes, ys.last()))
    } else {
        match origin {
            None => first_unwalked(hexes, ys, 0),
            Some(o) => if ys.len() == 0 {
                Some(outer_start(hexes, o))
            } else {
                None
            },
        }
    }
}

/// When the hexagons before index `b` have their first exterior edge returned
/// already or equal to `x`, and the search from `b` finds `x`, the search
/// from `a` finds `x` too.
proof fn lemma_unwalked_reach(
    hexes: Seq<(int, int)>,
    ys: Seq<((int, int), HexEdge)>,
    a: int,
    b: int,
    x: ((int, int), HexEdge),
)
    requires
        0 <= a <= b < hexes.len(),
        first_unwalked(hexes, ys, b) == Some(x),
        forall|i: int|
            a <= i < b ==> match first_exterior_edge(hexes, #[trigger] hexes[i]) {
                Some(e) => ys.contains((hexes[i], e)) || (hexes[i], e) == x,
                None => true,
            },
    ensures
        first_unwalked(hexes, ys, a) == Some(x),
    decreases b - a,
{
    if a < b {
        lemma_unwalked_reach(hexes, ys, a + 1, b, x);
        assert(a <= a < b);
        match first_exterior_edge(hexes, hexes[a]) {
            Some(e) => assert(ys.contains((hexes[a], e)) || (hexes[a], e) == x),
            None => {},
        }
    }
}

/// Skipping hexagons whose first exterior edge was returned already does not
/// change which edge comes next.
proof fn lemma_unwalked_skip(hexes: Seq<(int, int)>, ys: Seq<((int, int), HexEdge)>, a: int, b: int)
    requires
        0 <= a <= b <= hexes.len(),
        forall|i: int|
            a <= i < b ==> match first_exterior_edge(hexes, #[trigger] hexes[i]) {
                Some(e) => ys.contains((hexes[i], e)),
                None => true,
            },
    ensures
        first_unwalked(hexes, ys, a) == first_unwalked(hexes, ys, b),
    decreases b - a,
{
    if a < b {
        lemma_unwalked_skip(hexes, ys, a + 1, b);
        assert(a <= a < b);
        match first_exterior_edge(hexes, hexes[a]) {
            Some(e) => assert(ys.contains((hexes[a], e))),
            None => {},
        }
    }
}

/// The boundary edge that follows `x` counter-clockwise around the hexagons
/// `hexes`: the next edge of the same hexagon when that one is exterior too,
/// and otherwise the edge of the neighbor across it that continues the
/// boundary.
pub open spec fn boundary_next(hexes: Seq<(int, int)>, x: ((int, int), HexEdge)) -> (
    (int, int),
    HexEdge,
) {
    let e1 = edge_at(edge_ord(x.1) + 1);
    if hexes.contains(neighbor_of(x.0, e1)) {
        (neighbor_of(x.0, e1), edge_at(edge_ord(x.1) + 5))
    } else {
        (x.0, e1)
    }
}

/// True when the boundary edge that follows each edge of `ys` is in `ys` too:
/// every boundary that `ys` enters is walked to its end.
pub open spec fn boundary_closed(hexes: Seq<(int, int)>, ys: Seq<((int, int), HexEdge)>) -> bool {
    forall|i: int| 0 <= i < ys.len() ==> ys.contains(boundary_next(hexes, #[trigger] ys[i]))
}

proof fn lemma_closed_upto_full(hexes: Seq<(int, int)>, ys: Seq<((int, int), HexEdge)>)
    ensures
        closed_upto(hexes, ys, ys.len() as int) == boundary_closed(hexes, ys),
{
}

/// True when `ys` holds the first exterior edge of each hexagon of `starts`
/// that has one.
pub open spec fn starts_covered(
    hexes: Seq<(int, int)>,
    starts: Seq<(int, int)>,
    ys: Seq<((int, int), HexEdge)>,
) -> bool {
    forall|p: (int, int)|
        #[trigger] starts.contains(p) ==> match first_exterior_edge(hexes, p) {
            Some(e) => ys.contains((p, e)),
            None => true,
        }
}

/// True when `ys` holds every edge of `hexes` that separates one of them
/// from a position outside them.
pub open spec fn all_boundary_walked(hexes: Seq<(int, int)>, ys: Seq<((int, int), HexEdge)>) -> bool {
    forall|x: ((int, int), HexEdge)| #[trigger] is_boundary_edge(hexes, x) ==> ys.contains(x)
}

/// A number that identifies an edge of a hexagon with representable
/// coordinates.
spec fn edge_key(x: ((int, int), HexEdge)) -> int {
    (x.0.0 + 0x8000_0000) * 0x8_0000_0000 + (x.0.1 + 0x8000_0000) * 8 + edge_ord(x.1)
}

proof fn lemma_edge_key(x: ((int, int), HexEdge), y: ((int, int), HexEdge))
    requires
        fits_pair(x.0),
        fits_pair(y.0),
    ensures
        0 <= edge_key(x) < 0x1_0000_0000_0000_0000_0000,
        edge_key(x) == edge_key(y) ==> x == y,
{
    let a = x.0.0 + 0x8000_0000;
    let b = x.0.1 + 0x8000_0000;
    let c = y.0.0 + 0x8000_0000;
    let d = y.0.1 + 0x8000_0000;
    if edge_key(x) == edge_key(y) {
        assert(a == c);
        assert(b == d);
        assert(edge_ord(x.1) == edge_ord(y.1));
    }
}

/// Crossing edge `k + 1` and then edge `k + 5` of the neighbor leads to the
/// neighbor across edge `k`.
proof fn lemma_around_corner(p: (int, int), k: int)
    requires
        0 <= k < 6,
    ensures
        neighbor_of(neighbor_of(p, edge_at(k + 1)), edge_at(k + 5)) == neighbor_of(p, edge_at(k)),
{
}

/// An edge that follows an exterior edge of `hexes` is exterior too, and
/// belongs to the same hexagon or to a neighbor of it in `hexes`.
proof fn lemma_boundary_next(hexes: Seq<(int, int)>, x: ((int, int), HexEdge))
    requires
        is_exterior(hexes, x),
    ensures
        is_exterior(hexes, boundary_next(hexes, x)),
        boundary_next(hexes, x).0 == x.0 || hexes.contains(boundary_next(hexes, x).0),
{
    lemma_around_corner(x.0, edge_ord(x.1));
}

/// Crossing edge `k` and then edge `k + 2` of the neighbor leads to the
/// neighbor across edge `k + 1`.
proof fn lemma_around_corner_back(p: (int, int), k: int)
    requires
        0 <= k < 6,
    ensures
        neighbor_of(neighbor_of(p, edge_at(k)), edge_at(k + 2)) == neighbor_of(p, edge_at(k + 1)),
{
}

/// Walking one more step is taking the boundary step after the walk.
proof fn lemma_walk_from_last(hexes: Seq<(int, int)>, x: ((int, int), HexEdge), k: nat)
    ensures
        walk_from(hexes, x, k + 1) == boundary_next(hexes, walk_from(hexes, x, k)),
    decreases k,
{
    reveal_with_fuel(walk_from, 2);
    if k > 0 {
        lemma_walk_from_last(hexes, boundary_next(hexes, x), (k - 1) as nat);
        assert(walk_from(hexes, x, k) == walk_from(hexes, boundary_next(hexes, x), (k - 1) as nat));
    }
}

/// The position across the edge that follows an exterior edge is the one
/// across that edge or next to it, and leads beyond the group when it does.
proof fn lemma_escapes_forward(hexes: Seq<(int, int)>, group: Set<(int, int)>, x: ((int, int), HexEdge))
    requires
        is_exterior(hexes, x),
        forall|g: (int, int)| #[trigger] group.contains(g) ==> hexes.contains(g),
        escapes(group, neighbor_of(x.0, x.1)),
    ensures
        escapes(group, neighbor_of(boundary_next(hexes, x).0, boundary_next(hexes, x).1)),
{
    let k = edge_ord(x.1);
    crate::edge::lemma_edge_at_ord(x.1);
    lemma_around_corner(x.0, k);
    lemma_boundary_next(hexes, x);
    let y = boundary_next(hexes, x);
    if y.0 == x.0 {
        let q = neighbor_of(x.0, edge_at(k + 1));
        assert(neighbor_of(q, edge_at(k + 5)) == neighbor_of(x.0, x.1));
        assert(!group.contains(q));
        crate::connected::lemma_escapes_step(group, q, neighbor_of(x.0, x.1), edge_at(k + 5));
    }
}

/// An exterior edge from which the walk reaches an edge leading beyond the
/// group leads beyond it too.
proof fn lemma_walk_escapes(hexes: Seq<(int, int)>, group: Set<(int, int)>, x: ((int, int), HexEdge), k: nat)
    requires
        is_exterior(hexes, x),
        forall|g: (int, int)| #[trigger] group.contains(g) ==> hexes.contains(g),
        escapes(group, neighbor_of(walk_from(hexes, x, k).0, walk_from(hexes, x, k).1)),
    ensures
        escapes(group, neighbor_of(x.0, x.1)),
    decreases k,
{
    if k > 0 {
        let y = boundary_next(hexes, x);
        lemma_boundary_next(hexes, x);
        lemma_walk_escapes(hexes, group, y, (k - 1) as nat);
        let e = edge_ord(x.1);
        crate::edge::lemma_edge_at_ord(x.1);
        lemma_around_corner(x.0, e);
        lemma_around_corner_back(x.0, e);
        if y.0 == x.0 {
            let o = neighbor_of(x.0, x.1);
            assert(!group.contains(o));
            crate::connected::lemma_escapes_step(group, o, neighbor_of(y.0, y.1), edge_at(e + 2));
        }
    }
}

/// The boundary edge that precedes `x` counter-clockwise around the hexagons
/// `hexes`: the edge that [`boundary_next`] leads to `x` from.
pub open spec fn boundary_prev(hexes: Seq<(int, int)>, x: ((int, int), HexEdge)) -> (
    (int, int),
    HexEdge,
) {
    let em = edge_at(edge_ord(x.1) + 5);
    if !hexes.contains(neighbor_of(x.0, em)) {
        (x.0, em)
    } else {
        (neighbor_of(x.0, em), edge_at(edge_ord(x.1) + 1))
    }
}

/// True when `x` is an edge of one of `hexes` that separates it from a
/// position outside `hexes`.
pub open spec fn is_boundary_edge(hexes: Seq<(int, int)>, x: ((int, int), HexEdge)) -> bool {
    hexes.contains(x.0) && is_exterior(hexes, x)
}

/// Going forward and going back along a boundary undo each other.
proof fn lemma_next_prev(hexes: Seq<(int, int)>, x: ((int, int), HexEdge))
    requires
        is_boundary_edge(hexes, x),
    ensures
        is_boundary_edge(hexes, boundary_next(hexes, x)),
        is_boundary_edge(hexes, boundary_prev(hexes, x)),
        boundary_prev(hexes, boundary_next(hexes, x)) == x,
        boundary_next(hexes, boundary_prev(hexes, x)) == x,
{
    let k = edge_ord(x.1);
    lemma_around_corner(x.0, k);
    crate::edge::lemma_edge_at_ord(x.1);
    if k == 0 {
    } else if k == 1 {
    } else if k == 2 {
    } else if k == 3 {
    } else if k == 4 {
    } else {
    }
}

/// A set of boundary edges that holds the successor of each of its edges
/// holds the predecessor of each too: going forward permutes it.
proof fn lemma_closed_back(hexes: Seq<(int, int)>, ys: Seq<((int, int), HexEdge)>)
    requires
        forall|i: int| 0 <= i < ys.len() ==> is_boundary_edge(hexes, #[trigger] ys[i]),
        boundary_closed(hexes, ys),
    ensures
        forall|y: ((int, int), HexEdge)| #![trigger boundary_prev(hexes, y)]
            ys.contains(y) ==> ys.contains(boundary_prev(hexes, y)),
{
    let yset = ys.to_set();
    let f = |x: ((int, int), HexEdge)| boundary_next(hexes, x);
    assert forall|a: ((int, int), HexEdge), b: ((int, int), HexEdge)|
        yset.contains(a) && yset.contains(b) && #[trigger] f(a) == #[trigger] f(b) implies a == b by {
        let i = choose|i: int| 0 <= i < ys.len() && ys[i] == a;
        let j = choose|j: int| 0 <= j < ys.len() && ys[j] == b;
        lemma_next_prev(hexes, ys[i]);
        lemma_next_prev(hexes, ys[j]);
    }
    assert(vstd::relations::injective_on(f, yset));
    vstd::set_lib::lemma_map_size(yset, yset.map(f), f);
    assert forall|z: ((int, int), HexEdge)| yset.map(f).contains(z) implies yset.contains(z) by {
        let a = choose|a: ((int, int), HexEdge)| yset.contains(a) && f(a) == z;
        let i = choose|i: int| 0 <= i < ys.len() && ys[i] == a;
        assert(ys.contains(boundary_next(hexes, ys[i])));
    }
    vstd::set_lib::lemma_subset_equality(yset.map(f), yset);
    assert forall|y: ((int, int), HexEdge)| #![trigger boundary_prev(hexes, y)] ys.contains(y) implies ys.contains(
        boundary_prev(hexes, y),
    ) by {
        assert(yset.contains(y));
        assert(yset.map(f).contains(y));
        let a = choose|a: ((int, int), HexEdge)| yset.contains(a) && f(a) == y;
        let i = choose|i: int| 0 <= i < ys.len() && ys[i] == a;
        lemma_next_prev(hexes, ys[i]);
    }
}

/// True when `ys` holds the successor and the predecessor of each of its
/// edges.
spec fn closed_both_ways(hexes: Seq<(int, int)>, ys: Seq<((int, int), HexEdge)>) -> bool {
    &&& forall|y: ((int, int), HexEdge)| #![trigger boundary_next(hexes, y)]
        ys.contains(y) ==> ys.contains(boundary_next(hexes, y))
    &&& forall|y: ((int, int), HexEdge)| #![trigger boundary_prev(hexes, y)]
        ys.contains(y) ==> ys.contains(boundary_prev(hexes, y))
}

/// True when `z` is a boundary edge of `hexes` outside `ys` that is the
/// first exterior edge of its hexagon.
spec fn missed_start(hexes: Seq<(int, int)>, ys: Seq<((int, int), HexEdge)>, z: ((int, int), HexEdge)) -> bool {
    &&& is_boundary_edge(hexes, z)
    &&& !ys.contains(z)
    &&& first_exterior_edge(hexes, z.0) == Some(z.1)
}

/// Steps back along the boundary from a boundary edge outside `ys` stay
/// outside `ys` when `ys` is closed both ways.
proof fn lemma_step_outside(hexes: Seq<(int, int)>, ys: Seq<((int, int), HexEdge)>, x: ((int, int), HexEdge))
    requires
        is_boundary_edge(hexes, x),
        !ys.contains(x),
        closed_both_ways(hexes, ys),
    ensures
        is_boundary_edge(hexes, boundary_next(hexes, x)),
        is_boundary_edge(hexes, boundary_prev(hexes, x)),
        !ys.contains(boundary_next(hexes, x)),
        !ys.contains(boundary_prev(hexes, x)),
{
    lemma_next_prev(hexes, x);
}

/// A boundary edge missing from a set of boundary edges that is closed both
/// ways leads to a missing edge that is the first exterior edge of its
/// hexagon.  The walk goes around the position outside the boundary, moving
/// to positions further left, and among those further up, until it meets
/// one.
proof fn lemma_missed_start(hexes: Seq<(int, int)>, ys: Seq<((int, int), HexEdge)>, x: ((int, int), HexEdge))
    requires
        forall|p: (int, int)| #[trigger] hexes.contains(p) ==> neighbors_fit(p),
        is_boundary_edge(hexes, x),
        !ys.contains(x),
        closed_both_ways(hexes, ys),
    ensures
        exists|z: ((int, int), HexEdge)| #[trigger] missed_start(hexes, ys, z),
    decreases neighbor_of(x.0, x.1).0 - i32::MIN, i32::MAX - neighbor_of(x.0, x.1).1,
{
    let h = x.0;
    let o = neighbor_of(h, x.1);
    let k = edge_ord(x.1);
    assert(hexes.contains(h));
    assert(neighbors_fit(h));
    crate::edge::lemma_edge_at_ord(x.1);
    lemma_step_outside(hexes, ys, x);
    let p = boundary_prev(hexes, x);
    let n = boundary_next(hexes, x);
    assert(neighbors_fit(p.0));
    assert(neighbors_fit(n.0));
    if k == 0 {
        assert(missed_start(hexes, ys, x));
    } else if k == 5 {
        if p.0 == h {
            lemma_missed_start(hexes, ys, p);
        } else {
            assert(missed_start(hexes, ys, p));
        }
    } else if k == 4 {
        if p.0 == h {
            lemma_missed_start(hexes, ys, p);
        } else {
            lemma_step_outside(hexes, ys, p);
            let pp = boundary_prev(hexes, p);
            assert(neighbors_fit(pp.0));
            if pp.0 == p.0 {
                lemma_missed_start(hexes, ys, pp);
            } else {
                assert(missed_start(hexes, ys, pp));
            }
        }
    } else if k == 3 {
        if p.0 == h {
            lemma_missed_start(hexes, ys, p);
        } else {
            lemma_step_outside(hexes, ys, p);
            let pp = boundary_prev(hexes, p);
            assert(neighbors_fit(pp.0));
            if pp.0 == p.0 {
                lemma_missed_start(hexes, ys, pp);
            } else {
                lemma_step_outside(hexes, ys, pp);
                let ppp = boundary_prev(hexes, pp);
                assert(neighbors_fit(ppp.0));
                if ppp.0 == pp.0 {
                    lemma_missed_start(hexes, ys, ppp);
                } else {
                    assert(missed_start(hexes, ys, ppp));
                }
            }
        }
    } else if k == 2 {
        if p.0 != h {
            // The hexagon above-right of `o` holds the walk around `o`.
            lemma_step_outside(hexes, ys, p);
            let pp = boundary_prev(hexes, p);
            assert(neighbors_fit(pp.0));
            if pp.0 == p.0 {
                lemma_missed_start(hexes, ys, pp);
            } else {
                lemma_step_outside(hexes, ys, pp);
                let ppp = boundary_prev(hexes, pp);
                assert(neighbors_fit(ppp.0));
                if ppp.0 == pp.0 {
                    lemma_missed_start(hexes, ys, ppp);
                } else {
                    lemma_step_outside(hexes, ys, ppp);
                    let p4 = boundary_prev(hexes, ppp);
                    assert(neighbors_fit(p4.0));
                    if p4.0 == ppp.0 {
                        lemma_missed_start(hexes, ys, p4);
                    } else {
                        assert(missed_start(hexes, ys, p4));
                    }
                }
            }
        } else if n.0 != h {
            // The hexagon below `o` holds the walk around `o`.
            lemma_step_outside(hexes, ys, n);
            let nn = boundary_next(hexes, n);
            assert(neighbors_fit(nn.0));
            if nn.0 == n.0 {
                lemma_missed_start(hexes, ys, nn);
            } else {
                assert(missed_start(hexes, ys, nn));
            }
        } else {
            // Only the hexagon below-right of `o` touches it along this walk.
            lemma_step_outside(hexes, ys, p);
            let pp = boundary_prev(hexes, p);
            if pp.0 == h {
                assert(missed_start(hexes, ys, pp));
            } else {
                assert(first_exterior_from(hexes, h, 1) == Some(HexEdge::Top));
                assert(missed_start(hexes, ys, p));
            }
        }
    } else {
        if n.0 == h {
            lemma_missed_start(hexes, ys, n);
        } else {
            assert(missed_start(hexes, ys, n));
        }
    }
}

/// Boundary edges that hold the successor of each of their edges and the
/// first exterior edge of every hexagon are all the boundary edges.
pub proof fn lemma_walk_complete(hexes: Seq<(int, int)>, ys: Seq<((int, int), HexEdge)>)
    requires
        forall|p: (int, int)| #[trigger] hexes.contains(p) ==> neighbors_fit(p),
        forall|i: int| 0 <= i < ys.len() ==> is_boundary_edge(hexes, #[trigger] ys[i]),
        boundary_closed(hexes, ys),
        starts_covered(hexes, hexes, ys),
    ensures
        all_boundary_walked(hexes, ys),
{
    lemma_closed_back(hexes, ys);
    assert forall|y: ((int, int), HexEdge)| #![trigger boundary_next(hexes, y)] ys.contains(y) implies ys.contains(
        boundary_next(hexes, y),
    ) by {
        let i = choose|i: int| 0 <= i < ys.len() && ys[i] == y;
        assert(ys.contains(boundary_next(hexes, ys[i])));
    }
    assert(closed_both_ways(hexes, ys));
    assert forall|x: ((int, int), HexEdge)| #[trigger] is_boundary_edge(hexes, x) implies ys.contains(x) by {
        if !ys.contains(x) {
            lemma_missed_start(hexes, ys, x);
            let z = choose|z: ((int, int), HexEdge)| missed_start(hexes, ys, z);
            assert(hexes.contains(z.0));
        }
    }
}

/// A sequence of distinct edges of the hexagons in `hs` has at most six
/// edges for each hexagon.
proof fn lemma_edges_bound(ys: Seq<((int, int), HexEdge)>, hs: Set<(int, int)>)
    requires
        hs.finite(),
        ys.no_duplicates(),
        forall|i: int| 0 <= i < ys.len() ==> hs.contains(#[trigger] ys[i].0),
    ensures
        ys.len() <= 6 * hs.len(),
{
    let f0 = |p: (int, int)| (p, HexEdge::TopRight);
    let f1 = |p: (int, int)| (p, HexEdge::Top);
    let f2 = |p: (int, int)| (p, HexEdge::TopLeft);
    let f3 = |p: (int, int)| (p, HexEdge::BottomLeft);
    let f4 = |p: (int, int)| (p, HexEdge::Bottom);
    let f5 = |p: (int, int)| (p, HexEdge::BottomRight);
    let s0 = hs.map(f0);
    let s1 = hs.map(f1);
    let s2 = hs.map(f2);
    let s3 = hs.map(f3);
    let s4 = hs.map(f4);
    let s5 = hs.map(f5);
    vstd::set_lib::lemma_map_size_bound(hs, s0, f0);
    vstd::set_lib::lemma_map_size_bound(hs, s1, f1);
    vstd::set_lib::lemma_map_size_bound(hs, s2, f2);
    vstd::set_lib::lemma_map_size_bound(hs, s3, f3);
    vstd::set_lib::lemma_map_size_bound(hs, s4, f4);
    vstd::set_lib::lemma_map_size_bound(hs, s5, f5);
    let u1 = s0.union(s1);
    let u2 = u1.union(s2);
    let u3 = u2.union(s3);
    let u4 = u3.union(s4);
    let u5 = u4.union(s5);
    vstd::set_lib::lemma_len_union(s0, s1);
    vstd::set_lib::lemma_len_union(u1, s2);
    vstd::set_lib::lemma_len_union(u2, s3);
    vstd::set_lib::lemma_len_union(u3, s4);
    vstd::set_lib::lemma_len_union(u4, s5);
    assert forall|y: ((int, int), HexEdge)| ys.to_set().contains(y) implies u5.contains(y) by {
        let i = choose|i: int| 0 <= i < ys.len() && ys[i] == y;
        assert(hs.contains(ys[i].0));
        match y.1 {
            HexEdge::TopRight => assert(s0.contains(f0(y.0))),
            HexEdge::Top => assert(s1.contains(f1(y.0))),
            HexEdge::TopLeft => assert(s2.contains(f2(y.0))),
            HexEdge::BottomLeft => assert(s3.contains(f3(y.0))),
            HexEdge::Bottom => assert(s4.contains(f4(y.0))),
            HexEdge::BottomRight => assert(s5.contains(f5(y.0))),
        }
    }
    vstd::set_lib::lemma_len_subset(ys.to_set(), u5);
    ys.unique_seq_to_set();
}


/// Where the walk around a boundary stands.
#[derive(Clone, Copy)]
enum PerimeterState {
    /// Looking through the hexagons for an exterior edge not yet seen.
    FindStartingHex,
    /// A starting edge was found and is returned next.
    YieldOne { starting_hex: HexPos, starting_edge: HexEdge },
    /// Walking around a boundary from the starting edge; the current edge was
    /// returned last.
    TraverseBoundary {
        starting_hex: HexPos,
        starting_edge: HexEdge,
        current_hex: HexPos,
        current_edge: HexEdge,
    },
}

/// An iterator that yields the edges on the perimeter of a collection of
/// hexagons.
pub struct HexPerimeterIterator<'c, C: HexPosContainer> {
    container: &'c C,
    hex_iter: Option<Vec<HexPos>>,
    next_hex: usize,
    edges_seen: HashSet<u128>,
    state: PerimeterState,
    seen: Ghost<Set<((int, int), HexEdge)>>,
    yielded: Ghost<Seq<((int, int), HexEdge)>>,
    origin: Ghost<Option<(int, int)>>,
}

impl<'c, C: HexPosContainer> HexPerimeterIterator<'c, C> {
    /// The positions of the hexagons whose perimeter is walked.
    pub closed spec fn container_views(self) -> Seq<(int, int)> {
        self.container.hex_views()
    }

    /// The hexagon the walk was asked to start from, if any.
    pub closed spec fn origin(self) -> Option<(int, int)> {
        self.origin@
    }

    /// The edges returned so far, in order.
    pub closed spec fn yielded(self) -> Seq<((int, int), HexEdge)> {
        self.yielded@
    }

    /// The hexagons whose edges the iterator may return: those of the
    /// container, and the starting hexagon if one was given.
    pub closed spec fn hexes(self) -> Set<(int, int)> {
        match self.origin@ {
            Some(o) => self.container.hex_views().to_set().insert(o),
            None => self.container.hex_views().to_set(),
        }
    }

    /// The hexagons from which boundary walks start: those of the container,
    /// or the starting hexagon if one was given.
    pub closed spec fn start_hexes(self) -> Seq<(int, int)> {
        match self.origin@ {
            Some(o) => seq![o],
            None => self.container.hex_views(),
        }
    }

    /// An edge found to start a boundary, which the next call returns.
    pub closed spec fn pending(self) -> Option<((int, int), HexEdge)> {
        match self.state {
            PerimeterState::YieldOne { starting_hex, starting_edge } => Some(
                (starting_hex@, starting_edge),
            ),
            _ => None,
        }
    }

    /// True when every hexagon has been looked at and no boundary walk is
    /// under way: every further call returns `None`.
    pub closed spec fn finished(self) -> bool {
        &&& self.state is FindStartingHex
        &&& match self.hex_iter {
            Some(v) => self.next_hex >= v@.len(),
            None => true,
        }
    }

    /// True when `x` is an edge of one of the hexagons that separates it from
    /// a position outside the container.
    pub open spec fn is_perimeter_edge(self, x: ((int, int), HexEdge)) -> bool {
        self.hexes().contains(x.0) && is_exterior(self.container_views(), x)
    }

    spec fn remaining(self) -> int {
        match self.hex_iter {
            Some(v) => v@.len() - self.next_hex,
            None => 0,
        }
    }

    spec fn rank(self) -> int {
        match self.state {
            PerimeterState::YieldOne { .. } => 0,
            PerimeterState::FindStartingHex => 1,
            PerimeterState::TraverseBoundary { .. } => 2,
        }
    }

    /// The keys in `edges_seen` are those of the edges in `seen`.
    spec fn keys_match(self) -> bool {
        forall|x: ((int, int), HexEdge)|
            fits_pair(x.0) ==> (self.edges_seen@.contains(edge_key(x) as u128)
                <==> #[trigger] self.seen@.contains(x))
    }

    /// The internal consistency of the iterator.
    #[verifier::opaque]
    pub closed spec fn wf(self) -> bool {
        &&& forall|p: (int, int)| #[trigger] self.hexes().contains(p) ==> neighbors_fit(p)
        &&& match self.hex_iter {
            Some(v) => {
                &&& v@.map_values(|p: HexPos| p@) == self.container.hex_views()
                &&& self.next_hex <= v@.len()
                &&& self.origin@ is None
            },
            None => self.origin@ is Some,
        }
        &&& match self.hex_iter {
            Some(v) => forall|i: int|
                0 <= i < self.next_hex ==> match first_exterior_edge(
                    self.container.hex_views(),
                    #[trigger] v@[i]@,
                ) {
                    Some(e) => self.seen@.contains((v@[i]@, e)),
                    None => true,
                },
            None => {
                &&& self.seen@.contains(outer_start(self.container.hex_views(), self.origin@.unwrap()))
                &&& self.container.hex_views().contains(self.origin@.unwrap()) ==> forall|x: ((int, int), HexEdge)|
                    #[trigger] self.seen@.contains(x) ==> escapes(
                        connected_group(self.container.hex_views(), self.origin@.unwrap()),
                        neighbor_of(x.0, x.1),
                    )
            },
        }
        &&& forall|x: ((int, int), HexEdge)| #[trigger]
            self.seen@.contains(x) <==> (self.yielded@.contains(x) || self.pending() == Some(x))
        &&& forall|x: ((int, int), HexEdge)| #[trigger]
            self.seen@.contains(x) ==> self.is_perimeter_edge(x)
        &&& self.keys_match()
        &&& forall|i: int|
            0 <= i < self.yielded@.len() ==> self.seen@.contains(#[trigger] self.yielded@[i])
        &&& self.yielded@.no_duplicates()
        &&& match self.state {
            PerimeterState::FindStartingHex => closed_upto(
                self.container.hex_views(),
                self.yielded@,
                self.yielded@.len() as int,
            ),
            PerimeterState::YieldOne { starting_hex, starting_edge } => {
                &&& closed_upto(self.container.hex_views(), self.yielded@, self.yielded@.len() as int)
                &&& self.seen@.contains((starting_hex@, starting_edge))
                &&& !self.yielded@.contains((starting_hex@, starting_edge))
                &&& self.origin@ is None ==> first_exterior_edge(self.container.hex_views(), starting_hex@)
                    == Some(starting_edge)
                &&& self.origin@ is Some ==> (starting_hex@, starting_edge) == outer_start(
                    self.container.hex_views(),
                    self.origin@.unwrap(),
                )
                &&& self.origin@ is Some ==> self.yielded@.len() == 0
                &&& self.origin@ is None ==> self.next_hex > 0 && self.hex_iter.unwrap()@[self.next_hex
                    - 1]@ == starting_hex@
            },
            PerimeterState::TraverseBoundary {
                starting_hex,
                starting_edge,
                current_hex,
                current_edge,
            } => {
                &&& self.yielded@.len() > 0
                &&& self.yielded@.last() == (current_hex@, current_edge)
                &&& self.seen@.contains((starting_hex@, starting_edge))
                &&& closed_upto(self.container.hex_views(), self.yielded@, self.yielded@.len() - 1)
            },
        }
    }

    /// Creates a new perimeter iterator for the given container of hexagons.
    /// This will find all edges along the perimeter of each contiguous group of
    /// hexagons in the container, and yield each edge exactly once.  If the a
    /// region contains holes, the edges along the perimeter of the holes will
    /// also be yielded.
    pub fn new(container: &'c C) -> (r: HexPerimeterIterator<'c, C>)
        requires
            6 * container.hex_views().len() <= usize::MAX,
            forall|i: int|
                0 <= i < container.hex_views().len() ==> neighbors_fit(
                    #[trigger] container.hex_views()[i],
                ),
        ensures
            r.wf(),
            r.container_views() == container.hex_views(),
            r.origin() is None,
            r.yielded() == Seq::<((int, int), HexEdge)>::empty(),
            r.pending() is None,
    {
        reveal(HexPerimeterIterator::wf);
        let hexes = container.iter_hexes();
        let n = container.len();
        let r = HexPerimeterIterator {
            container,
            hex_iter: Some(hexes),
            next_hex: 0,
            edges_seen: HashSet::with_capacity(6 * n),
            state: PerimeterState::FindStartingHex,
            seen: Ghost(Set::empty()),
            yielded: Ghost(Seq::empty()),
            origin: Ghost(None),
        };
        proof {
            assert forall|p: (int, int)| #[trigger] r.hexes().contains(p) implies neighbors_fit(p) by {
                let i = choose|i: int| 0 <= i < container.hex_views().len() && container.hex_views()[i] == p;
            }
        }
        r
    }

    /// Creates a new perimeter iterator for the given container of hexagons.
    /// This will find all edges along the perimeter of the contiguous group of
    /// hexagons that contains the given starting hexagon, and yield each edge
    /// exactly once.  If the region contains holes, the edges along the
    /// perimeter of the holes will not be yielded.
    pub fn new_from(starting_hex: HexPos, container: &'c C) -> (r: HexPerimeterIterator<'c, C>)
        requires
            6 * container.hex_views().len() <= usize::MAX,
            forall|i: int|
                0 <= i < container.hex_views().len() ==> neighbors_fit(
                    #[trigger] container.hex_views()[i],
                ),
            neighbors_fit(starting_hex@),
            first_exterior_edge(container.hex_views(), starting_hex@) is Some,
        ensures
            r.wf(),
            r.container_views() == container.hex_views(),
            r.origin() == Some(starting_hex@),
            r.yielded() == Seq::<((int, int), HexEdge)>::empty(),
            r.pending() == Some(outer_start(container.hex_views(), starting_hex@)),
    {
        reveal(HexPerimeterIterator::wf);
        let ghost views = container.hex_views();
        let ghost o = starting_hex@;
        let ghost group = connected_group(views, o);
        let first_edge = first_exterior(container, starting_hex).unwrap();
        let members = connected_hexes(container, starting_hex);
        let top = topmost(&members);
        proof {
            let mv = members@.map_values(|h: HexPos| h@);
            assert forall|q: (int, int)| #[trigger] group.contains(q) implies q.1 < top@.1 || (q.1
                == top@.1 && q.0 <= top@.0) by {
                assert(mv.contains(q));
                let i = choose|i: int| 0 <= i < mv.len() && mv[i] == q;
                assert(members@[i]@ == q);
            }
            assert(group.contains(top@));
            assert(is_top(group, top@));
            lemma_top_unique(group, top@);
            lemma_above_top_escapes(group, top@);
            lemma_first_exterior(views, o, 0);
            if top@ != o {
                lemma_group_in_hexes(views, o, top@);
                let i = choose|i: int| 0 <= i < views.len() && views[i] == top@;
            }
            assert(!views.contains(neighbor_of(top@, HexEdge::Top))) by {
                if views.contains(neighbor_of(top@, HexEdge::Top)) {
                    crate::connected::lemma_group_grows(views, o, top@, HexEdge::Top);
                }
            }
        }
        let n = container.len();
        let on_outer = walk_reaches(container, starting_hex, first_edge, top, HexEdge::Top, 6 * n);
        let (start_hex, start_edge) = if on_outer {
            (starting_hex, first_edge)
        } else {
            (top, HexEdge::Top)
        };
        let ghost x = (start_hex@, start_edge);
        proof {
            assert(x == outer_start(views, o));
            if views.contains(o) {
                assert forall|g: (int, int)| #[trigger] group.contains(g) implies views.contains(g) by {
                    if g != o {
                        lemma_group_in_hexes(views, o, g);
                    }
                }
                if on_outer {
                    let k = choose|k: nat| k <= 6 * views.len() && #[trigger] walk_from(views, (o, first_edge), k)
                        == group_top_edge(views, o);
                    lemma_walk_escapes(views, group, (o, first_edge), k);
                }
            }
            lemma_edge_key(x, x);
        }
        let mut edges_seen: HashSet<u128> = HashSet::with_capacity(6 * n);
        edges_seen.insert(edge_key_of(start_hex, start_edge));
        let r = HexPerimeterIterator {
            container,
            hex_iter: None,
            next_hex: 0,
            edges_seen,
            state: PerimeterState::YieldOne { starting_hex: start_hex, starting_edge: start_edge },
            seen: Ghost(Set::empty().insert(x)),
            yielded: Ghost(Seq::empty()),
            origin: Ghost(Some(starting_hex@)),
        };
        proof {
            assert forall|p: (int, int)| #[trigger] r.hexes().contains(p) implies neighbors_fit(p) by {
                if p != starting_hex@ {
                    let i = choose|i: int| 0 <= i < container.hex_views().len() && container.hex_views()[i] == p;
                }
            }
            assert forall|y: ((int, int), HexEdge)|
                fits_pair(y.0) implies (r.edges_seen@.contains(edge_key(y) as u128)
                <==> #[trigger] r.seen@.contains(y)) by {
                lemma_edge_key(x, y);
                lemma_edge_key(y, x);
            }
            assert(r.hexes().contains(x.0));
            assert(is_exterior(views, x));
        }
        r
    }

    /// Checks whether `edge` of the hexagon at `pos` separates it from a
    /// position that the container lacks.
    fn is_exterior_edge(&self, pos: HexPos, edge: HexEdge) -> (r: bool)
        requires
            neighbors_fit(pos@),
        ensures
            r == is_exterior(self.container_views(), (pos@, edge)),
    {
        !self.container.contains_hex(pos.neighbor(edge))
    }

    /// Records that `x` has been seen.  Returns true if it had not been seen
    /// before.
    fn mark_seen(&mut self, pos: HexPos, edge: HexEdge) -> (r: bool)
        requires
            old(self).keys_match(),
            fits_pair(pos@),
        ensures
            final(self).keys_match(),
            r == !old(self).seen@.contains((pos@, edge)),
            final(self).seen@ == old(self).seen@.insert((pos@, edge)),
            final(self).container == old(self).container,
            final(self).hex_iter == old(self).hex_iter,
            final(self).next_hex == old(self).next_hex,
            final(self).state == old(self).state,
            final(self).yielded == old(self).yielded,
            final(self).origin == old(self).origin,
    {
        let ghost x = (pos@, edge);
        let key = edge_key_of(pos, edge);
        let r = self.edges_seen.insert(key);
        proof {
            self.seen@ = self.seen@.insert(x);
            assert forall|y: ((int, int), HexEdge)|
                fits_pair(y.0) implies (self.edges_seen@.contains(edge_key(y) as u128)
                <==> #[trigger] self.seen@.contains(y)) by {
                lemma_edge_key(x, y);
                lemma_edge_key(y, x);
                assert(old(self).seen@.contains(y) <==> old(self).edges_seen@.contains(
                    edge_key(y) as u128,
                ));
            }
            assert(old(self).seen@.contains(x) <==> old(self).edges_seen@.contains(key));
        }
        r
    }

    /// Looks at the next hexagon for an exterior edge not yet seen.  Returns
    /// false, changing nothing, when every hexagon has been looked at.
    fn find_step(&mut self) -> (progress: bool)
        requires
            old(self).wf(),
            old(self).state is FindStartingHex,
        ensures
            final(self).wf(),
            final(self).container == old(self).container,
            final(self).origin == old(self).origin,
            final(self).yielded == old(self).yielded,
            final(self).hex_iter == old(self).hex_iter,
            progress == !old(self).finished(),
            !progress ==> final(self).state == old(self).state && final(self).next_hex
                == old(self).next_hex,
            progress ==> 0 <= final(self).remaining() < old(self).remaining(),
            progress ==> final(self).state is FindStartingHex || final(self).state is YieldOne,
            progress ==> old(self).origin() is None,
            progress && final(self).state is FindStartingHex ==> first_unwalked(
                old(self).container_views(),
                old(self).yielded(),
                final(self).next_hex as int,
            ) == first_unwalked(old(self).container_views(), old(self).yielded(), old(self).next_hex as int),
            progress && final(self).state is YieldOne ==> final(self).pending() == first_unwalked(
                old(self).container_views(),
                old(self).yielded(),
                old(self).next_hex as int,
            ),
    {
        reveal(HexPerimeterIterator::wf);
        let next = match &self.hex_iter {
            Some(v) => {
                if self.next_hex < v.len() {
                    Some(v[self.next_hex])
                } else {
                    None
                }
            },
            None => None,
        };
        let starting_hex = match next {
            Some(h) => h,
            None => {
                return false;
            },
        };
        let ghost v = self.hex_iter.unwrap();
        let ghost i = self.next_hex as int;
        let ghost views = self.container_views();
        let ghost ys = self.yielded@;
        proof {
            assert(v@.map_values(|p: HexPos| p@)[i] == starting_hex@);
            assert(views[i] == starting_hex@);
            assert(self.hexes().contains(starting_hex@));
        }
        self.next_hex = self.next_hex + 1;
        match first_exterior(self.container, starting_hex) {
            Some(starting_edge) => {
                proof {
                    lemma_first_exterior(self.container_views(), starting_hex@, 0);
                }
                let ghost x = (starting_hex@, starting_edge);
                if self.mark_seen(starting_hex, starting_edge) {
                    self.state = PerimeterState::YieldOne { starting_hex, starting_edge };
                    proof {
                        assert(!self.yielded@.contains(x)) by {
                            if self.yielded@.contains(x) {
                                let k = choose|k: int| 0 <= k < self.yielded@.len() && self.yielded@[k] == x;
                                assert(old(self).seen@.contains(self.yielded@[k]));
                            }
                        }
                    }
                } else {
                    assert(self.seen@ =~= old(self).seen@);
                    assert(ys.contains(x));
                }
            },
            None => {},
        }
        true
    }

    /// Returns the starting edge that was found, and starts walking around
    /// its boundary.
    fn yield_start(&mut self, starting_hex: HexPos, starting_edge: HexEdge) -> (r: HexEdgePos)
        requires
            old(self).wf(),
            old(self).state == (PerimeterState::YieldOne { starting_hex, starting_edge }),
        ensures
            final(self).wf(),
            final(self).container == old(self).container,
            final(self).origin == old(self).origin,
            final(self).hex_iter == old(self).hex_iter,
            final(self).next_hex == old(self).next_hex,
            (r.pos@, r.edge) == old(self).pending().unwrap(),
            final(self).yielded() == old(self).yielded().push((r.pos@, r.edge)),
            !old(self).yielded().contains((r.pos@, r.edge)),
            old(self).is_perimeter_edge((r.pos@, r.edge)),
            old(self).origin() is None ==> first_exterior_edge(old(self).container_views(), r.pos@)
                == Some(r.edge),
            old(self).origin() is Some ==> (r.pos@, r.edge) == outer_start(
                old(self).container_views(),
                old(self).origin().unwrap(),
            ),
            old(self).origin() is Some && old(self).container_views().contains(old(self).origin().unwrap())
                ==> escapes(
                connected_group(old(self).container_views(), old(self).origin().unwrap()),
                neighbor_of(r.pos@, r.edge),
            ),
            final(self).state is TraverseBoundary,
    {
        reveal(HexPerimeterIterator::wf);
        self.state = PerimeterState::TraverseBoundary {
            starting_hex,
            starting_edge,
            current_hex: starting_hex,
            current_edge: starting_edge,
        };
        let ghost x = (starting_hex@, starting_edge);
        proof {
            let old_ys = self.yielded@;
            lemma_push_distinct(old_ys, x);
            self.yielded@ = old_ys.push(x);
            assert(self.yielded@.drop_last() == old_ys);
            assert forall|y: ((int, int), HexEdge)|
                #[trigger] self.seen@.contains(y) <==> (self.yielded@.contains(y) || self.pending()
                    == Some(y)) by {
                if old_ys.contains(y) {
                    let k = choose|k: int| 0 <= k < old_ys.len() && old_ys[k] == y;
                    assert(self.yielded@[k] == y);
                }
                if self.yielded@.contains(y) && y != x {
                    let k = choose|k: int| 0 <= k < self.yielded@.len() && self.yielded@[k] == y;
                    assert(old_ys[k] == y);
                }
                if y == x {
                    assert(self.yielded@[old_ys.len() as int] == y);
                }
            }
            assert forall|k: int| 0 <= k < self.yielded@.len() implies self.seen@.contains(
                #[trigger] self.yielded@[k],
            ) by {
                if k < old_ys.len() {
                    assert(old_ys[k] == self.yielded@[k]);
                }
            }
            lemma_closed_push(self.container.hex_views(), old_ys, old_ys.len() as int, x);
        }
        HexEdgePos::new(starting_hex, starting_edge)
    }

    /// Takes one step along the boundary being walked.  Returns the edge
    /// reached if it is new; otherwise the walk ends, changing nothing else.
    fn traverse_step(
        &mut self,
        starting_hex: HexPos,
        starting_edge: HexEdge,
        current_hex: HexPos,
        current_edge: HexEdge,
    ) -> (r: Option<HexEdgePos>)
        requires
            old(self).wf(),
            old(self).state == (PerimeterState::TraverseBoundary {
                starting_hex,
                starting_edge,
                current_hex,
                current_edge,
            }),
        ensures
            final(self).wf(),
            final(self).container == old(self).container,
            final(self).origin == old(self).origin,
            final(self).hex_iter == old(self).hex_iter,
            final(self).next_hex == old(self).next_hex,
            r is None ==> final(self).yielded() == old(self).yielded() && final(self).state is FindStartingHex,
            r is None ==> old(self).yielded().len() > 0 && old(self).yielded().contains(
                boundary_next(old(self).container_views(), old(self).yielded().last()),
            ),
            r is Some ==> final(self).yielded() == old(self).yielded().push((r.unwrap().pos@, r.unwrap().edge))
                && final(self).state is TraverseBoundary,
            r is Some ==> !old(self).yielded().contains((r.unwrap().pos@, r.unwrap().edge)),
            r is Some ==> old(self).is_perimeter_edge((r.unwrap().pos@, r.unwrap().edge)),
            r is Some ==> old(self).yielded().len() > 0 && (r.unwrap().pos@, r.unwrap().edge)
                == boundary_next(old(self).container_views(), old(self).yielded().last()),
            r is Some && old(self).origin() is Some && old(self).container_views().contains(
                old(self).origin().unwrap(),
            ) ==> escapes(
                connected_group(old(self).container_views(), old(self).origin().unwrap()),
                neighbor_of(r.unwrap().pos@, r.unwrap().edge),
            ),
    {
        let ghost cur = (current_hex@, current_edge);
        let ghost views = self.container_views();
        proof {
            self.lemma_current_exterior();
            lemma_boundary_next(views, cur);
        }
        let mut hex = current_hex;
        let mut edge = current_edge.rotate(1);
        if !self.is_exterior_edge(hex, edge) {
            hex = hex.neighbor(edge);
            edge = edge.rotate(-2);
        }
        let ghost nxt = (hex@, edge);
        assert(nxt == boundary_next(views, cur));
        if hex == starting_hex && edge == starting_edge {
            let ghost before = *self;
            self.state = PerimeterState::FindStartingHex;
            proof {
                before.lemma_walk_ends(*self, nxt);
            }
            None
        } else {
            let ghost before = *self;
            if self.mark_seen(hex, edge) {
                self.state = PerimeterState::TraverseBoundary {
                    starting_hex,
                    starting_edge,
                    current_hex: hex,
                    current_edge: edge,
                };
                proof {
                    self.yielded@ = before.yielded@.push(nxt);
                    before.lemma_walk_goes_on(*self, nxt);
                    if self.origin@ is Some && views.contains(self.origin@.unwrap()) {
                        self.lemma_seen_escapes(nxt);
                    }
                }
                Some(HexEdgePos::new(hex, edge))
            } else {
                self.state = PerimeterState::FindStartingHex;
                proof {
                    assert(self.seen@ =~= before.seen@);
                    before.lemma_walk_ends(*self, nxt);
                }
                None
            }
        }
    }

    /// Each edge seen by a walk around the contiguous group of a starting
    /// hexagon of the container leads beyond the group.
    proof fn lemma_seen_escapes(self, x: ((int, int), HexEdge))
        requires
            self.wf(),
            self.seen@.contains(x),
            self.origin@ is Some,
            self.container_views().contains(self.origin@.unwrap()),
        ensures
            escapes(connected_group(self.container_views(), self.origin@.unwrap()), neighbor_of(x.0, x.1)),
    {
        reveal(HexPerimeterIterator::wf);
    }

    /// The edge last returned while walking a boundary is an exterior edge.
    proof fn lemma_current_exterior(self)
        requires
            self.wf(),
            self.state is TraverseBoundary,
        ensures
            self.is_perimeter_edge(self.yielded@.last()),
            self.is_perimeter_edge((self.state->current_hex@, self.state->current_edge)),
            self.yielded@.len() > 0,
            self.yielded@.last() == (self.state->current_hex@, self.state->current_edge),
            self.keys_match(),
            neighbors_fit(self.state->current_hex@),
    {
        reveal(HexPerimeterIterator::wf);
        assert(self.seen@.contains(self.yielded@[self.yielded@.len() - 1]));
    }

    /// A walk that reaches its start, or an edge already seen, ends in a
    /// consistent state.
    proof fn lemma_walk_ends(self, after: Self, nxt: ((int, int), HexEdge))
        requires
            self.wf(),
            self.state is TraverseBoundary,
            nxt == boundary_next(self.container_views(), self.yielded@.last()),
            nxt == (self.state->TraverseBoundary_starting_hex@, self.state->TraverseBoundary_starting_edge) || self.seen@.contains(nxt),
            after.state is FindStartingHex,
            after.container == self.container,
            after.hex_iter == self.hex_iter,
            after.next_hex == self.next_hex,
            after.keys_match(),
            after.seen == self.seen,
            after.yielded == self.yielded,
            after.origin == self.origin,
        ensures
            after.wf(),
            self.yielded@.contains(nxt),
            self.yielded@.len() > 0,
    {
        reveal(HexPerimeterIterator::wf);
        let ys = self.yielded@;
        assert(self.seen@.contains(nxt));
        assert(ys.contains(nxt));
        lemma_closed_last(self.container_views(), ys);
    }

    /// A walk that reaches an edge not seen before returns it and goes on in
    /// a consistent state.
    proof fn lemma_walk_goes_on(self, after: Self, nxt: ((int, int), HexEdge))
        requires
            self.wf(),
            self.state is TraverseBoundary,
            nxt == boundary_next(self.container_views(), self.yielded@.last()),
            !self.seen@.contains(nxt),
            after.state == (PerimeterState::TraverseBoundary {
                starting_hex: self.state->TraverseBoundary_starting_hex,
                starting_edge: self.state->TraverseBoundary_starting_edge,
                current_hex: after.state->current_hex,
                current_edge: after.state->current_edge,
            }),
            (after.state->current_hex@, after.state->current_edge) == nxt,
            after.container == self.container,
            after.hex_iter == self.hex_iter,
            after.next_hex == self.next_hex,
            after.keys_match(),
            after.seen@ == self.seen@.insert(nxt),
            after.yielded@ == self.yielded@.push(nxt),
            after.origin == self.origin,
        ensures
            after.wf(),
            !self.yielded@.contains(nxt),
            self.is_perimeter_edge(nxt),
    {
        reveal(HexPerimeterIterator::wf);
        let views = self.container_views();
        let ys = self.yielded@;
        let cur = ys.last();
        lemma_boundary_next(views, cur);
        assert(self.seen@.contains(ys[ys.len() - 1]));
        assert(!ys.contains(nxt)) by {
            if ys.contains(nxt) {
                let k = choose|k: int| 0 <= k < ys.len() && ys[k] == nxt;
                assert(self.seen@.contains(ys[k]));
            }
        }
        lemma_push_distinct(ys, nxt);
        lemma_closed_push(views, ys, ys.len() - 1, nxt);
        let t = after.yielded@;
        assert(t[ys.len() - 1] == cur);
        assert(t[ys.len() as int] == nxt);
        assert(t.contains(nxt));
        assert forall|y: ((int, int), HexEdge)|
            #[trigger] after.seen@.contains(y) <==> (t.contains(y) || after.pending() == Some(y)) by {
            if ys.contains(y) {
                let k = choose|k: int| 0 <= k < ys.len() && ys[k] == y;
                assert(t[k] == y);
            }
            if t.contains(y) && y != nxt {
                let k = choose|k: int| 0 <= k < t.len() && t[k] == y;
                assert(ys[k] == y);
            }
        }
        assert forall|k: int| 0 <= k < t.len() implies after.seen@.contains(#[trigger] t[k]) by {
            if k < ys.len() {
                assert(ys[k] == t[k]);
            }
        }
        assert forall|x: ((int, int), HexEdge)| #[trigger]
            after.seen@.contains(x) implies after.is_perimeter_edge(x) by {
            if x != nxt {
                assert(self.seen@.contains(x));
            }
        }
        if self.hex_iter is None && views.contains(self.origin@.unwrap()) {
            let o = self.origin@.unwrap();
            let group = connected_group(views, o);
            assert forall|g: (int, int)| #[trigger] group.contains(g) implies views.contains(g) by {
                if g != o {
                    lemma_group_in_hexes(views, o, g);
                }
            }
            assert(self.is_perimeter_edge(cur));
            lemma_escapes_forward(views, group, cur);
            assert forall|x: ((int, int), HexEdge)| #[trigger] after.seen@.contains(x) implies escapes(
                group,
                neighbor_of(x.0, x.1),
            ) by {
                if x != nxt {
                    assert(self.seen@.contains(x));
                }
            }
        }
    }

    /// Returns the next edge of the perimeter, or `None` when every perimeter
    /// has been walked.
    pub fn next(&mut self) -> (r: Option<HexEdgePos>)
        requires
            old(self).wf(),
        ensures
            final(self).wf(),
            final(self).container_views() == old(self).container_views(),
            final(self).origin() == old(self).origin(),
            final(self).hexes() == old(self).hexes(),
            final(self).start_hexes() == old(self).start_hexes(),
            old(self).finished() ==> r is None,
            r is None ==> final(self).yielded() == old(self).yielded() && final(self).finished(),
            r is None ==> boundary_closed(final(self).container_views(), final(self).yielded()),
            r is None && final(self).origin() is None ==> starts_covered(
                final(self).container_views(),
                final(self).start_hexes(),
                final(self).yielded(),
            ),
            r is None && final(self).origin() is Some ==> final(self).yielded().contains(
                outer_start(final(self).container_views(), final(self).origin().unwrap()),
            ),
            r is None && final(self).origin() is None ==> all_boundary_walked(
                final(self).container_views(),
                final(self).yielded(),
            ),
            old(self).pending() is Some ==> r is Some && (r.unwrap().pos@, r.unwrap().edge)
                == old(self).pending().unwrap(),
            r is Some ==> final(self).yielded() == old(self).yielded().push(
                (r.unwrap().pos@, r.unwrap().edge),
            ),
            r is Some ==> !old(self).yielded().contains((r.unwrap().pos@, r.unwrap().edge)),
            r is Some ==> old(self).is_perimeter_edge((r.unwrap().pos@, r.unwrap().edge)),
            r is Some && old(self).origin() is Some && old(self).container_views().contains(
                old(self).origin().unwrap(),
            ) ==> escapes(
                connected_group(old(self).container_views(), old(self).origin().unwrap()),
                neighbor_of(r.unwrap().pos@, r.unwrap().edge),
            ),
            final(self).yielded().len() <= 6 * final(self).hexes().len(),
            match r {
                Some(e) => perimeter_next(old(self).container_views(), old(self).origin(), old(self).yielded())
                    == Some((e.pos@, e.edge)),
                None => perimeter_next(old(self).container_views(), old(self).origin(), old(self).yielded())
                    is None,
            },
    {
        let ghost target = perimeter_next(old(self).container_views(), old(self).origin(), old(self).yielded());
        proof {
            old(self).lemma_next_target();
        }
        loop
            invariant
                self.wf(),
                target == perimeter_next(self.container_views(), self.origin(), self.yielded()),
                self.state is FindStartingHex ==> (self.origin@ is None ==> first_unwalked(
                    self.container_views(),
                    self.yielded(),
                    self.next_hex as int,
                ) == target) && (self.origin@ is Some ==> target is None),
                self.state is YieldOne ==> self.pending() == target,
                self.state is TraverseBoundary ==> old(self).state is TraverseBoundary,
                self.container == old(self).container,
                self.origin == old(self).origin,
                self.yielded == old(self).yielded,
                self.hex_iter == old(self).hex_iter,
                old(self).finished() ==> self.finished(),
                old(self).pending() is Some ==> self.pending() == old(self).pending(),
                old(self).state is TraverseBoundary && self.state is TraverseBoundary ==> self.state
                    == old(self).state,
            decreases self.remaining(), self.rank(),
        {
            match self.state {
                PerimeterState::FindStartingHex => {
                    if !self.find_step() {
                        proof {
                            if self.origin@ is None {
                                self.lemma_finished_none();
                            }
                            self.lemma_bound();
                            self.lemma_finished_covers();
                            if self.origin() is None {
                                self.lemma_finished_walks_all();
                            }
                        }
                        return None;
                    }
                },
                PerimeterState::YieldOne { starting_hex, starting_edge } => {
                    let e = self.yield_start(starting_hex, starting_edge);
                    proof {
                        self.lemma_bound();
                    }
                    return Some(e);
                },
                PerimeterState::TraverseBoundary {
                    starting_hex,
                    starting_edge,
                    current_hex,
                    current_edge,
                } => {
                    match self.traverse_step(starting_hex, starting_edge, current_hex, current_edge) {
                        Some(e) => {
                            proof {
                                self.lemma_bound();
                            }
                            return Some(e);
                        },
                        None => {
                            proof {
                                self.lemma_next_target();
                            }
                        },
                    }
                },
            }
        }
    }

    /// Where the search for the next edge stands: while searching, the
    /// hexagons before the next one to look at add nothing, and an edge
    /// found is the next one.
    proof fn lemma_next_target(self)
        requires
            self.wf(),
        ensures
            self.state is FindStartingHex ==> (self.origin@ is None ==> first_unwalked(
                self.container_views(),
                self.yielded(),
                self.next_hex as int,
            ) == perimeter_next(self.container_views(), self.origin(), self.yielded())) && (
            self.origin@ is Some ==> perimeter_next(self.container_views(), self.origin(), self.yielded())
                is None),
            self.state is YieldOne ==> self.pending() == perimeter_next(
                self.container_views(),
                self.origin(),
                self.yielded(),
            ),
    {
        let views = self.container_views();
        let ys = self.yielded();
        if self.state is FindStartingHex || self.state is YieldOne {
            self.lemma_search_closed();
            if self.origin@ is None {
                if self.state is FindStartingHex {
                    self.lemma_search_find();
                } else {
                    self.lemma_search_yield();
                }
            } else {
                self.lemma_search_origin();
            }
        }
    }

    /// While no walk is under way, the walk before has been closed.
    proof fn lemma_search_closed(self)
        requires
            self.wf(),
            self.state is FindStartingHex || self.state is YieldOne,
        ensures
            self.yielded().len() > 0 ==> self.yielded().contains(
                boundary_next(self.container_views(), self.yielded().last()),
            ),
    {
        reveal(HexPerimeterIterator::wf);
        let ys = self.yielded();
        if ys.len() > 0 {
            assert(ys.contains(boundary_next(self.container_views(), ys[ys.len() - 1])));
        }
    }

    /// Walking around the group of a starting hexagon begins with its outer
    /// start edge and ends with the walk.
    proof fn lemma_search_origin(self)
        requires
            self.wf(),
            self.state is FindStartingHex || self.state is YieldOne,
            self.origin@ is Some,
        ensures
            self.state is FindStartingHex ==> self.yielded().contains(
                outer_start(self.container_views(), self.origin@.unwrap()),
            ),
            self.state is YieldOne ==> self.yielded().len() == 0 && self.pending() == Some(
                outer_start(self.container_views(), self.origin@.unwrap()),
            ),
    {
        reveal(HexPerimeterIterator::wf);
        if self.state is FindStartingHex {
            assert(self.seen@.contains(outer_start(self.container_views(), self.origin@.unwrap())));
        }
    }

    /// While searching, every hexagon before the next one to look at has its
    /// first exterior edge returned already.
    proof fn lemma_search_find(self)
        requires
            self.wf(),
            self.state is FindStartingHex,
            self.origin@ is None,
        ensures
            first_unwalked(self.container_views(), self.yielded(), self.next_hex as int)
                == first_unwalked(self.container_views(), self.yielded(), 0),
    {
        reveal(HexPerimeterIterator::wf);
        let views = self.container_views();
        let ys = self.yielded();
        let v = self.hex_iter.unwrap();
        let n = self.next_hex as int;
        assert forall|i: int| 0 <= i < n implies match first_exterior_edge(views, #[trigger] views[i]) {
            Some(e) => ys.contains((views[i], e)),
            None => true,
        } by {
            assert(v@.map_values(|p: HexPos| p@)[i] == v@[i]@);
            match first_exterior_edge(views, views[i]) {
                Some(e) => {
                    assert(self.seen@.contains((v@[i]@, e)));
                },
                None => {},
            }
        }
        lemma_unwalked_skip(views, ys, 0, n);
    }

    /// A starting edge found by the search is the first one not returned.
    proof fn lemma_search_yield(self)
        requires
            self.wf(),
            self.state is YieldOne,
            self.origin@ is None,
        ensures
            self.pending() == first_unwalked(self.container_views(), self.yielded(), 0),
    {
        reveal(HexPerimeterIterator::wf);
        let views = self.container_views();
        let ys = self.yielded();
        let v = self.hex_iter.unwrap();
        let n = self.next_hex - 1;
        let x = self.pending().unwrap();
        assert(v@.map_values(|p: HexPos| p@)[n] == v@[n]@);
        assert(first_unwalked(views, ys, n) == Some(x));
        assert forall|i: int| 0 <= i < n implies match first_exterior_edge(views, #[trigger] views[i]) {
            Some(e) => ys.contains((views[i], e)) || (views[i], e) == x,
            None => true,
        } by {
            assert(v@.map_values(|p: HexPos| p@)[i] == v@[i]@);
            match first_exterior_edge(views, views[i]) {
                Some(e) => {
                    assert(self.seen@.contains((v@[i]@, e)));
                },
                None => {},
            }
        }
        lemma_unwalked_reach(views, ys, 0, n, x);
    }

    /// A search that has looked at every hexagon finds nothing more.
    proof fn lemma_finished_none(self)
        requires
            self.wf(),
            self.finished(),
            self.origin@ is None,
        ensures
            first_unwalked(self.container_views(), self.yielded(), self.next_hex as int) is None,
    {
        reveal(HexPerimeterIterator::wf);
        assert(self.hex_iter.unwrap()@.map_values(|p: HexPos| p@).len() == self.hex_iter.unwrap()@.len());
    }

    /// Once every hexagon has been looked at, the first exterior edge of each
    /// starting hexagon has been returned.
    proof fn lemma_finished_covers(self)
        requires
            self.wf(),
            self.finished(),
        ensures
            boundary_closed(self.container_views(), self.yielded()),
            self.origin() is None ==> starts_covered(self.container_views(), self.start_hexes(), self.yielded()),
            self.origin() is Some ==> self.yielded().contains(
                outer_start(self.container_views(), self.origin().unwrap()),
            ),
    {
        reveal(HexPerimeterIterator::wf);
        let views = self.container_views();
        lemma_closed_upto_full(views, self.yielded());
        if self.origin() is Some {
            assert(self.seen@.contains(outer_start(views, self.origin@.unwrap())));
            return;
        }
        assert forall|p: (int, int)| #[trigger] self.start_hexes().contains(p) implies match first_exterior_edge(views, p) {
            Some(e) => self.yielded().contains((p, e)),
            None => true,
        } by {
            match self.hex_iter {
                Some(v) => {
                    let k = choose|k: int| 0 <= k < views.len() && views[k] == p;
                    assert(v@.map_values(|q: HexPos| q@)[k] == p);
                    assert(v@[k]@ == p);
                    match first_exterior_edge(views, p) {
                        Some(e) => assert(self.seen@.contains((p, e))),
                        None => {},
                    }
                },
                None => {},
            }
        }
    }

    /// The hexagons of the container have representable neighbors, and the
    /// edges returned so far separate them from positions outside.
    proof fn lemma_walked_edges(self)
        requires
            self.wf(),
            self.origin() is None,
        ensures
            forall|p: (int, int)| #[trigger] self.container_views().contains(p) ==> neighbors_fit(p),
            forall|i: int|
                0 <= i < self.yielded().len() ==> is_boundary_edge(
                    self.container_views(),
                    #[trigger] self.yielded()[i],
                ),
    {
        reveal(HexPerimeterIterator::wf);
        let views = self.container_views();
        let ys = self.yielded();
        assert forall|p: (int, int)| #[trigger] views.contains(p) implies neighbors_fit(p) by {
            assert(self.hexes().contains(p));
        }
        assert forall|i: int| 0 <= i < ys.len() implies is_boundary_edge(views, #[trigger] ys[i]) by {
            assert(self.seen@.contains(ys[i]));
        }
    }

    /// Once every hexagon of the container has been looked at, every edge
    /// between a hexagon of the container and a position outside it has been
    /// returned.
    proof fn lemma_finished_walks_all(self)
        requires
            self.wf(),
            self.finished(),
            self.origin() is None,
        ensures
            all_boundary_walked(self.container_views(), self.yielded()),
    {
        self.lemma_finished_covers();
        self.lemma_walked_edges();
        assert(self.start_hexes() == self.container_views());
        lemma_walk_complete(self.container_views(), self.yielded());
    }

    /// The edges returned so far number at most six for each hexagon.
    proof fn lemma_bound(self)
        requires
            self.wf(),
        ensures
            self.yielded().len() <= 6 * self.hexes().len(),
    {
        reveal(HexPerimeterIterator::wf);
        assert forall|i: int| 0 <= i < self.yielded@.len() implies self.hexes().contains(
            #[trigger] self.yielded@[i].0,
        ) by {
            assert(self.seen@.contains(self.yielded@[i]));
        }
        lemma_edges_bound(self.yielded@, self.hexes());
    }

}

/// True when the walk along the boundary from `edge` of `hex` reaches
/// `target_edge` of `target_hex` within `limit` steps.
fn walk_reaches<C: HexPosContainer>(
    container: &C,
    hex: HexPos,
    edge: HexEdge,
    target_hex: HexPos,
    target_edge: HexEdge,
    limit: usize,
) -> (r: bool)
    requires
        neighbors_fit(hex@),
        forall|i: int|
            0 <= i < container.hex_views().len() ==> neighbors_fit(#[trigger] container.hex_views()[i]),
        is_exterior(container.hex_views(), (hex@, edge)),
    ensures
        r == exists|k: nat| k <= limit && #[trigger] walk_from(container.hex_views(), (hex@, edge), k) == (
            target_hex@,
            target_edge,
        ),
{
    let ghost views = container.hex_views();
    let ghost x = (hex@, edge);
    let mut cur_hex = hex;
    let mut cur_edge = edge;
    let mut k: usize = 0;
    loop
        invariant
            views == container.hex_views(),
            forall|i: int| 0 <= i < views.len() ==> neighbors_fit(#[trigger] views[i]),
            k <= limit,
            x == (hex@, edge),
            (cur_hex@, cur_edge) == walk_from(views, x, k as nat),
            is_exterior(views, (cur_hex@, cur_edge)),
            cur_hex@ == hex@ || views.contains(cur_hex@),
            neighbors_fit(hex@),
            forall|j: nat| j < k ==> #[trigger] walk_from(views, x, j) != (target_hex@, target_edge),
        decreases limit - k,
    {
        proof {
            if cur_hex@ != hex@ {
                let i = choose|i: int| 0 <= i < views.len() && views[i] == cur_hex@;
            }
        }
        if cur_hex == target_hex && cur_edge == target_edge {
            proof {
                let kk = k as nat;
                assert(walk_from(container.hex_views(), (hex@, edge), kk) == (target_hex@, target_edge));
                assert(kk <= limit);
            }
            return true;
        }
        if k == limit {
            proof {
                assert forall|j: nat| j <= limit implies #[trigger] walk_from(views, x, j) != (target_hex@, target_edge) by {
                    if j == k {
                        assert(walk_from(views, x, j) == (cur_hex@, cur_edge));
                    }
                }
                assert(!exists|j: nat| j <= limit && #[trigger] walk_from(container.hex_views(), (hex@, edge), j) == (
                    target_hex@,
                    target_edge,
                ));
            }
            return false;
        }
        let ghost cur = (cur_hex@, cur_edge);
        proof {
            lemma_boundary_next(views, cur);
            lemma_walk_from_last(views, x, k as nat);
        }
        let turned = cur_edge.rotate(1);
        if container.contains_hex(cur_hex.neighbor(turned)) {
            cur_hex = cur_hex.neighbor(turned);
            cur_edge = cur_edge.rotate(-1);
        } else {
            cur_edge = turned;
        }
        proof {
            assert((cur_hex@, cur_edge) == boundary_next(views, cur));
            assert forall|j: nat| j < k + 1 implies #[trigger] walk_from(views, x, j) != (target_hex@, target_edge) by {
                if j < k {
                }
            }
        }
        k += 1;
    }
}

/// The number that identifies `edge` of the hexagon at `pos`.
fn edge_key_of(pos: HexPos, edge: HexEdge) -> (r: u128)
    ensures
        r == edge_key((pos@, edge)),
{
    proof {
        lemma_edge_key((pos@, edge), (pos@, edge));
    }
    let u = (pos.u() as i64 + 0x8000_0000) as u128;
    let v = (pos.v() as i64 + 0x8000_0000) as u128;
    u * 0x8_0000_0000 + v * 8 + edge.ordinal() as u128
}

/// The edge that `first_exterior_from` finds is exterior.
proof fn lemma_first_exterior(hexes: Seq<(int, int)>, p: (int, int), i: int)
    requires
        0 <= i <= 6,
    ensures
        first_exterior_from(hexes, p, i) matches Some(e) ==> is_exterior(hexes, (p, e)),
    decreases 6 - i,
{
    if i < 6 {
        lemma_first_exterior(hexes, p, i + 1);
    }
}

/// The first edge of `pos`, counting counter-clockwise from the top-right
/// edge, whose neighbor the container lacks.
fn first_exterior<C: HexPosContainer>(container: &C, pos: HexPos) -> (r: Option<HexEdge>)
    requires
        neighbors_fit(pos@),
    ensures
        r == first_exterior_edge(container.hex_views(), pos@),
{
    let mut i: i64 = 0;
    while i < 6
        invariant
            0 <= i <= 6,
            neighbors_fit(pos@),
            first_exterior_edge(container.hex_views(), pos@) == first_exterior_from(
                container.hex_views(),
                pos@,
                i as int,
            ),
        decreases 6 - i,
    {
        let edge = HexEdge::from_ordinal(i);
        if !container.contains_hex(pos.neighbor(edge)) {
            return Some(edge);
        }
        i += 1;
    }
    None
}


/// Appending an item that a sequence without duplicates lacks keeps it
/// without duplicates.
proof fn lemma_push_distinct<A>(s: Seq<A>, x: A)
    requires
        s.no_duplicates(),
        !s.contains(x),
    ensures
        s.push(x).no_duplicates(),
{
    assert forall|a: int, b: int| 0 <= a < s.len() + 1 && 0 <= b < s.len() + 1 && a != b implies s.push(x)[a]
        != s.push(x)[b] by {
        if a < s.len() && b < s.len() {
            assert(s.push(x)[a] == s[a]);
            assert(s.push(x)[b] == s[b]);
        } else if a < s.len() {
            assert(s.push(x)[a] == s[a]);
        } else {
            assert(s.push(x)[b] == s[b]);
        }
    }
}


/// True when the successor of each of the first `n` edges of `ys` is in `ys`.
spec fn closed_upto(hexes: Seq<(int, int)>, ys: Seq<((int, int), HexEdge)>, n: int) -> bool {
    forall|i: int| 0 <= i < n ==> ys.contains(boundary_next(hexes, #[trigger] ys[i]))
}

/// Appending an edge keeps the successors of the earlier edges present.
proof fn lemma_closed_push(
    hexes: Seq<(int, int)>,
    ys: Seq<((int, int), HexEdge)>,
    n: int,
    z: ((int, int), HexEdge),
)
    requires
        0 <= n <= ys.len(),
        closed_upto(hexes, ys, n),
    ensures
        closed_upto(hexes, ys.push(z), n),
{
    let t = ys.push(z);
    assert forall|i: int| 0 <= i < n implies t.contains(boundary_next(hexes, #[trigger] t[i])) by {
        assert(t[i] == ys[i]);
        let y = boundary_next(hexes, ys[i]);
        assert(ys.contains(y));
        let k = choose|k: int| 0 <= k < ys.len() && ys[k] == y;
        assert(t[k] == y);
    }
}

/// Once the successor of the last edge is present too, every successor is.
proof fn lemma_closed_last(hexes: Seq<(int, int)>, ys: Seq<((int, int), HexEdge)>)
    requires
        ys.len() > 0,
        closed_upto(hexes, ys, ys.len() - 1),
        ys.contains(boundary_next(hexes, ys.last())),
    ensures
        closed_upto(hexes, ys, ys.len() as int),
{
}

} // verus!
