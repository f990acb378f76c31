use vstd::prelude::*;
use crate::corner::corner_ord;
use crate::corner_pos::HexCornerPos;
use crate::delta::{HexDelta, is_even_pair, pair_add, pair_sub, rotate_pair, group_delta};
use crate::edge::{HexEdge, edge_at, edge_dir, edge_ord};
use crate::edge_pos::HexEdgePos;
use crate::id::{HexId, rotate_around_pair};
use crate::pos::{HexPos, corner_neighbors, group_pos, neighbor_of, pos_of};

verus! {

broadcast use {group_delta, group_pos};

/// Rotation distributes over the sum of two vectors with even coordinate
/// sums.
pub proof fn lemma_rotate_add(a: (int, int), b: (int, int), steps: int)
    requires
        is_even_pair(a),
        is_even_pair(b),
    ensures
        rotate_pair(pair_add(a, b), steps) == pair_add(rotate_pair(a, steps), rotate_pair(b, steps)),
{
    let xa = (a.0 - a.1) / 2;
    let ya = (a.0 + a.1) / 2;
    let xb = (b.0 - b.1) / 2;
    let yb = (b.0 + b.1) / 2;
    assert(a.0 - a.1 == 2 * xa && a.0 + a.1 == 2 * ya);
    assert(b.0 - b.1 == 2 * xb && b.0 + b.1 == 2 * yb);
    assert(a.0 == xa + ya && a.1 == ya - xa);
    assert(b.0 == xb + yb && b.1 == yb - xb);
}

/// Rotating the step across an edge by `steps` sixths of a turn gives the
/// step across the edge `steps` places further counter-clockwise.
pub proof fn lemma_rotate_dir(e: HexEdge, steps: int)
    ensures
        rotate_pair(edge_dir(e), steps) == edge_dir(edge_at(edge_ord(e) + steps)),
        is_even_pair(edge_dir(e)),
{
    let k = steps % 6;
    let o = edge_ord(e);
    assert((o + steps) % 6 == (o + k) % 6) by {
        let q = steps / 6;
        assert(steps == 6 * q + k);
        vstd::arithmetic::div_mod::lemma_mod_multiples_vanish(q, o + k, 6);
        assert(o + steps == 6 * q + (o + k));
    }
    assert(edge_at(o + steps) == edge_at(o + k));
}

/// Rotating an edge of a hexagon around a center by `steps` sixths of a
/// turn gives the edge between the rotated hexagon and its rotated neighbor
/// across that edge: the grid edge itself turns with the rotation.
pub proof fn lemma_edge_pos_rotate(x: HexEdgePos<HexEdge>, center: HexPos, steps: int)
    requires
        is_even_pair(x.pos@),
        is_even_pair(center@),
        x.rotate_fits(center, steps),
    ensures
        x.rotated_id(center, steps).pos@ == rotate_around_pair(x.pos@, center@, steps),
        neighbor_of(x.rotated_id(center, steps).pos@, x.rotated_id(center, steps).edge)
            == rotate_around_pair(neighbor_of(x.pos@, x.edge), center@, steps),
{
    let d = pair_sub(x.pos@, center@);
    let dir = edge_dir(x.edge);
    lemma_rotate_dir(x.edge, steps);
    assert(is_even_pair(d));
    lemma_rotate_add(d, dir, steps);
    assert(pair_sub(neighbor_of(x.pos@, x.edge), center@) == pair_add(d, dir));
    assert(pos_of(rotate_around_pair(x.pos@, center@, steps))@ == rotate_around_pair(x.pos@, center@, steps));
}

/// Rotating a corner of a hexagon around a center by `steps` sixths of a
/// turn gives the corner that the rotated hexagon shares with the rotations
/// of the two other hexagons that share the corner.
pub proof fn lemma_corner_pos_rotate(x: HexCornerPos, center: HexPos, steps: int)
    requires
        is_even_pair(x.pos@),
        is_even_pair(center@),
        x.rotate_fits(center, steps),
    ensures
        x.rotated_id(center, steps).pos@ == rotate_around_pair(x.pos@, center@, steps),
        corner_neighbors(x.rotated_id(center, steps).pos@, x.rotated_id(center, steps).corner).0
            == rotate_around_pair(corner_neighbors(x.pos@, x.corner).0, center@, steps),
        corner_neighbors(x.rotated_id(center, steps).pos@, x.rotated_id(center, steps).corner).2
            == rotate_around_pair(corner_neighbors(x.pos@, x.corner).2, center@, steps),
{
    let k = corner_ord(x.corner);
    let p = x.pos@;
    let r = x.rotated_id(center, steps);
    assert(is_even_pair(pair_sub(p, center@)));
    assert(pos_of(rotate_around_pair(p, center@, steps))@ == rotate_around_pair(p, center@, steps));
    assert(r.pos@ == rotate_around_pair(p, center@, steps));
    assert(corner_ord(r.corner) == (k + steps) % 6);
    lemma_rotate_neighbor(p, center@, edge_at(k + 5), steps);
    lemma_rotate_neighbor(p, center@, edge_at(k), steps);
    lemma_ord_rotate_shift(k, 5, steps);
    lemma_ord_rotate_shift(k, 0, steps);
    assert(edge_at(k + 0) == edge_at(k));
}

/// Rotating the neighbor of `p` across `e` around a center gives the
/// neighbor of the rotated `p` across the rotated edge.
pub proof fn lemma_rotate_neighbor(p: (int, int), center: (int, int), e: HexEdge, steps: int)
    requires
        is_even_pair(p),
        is_even_pair(center),
    ensures
        rotate_around_pair(neighbor_of(p, e), center, steps) == neighbor_of(
            rotate_around_pair(p, center, steps),
            edge_at(edge_ord(e) + steps),
        ),
{
    let d = pair_sub(p, center);
    let dir = edge_dir(e);
    lemma_rotate_dir(e, steps);
    assert(is_even_pair(d));
    lemma_rotate_add(d, dir, steps);
    assert(pair_sub(neighbor_of(p, e), center) == pair_add(d, dir));
}

/// Adding `j` to a number taken modulo 6 and then `steps` lands where
/// adding `steps` first and then `j` does.
proof fn lemma_ord_rotate_shift(k: int, j: int, steps: int)
    requires
        0 <= k < 6,
        0 <= j < 6,
    ensures
        edge_at(edge_ord(edge_at(k + j)) + steps) == edge_at((k + steps) % 6 + j),
{
    let a = k + j + steps;
    let b = (k + steps) % 6 + j;
    let c = (k + j) % 6 + steps;
    assert(edge_ord(edge_at(k + j)) == (k + j) % 6);
    let q1 = (k + j) / 6;
    let q2 = (k + steps) / 6;
    assert(k + j == 6 * q1 + (k + j) % 6);
    assert(k + steps == 6 * q2 + (k + steps) % 6);
    assert(a == 6 * q1 + c);
    assert(a == 6 * q2 + b);
    vstd::arithmetic::div_mod::lemma_mod_multiples_vanish(q1, c, 6);
    vstd::arithmetic::div_mod::lemma_mod_multiples_vanish(q2, b, 6);
}

/// Shifting an edge of a hexagon by a delta gives the edge between the
/// shifted hexagon and its shifted neighbor across that edge: the grid edge
/// moves without turning.
pub proof fn lemma_edge_pos_shift(x: HexEdgePos<HexEdge>, delta: HexDelta)
    requires
        x.shift_fits(delta),
    ensures
        x.shifted_id(delta).pos@ == pair_add(x.pos@, delta@),
        neighbor_of(x.shifted_id(delta).pos@, x.shifted_id(delta).edge) == pair_add(
            neighbor_of(x.pos@, x.edge),
            delta@,
        ),
{
    assert(pos_of(pair_add(x.pos@, delta@))@ == pair_add(x.pos@, delta@));
}

/// Shifting a corner of a hexagon by a delta gives the corner that the
/// shifted hexagon shares with the shifted hexagons that shared it before:
/// the grid corner moves without turning.
pub proof fn lemma_corner_pos_shift(x: HexCornerPos, delta: HexDelta)
    requires
        x.shift_fits(delta),
    ensures
        x.shifted_id(delta).pos@ == pair_add(x.pos@, delta@),
        corner_neighbors(x.shifted_id(delta).pos@, x.shifted_id(delta).corner).0 == pair_add(
            corner_neighbors(x.pos@, x.corner).0,
            delta@,
        ),
        corner_neighbors(x.shifted_id(delta).pos@, x.shifted_id(delta).corner).2 == pair_add(
            corner_neighbors(x.pos@, x.corner).2,
            delta@,
        ),
{
    assert(pos_of(pair_add(x.pos@, delta@))@ == pair_add(x.pos@, delta@));
}

} // verus!
