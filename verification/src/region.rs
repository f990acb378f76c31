use vstd::prelude::*;
use crate::HexCoord;
use crate::container::HexPosContainer;
use crate::corner::{HexCorner, corner_at, corner_ord};
use crate::corner_pos::{HexCornerPos, corner_norm, corner_variants, lemma_corner_variants};
use crate::delta::{fits_coord, fits_pair, is_even_pair, group_delta};
use crate::edge::{HexEdge, edge_at, edge_ord};
use crate::edge_pos::{HexEdgePos, edge_norm, lemma_edge_norm_same};
use crate::pos::{HexPos, corner_neighbors, group_pos, neighbor_of};

verus! {

broadcast use {group_delta, group_pos};

/// True when position `p` lies in the rectangle `r` = (min_u, min_v, max_u, max_v).
pub open spec fn region_contains(r: (int, int, int, int), p: (int, int)) -> bool {
    r.0 <= p.0 <= r.2 && r.1 <= p.1 <= r.3
}

/// The grid positions of a rectangle in row-major order, starting at column
/// `u` of row `v`, where each row after the first starts at `min_u`.
pub open spec fn region_rest(u: int, v: int, min_u: int, max_u: int, max_v: int) -> Seq<(int, int)>
    decreases max_v + 1 - v, max_u + 1 - u,
{
    if v > max_v || min_u > max_u {
        Seq::empty()
    } else if u > max_u {
        region_rest(min_u, v + 1, min_u, max_u, max_v)
    } else if (u + v) % 2 != 0 {
        region_rest(u + 1, v, min_u, max_u, max_v)
    } else {
        seq![(u, v)] + region_rest(u + 1, v, min_u, max_u, max_v)
    }
}

/// All grid positions of the rectangle `r`, in row-major order starting with
/// the bottom-left corner.
pub open spec fn region_seq(r: (int, int, int, int)) -> Seq<(int, int)> {
    region_rest(r.0, r.1, r.0, r.2, r.3)
}

/// The positions that remain from (u, v) on are those of row `v` from column
/// `u` on and those of the later rows, each exactly once and in order.
pub proof fn lemma_region_rest_contains(u: int, v: int, min_u: int, max_u: int, max_v: int, x: (int, int))
    requires
        min_u <= u,
    ensures
        region_rest(u, v, min_u, max_u, max_v).contains(x) == (is_even_pair(x) && ((x.1 == v && u
            <= x.0 <= max_u) || (v < x.1 <= max_v && min_u <= x.0 <= max_u)) && v <= max_v),
    decreases max_v + 1 - v, max_u + 1 - u,
{
    let s = region_rest(u, v, min_u, max_u, max_v);
    if v > max_v || min_u > max_u {
    } else if u > max_u {
        lemma_region_rest_contains(min_u, v + 1, min_u, max_u, max_v, x);
    } else if (u + v) % 2 != 0 {
        lemma_region_rest_contains(u + 1, v, min_u, max_u, max_v, x);
    } else {
        lemma_region_rest_contains(u + 1, v, min_u, max_u, max_v, x);
        let t = region_rest(u + 1, v, min_u, max_u, max_v);
        assert(s == seq![(u, v)] + t);
        if t.contains(x) {
            let i = choose|i: int| 0 <= i < t.len() && t[i] == x;
            assert(s[i + 1] == x);
        }
        if x == (u, v) {
            assert(s[0] == x);
        }
        if s.contains(x) && x != (u, v) {
            let i = choose|i: int| 0 <= i < s.len() && s[i] == x;
            assert(t[i - 1] == x);
        }
    }
}


/// The number of columns in [u, max_u] that hold a grid position in row `v`.
pub open spec fn row_len(u: int, v: int, max_u: int) -> int {
    if u > max_u {
        0
    } else if (u + v) % 2 == 0 {
        (max_u - u) / 2 + 1
    } else {
        (max_u - u + 1) / 2
    }
}

/// The number of grid positions in rows `v` to `max_v` of columns
/// `min_u` to `max_u`.
pub open spec fn rows_len(v: int, min_u: int, max_u: int, max_v: int) -> int
    decreases max_v + 1 - v,
{
    if v > max_v {
        0
    } else {
        row_len(min_u, v, max_u) + rows_len(v + 1, min_u, max_u, max_v)
    }
}

/// The number of grid positions in the rectangle `r`, in closed form: rows
/// whose first column holds a position have one more position than the others
/// when the width is odd.
pub open spec fn region_count(r: (int, int, int, int)) -> int {
    let (min_u, min_v, max_u, max_v) = r;
    if min_u > max_u || min_v > max_v {
        0
    } else {
        let w = max_u - min_u + 1;
        let h = max_v - min_v + 1;
        let a = if (min_u + min_v) % 2 == 0 { (h + 1) / 2 } else { h / 2 };
        a * ((w + 1) / 2) + (h - a) * (w / 2)
    }
}

proof fn lemma_region_rest_len(u: int, v: int, min_u: int, max_u: int, max_v: int)
    requires
        min_u <= u,
    ensures
        region_rest(u, v, min_u, max_u, max_v).len() == if v > max_v || min_u > max_u {
            0
        } else {
            row_len(u, v, max_u) + rows_len(v + 1, min_u, max_u, max_v)
        },
    decreases max_v + 1 - v, max_u + 1 - u,
{
    if v > max_v || min_u > max_u {
    } else if u > max_u {
        lemma_region_rest_len(min_u, v + 1, min_u, max_u, max_v);
        assert(rows_len(v + 1, min_u, max_u, max_v) == if v + 1 > max_v {
            0
        } else {
            row_len(min_u, v + 1, max_u) + rows_len(v + 2, min_u, max_u, max_v)
        });
    } else if (u + v) % 2 != 0 {
        lemma_region_rest_len(u + 1, v, min_u, max_u, max_v);
    } else {
        lemma_region_rest_len(u + 1, v, min_u, max_u, max_v);
    }
}

proof fn lemma_rows_len_closed(v: int, min_u: int, max_u: int, max_v: int)
    requires
        min_u <= max_u,
    ensures
        ({
            let w = max_u - min_u + 1;
            let h = if v > max_v { 0 } else { max_v - v + 1 };
            let a = if (min_u + v) % 2 == 0 { (h + 1) / 2 } else { h / 2 };
            rows_len(v, min_u, max_u, max_v) == a * ((w + 1) / 2) + (h - a) * (w / 2)
        }),
    decreases max_v + 1 - v,
{
    let w = max_u - min_u + 1;
    let ce = (w + 1) / 2;
    let co = w / 2;
    if v <= max_v {
        lemma_rows_len_closed(v + 1, min_u, max_u, max_v);
        let h = max_v - v + 1;
        let h1 = h - 1;
        let a1 = if (min_u + v + 1) % 2 == 0 { (h1 + 1) / 2 } else { h1 / 2 };
        let a = if (min_u + v) % 2 == 0 { (h + 1) / 2 } else { h / 2 };
        assert(h1 == if v + 1 > max_v { 0 } else { max_v - (v + 1) + 1 });
        assert(rows_len(v, min_u, max_u, max_v) == row_len(min_u, v, max_u) + rows_len(v + 1, min_u, max_u, max_v));
        assert(rows_len(v + 1, min_u, max_u, max_v) == a1 * ce + (h1 - a1) * co);
        if (min_u + v) % 2 == 0 {
            assert(row_len(min_u, v, max_u) == ce);
            assert(a == a1 + 1);
            assert(a * ce + (h - a) * co == ce + (a1 * ce + (h1 - a1) * co)) by (nonlinear_arith)
                requires a == a1 + 1, h == h1 + 1;
        } else {
            assert(row_len(min_u, v, max_u) == co);
            assert(a == a1);
            assert(a * ce + (h - a) * co == co + (a1 * ce + (h1 - a1) * co)) by (nonlinear_arith)
                requires a == a1, h == h1 + 1;
        }
        assert(rows_len(v, min_u, max_u, max_v) == a * ce + (h - a) * co);
    } else {
        let h = 0int;
        let a = if (min_u + v) % 2 == 0 { (h + 1) / 2 } else { h / 2 };
        assert(a == 0);
        assert(a * ce + (h - a) * co == 0) by (nonlinear_arith) requires a == 0, h == 0;
    }
}

/// The closed form counts the positions of a rectangle.
pub proof fn lemma_region_count(r: (int, int, int, int))
    ensures
        region_seq(r).len() == region_count(r),
{
    let (min_u, min_v, max_u, max_v) = r;
    lemma_region_rest_len(min_u, min_v, min_u, max_u, max_v);
    if !(min_u > max_u || min_v > max_v) {
        lemma_rows_len_closed(min_v, min_u, max_u, max_v);
        assert(rows_len(min_v, min_u, max_u, max_v) == row_len(min_u, min_v, max_u) + rows_len(
            min_v + 1,
            min_u,
            max_u,
            max_v,
        ));
    }
}


/// True when the grid edge named by edge `e` of the hexagon at `p` belongs to
/// a hexagon of the rectangle `r`.
pub open spec fn region_contains_edge(r: (int, int, int, int), p: (int, int), e: HexEdge) -> bool {
    region_contains(r, p) || region_contains(r, neighbor_of(p, e))
}

/// True when the grid corner named by corner `c` of the hexagon at `p` belongs
/// to a hexagon of the rectangle `r`.
pub open spec fn region_contains_corner(r: (int, int, int, int), p: (int, int), c: HexCorner) -> bool {
    region_contains(r, p) || region_contains(r, corner_neighbors(p, c).0) || region_contains(
        r,
        corner_neighbors(p, c).2,
    )
}

/// Whether the edge iterator of `r` returns edge `e` of the hexagon at `p`:
/// upper edges always, lower edges only when the hexagon on the other side is
/// outside `r` (otherwise that hexagon returns the edge as one of its upper
/// edges).
pub open spec fn region_edge_ok(r: (int, int, int, int), p: (int, int), e: HexEdge) -> bool {
    edge_ord(e) < 3 || !region_contains(r, neighbor_of(p, e))
}

/// The edges that the edge iterator of `r` returns for the hexagon at `p`,
/// from edge number `k` on.
pub open spec fn region_edges_from(r: (int, int, int, int), p: (int, int), k: int) -> Seq<((int, int), HexEdge)>
    decreases 6 - k,
{
    if k >= 6 {
        Seq::empty()
    } else {
        let rest = region_edges_from(r, p, k + 1);
        if region_edge_ok(r, p, edge_at(k)) {
            seq![(p, edge_at(k))] + rest
        } else {
            rest
        }
    }
}

/// The edges that the edge iterator of `r` returns for the hexagons `ps`.
pub open spec fn region_edges_of(r: (int, int, int, int), ps: Seq<(int, int)>) -> Seq<((int, int), HexEdge)>
    decreases ps.len(),
{
    if ps.len() == 0 {
        Seq::empty()
    } else {
        region_edges_from(r, ps[0], 0) + region_edges_of(r, ps.drop_first())
    }
}

/// Every edge of the rectangle `r`, each under one of its names.
pub open spec fn region_edge_seq(r: (int, int, int, int)) -> Seq<((int, int), HexEdge)> {
    region_edges_of(r, region_seq(r))
}

/// Whether the corner iterator of `r` returns corner `c` of the hexagon at
/// `p`.  Of the three names of a corner, the one on the hexagon that holds it
/// as an upper corner is preferred, then the one from the hexagon above it,
/// then the remaining one; a name is used when no preferred name belongs to a
/// hexagon of `r`.
pub open spec fn region_corner_ok(r: (int, int, int, int), p: (int, int), c: HexCorner) -> bool {
    let (u, v) = p;
    match c {
        HexCorner::TopRight | HexCorner::TopLeft => true,
        HexCorner::BottomLeft | HexCorner::BottomRight => !region_contains(r, (u, v - 2)),
        HexCorner::Left => !region_contains(r, (u - 1, v - 1)) && !region_contains(r, (u - 1, v + 1)),
        HexCorner::Right => !region_contains(r, (u + 1, v - 1)) && !region_contains(r, (u + 1, v + 1)),
    }
}

/// The corners that the corner iterator of `r` returns for the hexagon at
/// `p`, from corner number `k` on (numbers 1 to 6, the last being the right
/// corner).
pub open spec fn region_corners_from(r: (int, int, int, int), p: (int, int), k: int) -> Seq<((int, int), HexCorner)>
    decreases 7 - k,
{
    if k >= 7 {
        Seq::empty()
    } else {
        let rest = region_corners_from(r, p, k + 1);
        if region_corner_ok(r, p, corner_at(k)) {
            seq![(p, corner_at(k))] + rest
        } else {
            rest
        }
    }
}

/// The corners that the corner iterator of `r` returns for the hexagons `ps`.
pub open spec fn region_corners_of(r: (int, int, int, int), ps: Seq<(int, int)>) -> Seq<((int, int), HexCorner)>
    decreases ps.len(),
{
    if ps.len() == 0 {
        Seq::empty()
    } else {
        region_corners_from(r, ps[0], 1) + region_corners_of(r, ps.drop_first())
    }
}

/// Every corner of the rectangle `r`, each under one of its names.
pub open spec fn region_corner_seq(r: (int, int, int, int)) -> Seq<((int, int), HexCorner)> {
    region_corners_of(r, region_seq(r))
}


/// A rectangle lists each of its positions once.
proof fn lemma_region_rest_no_dup(u: int, v: int, min_u: int, max_u: int, max_v: int)
    requires
        min_u <= u,
    ensures
        region_rest(u, v, min_u, max_u, max_v).no_duplicates(),
    decreases max_v + 1 - v, max_u + 1 - u,
{
    if v > max_v || min_u > max_u {
    } else if u > max_u {
        lemma_region_rest_no_dup(min_u, v + 1, min_u, max_u, max_v);
    } else if (u + v) % 2 != 0 {
        lemma_region_rest_no_dup(u + 1, v, min_u, max_u, max_v);
    } else {
        lemma_region_rest_no_dup(u + 1, v, min_u, max_u, max_v);
        let t = region_rest(u + 1, v, min_u, max_u, max_v);
        lemma_region_rest_contains(u + 1, v, min_u, max_u, max_v, (u, v));
        assert forall|i: int, j: int| 0 <= i < 1 && 0 <= j < t.len() implies seq![(u, v)][i] != t[j] by {
            assert(t.contains(t[j]));
        }
        vstd::seq_lib::lemma_no_dup_in_concat(seq![(u, v)], t);
    }
}

proof fn lemma_edges_from_contains(r: (int, int, int, int), p: (int, int), k: int, x: ((int, int), HexEdge))
    requires
        0 <= k <= 6,
    ensures
        region_edges_from(r, p, k).contains(x) == (x.0 == p && k <= edge_ord(x.1) && region_edge_ok(
            r,
            p,
            x.1,
        )),
    decreases 6 - k,
{
    broadcast use vstd::seq_lib::group_seq_properties;

    if k < 6 {
        lemma_edges_from_contains(r, p, k + 1, x);
        if edge_ord(x.1) == k {
            assert(x.1 == edge_at(k));
        }
    }
}

proof fn lemma_edges_from_no_dup(r: (int, int, int, int), p: (int, int), k: int)
    requires
        0 <= k <= 6,
    ensures
        region_edges_from(r, p, k).no_duplicates(),
    decreases 6 - k,
{
    if k < 6 {
        lemma_edges_from_no_dup(r, p, k + 1);
        let t = region_edges_from(r, p, k + 1);
        if region_edge_ok(r, p, edge_at(k)) {
            assert forall|i: int, j: int| 0 <= i < 1 && 0 <= j < t.len() implies seq![(p, edge_at(k))][i] != t[j] by {
                assert(t.contains(t[j]));
                lemma_edges_from_contains(r, p, k + 1, t[j]);
            }
            vstd::seq_lib::lemma_no_dup_in_concat(seq![(p, edge_at(k))], t);
        }
    }
}

proof fn lemma_edges_of_contains(r: (int, int, int, int), ps: Seq<(int, int)>, x: ((int, int), HexEdge))
    ensures
        region_edges_of(r, ps).contains(x) == (ps.contains(x.0) && region_edge_ok(r, x.0, x.1)),
    decreases ps.len(),
{
    broadcast use vstd::seq_lib::group_seq_properties;

    if ps.len() > 0 {
        lemma_edges_of_contains(r, ps.drop_first(), x);
        lemma_edges_from_contains(r, ps[0], 0, x);
        assert(ps == seq![ps[0]] + ps.drop_first());
        crate::edge::lemma_edge_at_ord(x.1);
    }
}

proof fn lemma_edges_of_no_dup(r: (int, int, int, int), ps: Seq<(int, int)>)
    requires
        ps.no_duplicates(),
    ensures
        region_edges_of(r, ps).no_duplicates(),
    decreases ps.len(),
{
    if ps.len() > 0 {
        let rest = ps.drop_first();
        lemma_edges_of_no_dup(r, rest);
        lemma_edges_from_no_dup(r, ps[0], 0);
        let a = region_edges_from(r, ps[0], 0);
        let b = region_edges_of(r, rest);
        assert forall|i: int, j: int| 0 <= i < a.len() && 0 <= j < b.len() implies a[i] != b[j] by {
            assert(a.contains(a[i]));
            assert(b.contains(b[j]));
            lemma_edges_from_contains(r, ps[0], 0, a[i]);
            lemma_edges_of_contains(r, rest, b[j]);
            if rest.contains(ps[0]) {
                let m = choose|m: int| 0 <= m < rest.len() && rest[m] == ps[0];
                assert(ps[m + 1] == ps[0]);
            }
        }
        vstd::seq_lib::lemma_no_dup_in_concat(a, b);
    }
}

/// The edge iterator of a rectangle returns each edge at most once: each name
/// it returns is an edge of a hexagon of the rectangle, and no two names it
/// returns denote the same edge.
pub proof fn lemma_region_edges_distinct(r: (int, int, int, int))
    ensures
        forall|i: int|
            0 <= i < region_edge_seq(r).len() ==> region_contains(r, (#[trigger] region_edge_seq(r)[i]).0)
                && is_even_pair(region_edge_seq(r)[i].0),
        forall|i: int, j: int|
            0 <= i < j < region_edge_seq(r).len() ==> edge_norm(
                (#[trigger] region_edge_seq(r)[i]).0,
                region_edge_seq(r)[i].1,
            ) != edge_norm((#[trigger] region_edge_seq(r)[j]).0, region_edge_seq(r)[j].1),
{
    let q = region_edge_seq(r);
    let ps = region_seq(r);
    lemma_region_rest_no_dup(r.0, r.1, r.0, r.2, r.3);
    lemma_edges_of_no_dup(r, ps);
    assert forall|i: int| 0 <= i < q.len() implies region_contains(r, (#[trigger] q[i]).0)
        && is_even_pair(q[i].0) by {
        assert(q.contains(q[i]));
        lemma_edges_of_contains(r, ps, q[i]);
        lemma_region_seq_contains(r, q[i].0);
    }
    assert forall|i: int, j: int| 0 <= i < j < q.len() implies edge_norm(
        (#[trigger] q[i]).0,
        q[i].1,
    ) != edge_norm((#[trigger] q[j]).0, q[j].1) by {
        let (p, e) = q[i];
        let (o, f) = q[j];
        assert(q.contains(q[i]));
        assert(q.contains(q[j]));
        lemma_edges_of_contains(r, ps, q[i]);
        lemma_edges_of_contains(r, ps, q[j]);
        lemma_region_seq_contains(r, p);
        lemma_region_seq_contains(r, o);
        lemma_edge_norm_same(p, e, o, f);
        crate::pos::lemma_neighbor_opposite(p, e);
    }
}

/// Every edge of every hexagon of a rectangle is returned by its edge
/// iterator under one of its names.
pub proof fn lemma_region_edge_found(r: (int, int, int, int), p: (int, int), e: HexEdge)
    requires
        is_even_pair(p),
        region_contains(r, p),
    ensures
        exists|i: int|
            0 <= i < region_edge_seq(r).len() && edge_norm(
                (#[trigger] region_edge_seq(r)[i]).0,
                region_edge_seq(r)[i].1,
            ) == edge_norm(p, e),
{
    let q = region_edge_seq(r);
    let ps = region_seq(r);
    lemma_region_seq_contains(r, p);
    let n = neighbor_of(p, e);
    let f = edge_at(edge_ord(e) + 3);
    let x = if region_edge_ok(r, p, e) {
        (p, e)
    } else {
        (n, f)
    };
    if !region_edge_ok(r, p, e) {
        lemma_region_seq_contains(r, n);
        crate::pos::lemma_neighbor_opposite(p, e);
    }
    lemma_edges_of_contains(r, ps, x);
    lemma_edge_norm_same(p, e, x.0, x.1);
    let i = choose|i: int| 0 <= i < q.len() && q[i] == x;
    assert(edge_norm(q[i].0, q[i].1) == edge_norm(p, e));
}

/// The place of corner `c` among the corners that the corner iterator looks
/// at for each hexagon, numbered 1 to 6.
spec fn corner_place(c: HexCorner) -> int {
    if corner_ord(c) == 0 {
        6
    } else {
        corner_ord(c)
    }
}

proof fn lemma_corners_from_contains(r: (int, int, int, int), p: (int, int), k: int, x: ((int, int), HexCorner))
    requires
        1 <= k <= 7,
    ensures
        region_corners_from(r, p, k).contains(x) == (x.0 == p && k <= corner_place(x.1)
            && region_corner_ok(r, p, x.1)),
    decreases 7 - k,
{
    broadcast use vstd::seq_lib::group_seq_properties;

    if k < 7 {
        lemma_corners_from_contains(r, p, k + 1, x);
        if corner_place(x.1) == k {
            assert(x.1 == corner_at(k));
        }
    }
}

proof fn lemma_corners_from_no_dup(r: (int, int, int, int), p: (int, int), k: int)
    requires
        1 <= k <= 7,
    ensures
        region_corners_from(r, p, k).no_duplicates(),
    decreases 7 - k,
{
    if k < 7 {
        lemma_corners_from_no_dup(r, p, k + 1);
        let t = region_corners_from(r, p, k + 1);
        if region_corner_ok(r, p, corner_at(k)) {
            assert forall|i: int, j: int| 0 <= i < 1 && 0 <= j < t.len() implies seq![(p, corner_at(k))][i] != t[j] by {
                assert(t.contains(t[j]));
                lemma_corners_from_contains(r, p, k + 1, t[j]);
            }
            vstd::seq_lib::lemma_no_dup_in_concat(seq![(p, corner_at(k))], t);
        }
    }
}

proof fn lemma_corners_of_contains(r: (int, int, int, int), ps: Seq<(int, int)>, x: ((int, int), HexCorner))
    ensures
        region_corners_of(r, ps).contains(x) == (ps.contains(x.0) && region_corner_ok(r, x.0, x.1)),
    decreases ps.len(),
{
    broadcast use vstd::seq_lib::group_seq_properties;

    if ps.len() > 0 {
        lemma_corners_of_contains(r, ps.drop_first(), x);
        lemma_corners_from_contains(r, ps[0], 1, x);
        assert(ps == seq![ps[0]] + ps.drop_first());
    }
}

proof fn lemma_corners_of_no_dup(r: (int, int, int, int), ps: Seq<(int, int)>)
    requires
        ps.no_duplicates(),
    ensures
        region_corners_of(r, ps).no_duplicates(),
    decreases ps.len(),
{
    if ps.len() > 0 {
        let rest = ps.drop_first();
        lemma_corners_of_no_dup(r, rest);
        lemma_corners_from_no_dup(r, ps[0], 1);
        let a = region_corners_from(r, ps[0], 1);
        let b = region_corners_of(r, rest);
        assert forall|i: int, j: int| 0 <= i < a.len() && 0 <= j < b.len() implies a[i] != b[j] by {
            assert(a.contains(a[i]));
            assert(b.contains(b[j]));
            lemma_corners_from_contains(r, ps[0], 1, a[i]);
            lemma_corners_of_contains(r, rest, b[j]);
            if rest.contains(ps[0]) {
                let m = choose|m: int| 0 <= m < rest.len() && rest[m] == ps[0];
                assert(ps[m + 1] == ps[0]);
            }
        }
        vstd::seq_lib::lemma_no_dup_in_concat(a, b);
    }
}

/// The corner iterator of a rectangle returns each corner at most once: each
/// name it returns is a corner of a hexagon of the rectangle, and no two names
/// it returns denote the same corner.
pub proof fn lemma_region_corners_distinct(r: (int, int, int, int))
    ensures
        forall|i: int|
            0 <= i < region_corner_seq(r).len() ==> region_contains(r, (#[trigger] region_corner_seq(r)[i]).0)
                && is_even_pair(region_corner_seq(r)[i].0),
        forall|i: int, j: int|
            0 <= i < j < region_corner_seq(r).len() ==> corner_norm(
                (#[trigger] region_corner_seq(r)[i]).0,
                region_corner_seq(r)[i].1,
            ) != corner_norm((#[trigger] region_corner_seq(r)[j]).0, region_corner_seq(r)[j].1),
{
    let q = region_corner_seq(r);
    let ps = region_seq(r);
    lemma_region_rest_no_dup(r.0, r.1, r.0, r.2, r.3);
    lemma_corners_of_no_dup(r, ps);
    assert forall|i: int| 0 <= i < q.len() implies region_contains(r, (#[trigger] q[i]).0)
        && is_even_pair(q[i].0) by {
        assert(q.contains(q[i]));
        lemma_corners_of_contains(r, ps, q[i]);
        lemma_region_seq_contains(r, q[i].0);
    }
    assert forall|i: int, j: int| 0 <= i < j < q.len() implies corner_norm(
        (#[trigger] q[i]).0,
        q[i].1,
    ) != corner_norm((#[trigger] q[j]).0, q[j].1) by {
        let x = q[i];
        let y = q[j];
        assert(q.contains(x));
        assert(q.contains(y));
        lemma_corners_of_contains(r, ps, x);
        lemma_corners_of_contains(r, ps, y);
        lemma_region_seq_contains(r, x.0);
        lemma_region_seq_contains(r, y.0);
        if corner_norm(x.0, x.1) == corner_norm(y.0, y.1) {
            let (n, nc) = corner_norm(x.0, x.1);
            lemma_corner_variants(n, nc, x.0, x.1);
            lemma_corner_variants(n, nc, y.0, y.1);
            let vs = corner_variants(n, nc);
            assert(vs.contains(x) && vs.contains(y));
            let a = choose|a: int| 0 <= a < 3 && vs[a] == x;
            let b = choose|b: int| 0 <= b < 3 && vs[b] == y;
            assert(a != b);
        }
    }
}

/// Every corner of every hexagon of a rectangle is returned by its corner
/// iterator under one of its names.
pub proof fn lemma_region_corner_found(r: (int, int, int, int), p: (int, int), c: HexCorner)
    requires
        is_even_pair(p),
        region_contains(r, p),
    ensures
        exists|i: int|
            0 <= i < region_corner_seq(r).len() && corner_norm(
                (#[trigger] region_corner_seq(r)[i]).0,
                region_corner_seq(r)[i].1,
            ) == corner_norm(p, c),
{
    let q = region_corner_seq(r);
    let ps = region_seq(r);
    let (n, nc) = corner_norm(p, c);
    let vs = corner_variants(n, nc);
    lemma_corner_variants(n, nc, p, c);
    let up = vs[0];
    let above = if nc is TopRight {
        vs[2]
    } else {
        vs[1]
    };
    let side = if nc is TopRight {
        vs[1]
    } else {
        vs[2]
    };
    let x = if region_contains(r, up.0) {
        up
    } else if region_contains(r, above.0) {
        above
    } else {
        side
    };
    assert(vs.contains(x));
    lemma_corner_variants(n, nc, x.0, x.1);
    lemma_region_seq_contains(r, x.0);
    lemma_corners_of_contains(r, ps, x);
    let i = choose|i: int| 0 <= i < q.len() && q[i] == x;
    assert(corner_norm(q[i].0, q[i].1) == corner_norm(p, c));
}

/// The (du, dv) step across edge `e`, as wide integers.
pub(crate) fn edge_delta(e: HexEdge) -> (r: (i64, i64))
    ensures
        (r.0 as int, r.1 as int) == crate::edge::edge_dir(e),
{
    match e {
        HexEdge::TopRight => (1, 1),
        HexEdge::Top => (0, 2),
        HexEdge::TopLeft => (-1, 1),
        HexEdge::BottomLeft => (-1, -1),
        HexEdge::Bottom => (0, -2),
        HexEdge::BottomRight => (1, -1),
    }
}

/// A rectangular region of the hexagonal grid, given by its minimum and
/// maximum u and v coordinates, inclusive.
#[derive(Debug, Clone, Copy, PartialEq, Eq, Hash, Structural)]
pub struct HexRegion {
    min_u: HexCoord,
    min_v: HexCoord,
    max_u: HexCoord,
    max_v: HexCoord,
}

impl View for HexRegion {
    type V = (int, int, int, int);

    closed spec fn view(&self) -> (int, int, int, int) {
        (self.min_u as int, self.min_v as int, self.max_u as int, self.max_v as int)
    }
}

/// The region with the given bounds (meaningful when they fit).
pub closed spec fn region_of(b: (int, int, int, int)) -> HexRegion {
    HexRegion { min_u: b.0 as i32, min_v: b.1 as i32, max_u: b.2 as i32, max_v: b.3 as i32 }
}

pub broadcast proof fn lemma_region_view_fits(r: HexRegion)
    ensures
        fits_coord((#[trigger] r@).0) && fits_coord(r@.1) && fits_coord(r@.2) && fits_coord(r@.3),
        region_of(r@) == r,
{
}

impl HexRegion {
    /// Creates the region with the given minimum and maximum coordinates,
    /// inclusive.
    pub fn new(min_u: HexCoord, min_v: HexCoord, max_u: HexCoord, max_v: HexCoord) -> (r: HexRegion)
        ensures
            r@ == (min_u as int, min_v as int, max_u as int, max_v as int),
    {
        HexRegion { min_u, min_v, max_u, max_v }
    }

    /// The width of the region in terms of the number of hexes in the u direction.
    pub fn width(&self) -> (r: HexCoord)
        requires
            fits_coord(self@.2 - self@.0 + 1),
        ensures
            r == self@.2 - self@.0 + 1,
    {
        (self.max_u as i64 - self.min_u as i64 + 1) as i32
    }

    /// The height of the region in terms of the number of hexes in the v direction.
    pub fn height(&self) -> (r: HexCoord)
        requires
            fits_coord(self@.3 - self@.1 + 1),
        ensures
            r == self@.3 - self@.1 + 1,
    {
        (self.max_v as i64 - self.min_v as i64 + 1) as i32
    }

    fn contains_uv(&self, u: i64, v: i64) -> (r: bool)
        ensures
            r == region_contains(self@, (u as int, v as int)),
    {
        u >= self.min_u as i64 && u <= self.max_u as i64 && v >= self.min_v as i64 && v <= self.max_v as i64
    }

    /// Return true iff the region contains the specified edge position: the
    /// edge is part of a hex in the region (possibly on its boundary).
    pub fn contains_edge(&self, edge_pos: HexEdgePos) -> (r: bool)
        ensures
            r == region_contains_edge(self@, edge_pos.pos@, edge_pos.edge),
    {
        let (u, v) = edge_pos.pos.u_v();
        let (du, dv) = edge_delta(edge_pos.edge);
        self.contains_uv(u as i64, v as i64) || self.contains_uv(u as i64 + du, v as i64 + dv)
    }

    /// Return true iff the region contains the specified corner position: the
    /// corner is part of a hex in the region (possibly on its boundary).
    pub fn contains_corner(&self, corner_pos: HexCornerPos) -> (r: bool)
        ensures
            r == region_contains_corner(self@, corner_pos.pos@, corner_pos.corner),
    {
        let (u, v) = corner_pos.pos.u_v();
        let c = corner_pos.corner.ordinal();
        let (du1, dv1) = edge_delta(HexEdge::from_ordinal((c + 5) % 6));
        let (du2, dv2) = edge_delta(HexEdge::from_ordinal(c));
        proof {
            assert(edge_at(c + 5) == edge_at((c + 5) % 6));
        }
        self.contains_uv(u as i64, v as i64) || self.contains_uv(u as i64 + du1, v as i64 + dv1)
            || self.contains_uv(u as i64 + du2, v as i64 + dv2)
    }

    /// An iterator over every edge of the region, each returned once.
    pub fn iter_edges(&self) -> (r: HexEdgeIterator)
        ensures
            r.rest() == region_edge_seq(self@),
    {
        HexEdgeIterator::new(*self)
    }

    /// An iterator over every corner of the region, each returned once.
    pub fn iter_corners(&self) -> (r: HexCornerIterator)
        ensures
            r.rest() == region_corner_seq(self@),
    {
        HexCornerIterator::new(*self)
    }
}


/// A rectangle holds exactly the grid positions that lie in it, each once.
pub proof fn lemma_region_seq_contains(r: (int, int, int, int), p: (int, int))
    ensures
        region_seq(r).contains(p) == (is_even_pair(p) && region_contains(r, p)),
        region_seq(r).no_duplicates(),
{
    lemma_region_rest_contains(r.0, r.1, r.0, r.2, r.3, p);
    lemma_region_rest_no_dup(r.0, r.1, r.0, r.2, r.3);
}

impl HexPosContainer for HexRegion {
    open spec fn hex_views(&self) -> Seq<(int, int)> {
        region_seq(self@)
    }

    fn contains_hex(&self, pos: HexPos) -> (r: bool) {
        proof {
            use_type_invariant(&pos);
            lemma_region_seq_contains(self@, pos@);
        }
        pos.u() >= self.min_u && pos.u() <= self.max_u && pos.v() >= self.min_v && pos.v() <= self.max_v
    }

    fn iter_hexes(&self) -> (r: Vec<HexPos>) {
        let mut it = HexRegionIterator::new(*self);
        let mut out: Vec<HexPos> = Vec::new();
        loop
            invariant
                out@.map_values(|p: HexPos| p@) + it.rest() == region_seq(self@),
            ensures
                out@.map_values(|p: HexPos| p@) == region_seq(self@),
            decreases it.rest().len(),
        {
            let ghost before = it.rest();
            match it.next() {
                Some(p) => {
                    out.push(p);
                    proof {
                        assert(before == seq![p@] + it.rest());
                        assert(out@.map_values(|p: HexPos| p@) =~= out@.drop_last().map_values(
                            |p: HexPos| p@,
                        ).push(p@));
                    }
                },
                None => {
                    assert(out@.map_values(|p: HexPos| p@) + it.rest() =~= out@.map_values(|p: HexPos| p@));
                    break;
                },
            }
        }
        out
    }

    fn len(&self) -> (r: usize) {
        proof {
            lemma_region_count(self@);
            assert(self.hex_views() == region_seq(self@));
            assert(self.hex_views().len() == region_count(self@));
        }
        if self.min_u > self.max_u || self.min_v > self.max_v {
            assert(region_count(self@) == 0);
            return 0;
        }
        let w = self.max_u as i128 - self.min_u as i128 + 1;
        let h = self.max_v as i128 - self.min_v as i128 + 1;
        let a = if (self.min_u as i128 + self.min_v as i128) % 2 == 0 {
            (h + 1) / 2
        } else {
            h / 2
        };
        let ce = (w + 1) / 2;
        let co = w / 2;
        assert(0 <= a * ce <= 0x1_0000_0000 * 0x1_0000_0000) by (nonlinear_arith)
            requires 0 <= a <= 0x1_0000_0000, 0 <= ce <= 0x1_0000_0000;
        assert(0 <= (h - a) * co <= 0x1_0000_0000 * 0x1_0000_0000) by (nonlinear_arith)
            requires 0 <= h - a <= 0x1_0000_0000, 0 <= co <= 0x1_0000_0000;
        assert(region_count(self@) == a * ce + (h - a) * co);
        (a * ce + (h - a) * co) as usize
    }
}

/// An iterator over all hexagonal grid positions in a rectangular area, in
/// row-major order, starting with the bottom-left corner.  The area is defined
/// by the minimum and maximum u and v coordinates, inclusive.  The iterator
/// only returns positions where u + v is even.
pub struct HexRegionIterator {
    u: i64,
    v: i64,
    min_u: i64,
    max_u: i64,
    max_v: i64,
}

impl HexRegionIterator {
    #[verifier::type_invariant]
    spec fn inv(self) -> bool {
        &&& fits_coord(self.min_u as int)
        &&& fits_coord(self.max_u as int)
        &&& fits_coord(self.max_v as int)
        &&& i32::MIN <= self.v <= i32::MAX + 1
        &&& self.min_u <= self.u <= i32::MAX + 2
        &&& self.u <= self.max_u || self.min_u > self.max_u
    }

    /// The positions that the iterator has yet to return, in order.
    pub closed spec fn rest(self) -> Seq<(int, int)> {
        region_rest(self.u as int, self.v as int, self.min_u as int, self.max_u as int, self.max_v as int)
    }

    /// Creates a new iterator over all hexagonal grid positions in the given
    /// region, in row-major order.  If `min_u` > `max_u` or `min_v` > `max_v`,
    /// the iterator is empty.
    pub fn new(region: HexRegion) -> (r: HexRegionIterator)
        ensures
            r.rest() == region_seq(region@),
    {
        HexRegionIterator {
            u: region.min_u as i64,
            v: region.min_v as i64,
            min_u: region.min_u as i64,
            max_u: region.max_u as i64,
            max_v: region.max_v as i64,
        }
    }

    /// Returns the next position, or `None` when all positions have been returned.
    pub fn next(&mut self) -> (r: Option<HexPos>)
        ensures
            old(self).rest().len() == 0 ==> r is None && final(self).rest().len() == 0,
            old(self).rest().len() > 0 ==> r is Some && r.unwrap()@ == old(self).rest()[0]
                && final(self).rest() == old(self).rest().drop_first(),
    {
        proof {
            use_type_invariant(&*self);
        }
        let ghost start = self.rest();
        let min_u = self.min_u;
        let max_u = self.max_u;
        let max_v = self.max_v;
        let mut u = self.u;
        let mut v = self.v;
        let mut result: Option<HexPos> = None;
        while result.is_none() && v <= max_v && u <= max_u
            invariant
                fits_coord(min_u as int),
                fits_coord(max_u as int),
                fits_coord(max_v as int),
                i32::MIN <= v <= i32::MAX + 1,
                min_u <= u <= i32::MAX + 2,
                u <= max_u || min_u > max_u,
                start == old(self).rest(),
                old(self).min_u == min_u,
                old(self).max_u == max_u,
                old(self).max_v == max_v,
                result is None ==> region_rest(u as int, v as int, min_u as int, max_u as int, max_v as int) == start,
                result is Some ==> start.len() > 0 && result.unwrap()@ == start[0]
                    && region_rest(u as int, v as int, min_u as int, max_u as int, max_v as int)
                    == start.drop_first(),
            decreases max_v + 1 - v, max_u + 2 - u,
        {
            let ghost mu = min_u as int;
            let ghost xu = max_u as int;
            let ghost xv = max_v as int;
            if (u + v) % 2 != 0 {
                assert(region_rest(u as int, v as int, mu, xu, xv) == region_rest(u + 1, v as int, mu, xu, xv));
                u += 1;
            }
            if u > max_u {
                assert(region_rest(u as int, v as int, mu, xu, xv) == region_rest(mu, v + 1, mu, xu, xv));
                assert(region_rest(u + 1, v as int, mu, xu, xv) == region_rest(mu, v + 1, mu, xu, xv));
            }
            if u <= max_u {
                proof {
                    assert(region_rest(u as int, v as int, mu, xu, xv) == seq![(u as int, v as int)]
                        + region_rest(u + 1, v as int, mu, xu, xv));
                }
                result = Some(HexPos::new(u as i32, v as i32));
            }
            u += 1;
            if u > max_u {
                u = min_u;
                v += 1;
            }
        }
        self.u = u;
        self.v = v;
        result
    }
}

/// An iterator over the edges of a rectangular region: for each hexagon, in
/// row-major order, its edges in counter-clockwise order from the top-right
/// one, leaving out the lower edges that a neighbor in the region returns.
pub struct HexEdgeIterator {
    region: HexRegion,
    edge: HexEdge,
    pos: Option<HexPos>,
    pos_iter: HexRegionIterator,
}

impl HexEdgeIterator {
    #[verifier::type_invariant]
    spec fn inv(self) -> bool {
        &&& forall|i: int|
            0 <= i < self.pos_iter.rest().len() ==> region_contains(self.region@, #[trigger] self.pos_iter.rest()[i])
        &&& (self.pos matches Some(p) ==> region_contains(self.region@, p@))
    }

    /// The edges that the iterator has yet to return, in order.
    pub closed spec fn rest(self) -> Seq<((int, int), HexEdge)> {
        match self.pos {
            None => Seq::empty(),
            Some(p) => region_edges_from(self.region@, p@, edge_ord(self.edge)) + region_edges_of(
                self.region@,
                self.pos_iter.rest(),
            ),
        }
    }

    /// Creates an iterator over every edge of `region`.
    pub fn new(region: HexRegion) -> (r: HexEdgeIterator)
        ensures
            r.rest() == region_edge_seq(region@),
    {
        let mut pos_iter = HexRegionIterator::new(region);
        let ghost all = pos_iter.rest();
        proof {
            assert forall|i: int| 0 <= i < all.len() implies region_contains(region@, #[trigger] all[i]) by {
                lemma_region_seq_contains(region@, all[i]);
                assert(all.contains(all[i]));
            }
        }
        let pos = pos_iter.next();
        proof {
            if pos is Some {
                assert(region_contains(region@, all[0]));
            }
            assert forall|i: int| 0 <= i < pos_iter.rest().len() implies region_contains(region@, #[trigger] pos_iter.rest()[i]) by {
                assert(pos_iter.rest()[i] == all[i + 1]);
            }
        }
        HexEdgeIterator { region, edge: HexEdge::TopRight, pos, pos_iter }
    }

    /// Returns the next edge, or `None` when all edges have been returned.
    pub fn next(&mut self) -> (r: Option<HexEdgePos>)
        ensures
            old(self).rest().len() == 0 ==> r is None && final(self).rest().len() == 0,
            old(self).rest().len() > 0 ==> r is Some && r.unwrap().key() == old(self).rest()[0]
                && final(self).rest() == old(self).rest().drop_first(),
    {
        let ghost start = self.rest();
        loop
            invariant
                self.rest() == start,
                start == old(self).rest(),
            decreases (if self.pos is Some { 1int } else { 0int }), self.pos_iter.rest().len(), 6 - edge_ord(self.edge),
        {
            proof {
                use_type_invariant(&*self);
            }
            let pos = match self.pos {
                Some(p) => p,
                None => return None,
            };
            let edge = self.edge;
            let ghost r = self.region@;
            let ghost tail = self.pos_iter.rest();
            let (u, v) = pos.u_v();
            let u = u as i64;
            let v = v as i64;
            let min_u = self.region.min_u as i64;
            let min_v = self.region.min_v as i64;
            let max_u = self.region.max_u as i64;
            let is_valid_edge = match edge {
                HexEdge::TopRight | HexEdge::Top | HexEdge::TopLeft => true,
                HexEdge::BottomLeft => u == min_u || v == min_v,
                HexEdge::Bottom => v <= min_v + 1,
                HexEdge::BottomRight => v == min_v || u == max_u,
            };
            assert(is_valid_edge == region_edge_ok(r, pos@, edge));
            assert(region_edges_from(r, pos@, edge_ord(edge)) == if is_valid_edge {
                seq![(pos@, edge)] + region_edges_from(r, pos@, edge_ord(edge) + 1)
            } else {
                region_edges_from(r, pos@, edge_ord(edge) + 1)
            });
            self.edge = self.edge.rotate(1);
            if self.edge == HexEdge::TopRight {
                assert(region_edges_from(r, pos@, 6) == Seq::<((int, int), HexEdge)>::empty());
                let mut it = HexRegionIterator::new(HexRegion::new(0, 0, -1, -1));
                std::mem::swap(&mut it, &mut self.pos_iter);
                let next_pos = it.next();
                proof {
                    assert forall|i: int| 0 <= i < it.rest().len() implies region_contains(r, #[trigger] it.rest()[i]) by {
                        assert(it.rest()[i] == tail[i + 1]);
                    }
                }
                std::mem::swap(&mut it, &mut self.pos_iter);
                proof {
                    if tail.len() > 0 {
                        assert(region_contains(r, tail[0]));
                        assert(region_edges_of(r, tail) == region_edges_from(r, tail[0], 0) + region_edges_of(r, tail.drop_first()));
                    }
                }
                self.pos = next_pos;
            }
            if is_valid_edge {
                return Some(HexEdgePos { pos, edge });
            }
        }
    }
}

/// An iterator over the corners of a rectangular region: for each hexagon, in
/// row-major order, its corners in counter-clockwise order from the top-right
/// one, leaving out the names of corners that another hexagon of the region
/// returns.
pub struct HexCornerIterator {
    region: HexRegion,
    corner: HexCorner,
    pos: Option<HexPos>,
    pos_iter: HexRegionIterator,
}

/// The number from 1 to 6 of a corner in the order the corner iterator visits
/// the corners of a hexagon.
pub open spec fn corner_visit_ord(c: HexCorner) -> int {
    if c == HexCorner::Right {
        6
    } else {
        corner_ord(c)
    }
}

impl HexCornerIterator {
    #[verifier::type_invariant]
    spec fn inv(self) -> bool {
        &&& forall|i: int|
            0 <= i < self.pos_iter.rest().len() ==> region_contains(self.region@, #[trigger] self.pos_iter.rest()[i])
        &&& (self.pos matches Some(p) ==> region_contains(self.region@, p@))
    }

    /// The corners that the iterator has yet to return, in order.
    pub closed spec fn rest(self) -> Seq<((int, int), HexCorner)> {
        match self.pos {
            None => Seq::empty(),
            Some(p) => region_corners_from(self.region@, p@, corner_visit_ord(self.corner)) + region_corners_of(
                self.region@,
                self.pos_iter.rest(),
            ),
        }
    }

    /// Creates an iterator over every corner of `region`.
    pub fn new(region: HexRegion) -> (r: HexCornerIterator)
        ensures
            r.rest() == region_corner_seq(region@),
    {
        let mut pos_iter = HexRegionIterator::new(region);
        let ghost all = pos_iter.rest();
        proof {
            assert forall|i: int| 0 <= i < all.len() implies region_contains(region@, #[trigger] all[i]) by {
                lemma_region_seq_contains(region@, all[i]);
                assert(all.contains(all[i]));
            }
        }
        let pos = pos_iter.next();
        proof {
            if pos is Some {
                assert(region_contains(region@, all[0]));
            }
            assert forall|i: int| 0 <= i < pos_iter.rest().len() implies region_contains(region@, #[trigger] pos_iter.rest()[i]) by {
                assert(pos_iter.rest()[i] == all[i + 1]);
            }
        }
        HexCornerIterator { region, corner: HexCorner::TopRight, pos, pos_iter }
    }

    /// Returns the next corner, or `None` when all corners have been returned.
    pub fn next(&mut self) -> (r: Option<HexCornerPos>)
        ensures
            old(self).rest().len() == 0 ==> r is None && final(self).rest().len() == 0,
            old(self).rest().len() > 0 ==> r is Some && r.unwrap().key() == old(self).rest()[0]
                && final(self).rest() == old(self).rest().drop_first(),
    {
        let ghost start = self.rest();
        loop
            invariant
                self.rest() == start,
                start == old(self).rest(),
            decreases (if self.pos is Some { 1int } else { 0int }), self.pos_iter.rest().len(), 7 - corner_visit_ord(self.corner),
        {
            proof {
                use_type_invariant(&*self);
            }
            let pos = match self.pos {
                Some(p) => p,
                None => return None,
            };
            let corner = self.corner;
            let ghost r = self.region@;
            let ghost tail = self.pos_iter.rest();
            let (u, v) = pos.u_v();
            let u = u as i64;
            let v = v as i64;
            let min_u = self.region.min_u as i64;
            let min_v = self.region.min_v as i64;
            let max_u = self.region.max_u as i64;
            let max_v = self.region.max_v as i64;
            let is_valid_corner = match corner {
                HexCorner::TopRight | HexCorner::TopLeft => true,
                HexCorner::Right => u == max_u,
                HexCorner::Left => u == min_u,
                HexCorner::BottomLeft => if min_v % 2 == 0 {
                    v == min_v && u % 2 == 0 || v == min_v + 1 && u % 2 != 0
                } else {
                    v == min_v + 1 && u % 2 == 0 || v == min_v && u % 2 != 0
                },
                HexCorner::BottomRight => {
                    v < min_v + 2 || (max_u % 2 != 0 && v == min_v + 1 && u == max_u) || (max_u % 2
                        == 0 && v == min_v + 1 && u == min_u)
                },
            };
            let is_valid_corner = is_valid_corner || min_v == max_v;
            proof {
                use_type_invariant(&pos);
                assert(is_valid_corner == region_corner_ok(r, pos@, corner));
            }
            assert(region_corners_from(r, pos@, corner_visit_ord(corner)) == if is_valid_corner {
                seq![(pos@, corner)] + region_corners_from(r, pos@, corner_visit_ord(corner) + 1)
            } else {
                region_corners_from(r, pos@, corner_visit_ord(corner) + 1)
            });
            self.corner = self.corner.rotate(1);
            if self.corner == HexCorner::TopRight {
                assert(region_corners_from(r, pos@, 7) == Seq::<((int, int), HexCorner)>::empty());
                let mut it = HexRegionIterator::new(HexRegion::new(0, 0, -1, -1));
                std::mem::swap(&mut it, &mut self.pos_iter);
                let next_pos = it.next();
                proof {
                    assert forall|i: int| 0 <= i < it.rest().len() implies region_contains(r, #[trigger] it.rest()[i]) by {
                        assert(it.rest()[i] == tail[i + 1]);
                    }
                }
                std::mem::swap(&mut it, &mut self.pos_iter);
                proof {
                    if tail.len() > 0 {
                        assert(region_contains(r, tail[0]));
                        assert(region_corners_of(r, tail) == region_corners_from(r, tail[0], 1) + region_corners_of(r, tail.drop_first()));
                    }
                }
                self.pos = next_pos;
            }
            if is_valid_corner {
                return Some(HexCornerPos { pos, corner });
            }
        }
    }
}

} // verus!
