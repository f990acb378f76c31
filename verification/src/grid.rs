use vstd::prelude::*;
use crate::HexCoord;
use crate::container::HexPosContainer;
use crate::corner::{HexCorner, NormHexCorner, norm_corner_to_corner};
use crate::corner_pos::{HexCornerPos, corner_norm};
use crate::delta::{fits_coord, is_even_pair, group_delta};
use crate::edge::{HexEdge, NormHexEdge, edge_at, edge_ord, norm_edge_to_edge};
use crate::edge_pos::{HexEdgePos, edge_norm};
use crate::grid_size::{HexCornerIterator, HexEdgeIterator, HexGridSize, size_region, valid_size};
use crate::pos::{HexPos, group_pos, neighbor_of, pos_of};
use crate::region::{
    HexRegionIterator, lemma_region_count, lemma_region_seq_contains, region_contains,
    region_contains_corner, region_contains_edge, region_rest, region_seq,
};

verus! {

broadcast use {group_delta, group_pos};

/// Number of hexagons in an even row of a grid of width `w`.
pub open spec fn even_row_len(w: int) -> int {
    if w == 0 { 1 } else { (w + 1) / 2 }
}

/// Number of hexagons in an odd row of a grid of width `w`.
pub open spec fn odd_row_len(w: int) -> int {
    w / 2
}

/// Number of hexagons in the rows below row `v` of a grid of width `w`.
pub open spec fn rows_before(w: int, v: int) -> int {
    even_row_len(w) * ((v + 1) / 2) + odd_row_len(w) * (v / 2)
}

/// The place in storage of the hexagon at `p` in a grid of size `s`: its
/// place in the row-major order of the grid.
pub open spec fn hex_index_of(s: (int, int), p: (int, int)) -> int {
    p.0 / 2 + rows_before(s.0, p.1)
}

/// True when the grid of size `s` has the hexagon at `p`.
pub open spec fn grid_has_hex(s: (int, int), p: (int, int)) -> bool {
    is_even_pair(p) && region_contains(size_region(s), p)
}

/// True when `k` is the unique name of an edge of the grid of size `s`.
pub open spec fn grid_has_edge_key(s: (int, int), k: ((int, int), NormHexEdge)) -> bool {
    is_even_pair(k.0) && region_contains_edge(size_region(s), k.0, norm_edge_to_edge(k.1))
}

/// True when `k` is the unique name of a corner of the grid of size `s`.
pub open spec fn grid_has_corner_key(s: (int, int), k: ((int, int), NormHexCorner)) -> bool {
    is_even_pair(k.0) && region_contains_corner(size_region(s), k.0, norm_corner_to_corner(k.1))
}

/// True for the sizes of grids that can be stored: valid, representable, and
/// with a number of hexagons that a `usize` can count.
pub open spec fn grid_size_ok(s: (int, int)) -> bool {
    &&& valid_size(s.0, s.1)
    &&& fits_coord(s.0)
    &&& fits_coord(s.1)
    &&& region_seq(size_region(s)).len() <= usize::MAX
}

/// Where the data of an edge is stored.
#[derive(Debug, Clone, Copy, PartialEq, Eq, Structural)]
pub enum EdgeIndex {
    /// One of the upper edges of a hexagon of the grid, stored with it.
    Hex(usize, NormHexEdge),
    /// A lower-left edge along the left or bottom side of the grid.
    BottomLeft(usize),
    /// A bottom edge along the bottom side of the grid.
    Bottom(usize),
    /// A lower-right edge along the bottom or right side of the grid.
    BottomRight(usize),
}

/// Where the data of a corner is stored.
#[derive(Debug, Clone, Copy, PartialEq, Eq, Structural)]
pub enum CornerIndex {
    /// One of the upper corners of a hexagon of the grid, stored with it.
    Hex(usize, NormHexCorner),
    /// A corner along the right side of the grid.
    Right(usize),
    /// A corner along the left side of the grid.
    Left(usize),
    /// A corner along the bottom side of the grid.
    Bottom(usize),
}

/// The storage place of the edge whose unique name is `(p, e)` in a grid of
/// size `s`.
pub open spec fn edge_slot(s: (int, int), p: (int, int), e: NormHexEdge) -> EdgeIndex {
    let (w, h) = s;
    let (u, v) = p;
    if grid_has_hex(s, p) {
        EdgeIndex::Hex(hex_index_of(s, p) as usize, e)
    } else {
        match e {
            NormHexEdge::TopRight => if u == -1 {
                EdgeIndex::BottomLeft(((v + 1) / 2) as usize)
            } else {
                EdgeIndex::BottomLeft(((u + 1) / 2 + (h + 1) / 2 - 1) as usize)
            },
            NormHexEdge::Top => EdgeIndex::Bottom(u as usize),
            NormHexEdge::TopLeft => if v == -1 {
                EdgeIndex::BottomRight((u / 2) as usize)
            } else {
                EdgeIndex::BottomRight((w / 2 + (v + 1) / 2) as usize)
            },
        }
    }
}

/// The storage place of the corner whose unique name is `(p, c)` in a grid of
/// size `s`.
pub open spec fn corner_slot(s: (int, int), p: (int, int), c: NormHexCorner) -> CornerIndex {
    let (w, h) = s;
    let (u, v) = p;
    if grid_has_hex(s, p) {
        CornerIndex::Hex(hex_index_of(s, p) as usize, c)
    } else if u == -1 && c == NormHexCorner::TopRight {
        CornerIndex::Left(((v + 1) / 2) as usize)
    } else if u == w && c == NormHexCorner::TopLeft {
        if w % 2 == 0 {
            CornerIndex::Right((v / 2) as usize)
        } else {
            CornerIndex::Right(((v + 1) / 2) as usize)
        }
    } else {
        CornerIndex::Bottom((u * 2 + if c == NormHexCorner::TopRight { 1int } else { 0int }) as usize)
    }
}

/// Number of lower-left boundary edges stored for a grid of size `s`.
pub open spec fn bottom_left_len(s: (int, int)) -> int {
    if s.0 == 0 { 0 } else { (s.1 + 1) / 2 + (s.0 + 1) / 2 - 1 }
}

/// Number of bottom boundary edges stored for a grid of size `s`.
pub open spec fn bottom_len(s: (int, int)) -> int {
    s.0
}

/// Number of lower-right boundary edges stored for a grid of size `s`.
pub open spec fn bottom_right_len(s: (int, int)) -> int {
    if s.0 == 0 {
        0
    } else if s.0 % 2 == 0 {
        (s.0 + 1) / 2 + s.1 / 2
    } else {
        (s.0 + 1) / 2 + (s.1 + 1) / 2 - 1
    }
}

/// Number of right boundary corners stored for a grid of size `s`.
pub open spec fn right_corners_len(s: (int, int)) -> int {
    if s.0 == 0 {
        0
    } else if s.0 % 2 == s.1 % 2 {
        (s.1 + 1) / 2
    } else {
        s.1 / 2
    }
}

/// Number of left boundary corners stored for a grid of size `s`.
pub open spec fn left_corners_len(s: (int, int)) -> int {
    if s.0 == 0 { 0 } else { (s.1 + 1) / 2 }
}

/// Number of bottom boundary corners stored for a grid of size `s`.
pub open spec fn bottom_corners_len(s: (int, int)) -> int {
    2 * s.0
}

/// The index of the first hexagon at or after column `u` of row `v` in the
/// row-major order of a grid of width `w`.
spec fn first_index(w: int, u: int, v: int) -> int {
    rows_before(w, v) + if v % 2 == 0 { (u + 1) / 2 } else { u / 2 }
}

proof fn lemma_rows_before_step(w: int, v: int)
    requires
        w >= 1,
        v >= 0,
    ensures
        rows_before(w, v + 1) == rows_before(w, v) + if v % 2 == 0 { even_row_len(w) } else { odd_row_len(w) },
        rows_before(w, v) >= 0,
{
    let e = even_row_len(w);
    let o = odd_row_len(w);
    let a = (v + 1) / 2;
    let b = v / 2;
    assert(e >= 0 && o >= 0);
    assert(e * a >= 0 && o * b >= 0) by (nonlinear_arith) requires e >= 0, o >= 0, a >= 0, b >= 0;
    if v % 2 == 0 {
        assert((v + 2) / 2 == a + 1 && (v + 1) / 2 == b);
        assert(e * (a + 1) == e * a + e) by (nonlinear_arith);
        assert(o * b == o * a) by (nonlinear_arith) requires a == b;
    } else {
        assert((v + 2) / 2 == a && (v + 1) / 2 == b + 1);
        assert(o * (b + 1) == o * b + o) by (nonlinear_arith);
    }
}

proof fn lemma_index_of_rest(w: int, h: int, u: int, v: int)
    requires
        w >= 1,
        0 <= u <= w,
        0 <= v,
    ensures
        forall|j: int|
            0 <= j < region_rest(u, v, 0, w - 1, h - 1).len() ==> hex_index_of(
                (w, h),
                #[trigger] region_rest(u, v, 0, w - 1, h - 1)[j],
            ) == first_index(w, u, v) + j,
    decreases h - v, w + 1 - u,
{
    let s = region_rest(u, v, 0, w - 1, h - 1);
    if v > h - 1 {
    } else if u > w - 1 {
        lemma_index_of_rest(w, h, 0, v + 1);
        lemma_rows_before_step(w, v);
        assert(s == region_rest(0, v + 1, 0, w - 1, h - 1));
        assert(first_index(w, u, v) == first_index(w, 0, v + 1));
    } else if (u + v) % 2 != 0 {
        lemma_index_of_rest(w, h, u + 1, v);
        assert(s == region_rest(u + 1, v, 0, w - 1, h - 1));
        assert(first_index(w, u + 1, v) == first_index(w, u, v));
    } else {
        lemma_index_of_rest(w, h, u + 1, v);
        let t = region_rest(u + 1, v, 0, w - 1, h - 1);
        assert(s == seq![(u, v)] + t);
        assert(first_index(w, u + 1, v) == first_index(w, u, v) + 1);
        assert(hex_index_of((w, h), (u, v)) == first_index(w, u, v));
        assert forall|j: int| 0 <= j < s.len() implies hex_index_of((w, h), #[trigger] s[j]) == first_index(w, u, v) + j by {
            if j > 0 {
                assert(s[j] == t[j - 1]);
            }
        }
    }
}

/// Storage follows the row-major order of the grid: the hexagon at place `i`
/// of that order is stored at index `i`.
pub proof fn lemma_hex_index_order(s: (int, int), i: int)
    requires
        valid_size(s.0, s.1),
        0 <= i < region_seq(size_region(s)).len(),
    ensures
        hex_index_of(s, region_seq(size_region(s))[i]) == i,
{
    lemma_index_of_rest(s.0, s.1, 0, 0);
    let e = even_row_len(s.0);
    let o = odd_row_len(s.0);
    assert(e * 0 + o * 0 == 0) by (nonlinear_arith);
    assert(rows_before(s.0, 0) == e * 0 + o * 0);
    assert(first_index(s.0, 0, 0) == 0);
}

/// Every hexagon of the grid has a storage index below the number of
/// hexagons, and no two hexagons share one.
pub proof fn lemma_hex_index_bounds(s: (int, int), p: (int, int))
    requires
        valid_size(s.0, s.1),
        grid_has_hex(s, p),
    ensures
        0 <= hex_index_of(s, p) < region_seq(size_region(s)).len(),
        region_seq(size_region(s))[hex_index_of(s, p)] == p,
{
    let seq = region_seq(size_region(s));
    lemma_region_seq_contains(size_region(s), p);
    let j = choose|j: int| 0 <= j < seq.len() && seq[j] == p;
    lemma_hex_index_order(s, j);
}

pub proof fn lemma_hex_index_injective(s: (int, int), p: (int, int), q: (int, int))
    requires
        valid_size(s.0, s.1),
        grid_has_hex(s, p),
        grid_has_hex(s, q),
        hex_index_of(s, p) == hex_index_of(s, q),
    ensures
        p == q,
{
    lemma_hex_index_bounds(s, p);
    lemma_hex_index_bounds(s, q);
}

/// The name under which the grid passes the edge with unique name `k` to its
/// initializer: the name on the grid's own hexagon at `k.0` if there is one,
/// else the name on the hexagon across the edge.
pub open spec fn edge_init_name(s: (int, int), k: ((int, int), NormHexEdge)) -> ((int, int), HexEdge) {
    let e = norm_edge_to_edge(k.1);
    if grid_has_hex(s, k.0) {
        (k.0, e)
    } else {
        (neighbor_of(k.0, e), edge_at(edge_ord(e) + 3))
    }
}

/// The hexagon whose lower-left edge is stored at place `j` of the lower-left
/// boundary edges.
pub open spec fn bottom_left_name(s: (int, int), j: int) -> (int, int) {
    if j < (s.1 + 1) / 2 {
        (0, 2 * j)
    } else {
        (2 * (j - (s.1 + 1) / 2 + 1), 0)
    }
}

/// The hexagon whose bottom edge is stored at place `j` of the bottom
/// boundary edges.
pub open spec fn bottom_name(j: int) -> (int, int) {
    (j, j % 2)
}

/// The hexagon whose lower-right edge is stored at place `j` of the
/// lower-right boundary edges.
pub open spec fn bottom_right_name(s: (int, int), j: int) -> (int, int) {
    let n = (s.0 + 1) / 2;
    if j < n {
        (2 * j, 0)
    } else if s.0 % 2 == 0 {
        (s.0 - 1, 2 * (j - n) + 1)
    } else {
        (s.0 - 1, 2 * (j - n + 1))
    }
}

/// The unique corner name stored at place `j` of the left boundary corners.
pub open spec fn left_corner_name(j: int) -> ((int, int), NormHexCorner) {
    ((-1, -1 + 2 * j), NormHexCorner::TopRight)
}

/// The unique corner name stored at place `j` of the right boundary corners.
pub open spec fn right_corner_name(s: (int, int), j: int) -> ((int, int), NormHexCorner) {
    ((s.0, if s.0 % 2 == 0 { 2 * j } else { 2 * j - 1 }), NormHexCorner::TopLeft)
}

/// The unique corner name stored at place `j` of the bottom boundary corners.
pub open spec fn bottom_corner_name(j: int) -> ((int, int), NormHexCorner) {
    let i = j / 2;
    ((i, -2 + i % 2), if j % 2 == 0 { NormHexCorner::TopLeft } else { NormHexCorner::TopRight })
}

/// Each edge of the grid has a storage place in range, and the place of a
/// boundary edge holds the value made from its initializer name.
pub proof fn lemma_edge_slot(s: (int, int), k: ((int, int), NormHexEdge))
    requires
        grid_size_ok(s),
        grid_has_edge_key(s, k),
    ensures
        match edge_slot(s, k.0, k.1) {
            EdgeIndex::Hex(i, e) => grid_has_hex(s, k.0) && i == hex_index_of(s, k.0) && e == k.1
                && i < region_seq(size_region(s)).len(),
            EdgeIndex::BottomLeft(j) => !grid_has_hex(s, k.0) && 0 <= j < bottom_left_len(s)
                && edge_init_name(s, k) == (bottom_left_name(s, j as int), HexEdge::BottomLeft),
            EdgeIndex::Bottom(j) => !grid_has_hex(s, k.0) && 0 <= j < bottom_len(s)
                && edge_init_name(s, k) == (bottom_name(j as int), HexEdge::Bottom),
            EdgeIndex::BottomRight(j) => !grid_has_hex(s, k.0) && 0 <= j < bottom_right_len(s)
                && edge_init_name(s, k) == (bottom_right_name(s, j as int), HexEdge::BottomRight),
        },
{
    let (w, h) = s;
    let (u, v) = k.0;
    if grid_has_hex(s, k.0) {
        lemma_hex_index_bounds(s, k.0);
        assert(hex_index_of(s, k.0) as usize as int == hex_index_of(s, k.0));
    } else {
        match k.1 {
            NormHexEdge::TopRight => if u == -1 {
                let j = (v + 1) / 2;
                assert(0 <= j <= 0xffff_ffff);
        assert(j as usize as int == j);
                assert(bottom_left_name(s, j) == (0int, v + 1));
            } else {
                let j = (u + 1) / 2 + (h + 1) / 2 - 1;
                assert(0 <= j <= 0xffff_ffff);
        assert(j as usize as int == j);
                assert(bottom_left_name(s, j) == (u + 1, 0int));
            },
            NormHexEdge::Top => {
                assert(0 <= u <= 0xffff_ffff);
                assert(u as usize as int == u);
                assert(bottom_name(u) == (u, v + 2));
            },
            NormHexEdge::TopLeft => if v == -1 {
                let j = u / 2;
                assert(0 <= j <= 0xffff_ffff);
        assert(j as usize as int == j);
                assert(bottom_right_name(s, j) == (u - 1, 0int));
            } else {
                let j = w / 2 + (v + 1) / 2;
                assert(0 <= j <= 0xffff_ffff);
        assert(j as usize as int == j);
                assert(bottom_right_name(s, j) == (w - 1, v + 1));
            },
        }
    }
}

/// No two edges of the grid share a storage place.
pub proof fn lemma_edge_slot_injective(s: (int, int), k1: ((int, int), NormHexEdge), k2: ((int, int), NormHexEdge))
    requires
        grid_size_ok(s),
        grid_has_edge_key(s, k1),
        grid_has_edge_key(s, k2),
        edge_slot(s, k1.0, k1.1) == edge_slot(s, k2.0, k2.1),
    ensures
        k1 == k2,
{
    lemma_edge_slot(s, k1);
    lemma_edge_slot(s, k2);
    if grid_has_hex(s, k1.0) && grid_has_hex(s, k2.0) {
        lemma_hex_index_injective(s, k1.0, k2.0);
    }
}

/// Each corner of the grid has a storage place in range; boundary corners
/// are stored under their unique names.
pub proof fn lemma_corner_slot(s: (int, int), k: ((int, int), NormHexCorner))
    requires
        grid_size_ok(s),
        grid_has_corner_key(s, k),
    ensures
        match corner_slot(s, k.0, k.1) {
            CornerIndex::Hex(i, c) => grid_has_hex(s, k.0) && i == hex_index_of(s, k.0) && c == k.1
                && i < region_seq(size_region(s)).len(),
            CornerIndex::Left(j) => !grid_has_hex(s, k.0) && 0 <= j < left_corners_len(s)
                && k == left_corner_name(j as int),
            CornerIndex::Right(j) => !grid_has_hex(s, k.0) && 0 <= j < right_corners_len(s)
                && k == right_corner_name(s, j as int),
            CornerIndex::Bottom(j) => !grid_has_hex(s, k.0) && 0 <= j < bottom_corners_len(s)
                && k == bottom_corner_name(j as int),
        },
{
    let (w, h) = s;
    let (u, v) = k.0;
    if grid_has_hex(s, k.0) {
        lemma_hex_index_bounds(s, k.0);
        assert(hex_index_of(s, k.0) as usize as int == hex_index_of(s, k.0));
    } else if u == -1 && k.1 == NormHexCorner::TopRight {
        assert(v % 2 != 0);
        let j = (v + 1) / 2;
        assert(2 * j - 1 == v);
        assert(0 <= j <= 0xffff_ffff);
        assert(j as usize as int == j);
        assert(left_corner_name(j) == k);
    } else if u == w && k.1 == NormHexCorner::TopLeft {
        if w % 2 == 0 {
            assert(v % 2 == 0);
            let j = v / 2;
            assert(2 * j == v);
            assert(0 <= j <= 0xffff_ffff);
        assert(j as usize as int == j);
            assert(right_corner_name(s, j) == k);
        } else {
            assert(v % 2 != 0);
            let j = (v + 1) / 2;
            assert(2 * j - 1 == v);
            assert(0 <= j <= 0xffff_ffff);
        assert(j as usize as int == j);
            assert(right_corner_name(s, j) == k);
        }
    } else {
        assert(0 <= u < w);
        assert(v == -2 || v == -1);
        let off = if k.1 == NormHexCorner::TopRight { 1int } else { 0int };
        let j = u * 2 + off;
        assert(j / 2 == u && j % 2 == off);
        assert(0 <= j <= 0xffff_ffff);
        assert(j as usize as int == j);
        assert(v == -2 + u % 2);
        assert(bottom_corner_name(j) == k);
    }
}

/// No two corners of the grid share a storage place.
pub proof fn lemma_corner_slot_injective(s: (int, int), k1: ((int, int), NormHexCorner), k2: ((int, int), NormHexCorner))
    requires
        grid_size_ok(s),
        grid_has_corner_key(s, k1),
        grid_has_corner_key(s, k2),
        corner_slot(s, k1.0, k1.1) == corner_slot(s, k2.0, k2.1),
    ensures
        k1 == k2,
{
    lemma_corner_slot(s, k1);
    lemma_corner_slot(s, k2);
    if grid_has_hex(s, k1.0) && grid_has_hex(s, k2.0) {
        lemma_hex_index_injective(s, k1.0, k2.0);
    }
}

/// The edge position with the given name.
pub open spec fn edge_pos_of(n: ((int, int), HexEdge)) -> HexEdgePos {
    HexEdgePos { pos: pos_of(n.0), edge: n.1 }
}

/// The corner position with the given unique name.
pub open spec fn corner_pos_of(k: ((int, int), NormHexCorner)) -> HexCornerPos {
    HexCornerPos { pos: pos_of(k.0), corner: norm_corner_to_corner(k.1) }
}

/// The data of one hexagon of the grid: its own data, and that of its upper
/// edges (top-right, top, top-left) and upper corners (top-right, top-left).
struct Hex<H, E, C> {
    data: H,
    edges: (E, E, E),
    corners: (C, C),
}

/// A rectangular grid of hexagons, with data of type `H` attached to each
/// hexagon, data of type `E` attached to each edge and data of type `C`
/// attached to each corner.  An edge or corner shared by several hexagons
/// has a single piece of data, whichever name it is reached under.
pub struct HexGrid<H, E = (), C = ()> {
    size: HexGridSize,
    even_row_size: HexCoord,
    odd_row_size: HexCoord,
    hexes: Vec<Hex<H, E, C>>,
    bottom_left_edges: Vec<E>,
    bottom_edges: Vec<E>,
    bottom_right_edges: Vec<E>,
    right_edge_corners: Vec<C>,
    left_edge_corners: Vec<C>,
    bottom_edge_corners: Vec<C>,
}

impl<H, E, C> HexGrid<H, E, C> {
    /// The grid's storage is laid out for its size.
    pub closed spec fn wf(&self) -> bool {
        let s = self.size@;
        &&& grid_size_ok(s)
        &&& self.even_row_size == even_row_len(s.0)
        &&& self.odd_row_size == odd_row_len(s.0)
        &&& self.hexes@.len() == region_seq(size_region(s)).len()
        &&& self.bottom_left_edges@.len() == bottom_left_len(s)
        &&& self.bottom_edges@.len() == bottom_len(s)
        &&& self.bottom_right_edges@.len() == bottom_right_len(s)
        &&& self.right_edge_corners@.len() == right_corners_len(s)
        &&& self.left_edge_corners@.len() == left_corners_len(s)
        &&& self.bottom_edge_corners@.len() == bottom_corners_len(s)
    }

    /// The size of the grid, as plain values.
    pub closed spec fn size_view(&self) -> (int, int) {
        self.size@
    }

    /// The data of each hexagon of the grid, by position.
    pub closed spec fn hex_map(&self) -> Map<(int, int), H> {
        Map::new(
            |p: (int, int)| grid_has_hex(self.size@, p),
            |p: (int, int)| self.hexes@[hex_index_of(self.size@, p)].data,
        )
    }

    spec fn edge_at_slot(&self, slot: EdgeIndex) -> E {
        match slot {
            EdgeIndex::Hex(i, e) => match e {
                NormHexEdge::TopRight => self.hexes@[i as int].edges.0,
                NormHexEdge::Top => self.hexes@[i as int].edges.1,
                NormHexEdge::TopLeft => self.hexes@[i as int].edges.2,
            },
            EdgeIndex::BottomLeft(i) => self.bottom_left_edges@[i as int],
            EdgeIndex::Bottom(i) => self.bottom_edges@[i as int],
            EdgeIndex::BottomRight(i) => self.bottom_right_edges@[i as int],
        }
    }

    spec fn corner_at_slot(&self, slot: CornerIndex) -> C {
        match slot {
            CornerIndex::Hex(i, c) => match c {
                NormHexCorner::TopRight => self.hexes@[i as int].corners.0,
                NormHexCorner::TopLeft => self.hexes@[i as int].corners.1,
            },
            CornerIndex::Right(i) => self.right_edge_corners@[i as int],
            CornerIndex::Left(i) => self.left_edge_corners@[i as int],
            CornerIndex::Bottom(i) => self.bottom_edge_corners@[i as int],
        }
    }

    /// The data of each edge of the grid, by the edge's unique name.
    pub closed spec fn edge_map(&self) -> Map<((int, int), NormHexEdge), E> {
        Map::new(
            |k: ((int, int), NormHexEdge)| grid_has_edge_key(self.size@, k),
            |k: ((int, int), NormHexEdge)| self.edge_at_slot(edge_slot(self.size@, k.0, k.1)),
        )
    }

    /// The data of each corner of the grid, by the corner's unique name.
    pub closed spec fn corner_map(&self) -> Map<((int, int), NormHexCorner), C> {
        Map::new(
            |k: ((int, int), NormHexCorner)| grid_has_corner_key(self.size@, k),
            |k: ((int, int), NormHexCorner)| self.corner_at_slot(corner_slot(self.size@, k.0, k.1)),
        )
    }

    /// The size of the grid.
    pub fn size(&self) -> (r: HexGridSize)
        ensures
            r@ == self.size_view(),
    {
        self.size
    }

    /// The width of the grid.
    pub fn width(&self) -> (r: HexCoord)
        ensures
            r == self.size_view().0,
    {
        self.size.width()
    }

    /// The height of the grid.
    pub fn height(&self) -> (r: HexCoord)
        ensures
            r == self.size_view().1,
    {
        self.size.height()
    }

    /// True iff the grid has a hexagon at `pos`.
    pub fn has_hex(&self, pos: HexPos) -> (r: bool)
        ensures
            r == grid_has_hex(self.size_view(), pos@),
            r == self.hex_map().dom().contains(pos@),
    {
        proof {
            use_type_invariant(&pos);
            lemma_region_seq_contains(size_region(self.size@), pos@);
        }
        self.size.contains_hex(pos)
    }

    /// True iff the grid has the edge named by `edge_pos`: an edge of one of
    /// its hexagons.
    pub fn has_edge(&self, edge_pos: HexEdgePos) -> (r: bool)
        ensures
            r == region_contains_edge(size_region(self.size_view()), edge_pos.pos@, edge_pos.edge),
    {
        self.size.contains_edge(edge_pos)
    }

    /// True iff the grid has the corner named by `corner_pos`: a corner of one
    /// of its hexagons.
    pub fn has_corner(&self, corner_pos: HexCornerPos) -> (r: bool)
        ensures
            r == region_contains_corner(size_region(self.size_view()), corner_pos.pos@, corner_pos.corner),
    {
        self.size.contains_corner(corner_pos)
    }

    /// An iterator over every edge of the grid, each returned once.
    pub fn iter_edges(&self) -> (r: HexEdgeIterator)
        ensures
            r.rest() == crate::region::region_edge_seq(size_region(self.size_view())),
    {
        HexEdgeIterator::new(self.size)
    }

    /// An iterator over every corner of the grid, each returned once.
    pub fn iter_corners(&self) -> (r: HexCornerIterator)
        ensures
            r.rest() == crate::region::region_corner_seq(size_region(self.size_view())),
    {
        HexCornerIterator::new(self.size)
    }
}

impl<H, E, C> HexGrid<H, E, C> {
    fn unchecked_hex_index(&self, pos: HexPos) -> (r: usize)
        requires
            self.wf(),
            grid_has_hex(self.size_view(), pos@),
        ensures
            r == hex_index_of(self.size_view(), pos@),
            r < self.hexes@.len(),
    {
        proof {
            lemma_hex_index_bounds(self.size@, pos@);
        }
        let (u, v) = pos.u_v();
        let u = u as i128;
        let v = v as i128;
        let e = self.even_row_size as i128;
        let o = self.odd_row_size as i128;
        assert(0 <= e * ((v + 1) / 2) <= 0x8000_0000 * 0x8000_0000) by (nonlinear_arith)
            requires 0 <= e <= 0x8000_0000, 0 <= (v + 1) / 2 <= 0x8000_0000;
        assert(0 <= o * (v / 2) <= 0x8000_0000 * 0x8000_0000) by (nonlinear_arith)
            requires 0 <= o <= 0x8000_0000, 0 <= v / 2 <= 0x8000_0000;
        assert(0 <= e * (v / 2) <= 0x8000_0000 * 0x8000_0000) by (nonlinear_arith)
            requires 0 <= e <= 0x8000_0000, 0 <= v / 2 <= 0x8000_0000;
        assert(0 <= o * ((v + 1) / 2) <= 0x8000_0000 * 0x8000_0000) by (nonlinear_arith)
            requires 0 <= o <= 0x8000_0000, 0 <= (v + 1) / 2 <= 0x8000_0000;
        if v % 2 == 0 {
            assert((v + 1) / 2 == v / 2);
            (u / 2 + e * (v / 2) + o * ((v + 1) / 2)) as usize
        } else {
            (u / 2 + e * ((v + 1) / 2) + o * (v / 2)) as usize
        }
    }

    /// The storage index of the hexagon at `pos`, which the grid must have.
    pub fn hex_index(&self, pos: HexPos) -> (r: usize)
        requires
            self.wf(),
            grid_has_hex(self.size_view(), pos@),
        ensures
            r == hex_index_of(self.size_view(), pos@),
            r < region_seq(size_region(self.size_view())).len(),
    {
        self.unchecked_hex_index(pos)
    }

    /// The storage place of the edge named by `edge_pos`, which the grid must have.
    pub fn edge_index(&self, edge_pos: HexEdgePos) -> (r: EdgeIndex)
        requires
            self.wf(),
            region_contains_edge(size_region(self.size_view()), edge_pos.pos@, edge_pos.edge),
        ensures
            r == edge_slot(
                self.size_view(),
                edge_norm(edge_pos.pos@, edge_pos.edge).0,
                edge_norm(edge_pos.pos@, edge_pos.edge).1,
            ),
    {
        proof {
            use_type_invariant(&edge_pos.pos);
        }
        let n = edge_pos.norm();
        let (pos, edge) = n.pos_edge();
        let (u, v) = pos.u_v();
        let (u, v) = (u as i64, v as i64);
        let (width, height) = self.size.unpack();
        let (width, height) = (width as i64, height as i64);
        if self.has_hex(pos) {
            EdgeIndex::Hex(self.hex_index(pos), edge)
        } else {
            proof {
                crate::edge_pos::lemma_edge_norm_same(edge_pos.pos@, edge_pos.edge, pos@, norm_edge_to_edge(edge));
                lemma_edge_slot(self.size@, (pos@, edge));
            }
            match edge {
                NormHexEdge::TopRight => if u == -1 {
                    EdgeIndex::BottomLeft(((v + 1) / 2) as usize)
                } else {
                    EdgeIndex::BottomLeft(((u + 1) / 2 + (height + 1) / 2 - 1) as usize)
                },
                NormHexEdge::Top => EdgeIndex::Bottom(u as usize),
                NormHexEdge::TopLeft => if v == -1 {
                    EdgeIndex::BottomRight((u / 2) as usize)
                } else {
                    EdgeIndex::BottomRight((width / 2 + (v + 1) / 2) as usize)
                },
            }
        }
    }

    /// The storage place of the corner named by `corner_pos`, which the grid must have.
    pub fn corner_index(&self, corner_pos: HexCornerPos) -> (r: CornerIndex)
        requires
            self.wf(),
            region_contains_corner(size_region(self.size_view()), corner_pos.pos@, corner_pos.corner),
        ensures
            r == corner_slot(
                self.size_view(),
                corner_norm(corner_pos.pos@, corner_pos.corner).0,
                corner_norm(corner_pos.pos@, corner_pos.corner).1,
            ),
    {
        proof {
            use_type_invariant(&corner_pos.pos);
        }
        let (pos, corner) = corner_pos.norm();
        let (u, v) = pos.u_v();
        let (u, v) = (u as i64, v as i64);
        let (width, height) = self.size.unpack();
        let (width, height) = (width as i64, height as i64);
        if self.has_hex(pos) {
            CornerIndex::Hex(self.hex_index(pos), corner)
        } else {
            proof {
                crate::corner_pos::lemma_corner_norm_same(corner_pos.pos@, corner_pos.corner, pos@, norm_corner_to_corner(corner));
                lemma_corner_slot(self.size@, (pos@, corner));
            }
            if u == -1 && corner == NormHexCorner::TopRight {
                CornerIndex::Left(((v + 1) / 2) as usize)
            } else if u == width && corner == NormHexCorner::TopLeft {
                if width % 2 == 0 {
                    CornerIndex::Right((v / 2) as usize)
                } else {
                    CornerIndex::Right(((v + 1) / 2) as usize)
                }
            } else {
                let offset: i64 = match corner {
                    NormHexCorner::TopRight => 1,
                    NormHexCorner::TopLeft => 0,
                };
                CornerIndex::Bottom((u * 2 + offset) as usize)
            }
        }
    }
}


impl<H, E, C> HexGrid<H, E, C> {
    /// `g2` is `g1` with the data of the hexagon stored at index `i` replaced by `x`.
    spec fn hex_written(g1: Self, g2: Self, i: int, x: H) -> bool {
        let old_hex = g1.hexes@[i];
        &&& g2.size == g1.size
        &&& g2.even_row_size == g1.even_row_size
        &&& g2.odd_row_size == g1.odd_row_size
        &&& g2.hexes@ == g1.hexes@.update(i, Hex { data: x, edges: old_hex.edges, corners: old_hex.corners })
        &&& g2.bottom_left_edges == g1.bottom_left_edges
        &&& g2.bottom_edges == g1.bottom_edges
        &&& g2.bottom_right_edges == g1.bottom_right_edges
        &&& g2.right_edge_corners == g1.right_edge_corners
        &&& g2.left_edge_corners == g1.left_edge_corners
        &&& g2.bottom_edge_corners == g1.bottom_edge_corners
    }

    /// `g2` is `g1` with the edge data stored at `slot` replaced by `x`.
    spec fn edge_written(g1: Self, g2: Self, slot: EdgeIndex, x: E) -> bool {
        &&& g2.size == g1.size
        &&& g2.even_row_size == g1.even_row_size
        &&& g2.odd_row_size == g1.odd_row_size
        &&& g2.right_edge_corners == g1.right_edge_corners
        &&& g2.left_edge_corners == g1.left_edge_corners
        &&& g2.bottom_edge_corners == g1.bottom_edge_corners
        &&& match slot {
            EdgeIndex::Hex(i, e) => {
                let h = g1.hexes@[i as int];
                let edges = match e {
                    NormHexEdge::TopRight => (x, h.edges.1, h.edges.2),
                    NormHexEdge::Top => (h.edges.0, x, h.edges.2),
                    NormHexEdge::TopLeft => (h.edges.0, h.edges.1, x),
                };
                &&& g2.hexes@ == g1.hexes@.update(i as int, Hex { data: h.data, edges: edges, corners: h.corners })
                &&& g2.bottom_left_edges == g1.bottom_left_edges
                &&& g2.bottom_edges == g1.bottom_edges
                &&& g2.bottom_right_edges == g1.bottom_right_edges
            },
            EdgeIndex::BottomLeft(i) => {
                &&& g2.hexes == g1.hexes
                &&& g2.bottom_left_edges@ == g1.bottom_left_edges@.update(i as int, x)
                &&& g2.bottom_edges == g1.bottom_edges
                &&& g2.bottom_right_edges == g1.bottom_right_edges
            },
            EdgeIndex::Bottom(i) => {
                &&& g2.hexes == g1.hexes
                &&& g2.bottom_left_edges == g1.bottom_left_edges
                &&& g2.bottom_edges@ == g1.bottom_edges@.update(i as int, x)
                &&& g2.bottom_right_edges == g1.bottom_right_edges
            },
            EdgeIndex::BottomRight(i) => {
                &&& g2.hexes == g1.hexes
                &&& g2.bottom_left_edges == g1.bottom_left_edges
                &&& g2.bottom_edges == g1.bottom_edges
                &&& g2.bottom_right_edges@ == g1.bottom_right_edges@.update(i as int, x)
            },
        }
    }

    /// `g2` is `g1` with the corner data stored at `slot` replaced by `x`.
    spec fn corner_written(g1: Self, g2: Self, slot: CornerIndex, x: C) -> bool {
        &&& g2.size == g1.size
        &&& g2.even_row_size == g1.even_row_size
        &&& g2.odd_row_size == g1.odd_row_size
        &&& g2.bottom_left_edges == g1.bottom_left_edges
        &&& g2.bottom_edges == g1.bottom_edges
        &&& g2.bottom_right_edges == g1.bottom_right_edges
        &&& match slot {
            CornerIndex::Hex(i, c) => {
                let h = g1.hexes@[i as int];
                let corners = match c {
                    NormHexCorner::TopRight => (x, h.corners.1),
                    NormHexCorner::TopLeft => (h.corners.0, x),
                };
                &&& g2.hexes@ == g1.hexes@.update(i as int, Hex { data: h.data, edges: h.edges, corners: corners })
                &&& g2.right_edge_corners == g1.right_edge_corners
                &&& g2.left_edge_corners == g1.left_edge_corners
                &&& g2.bottom_edge_corners == g1.bottom_edge_corners
            },
            CornerIndex::Right(i) => {
                &&& g2.hexes == g1.hexes
                &&& g2.right_edge_corners@ == g1.right_edge_corners@.update(i as int, x)
                &&& g2.left_edge_corners == g1.left_edge_corners
                &&& g2.bottom_edge_corners == g1.bottom_edge_corners
            },
            CornerIndex::Left(i) => {
                &&& g2.hexes == g1.hexes
                &&& g2.right_edge_corners == g1.right_edge_corners
                &&& g2.left_edge_corners@ == g1.left_edge_corners@.update(i as int, x)
                &&& g2.bottom_edge_corners == g1.bottom_edge_corners
            },
            CornerIndex::Bottom(i) => {
                &&& g2.hexes == g1.hexes
                &&& g2.right_edge_corners == g1.right_edge_corners
                &&& g2.left_edge_corners == g1.left_edge_corners
                &&& g2.bottom_edge_corners@ == g1.bottom_edge_corners@.update(i as int, x)
            },
        }
    }

    fn hex_data_mut(&mut self, index: usize) -> (r: &mut H)
        requires
            index < old(self).hexes@.len(),
        ensures
            *r == old(self).hexes@[index as int].data,
            Self::hex_written(*old(self), *final(self), index as int, *final(r)),
    {
        &mut self.hexes[index].data
    }

    fn edge_slot_mut(&mut self, slot: EdgeIndex) -> (r: &mut E)
        requires
            match slot {
                EdgeIndex::Hex(i, _) => i < old(self).hexes@.len(),
                EdgeIndex::BottomLeft(i) => i < old(self).bottom_left_edges@.len(),
                EdgeIndex::Bottom(i) => i < old(self).bottom_edges@.len(),
                EdgeIndex::BottomRight(i) => i < old(self).bottom_right_edges@.len(),
            },
        ensures
            *r == old(self).edge_at_slot(slot),
            Self::edge_written(*old(self), *final(self), slot, *final(r)),
    {
        match slot {
            EdgeIndex::Hex(index, edge) => match edge {
                NormHexEdge::TopRight => &mut self.hexes[index].edges.0,
                NormHexEdge::Top => &mut self.hexes[index].edges.1,
                NormHexEdge::TopLeft => &mut self.hexes[index].edges.2,
            },
            EdgeIndex::BottomLeft(index) => &mut self.bottom_left_edges[index],
            EdgeIndex::Bottom(index) => &mut self.bottom_edges[index],
            EdgeIndex::BottomRight(index) => &mut self.bottom_right_edges[index],
        }
    }

    fn corner_slot_mut(&mut self, slot: CornerIndex) -> (r: &mut C)
        requires
            match slot {
                CornerIndex::Hex(i, _) => i < old(self).hexes@.len(),
                CornerIndex::Right(i) => i < old(self).right_edge_corners@.len(),
                CornerIndex::Left(i) => i < old(self).left_edge_corners@.len(),
                CornerIndex::Bottom(i) => i < old(self).bottom_edge_corners@.len(),
            },
        ensures
            *r == old(self).corner_at_slot(slot),
            Self::corner_written(*old(self), *final(self), slot, *final(r)),
    {
        match slot {
            CornerIndex::Hex(index, corner) => match corner {
                NormHexCorner::TopRight => &mut self.hexes[index].corners.0,
                NormHexCorner::TopLeft => &mut self.hexes[index].corners.1,
            },
            CornerIndex::Right(index) => &mut self.right_edge_corners[index],
            CornerIndex::Left(index) => &mut self.left_edge_corners[index],
            CornerIndex::Bottom(index) => &mut self.bottom_edge_corners[index],
        }
    }
}

broadcast proof fn lemma_hex_written<H, E, C>(g1: HexGrid<H, E, C>, g2: HexGrid<H, E, C>, p: (int, int), x: H)
    requires
        g1.wf(),
        grid_has_hex(g1.size@, p),
        #[trigger] HexGrid::<H, E, C>::hex_written(g1, g2, hex_index_of(g1.size@, p), x),
    ensures
        g2.wf(),
        g2.size@ == g1.size@,
        g2.hex_map() == g1.hex_map().insert(p, x),
        g2.edge_map() == g1.edge_map(),
        g2.corner_map() == g1.corner_map(),
{
    let s = g1.size@;
    let i = hex_index_of(s, p);
    lemma_hex_index_bounds(s, p);
    assert forall|q: (int, int)| grid_has_hex(s, q) && q != p implies hex_index_of(s, q) != i by {
        if hex_index_of(s, q) == i {
            lemma_hex_index_injective(s, q, p);
        }
    }
    assert forall|q: (int, int)| grid_has_hex(s, q) implies #[trigger] g2.hex_map()[q] == g1.hex_map().insert(p, x)[q] by {
        lemma_hex_index_bounds(s, q);
        if q != p {
            assert(hex_index_of(s, q) != i);
        }
    }
    assert(g2.hex_map() =~= g1.hex_map().insert(p, x));
    assert forall|k: ((int, int), NormHexEdge)| grid_has_edge_key(s, k) implies
        g2.edge_at_slot(edge_slot(s, k.0, k.1)) == g1.edge_at_slot(edge_slot(s, k.0, k.1)) by {
        lemma_edge_slot(s, k);
    }
    assert(g2.edge_map() =~= g1.edge_map());
    assert forall|k: ((int, int), NormHexCorner)| grid_has_corner_key(s, k) implies
        g2.corner_at_slot(corner_slot(s, k.0, k.1)) == g1.corner_at_slot(corner_slot(s, k.0, k.1)) by {
        lemma_corner_slot(s, k);
    }
    assert(g2.corner_map() =~= g1.corner_map());
}

broadcast proof fn lemma_edge_written<H, E, C>(g1: HexGrid<H, E, C>, g2: HexGrid<H, E, C>, p: (int, int), e: NormHexEdge, x: E)
    requires
        g1.wf(),
        grid_has_edge_key(g1.size@, (p, e)),
        #[trigger] HexGrid::<H, E, C>::edge_written(g1, g2, edge_slot(g1.size@, p, e), x),
    ensures
        g2.wf(),
        g2.size@ == g1.size@,
        g2.hex_map() == g1.hex_map(),
        g2.edge_map() == g1.edge_map().insert((p, e), x),
        g2.corner_map() == g1.corner_map(),
{
    let s = g1.size@;
    let slot = edge_slot(s, p, e);
    lemma_edge_slot(s, (p, e));
    assert forall|q: (int, int)| grid_has_hex(s, q) implies g2.hexes@[hex_index_of(s, q)].data
        == g1.hexes@[hex_index_of(s, q)].data by {
        lemma_hex_index_bounds(s, q);
    }
    assert(g2.hex_map() =~= g1.hex_map());
    assert forall|k: ((int, int), NormHexEdge)| grid_has_edge_key(s, k) && k != (p, e) implies
        g2.edge_at_slot(edge_slot(s, k.0, k.1)) == g1.edge_at_slot(edge_slot(s, k.0, k.1)) by {
        lemma_edge_slot(s, k);
        if edge_slot(s, k.0, k.1) == slot {
            lemma_edge_slot_injective(s, k, (p, e));
        }
    }
    assert(g2.edge_map() =~= g1.edge_map().insert((p, e), x));
    assert forall|k: ((int, int), NormHexCorner)| grid_has_corner_key(s, k) implies
        g2.corner_at_slot(corner_slot(s, k.0, k.1)) == g1.corner_at_slot(corner_slot(s, k.0, k.1)) by {
        lemma_corner_slot(s, k);
    }
    assert(g2.corner_map() =~= g1.corner_map());
}

broadcast proof fn lemma_corner_written<H, E, C>(g1: HexGrid<H, E, C>, g2: HexGrid<H, E, C>, p: (int, int), c: NormHexCorner, x: C)
    requires
        g1.wf(),
        grid_has_corner_key(g1.size@, (p, c)),
        #[trigger] HexGrid::<H, E, C>::corner_written(g1, g2, corner_slot(g1.size@, p, c), x),
    ensures
        g2.wf(),
        g2.size@ == g1.size@,
        g2.hex_map() == g1.hex_map(),
        g2.edge_map() == g1.edge_map(),
        g2.corner_map() == g1.corner_map().insert((p, c), x),
{
    let s = g1.size@;
    let slot = corner_slot(s, p, c);
    lemma_corner_slot(s, (p, c));
    assert forall|q: (int, int)| grid_has_hex(s, q) implies g2.hexes@[hex_index_of(s, q)].data
        == g1.hexes@[hex_index_of(s, q)].data by {
        lemma_hex_index_bounds(s, q);
    }
    assert(g2.hex_map() =~= g1.hex_map());
    assert forall|k: ((int, int), NormHexEdge)| grid_has_edge_key(s, k) implies
        g2.edge_at_slot(edge_slot(s, k.0, k.1)) == g1.edge_at_slot(edge_slot(s, k.0, k.1)) by {
        lemma_edge_slot(s, k);
    }
    assert(g2.edge_map() =~= g1.edge_map());
    assert forall|k: ((int, int), NormHexCorner)| grid_has_corner_key(s, k) && k != (p, c) implies
        g2.corner_at_slot(corner_slot(s, k.0, k.1)) == g1.corner_at_slot(corner_slot(s, k.0, k.1)) by {
        lemma_corner_slot(s, k);
        if corner_slot(s, k.0, k.1) == slot {
            lemma_corner_slot_injective(s, k, (p, c));
        }
    }
    assert(g2.corner_map() =~= g1.corner_map().insert((p, c), x));
}


impl<H, E, C> HexGrid<H, E, C> {
    /// The data of the hexagon at `pos`, which the grid must have.
    pub fn hex(&self, pos: HexPos) -> (r: &H)
        requires
            self.wf(),
            grid_has_hex(self.size_view(), pos@),
        ensures
            *r == self.hex_map()[pos@],
    {
        let index = self.hex_index(pos);
        &self.hexes[index].data
    }

    /// Mutable access to the data of the hexagon at `pos`, which the grid must
    /// have.  Nothing else in the grid changes.
    pub fn hex_mut(&mut self, pos: HexPos) -> (r: &mut H)
        requires
            old(self).wf(),
            grid_has_hex(old(self).size_view(), pos@),
        ensures
            *r == old(self).hex_map()[pos@],
            final(self).wf(),
            final(self).size_view() == old(self).size_view(),
            final(self).hex_map() == old(self).hex_map().insert(pos@, *final(r)),
            final(self).edge_map() == old(self).edge_map(),
            final(self).corner_map() == old(self).corner_map(),
    {
        broadcast use lemma_hex_written;
        let index = self.hex_index(pos);
        self.hex_data_mut(index)
    }

    /// The data of the edge named by `pos`, which the grid must have.  Both
    /// names of an edge give the same data.
    pub fn edge(&self, pos: HexEdgePos) -> (r: &E)
        requires
            self.wf(),
            region_contains_edge(size_region(self.size_view()), pos.pos@, pos.edge),
        ensures
            *r == self.edge_map()[edge_norm(pos.pos@, pos.edge)],
    {
        proof {
            use_type_invariant(&pos.pos);
            crate::edge_pos::lemma_edge_norm_same(pos.pos@, pos.edge, pos.pos@, pos.edge);
            lemma_edge_slot(self.size@, edge_norm(pos.pos@, pos.edge));
        }
        match self.edge_index(pos) {
            EdgeIndex::Hex(index, edge) => match edge {
                NormHexEdge::TopRight => &self.hexes[index].edges.0,
                NormHexEdge::Top => &self.hexes[index].edges.1,
                NormHexEdge::TopLeft => &self.hexes[index].edges.2,
            },
            EdgeIndex::BottomLeft(index) => &self.bottom_left_edges[index],
            EdgeIndex::Bottom(index) => &self.bottom_edges[index],
            EdgeIndex::BottomRight(index) => &self.bottom_right_edges[index],
        }
    }

    /// Mutable access to the data of the edge named by `pos`, which the grid
    /// must have.  Nothing else in the grid changes.
    pub fn edge_mut(&mut self, pos: HexEdgePos) -> (r: &mut E)
        requires
            old(self).wf(),
            region_contains_edge(size_region(old(self).size_view()), pos.pos@, pos.edge),
        ensures
            *r == old(self).edge_map()[edge_norm(pos.pos@, pos.edge)],
            final(self).wf(),
            final(self).size_view() == old(self).size_view(),
            final(self).hex_map() == old(self).hex_map(),
            final(self).edge_map() == old(self).edge_map().insert(edge_norm(pos.pos@, pos.edge), *final(r)),
            final(self).corner_map() == old(self).corner_map(),
    {
        broadcast use lemma_edge_written;
        proof {
            use_type_invariant(&pos.pos);
            lemma_edge_slot(self.size@, edge_norm(pos.pos@, pos.edge));
        }
        let slot = self.edge_index(pos);
        self.edge_slot_mut(slot)
    }

    /// The data of the corner named by `pos`, which the grid must have.  All
    /// three names of a corner give the same data.
    pub fn corner(&self, pos: HexCornerPos) -> (r: &C)
        requires
            self.wf(),
            region_contains_corner(size_region(self.size_view()), pos.pos@, pos.corner),
        ensures
            *r == self.corner_map()[corner_norm(pos.pos@, pos.corner)],
    {
        proof {
            use_type_invariant(&pos.pos);
            lemma_corner_slot(self.size@, corner_norm(pos.pos@, pos.corner));
        }
        match self.corner_index(pos) {
            CornerIndex::Hex(index, corner) => match corner {
                NormHexCorner::TopRight => &self.hexes[index].corners.0,
                NormHexCorner::TopLeft => &self.hexes[index].corners.1,
            },
            CornerIndex::Right(index) => &self.right_edge_corners[index],
            CornerIndex::Left(index) => &self.left_edge_corners[index],
            CornerIndex::Bottom(index) => &self.bottom_edge_corners[index],
        }
    }

    /// Mutable access to the data of the corner named by `pos`, which the grid
    /// must have.  Nothing else in the grid changes.
    pub fn corner_mut(&mut self, pos: HexCornerPos) -> (r: &mut C)
        requires
            old(self).wf(),
            region_contains_corner(size_region(old(self).size_view()), pos.pos@, pos.corner),
        ensures
            *r == old(self).corner_map()[corner_norm(pos.pos@, pos.corner)],
            final(self).wf(),
            final(self).size_view() == old(self).size_view(),
            final(self).hex_map() == old(self).hex_map(),
            final(self).edge_map() == old(self).edge_map(),
            final(self).corner_map() == old(self).corner_map().insert(corner_norm(pos.pos@, pos.corner), *final(r)),
    {
        broadcast use lemma_corner_written;
        proof {
            use_type_invariant(&pos.pos);
            lemma_corner_slot(self.size@, corner_norm(pos.pos@, pos.corner));
        }
        let slot = self.corner_index(pos);
        self.corner_slot_mut(slot)
    }
}

impl<H, E, C> HexGrid<H, E, C> {
    /// Creates a grid of the given size, calling `hex_init` for each hexagon,
    /// `edge_init` once for each edge and `corner_init` once for each corner
    /// to make their data.
    pub fn new(
        size: HexGridSize,
        hex_init: impl Fn(HexPos) -> H,
        edge_init: impl Fn(HexEdgePos) -> E,
        corner_init: impl Fn(HexCornerPos) -> C,
    ) -> (r: Self)
        requires
            region_seq(size_region(size@)).len() <= usize::MAX,
            forall|p: HexPos| call_requires(hex_init, (p,)),
            forall|e: HexEdgePos| call_requires(edge_init, (e,)),
            forall|c: HexCornerPos| call_requires(corner_init, (c,)),
        ensures
            r.wf(),
            r.size_view() == size@,
            forall|p: (int, int)|
                grid_has_hex(size@, p) ==> call_ensures(hex_init, (pos_of(p),), #[trigger] r.hex_map()[p]),
            forall|k: ((int, int), NormHexEdge)|
                grid_has_edge_key(size@, k) ==> call_ensures(
                    edge_init,
                    (edge_pos_of(edge_init_name(size@, k)),),
                    #[trigger] r.edge_map()[k],
                ),
            forall|k: ((int, int), NormHexCorner)|
                grid_has_corner_key(size@, k) ==> call_ensures(
                    corner_init,
                    (corner_pos_of(k),),
                    #[trigger] r.corner_map()[k],
                ),
    {
        proof {
            use_type_invariant(&size);
        }
        let ghost s = size@;
        let ghost seq = region_seq(size_region(s));
        let (width, height) = size.unpack();
        let even_row_size = 1 + (width - 1) / 2;
        let odd_row_size = width / 2;
        let w = width as i64;
        let h = height as i64;
        let mut hexes: Vec<Hex<H, E, C>> = Vec::new();
        let mut bottom_left_edges: Vec<E> = Vec::new();
        let mut bottom_edges: Vec<E> = Vec::new();
        let mut bottom_right_edges: Vec<E> = Vec::new();
        let mut right_edge_corners: Vec<C> = Vec::new();
        let mut left_edge_corners: Vec<C> = Vec::new();
        let mut bottom_edge_corners: Vec<C> = Vec::new();
        if w > 0 && h > 0 {
            let mut it = HexRegionIterator::new(size.region());
            loop
                invariant
                    seq == region_seq(size_region(s)),
                    hexes@.len() + it.rest().len() == seq.len(),
                    it.rest() == seq.skip(hexes@.len() as int),
                    forall|p: HexPos| call_requires(hex_init, (p,)),
                    forall|e: HexEdgePos| call_requires(edge_init, (e,)),
                    forall|c: HexCornerPos| call_requires(corner_init, (c,)),
                    forall|j: int|
                        0 <= j < hexes@.len() ==> {
                            &&& call_ensures(hex_init, (pos_of(seq[j]),), (#[trigger] hexes@[j]).data)
                            &&& call_ensures(edge_init, (edge_pos_of((seq[j], HexEdge::TopRight)),), hexes@[j].edges.0)
                            &&& call_ensures(edge_init, (edge_pos_of((seq[j], HexEdge::Top)),), hexes@[j].edges.1)
                            &&& call_ensures(edge_init, (edge_pos_of((seq[j], HexEdge::TopLeft)),), hexes@[j].edges.2)
                            &&& call_ensures(corner_init, (corner_pos_of((seq[j], NormHexCorner::TopRight)),), hexes@[j].corners.0)
                            &&& call_ensures(corner_init, (corner_pos_of((seq[j], NormHexCorner::TopLeft)),), hexes@[j].corners.1)
                        },
                ensures
                    hexes@.len() == seq.len(),
                    forall|j: int|
                        0 <= j < hexes@.len() ==> {
                            &&& call_ensures(hex_init, (pos_of(seq[j]),), (#[trigger] hexes@[j]).data)
                            &&& call_ensures(edge_init, (edge_pos_of((seq[j], HexEdge::TopRight)),), hexes@[j].edges.0)
                            &&& call_ensures(edge_init, (edge_pos_of((seq[j], HexEdge::Top)),), hexes@[j].edges.1)
                            &&& call_ensures(edge_init, (edge_pos_of((seq[j], HexEdge::TopLeft)),), hexes@[j].edges.2)
                            &&& call_ensures(corner_init, (corner_pos_of((seq[j], NormHexCorner::TopRight)),), hexes@[j].corners.0)
                            &&& call_ensures(corner_init, (corner_pos_of((seq[j], NormHexCorner::TopLeft)),), hexes@[j].corners.1)
                        },
                decreases it.rest().len(),
            {
                let ghost n = hexes@.len() as int;
                match it.next() {
                    Some(pos) => {
                        assert(pos@ == seq[n]);
                        let data = hex_init(pos);
                        let e0 = edge_init(HexEdgePos::new(pos, HexEdge::TopRight));
                        let e1 = edge_init(HexEdgePos::new(pos, HexEdge::Top));
                        let e2 = edge_init(HexEdgePos::new(pos, HexEdge::TopLeft));
                        let c0 = corner_init(HexCornerPos::new(pos, HexCorner::TopRight));
                        let c1 = corner_init(HexCornerPos::new(pos, HexCorner::TopLeft));
                        hexes.push(Hex { data, edges: (e0, e1, e2), corners: (c0, c1) });
                        assert(it.rest() =~= seq.skip(hexes@.len() as int));
                    },
                    None => {
                        break;
                    },
                }
            }
            let n1 = (h + 1) / 2;
            let mut i: i64 = 0;
            while i < n1
                invariant
                    0 <= i <= n1,
                    n1 == (h + 1) / 2,
                    h == s.1,
                    w == s.0,
                    fits_coord(h as int),
                    bottom_left_edges@.len() == i,
                    forall|e: HexEdgePos| call_requires(edge_init, (e,)),
                    forall|j: int|
                        0 <= j < i ==> call_ensures(
                            edge_init,
                            (edge_pos_of((bottom_left_name(s, j), HexEdge::BottomLeft)),),
                            #[trigger] bottom_left_edges@[j],
                        ),
                decreases n1 - i,
            {
                bottom_left_edges.push(edge_init(HexEdgePos::new(HexPos::new(0, (i * 2) as i32), HexEdge::BottomLeft)));
                i += 1;
            }
            let mut i: i64 = 1;
            while i < (w + 1) / 2
                invariant
                    1 <= i <= (w + 1) / 2,
                    n1 == (h + 1) / 2,
                    h == s.1,
                    w == s.0,
                    fits_coord(w as int),
                    bottom_left_edges@.len() == n1 + i - 1,
                    forall|e: HexEdgePos| call_requires(edge_init, (e,)),
                    forall|j: int|
                        0 <= j < n1 + i - 1 ==> call_ensures(
                            edge_init,
                            (edge_pos_of((bottom_left_name(s, j), HexEdge::BottomLeft)),),
                            #[trigger] bottom_left_edges@[j],
                        ),
                decreases (w + 1) / 2 - i,
            {
                bottom_left_edges.push(edge_init(HexEdgePos::new(HexPos::new((i * 2) as i32, 0), HexEdge::BottomLeft)));
                i += 1;
            }
            let m = (w + 1) / 2;
            let mut i: i64 = 0;
            while i < m
                invariant
                    0 <= i <= m,
                    m == (w + 1) / 2,
                    w == s.0,
                    fits_coord(w as int),
                    bottom_right_edges@.len() == i,
                    forall|e: HexEdgePos| call_requires(edge_init, (e,)),
                    forall|j: int|
                        0 <= j < i ==> call_ensures(
                            edge_init,
                            (edge_pos_of((bottom_right_name(s, j), HexEdge::BottomRight)),),
                            #[trigger] bottom_right_edges@[j],
                        ),
                decreases m - i,
            {
                bottom_right_edges.push(edge_init(HexEdgePos::new(HexPos::new((i * 2) as i32, 0), HexEdge::BottomRight)));
                i += 1;
            }
            if w % 2 == 0 {
                let mut i: i64 = 0;
                while i < h / 2
                    invariant
                        0 <= i <= h / 2,
                        m == (w + 1) / 2,
                        w == s.0,
                        h == s.1,
                        w % 2 == 0,
                        1 <= w,
                        fits_coord(w as int),
                        fits_coord(h as int),
                        bottom_right_edges@.len() == m + i,
                        forall|e: HexEdgePos| call_requires(edge_init, (e,)),
                        forall|j: int|
                            0 <= j < m + i ==> call_ensures(
                                edge_init,
                                (edge_pos_of((bottom_right_name(s, j), HexEdge::BottomRight)),),
                                #[trigger] bottom_right_edges@[j],
                            ),
                    decreases h / 2 - i,
                {
                    bottom_right_edges.push(edge_init(HexEdgePos::new(HexPos::new((w - 1) as i32, (i * 2 + 1) as i32), HexEdge::BottomRight)));
                    i += 1;
                }
            } else {
                let mut i: i64 = 1;
                while i < (h + 1) / 2
                    invariant
                        1 <= i <= (h + 1) / 2,
                        m == (w + 1) / 2,
                        w == s.0,
                        h == s.1,
                        w % 2 == 1,
                        fits_coord(w as int),
                        fits_coord(h as int),
                        bottom_right_edges@.len() == m + i - 1,
                        forall|e: HexEdgePos| call_requires(edge_init, (e,)),
                        forall|j: int|
                            0 <= j < m + i - 1 ==> call_ensures(
                                edge_init,
                                (edge_pos_of((bottom_right_name(s, j), HexEdge::BottomRight)),),
                                #[trigger] bottom_right_edges@[j],
                            ),
                    decreases (h + 1) / 2 - i,
                {
                    bottom_right_edges.push(edge_init(HexEdgePos::new(HexPos::new((w - 1) as i32, (i * 2) as i32), HexEdge::BottomRight)));
                    i += 1;
                }
            }
            let mut u: i64 = 0;
            while u < w
                invariant
                    0 <= u <= w,
                    w == s.0,
                    fits_coord(w as int),
                    bottom_edges@.len() == u,
                    forall|e: HexEdgePos| call_requires(edge_init, (e,)),
                    forall|j: int|
                        0 <= j < u ==> call_ensures(
                            edge_init,
                            (edge_pos_of((bottom_name(j), HexEdge::Bottom)),),
                            #[trigger] bottom_edges@[j],
                        ),
                decreases w - u,
            {
                bottom_edges.push(edge_init(HexEdgePos::new(HexPos::new(u as i32, (u % 2) as i32), HexEdge::Bottom)));
                u += 1;
            }
            let mut i: i64 = 0;
            while i < (h + 1) / 2
                invariant
                    0 <= i <= (h + 1) / 2,
                    h == s.1,
                    fits_coord(h as int),
                    left_edge_corners@.len() == i,
                    forall|c: HexCornerPos| call_requires(corner_init, (c,)),
                    forall|j: int|
                        0 <= j < i ==> call_ensures(
                            corner_init,
                            (corner_pos_of(left_corner_name(j)),),
                            #[trigger] left_edge_corners@[j],
                        ),
                decreases (h + 1) / 2 - i,
            {
                left_edge_corners.push(corner_init(HexCornerPos::new(HexPos::new(-1, (-1 + 2 * i) as i32), HexCorner::TopRight)));
                i += 1;
            }
            let num_right_edge_corners = if w % 2 == h % 2 { (h + 1) / 2 } else { h / 2 };
            let mut i: i64 = 0;
            while i < num_right_edge_corners
                invariant
                    0 <= i <= num_right_edge_corners,
                    num_right_edge_corners == right_corners_len(s),
                    w == s.0,
                    h == s.1,
                    1 <= w,
                    1 <= h,
                    fits_coord(w as int),
                    fits_coord(h as int),
                    right_edge_corners@.len() == i,
                    forall|c: HexCornerPos| call_requires(corner_init, (c,)),
                    forall|j: int|
                        0 <= j < i ==> call_ensures(
                            corner_init,
                            (corner_pos_of(right_corner_name(s, j)),),
                            #[trigger] right_edge_corners@[j],
                        ),
                decreases num_right_edge_corners - i,
            {
                let v = if w % 2 == 0 { 2 * i } else { 2 * i - 1 };
                right_edge_corners.push(corner_init(HexCornerPos::new(HexPos::new(w as i32, v as i32), HexCorner::TopLeft)));
                i += 1;
            }
            let mut i: i64 = 0;
            while i < w
                invariant
                    0 <= i <= w,
                    w == s.0,
                    fits_coord(w as int),
                    bottom_edge_corners@.len() == 2 * i,
                    forall|c: HexCornerPos| call_requires(corner_init, (c,)),
                    forall|j: int|
                        0 <= j < 2 * i ==> call_ensures(
                            corner_init,
                            (corner_pos_of(bottom_corner_name(j)),),
                            #[trigger] bottom_edge_corners@[j],
                        ),
                decreases w - i,
            {
                let pos = HexPos::new(i as i32, (-2 + i % 2) as i32);
                bottom_edge_corners.push(corner_init(HexCornerPos::new(pos, HexCorner::TopLeft)));
                bottom_edge_corners.push(corner_init(HexCornerPos::new(pos, HexCorner::TopRight)));
                i += 1;
            }
        }
        let grid = HexGrid {
            size,
            even_row_size,
            odd_row_size,
            hexes,
            bottom_left_edges,
            bottom_edges,
            bottom_right_edges,
            right_edge_corners,
            left_edge_corners,
            bottom_edge_corners,
        };
        proof {
            assert(grid.wf());
            assert forall|p: (int, int)| grid_has_hex(s, p) implies call_ensures(
                hex_init,
                (pos_of(p),),
                #[trigger] grid.hex_map()[p],
            ) by {
                lemma_hex_index_bounds(s, p);
                let i = hex_index_of(s, p);
                let hx = grid.hexes@[i];
                assert(seq[i] == p);
                assert(grid.hex_map()[p] == hx.data);
            }
            assert forall|k: ((int, int), NormHexEdge)| grid_has_edge_key(s, k) implies call_ensures(
                edge_init,
                (edge_pos_of(edge_init_name(s, k)),),
                #[trigger] grid.edge_map()[k],
            ) by {
                lemma_edge_slot(s, k);
                match edge_slot(s, k.0, k.1) {
                    EdgeIndex::Hex(i, e) => {
                        lemma_hex_index_bounds(s, k.0);
                        let hx = grid.hexes@[i as int];
                        assert(seq[i as int] == k.0);
                        assert(edge_init_name(s, k) == (k.0, norm_edge_to_edge(e)));
                        match e {
                            NormHexEdge::TopRight => assert(grid.edge_map()[k] == hx.edges.0),
                            NormHexEdge::Top => assert(grid.edge_map()[k] == hx.edges.1),
                            NormHexEdge::TopLeft => assert(grid.edge_map()[k] == hx.edges.2),
                        }
                    },
                    EdgeIndex::BottomLeft(j) => {
                        assert(grid.bottom_left_edges@[j as int] == grid.edge_map()[k]);
                    },
                    EdgeIndex::Bottom(j) => {
                        assert(grid.bottom_edges@[j as int] == grid.edge_map()[k]);
                    },
                    EdgeIndex::BottomRight(j) => {
                        assert(grid.bottom_right_edges@[j as int] == grid.edge_map()[k]);
                    },
                }
            }
            assert forall|k: ((int, int), NormHexCorner)| grid_has_corner_key(s, k) implies call_ensures(
                corner_init,
                (corner_pos_of(k),),
                #[trigger] grid.corner_map()[k],
            ) by {
                lemma_corner_slot(s, k);
                match corner_slot(s, k.0, k.1) {
                    CornerIndex::Hex(i, c) => {
                        lemma_hex_index_bounds(s, k.0);
                        let hx = grid.hexes@[i as int];
                        assert(seq[i as int] == k.0);
                    },
                    CornerIndex::Right(j) => {
                        assert(grid.right_edge_corners@[j as int] == grid.corner_map()[k]);
                    },
                    CornerIndex::Left(j) => {
                        assert(grid.left_edge_corners@[j as int] == grid.corner_map()[k]);
                    },
                    CornerIndex::Bottom(j) => {
                        assert(grid.bottom_edge_corners@[j as int] == grid.corner_map()[k]);
                    },
                }
            }
        }
        grid
    }
}

/// The default value of `T`, whatever the part of the grid it is asked for.
fn default_value<P, T: Default>(_part: P) -> (r: T)
    ensures
        call_ensures(T::default, (), r),
{
    T::default()
}

impl<H, E, C> HexGrid<H, E, C> {
    /// Creates a grid of the given size whose hexagons, edges and corners all
    /// hold the default value of their type.
    pub fn new_with_defaults(size: HexGridSize) -> (r: Self) where H: Default, E: Default, C: Default
        requires
            region_seq(size_region(size@)).len() <= usize::MAX,
        ensures
            r.wf(),
            r.size_view() == size@,
            forall|p: (int, int)|
                grid_has_hex(size@, p) ==> call_ensures(H::default, (), #[trigger] r.hex_map()[p]),
            forall|k: ((int, int), NormHexEdge)|
                grid_has_edge_key(size@, k) ==> call_ensures(E::default, (), #[trigger] r.edge_map()[k]),
            forall|k: ((int, int), NormHexCorner)|
                grid_has_corner_key(size@, k) ==> call_ensures(
                    C::default,
                    (),
                    #[trigger] r.corner_map()[k],
                ),
    {
        Self::new(size, default_value::<HexPos, H>, default_value::<HexEdgePos, E>, default_value::<HexCornerPos, C>)
    }

    /// The number of values in each part of the grid's storage: hexagons,
    /// lower-left, bottom and lower-right boundary edges, and right, left and
    /// bottom boundary corners.
    pub fn storage_sizes(&self) -> (r: (usize, usize, usize, usize, usize, usize, usize))
        requires
            self.wf(),
        ensures
            r.0 == region_seq(size_region(self.size_view())).len(),
            r.1 == bottom_left_len(self.size_view()),
            r.2 == bottom_len(self.size_view()),
            r.3 == bottom_right_len(self.size_view()),
            r.4 == right_corners_len(self.size_view()),
            r.5 == left_corners_len(self.size_view()),
            r.6 == bottom_corners_len(self.size_view()),
    {
        (
            self.hexes.len(),
            self.bottom_left_edges.len(),
            self.bottom_edges.len(),
            self.bottom_right_edges.len(),
            self.right_edge_corners.len(),
            self.left_edge_corners.len(),
            self.bottom_edge_corners.len(),
        )
    }
}

impl<H, E, C> Default for HexGrid<H, E, C> {
    fn default() -> (r: Self)
        ensures
            r.wf(),
            r.size_view() == (0int, 0int),
    {
        let size = HexGridSize::default();
        proof {
            crate::region::lemma_region_count(size_region(size@));
        }
        HexGrid {
            size,
            even_row_size: 1,
            odd_row_size: 0,
            hexes: Vec::new(),
            bottom_left_edges: Vec::new(),
            bottom_edges: Vec::new(),
            bottom_right_edges: Vec::new(),
            right_edge_corners: Vec::new(),
            left_edge_corners: Vec::new(),
            bottom_edge_corners: Vec::new(),
        }
    }
}

impl<H, E, C> HexPosContainer for HexGrid<H, E, C> {
    open spec fn hex_views(&self) -> Seq<(int, int)> {
        region_seq(size_region(self.size_view()))
    }

    fn contains_hex(&self, pos: HexPos) -> (r: bool) {
        self.size.contains_hex(pos)
    }

    fn iter_hexes(&self) -> (r: Vec<HexPos>) {
        self.size.iter_hexes()
    }

    fn len(&self) -> (r: usize) {
        self.size.len()
    }
}

/// The initializer of an edge is passed a name of that edge.
pub proof fn lemma_edge_init_name(s: (int, int), k: ((int, int), NormHexEdge))
    requires
        grid_has_edge_key(s, k),
    ensures
        edge_norm(edge_init_name(s, k).0, edge_init_name(s, k).1) == k,
{
}

/// Reading an edge through any of its names gives the same data.
pub proof fn lemma_edge_names_share_data<H, E, C>(g: HexGrid<H, E, C>, a: HexEdgePos, b: HexEdgePos)
    requires
        region_contains_edge(size_region(g.size_view()), a.pos@, a.edge),
        b.pos@ == neighbor_of(a.pos@, a.edge),
        b.edge == edge_at(edge_ord(a.edge) + 3),
    ensures
        region_contains_edge(size_region(g.size_view()), b.pos@, b.edge),
        edge_norm(a.pos@, a.edge) == edge_norm(b.pos@, b.edge),
        g.edge_map()[edge_norm(a.pos@, a.edge)] == g.edge_map()[edge_norm(b.pos@, b.edge)],
{
    crate::pos::lemma_neighbor_opposite(a.pos@, a.edge);
    crate::edge_pos::lemma_edge_norm_same(a.pos@, a.edge, b.pos@, b.edge);
}

/// Writing the data of an edge through one name and then reading through a
/// name of the same edge gives the written data; every other edge keeps its
/// data.
pub proof fn lemma_edge_write_read<H, E, C>(g1: HexGrid<H, E, C>, g2: HexGrid<H, E, C>, w: HexEdgePos, r: HexEdgePos, x: E)
    requires
        g2.edge_map() == g1.edge_map().insert(edge_norm(w.pos@, w.edge), x),
    ensures
        g2.edge_map()[edge_norm(r.pos@, r.edge)] == if edge_norm(r.pos@, r.edge) == edge_norm(w.pos@, w.edge) {
            x
        } else {
            g1.edge_map()[edge_norm(r.pos@, r.edge)]
        },
{
}

/// Writing the data of a corner through one name and then reading through a
/// name of the same corner gives the written data; every other corner keeps
/// its data.
pub proof fn lemma_corner_write_read<H, E, C>(g1: HexGrid<H, E, C>, g2: HexGrid<H, E, C>, w: HexCornerPos, r: HexCornerPos, x: C)
    requires
        g2.corner_map() == g1.corner_map().insert(corner_norm(w.pos@, w.corner), x),
    ensures
        g2.corner_map()[corner_norm(r.pos@, r.corner)] == if corner_norm(r.pos@, r.corner) == corner_norm(w.pos@, w.corner) {
            x
        } else {
            g1.corner_map()[corner_norm(r.pos@, r.corner)]
        },
{
}

/// Writing the data of a hexagon and then reading a hexagon gives the written
/// data for that hexagon and the old data for every other one.
pub proof fn lemma_hex_write_read<H, E, C>(g1: HexGrid<H, E, C>, g2: HexGrid<H, E, C>, w: HexPos, r: HexPos, x: H)
    requires
        g2.hex_map() == g1.hex_map().insert(w@, x),
    ensures
        g2.hex_map()[r@] == if r@ == w@ { x } else { g1.hex_map()[r@] },
{
}

} // verus!
