use vstd::prelude::*;
use vstd::std_specs::convert::FromSpecImpl;
use crate::HexCoord;
use crate::container::HexPosContainer;
use crate::corner::{HexCorner, NormHexCorner};
use crate::corner_pos::{HexCornerPos, corner_norm};
use crate::delta::{fits_coord, group_delta};
use crate::edge::{HexEdge, NormHexEdge, edge_to_norm_edge};
use crate::edge_pos::{HexEdgePos, edge_norm};
use crate::pos::{HexPos, corner_neighbors, group_pos, neighbor_of};
use crate::region::{
    HexRegion, edge_delta, lemma_region_view_fits, region_of, lemma_region_count, lemma_region_seq_contains, region_contains,
    region_contains_corner, region_contains_edge, region_corner_seq, region_edge_seq,
    region_seq,
};

verus! {

broadcast use {group_delta, group_pos};

/// True for the sizes that form a proper grid: no negative side, both sides
/// zero or neither, a height of at least two when the width is more than one,
/// and an odd height when the width is one.
pub open spec fn valid_size(w: int, h: int) -> bool {
    &&& w >= 0
    &&& h >= 0
    &&& (w == 0) == (h == 0)
    &&& w > 1 ==> h >= 2
    &&& w == 1 ==> h % 2 == 1
}

/// A possible error that can occur when creating a [`HexGridSize`].
#[derive(Debug, Clone, Copy, PartialEq, Eq, Structural)]
pub enum HexGridSizeError {
    /// The width of the grid is negative.
    NegativeWidth(HexCoord),
    /// The height of the grid is negative.
    NegativeHeight(HexCoord),
    /// The width of the grid is zero but the height is non-zero.
    WidthZeroHeightNonZero(HexCoord),
    /// The height of the grid is zero but the width is non-zero.
    HeightZeroWidthNonZero(HexCoord),
    /// The width of the grid is greater than one but the height is less than two.  This is an error
    /// because the hexes in the grid would not be contiguous.
    WidthGreaterThanOneHeightLessThanTwo(HexCoord, HexCoord),
    /// The width of the grid is one but the height is even.  This is an error because
    /// using `height - 1` would produce a grid of the same dimensions.
    WidthOneHeightEven(HexCoord),
}

/// The error that `HexGridSize::new(w, h)` reports, or `None` for a valid size.
pub open spec fn size_error(w: HexCoord, h: HexCoord) -> Option<HexGridSizeError> {
    if w < 0 {
        Some(HexGridSizeError::NegativeWidth(w))
    } else if h < 0 {
        Some(HexGridSizeError::NegativeHeight(h))
    } else if h == 0 && w != 0 {
        Some(HexGridSizeError::HeightZeroWidthNonZero(w))
    } else if w == 0 && h != 0 {
        Some(HexGridSizeError::WidthZeroHeightNonZero(h))
    } else if w > 1 && h <= 1 {
        Some(HexGridSizeError::WidthGreaterThanOneHeightLessThanTwo(w, h))
    } else if w == 1 && h % 2 == 0 {
        Some(HexGridSizeError::WidthOneHeightEven(h))
    } else {
        None
    }
}

/// The rectangle of grid positions covered by a grid of width `s.0` and height `s.1`.
pub open spec fn size_region(s: (int, int)) -> (int, int, int, int) {
    (0, 0, s.0 - 1, s.1 - 1)
}

/// The size of a [`HexGrid`](crate::HexGrid) in terms of the number of hexes
/// in the u and v directions.
///
/// Some sizes are invalid, for example a width of 1 and a height of 2 is
/// invalid because the hexes would not be able to form a proper grid. See
/// [`HexGridSize::new`] for more information on valid sizes.
#[derive(Debug, Clone, Copy, PartialEq, Eq, Hash, Structural)]
pub struct HexGridSize {
    width: HexCoord,
    height: HexCoord,
}

impl View for HexGridSize {
    type V = (int, int);

    closed spec fn view(&self) -> (int, int) {
        (self.width as int, self.height as int)
    }
}

impl Default for HexGridSize {
    fn default() -> (r: HexGridSize)
        ensures
            r@ == (0int, 0int),
    {
        HexGridSize { width: 0, height: 0 }
    }
}

impl HexGridSize {
    /// Every size is a valid one.
    #[verifier::type_invariant]
    pub open spec fn wf(self) -> bool {
        valid_size(self@.0, self@.1)
    }

    /// Creates a new `HexGridSize` with the given width and height.  The width
    /// and height must be non-negative, and the width and height must be
    /// compatible with a hexagonal grid.
    pub fn new(width: HexCoord, height: HexCoord) -> (r: Result<HexGridSize, HexGridSizeError>)
        ensures
            size_error(width, height) is None ==> r is Ok && r.unwrap()@ == (width as int, height as int),
            size_error(width, height) matches Some(e) ==> r == Err::<HexGridSize, HexGridSizeError>(e),
            r is Ok <==> valid_size(width as int, height as int),
    {
        if width < 0 {
            return Err(HexGridSizeError::NegativeWidth(width));
        }
        if height < 0 {
            return Err(HexGridSizeError::NegativeHeight(height));
        }
        if height == 0 && width != 0 {
            return Err(HexGridSizeError::HeightZeroWidthNonZero(width));
        }
        if width == 0 && height != 0 {
            return Err(HexGridSizeError::WidthZeroHeightNonZero(height));
        }
        if width > 1 && height <= 1 {
            return Err(HexGridSizeError::WidthGreaterThanOneHeightLessThanTwo(width, height));
        }
        if width == 1 && height % 2 == 0 {
            return Err(HexGridSizeError::WidthOneHeightEven(height));
        }
        Ok(HexGridSize { width, height })
    }

    /// The width of the grid in terms of the number of hexes in the u direction.
    pub fn width(&self) -> (r: HexCoord)
        ensures
            r == self@.0,
    {
        self.width
    }

    /// The height of the grid in terms of the number of hexes in the v direction.
    pub fn height(&self) -> (r: HexCoord)
        ensures
            r == self@.1,
    {
        self.height
    }

    /// Unpacks the width and height of the grid into a tuple.
    pub fn unpack(&self) -> (r: (HexCoord, HexCoord))
        ensures
            (r.0 as int, r.1 as int) == self@,
    {
        (self.width, self.height)
    }

    /// Returns the number of hexes in a row of the grid that has an even v coordinate.
    pub fn even_row_size(&self) -> (r: HexCoord)
        ensures
            r == (self@.0 + 1) / 2,
    {
        proof {
            use_type_invariant(self);
        }
        self.width / 2 + self.width % 2
    }

    /// Returns the number of hexes in a row of the grid that has an odd v coordinate.
    pub fn odd_row_size(&self) -> (r: HexCoord)
        ensures
            r == self@.0 / 2,
    {
        proof {
            use_type_invariant(self);
        }
        self.width / 2
    }

    /// The region covered by the grid.
    pub fn region(&self) -> (r: HexRegion)
        ensures
            r@ == size_region(self@),
    {
        proof {
            use_type_invariant(self);
        }
        HexRegion::new(0, 0, self.width - 1, self.height - 1)
    }

    fn contains_uv(&self, u: i64, v: i64) -> (r: bool)
        ensures
            r == region_contains(size_region(self@), (u as int, v as int)),
    {
        0 <= u && u < self.width as i64 && 0 <= v && v < self.height as i64
    }

    /// Return true iff the grid of this size contains the specified edge
    /// position: the edge is part of a hex in the grid, possibly on the
    /// boundary of the grid.
    pub fn contains_edge(&self, edge_pos: HexEdgePos) -> (r: bool)
        ensures
            r == region_contains_edge(size_region(self@), edge_pos.pos@, edge_pos.edge),
    {
        proof {
            use_type_invariant(self);
            use_type_invariant(&edge_pos.pos);
        }
        let (pu, pv) = edge_pos.pos.u_v();
        if self.contains_uv(pu as i64, pv as i64) {
            return true;
        }
        // The normalized name of the edge, in wide integers.
        let (u, v, edge) = match NormHexEdge::from_edge(edge_pos.edge) {
            Some(e) => (pu as i64, pv as i64, e),
            None => {
                let (du, dv) = edge_delta(edge_pos.edge);
                let e = NormHexEdge::from_edge(edge_pos.edge.opposite()).unwrap();
                (pu as i64 + du, pv as i64 + dv, e)
            },
        };
        proof {
            assert((u as int, v as int) == edge_norm(edge_pos.pos@, edge_pos.edge).0);
            assert(edge == edge_norm(edge_pos.pos@, edge_pos.edge).1);
        }
        let (width, height) = (self.width as i64, self.height as i64);
        match edge {
            NormHexEdge::TopRight => if u == -1 {
                -1 <= v && v < height - 1
            } else if v == -1 {
                u % 2 != 0 && -1 <= u && u < width - 1
            } else {
                self.contains_uv(u, v)
            },
            NormHexEdge::Top => if -2 <= v && v < 0 {
                0 <= u && u < width
            } else {
                self.contains_uv(u, v)
            },
            NormHexEdge::TopLeft => if u == width {
                -1 <= v && v < height - 1
            } else if v == -1 {
                u % 2 != 0 && 1 <= u && u <= width
            } else {
                self.contains_uv(u, v)
            },
        }
    }

    /// Return true iff the grid of this size contains the specified corner
    /// position: the corner is part of a hex in the grid, possibly on the
    /// boundary of the grid.
    pub fn contains_corner(&self, corner_pos: HexCornerPos) -> (r: bool)
        ensures
            r == region_contains_corner(size_region(self@), corner_pos.pos@, corner_pos.corner),
    {
        proof {
            use_type_invariant(self);
            use_type_invariant(&corner_pos.pos);
        }
        let (pu, pv) = corner_pos.pos.u_v();
        if self.contains_uv(pu as i64, pv as i64) {
            return true;
        }
        // The normalized name of the corner, in wide integers.
        let (pu, pv) = (pu as i64, pv as i64);
        let (u, v, corner) = match corner_pos.corner {
            HexCorner::Right => (pu + 1, pv - 1, NormHexCorner::TopLeft),
            HexCorner::TopRight => (pu, pv, NormHexCorner::TopRight),
            HexCorner::TopLeft => (pu, pv, NormHexCorner::TopLeft),
            HexCorner::Left => (pu - 1, pv - 1, NormHexCorner::TopRight),
            HexCorner::BottomLeft => (pu, pv - 2, NormHexCorner::TopLeft),
            HexCorner::BottomRight => (pu, pv - 2, NormHexCorner::TopRight),
        };
        proof {
            assert(((u as int, v as int), corner) == corner_norm(corner_pos.pos@, corner_pos.corner));
        }
        let (width, height) = (self.width as i64, self.height as i64);
        let corner_u_matches = match corner {
            NormHexCorner::TopRight => u == -1,
            NormHexCorner::TopLeft => u == width,
        };
        corner_u_matches && -1 <= v && v < height - 1 || -2 <= v && v <= 0 && 0 <= u && u < width
            && height > 0 || self.contains_uv(u, v)
    }

    /// The valid sizes with width and height between 0 and 9, ordered by the
    /// sum of width and height, and then by width.
    pub fn test_sizes() -> (r: Vec<HexGridSize>)
        ensures
            forall|i: int| 0 <= i < r.len() ==> 0 <= #[trigger] r@[i]@.0 <= 9 && 0 <= r@[i]@.1 <= 9
                && valid_size(r@[i]@.0, r@[i]@.1),
            forall|w: int, h: int|
                0 <= w <= 9 && 0 <= h <= 9 && valid_size(w, h) ==> exists|i: int|
                    0 <= i < r.len() && #[trigger] r@[i]@ == (w, h),
            forall|i: int, j: int|
                0 <= i < j < r.len() ==> (r@[i]@.0 + r@[i]@.1 < r@[j]@.0 + r@[j]@.1 || (r@[i]@.0
                    + r@[i]@.1 == r@[j]@.0 + r@[j]@.1 && r@[i]@.0 < r@[j]@.0)),
    {
        let mut sizes: Vec<HexGridSize> = Vec::new();
        let mut sum: i32 = 0;
        while sum <= 18
            invariant
                0 <= sum <= 19,
                forall|i: int| 0 <= i < sizes.len() ==> 0 <= #[trigger] sizes@[i]@.0 <= 9 && 0 <= sizes@[i]@.1 <= 9
                    && sizes@[i]@.0 + sizes@[i]@.1 < sum && valid_size(sizes@[i]@.0, sizes@[i]@.1),
                forall|w: int, h: int|
                    0 <= w <= 9 && 0 <= h <= 9 && w + h < sum && valid_size(w, h) ==> exists|i: int|
                        0 <= i < sizes.len() && #[trigger] sizes@[i]@ == (w, h),
                forall|i: int, j: int|
                    0 <= i < j < sizes.len() ==> (sizes@[i]@.0 + sizes@[i]@.1 < sizes@[j]@.0 + sizes@[j]@.1 || (sizes@[i]@.0
                        + sizes@[i]@.1 == sizes@[j]@.0 + sizes@[j]@.1 && sizes@[i]@.0 < sizes@[j]@.0)),
            decreases 19 - sum,
        {
            let mut width: i32 = 0;
            while width <= 9
                invariant
                    0 <= sum <= 18,
                    0 <= width <= 10,
                    forall|i: int| 0 <= i < sizes.len() ==> 0 <= #[trigger] sizes@[i]@.0 <= 9 && 0 <= sizes@[i]@.1 <= 9
                        && (sizes@[i]@.0 + sizes@[i]@.1 < sum || (sizes@[i]@.0 + sizes@[i]@.1 == sum && sizes@[i]@.0 < width))
                        && valid_size(sizes@[i]@.0, sizes@[i]@.1),
                    forall|w: int, h: int|
                        0 <= w <= 9 && 0 <= h <= 9 && (w + h < sum || (w + h == sum && w < width)) && valid_size(w, h) ==> exists|i: int|
                            0 <= i < sizes.len() && #[trigger] sizes@[i]@ == (w, h),
                    forall|i: int, j: int|
                        0 <= i < j < sizes.len() ==> (sizes@[i]@.0 + sizes@[i]@.1 < sizes@[j]@.0 + sizes@[j]@.1 || (sizes@[i]@.0
                            + sizes@[i]@.1 == sizes@[j]@.0 + sizes@[j]@.1 && sizes@[i]@.0 < sizes@[j]@.0)),
                decreases 10 - width,
            {
                let height = sum - width;
                if 0 <= height && height <= 9 {
                    match HexGridSize::new(width, height) {
                        Ok(size) => {
                            let ghost old_sizes = sizes@;
                            sizes.push(size);
                            proof {
                                assert forall|w: int, h: int|
                                    0 <= w <= 9 && 0 <= h <= 9 && (w + h < sum || (w + h == sum && w < width + 1)) && valid_size(w, h)
                                    implies exists|i: int| 0 <= i < sizes.len() && #[trigger] sizes@[i]@ == (w, h) by {
                                    if w == width && h == height {
                                        assert(sizes@[old_sizes.len() as int]@ == (w, h));
                                    } else {
                                        let i = choose|i: int| 0 <= i < old_sizes.len() && #[trigger] old_sizes[i]@ == (w, h);
                                        assert(sizes@[i]@ == (w, h));
                                    }
                                }
                            }
                        },
                        Err(_) => {},
                    }
                }
                width += 1;
            }
            sum += 1;
        }
        sizes
    }
}

impl From<HexGridSize> for HexRegion {
    fn from(size: HexGridSize) -> (r: HexRegion) {
        let r = size.region();
        proof {
            lemma_region_view_fits(r);
        }
        r
    }
}

impl FromSpecImpl<HexGridSize> for HexRegion {
    open spec fn obeys_from_spec() -> bool {
        true
    }

    open spec fn from_spec(v: HexGridSize) -> HexRegion {
        region_of(size_region(v@))
    }
}

impl HexPosContainer for HexGridSize {
    open spec fn hex_views(&self) -> Seq<(int, int)> {
        region_seq(size_region(self@))
    }

    fn contains_hex(&self, pos: HexPos) -> (r: bool) {
        self.region().contains_hex(pos)
    }

    fn iter_hexes(&self) -> (r: Vec<HexPos>) {
        self.region().iter_hexes()
    }

    fn len(&self) -> (r: usize) {
        let region = self.region();
        assert(region.hex_views() == self.hex_views());
        region.len()
    }
}

/// An iterator over every edge of a grid of a given size, each returned once.
pub struct HexEdgeIterator {
    inner: crate::region::HexEdgeIterator,
}

impl HexEdgeIterator {
    /// The edges that the iterator has yet to return, in order.
    pub closed spec fn rest(self) -> Seq<((int, int), HexEdge)> {
        self.inner.rest()
    }

    /// Creates an iterator over every edge of a grid of the given size.
    pub fn new(size: HexGridSize) -> (r: HexEdgeIterator)
        ensures
            r.rest() == region_edge_seq(size_region(size@)),
    {
        HexEdgeIterator { inner: crate::region::HexEdgeIterator::new(size.region()) }
    }

    /// Returns the next edge, or `None` when all edges have been returned.
    pub fn next(&mut self) -> (r: Option<HexEdgePos>)
        ensures
            old(self).rest().len() == 0 ==> r is None && final(self).rest().len() == 0,
            old(self).rest().len() > 0 ==> r is Some && r.unwrap().key() == old(self).rest()[0]
                && final(self).rest() == old(self).rest().drop_first(),
    {
        self.inner.next()
    }
}

/// An iterator over every corner of a grid of a given size, each returned once.
pub struct HexCornerIterator {
    inner: crate::region::HexCornerIterator,
}

impl HexCornerIterator {
    /// The corners that the iterator has yet to return, in order.
    pub closed spec fn rest(self) -> Seq<((int, int), HexCorner)> {
        self.inner.rest()
    }

    /// Creates an iterator over every corner of a grid of the given size.
    pub fn new(size: HexGridSize) -> (r: HexCornerIterator)
        ensures
            r.rest() == region_corner_seq(size_region(size@)),
    {
        HexCornerIterator { inner: crate::region::HexCornerIterator::new(size.region()) }
    }

    /// Returns the next corner, or `None` when all corners have been returned.
    pub fn next(&mut self) -> (r: Option<HexCornerPos>)
        ensures
            old(self).rest().len() == 0 ==> r is None && final(self).rest().len() == 0,
            old(self).rest().len() > 0 ==> r is Some && r.unwrap().key() == old(self).rest()[0]
                && final(self).rest() == old(self).rest().drop_first(),
    {
        self.inner.next()
    }
}

} // verus!
