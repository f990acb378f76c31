//! Rectangular grids tiled with hexagons, with data attached to hexagons,
//! edges and corners.
use vstd::prelude::*;

pub mod connected;
pub mod container;
pub mod corner;
pub mod corner_pos;
pub mod delta;
pub mod edge;
pub mod edge_pos;
pub mod grid;
pub mod grid_size;
pub mod group;
pub mod id;
pub mod motion;
pub mod perimeter;
pub mod pos;
pub mod region;
pub mod ring;

pub use crate::container::HexPosContainer;
pub use crate::corner::{HexCorner, NormHexCorner};
pub use crate::corner_pos::HexCornerPos;
pub use crate::delta::HexDelta;
pub use crate::edge::{HexEdge, NormHexEdge};
pub use crate::edge_pos::HexEdgePos;
pub use crate::grid_size::{HexGridSize, HexGridSizeError};
pub use crate::group::HexGroup;
pub use crate::id::HexId;
pub use crate::perimeter::HexPerimeterIterator;

pub use crate::pos::HexPos;
pub use crate::grid::HexGrid;
pub use crate::region::{HexRegion, HexRegionIterator};
pub use crate::ring::HexRingIterator;

verus! {

/// Integer type used for hex grid coordinates, and other related purposes.
pub type HexCoord = i32;

/// Type of an angle measured in sixths of a full circle, assuming the positive
/// direction is counter-clockwise.
pub type Sixths = i32;

} // verus!
