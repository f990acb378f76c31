use hexgridrect::grid::{CornerIndex, EdgeIndex};
use hexgridrect::grid_size::{HexCornerIterator, HexEdgeIterator};
use hexgridrect::{
    HexCorner, HexCornerPos, HexEdge, HexEdgePos, HexGrid, HexGridSize, HexGridSizeError,
    HexPos, HexPosContainer, HexRegion, HexRegionIterator,
};
use std::collections::HashSet;

fn shrink_size(size: HexGridSize) -> Vec<HexGridSize> {
    let (width, height) = size.unpack();
    let mut result = Vec::new();
    for shrink_amount in 1..=(width + height) {
        let candidates = if shrink_amount % 2 == 0 {
            vec![(width - shrink_amount / 2, height - shrink_amount / 2)]
        } else {
            vec![
                (width - shrink_amount / 2, height - (shrink_amount + 1) / 2),
                (width - (shrink_amount + 1) / 2, height - shrink_amount / 2),
            ]
        };
        for (w, h) in candidates {
            if let Ok(s) = HexGridSize::new(w, h) {
                result.push(s);
            }
        }
    }
    result
}

fn hexes_of(size: HexGridSize) -> Vec<HexPos> {
    size.iter_hexes()
}

#[test]
fn vec_dimensions() {
    for size in HexGridSize::test_sizes() {
        println!("size: {:?}", size);
        let grid = HexGrid::<i32, (), ()>::new_with_defaults(size);
        let mut hex_grid_size = 0;
        let mut bottom_left_edges_size = 0;
        let mut bottom_edges_size = 0;
        let mut bottom_right_edges_size = 0;
        let mut right_edge_corners_size = 0;
        let mut left_edge_corners_size = 0;
        let mut bottom_edge_corners_size = 0;

        for pos in grid.iter_hexes() {
            {
                let index = grid.hex_index(pos);
                hex_grid_size = hex_grid_size.max(index + 1);
            }

            for edge in HexEdge::ALL {
                match grid.edge_index((pos, edge).into()) {
                    EdgeIndex::BottomLeft(index) => {
                        bottom_left_edges_size = bottom_left_edges_size.max(index + 1);
                    }
                    EdgeIndex::Bottom(index) => {
                        bottom_edges_size = bottom_edges_size.max(index + 1);
                    }
                    EdgeIndex::BottomRight(index) => {
                        bottom_right_edges_size = bottom_right_edges_size.max(index + 1);
                    }
                    _ => {}
                }
            }

            for corner in HexCorner::ALL {
                match grid.corner_index((pos, corner).into()) {
                    CornerIndex::Right(index) => {
                        right_edge_corners_size = right_edge_corners_size.max(index + 1);
                    }
                    CornerIndex::Left(index) => {
                        left_edge_corners_size = left_edge_corners_size.max(index + 1);
                    }
                    CornerIndex::Bottom(index) => {
                        bottom_edge_corners_size = bottom_edge_corners_size.max(index + 1);
                    }
                    _ => {}
                }
            }
        }

        let (hexes, bottom_left, bottom, bottom_right, right_corners, left_corners, bottom_corners) =
            grid.storage_sizes();
        assert_eq!(hex_grid_size, hexes);
        assert_eq!(hex_grid_size, grid.size().len());

        assert_eq!(bottom_left_edges_size, bottom_left);
        assert_eq!(bottom_edges_size, bottom);
        assert_eq!(bottom_right_edges_size, bottom_right);

        assert_eq!(bottom_edge_corners_size, bottom_corners);
        assert_eq!(right_edge_corners_size, right_corners);
        assert_eq!(left_edge_corners_size, left_corners);
    }
}

#[test]
fn indices_in_range() {
    for width in 0..=3 {
        for height in 0..=3 {
            if let Ok(size) = HexGridSize::new(width, height) {
                let grid = HexGrid::<(), (), ()>::new_with_defaults(size);
                let mut positions = HexRegionIterator::new(HexRegion::new(-3, -3, width + 2, height + 2));
                while let Some(pos) = positions.next() {
                    println!("size: {:?}, pos: {:?}", size, pos);
                    if grid.has_hex(pos) {
                        grid.hex(pos);
                    }
                    for edge in HexEdge::ALL {
                        let edge_pos = HexEdgePos::from((pos, edge));
                        if grid.has_edge(edge_pos) {
                            grid.edge(edge_pos);
                        }
                    }
                    for corner in HexCorner::ALL {
                        let corner_pos = HexCornerPos::from((pos, corner));
                        if grid.has_corner(corner_pos) {
                            grid.corner(corner_pos);
                        }
                    }
                }
            }
        }
    }
}

#[test]
fn shrink() {
    let size = HexGridSize::new(4, 4).unwrap();
    let shrunk_sizes: Vec<_> = shrink_size(size);
    let expected_sizes: Vec<_> = [
        (4, 3),
        (3, 4),
        (3, 3),
        (3, 2),
        (2, 3),
        (2, 2),
        (2, 1),
        (1, 2),
        (1, 1),
        (1, 0),
        (0, 1),
        (0, 0),
    ]
    .into_iter()
    .filter_map(|(w, h)| HexGridSize::new(w, h).ok())
    .collect();
    assert_eq!(shrunk_sizes, expected_sizes);
}

#[test]
fn contains_edge1() {
    let size = HexGridSize::new(1, 1).unwrap();
    for edge in HexEdge::ALL {
        let pos = HexPos::new(0, 0);
        let edge_pos = HexEdgePos::from((pos, edge));
        assert!(
            size.contains_edge(edge_pos),
            "size: {:?}, edge_pos: {:?}, norm: {:?}",
            size,
            edge_pos,
            edge_pos.norm(),
        );
        let neighbor = pos.neighbor(edge);
        let neighbor_edge = edge.opposite();
        let edge_pos = HexEdgePos::from((neighbor, neighbor_edge));
        assert!(
            size.contains_edge(edge_pos),
            "size: {:?}, edge_pos: {:?}, norm: {:?}",
            size,
            edge_pos,
            edge_pos.norm()
        );
    }
}

#[test]
fn contains_corner() {
    let size = HexGridSize::new(1, 1).unwrap();
    for corner in HexCorner::ALL {
        let pos = HexPos::new(0, 0);
        assert!(size.contains_corner(HexCornerPos::from((pos, corner))));
        for (neighbor_pos, neighbor_corner) in pos.neighbors_at_corner(corner) {
            assert!(size.contains_corner(HexCornerPos::from((neighbor_pos, neighbor_corner))));
        }
    }
}

#[test]
fn size_errors() {
    assert_eq!(HexGridSize::new(-1, 3), Err(HexGridSizeError::NegativeWidth(-1)));
    assert_eq!(HexGridSize::new(3, -2), Err(HexGridSizeError::NegativeHeight(-2)));
    assert_eq!(HexGridSize::new(0, 3), Err(HexGridSizeError::WidthZeroHeightNonZero(3)));
    assert_eq!(HexGridSize::new(3, 0), Err(HexGridSizeError::HeightZeroWidthNonZero(3)));
    assert_eq!(
        HexGridSize::new(3, 1),
        Err(HexGridSizeError::WidthGreaterThanOneHeightLessThanTwo(3, 1))
    );
    assert_eq!(HexGridSize::new(1, 4), Err(HexGridSizeError::WidthOneHeightEven(4)));
    let size = HexGridSize::new(5, 4).unwrap();
    assert_eq!(size.unpack(), (5, 4));
    assert_eq!(size.width(), 5);
    assert_eq!(size.height(), 4);
    assert_eq!(size.even_row_size(), 3);
    assert_eq!(size.odd_row_size(), 2);
    assert_eq!(HexGridSize::new(0, 0).unwrap().len(), 0);
    assert_eq!(HexGridSize::new(1, 3).unwrap().len(), 2);
    assert_eq!(HexGridSize::new(0, 0).unwrap().even_row_size(), 0);
    assert_eq!(HexGridSize::new(0, 0).unwrap().odd_row_size(), 0);
    assert_eq!(HexGridSize::new(1, 3).unwrap().even_row_size(), 1);
    assert_eq!(HexGridSize::new(4, 2).unwrap().even_row_size(), 2);
    assert_eq!(HexGridSize::default(), HexGridSize::new(0, 0).unwrap());
}

#[test]
fn size_len_and_order() {
    for size in HexGridSize::test_sizes() {
        let hexes = hexes_of(size);
        assert_eq!(size.len(), hexes.len());
        assert_eq!(size.is_empty(), hexes.is_empty());
        for (i, pos) in hexes.iter().enumerate() {
            assert!(size.contains_hex(*pos));
            if i > 0 {
                let prev = hexes[i - 1];
                assert!(prev.v() < pos.v() || (prev.v() == pos.v() && prev.u() < pos.u()));
            }
        }
    }
}

#[test]
fn index() {
    for size in HexGridSize::test_sizes() {
        let grid = HexGrid::<i32, (), ()>::new_with_defaults(size);
        for (i, pos) in grid.iter_hexes().into_iter().enumerate() {
            assert_eq!(grid.hex_index(pos), i, "size: {:?}, pos: {:?}, i: {}", size, pos, i);
        }
    }
}

#[test]
fn edge_order() {
    for size in HexGridSize::test_sizes() {
        let grid = HexGrid::new(size, |_| (), |pos| pos, |_| ());
        for pos in grid.iter_hexes() {
            for edge in HexEdge::ALL {
                assert_eq!(
                    HexEdgePos::from((pos, edge)).norm(),
                    grid.edge((pos, edge).into()).norm(),
                    "pos: {:?}, edge: {:?}",
                    pos,
                    edge
                );
            }
        }
    }
}

#[test]
fn corner_order() {
    for size in HexGridSize::test_sizes() {
        let grid = HexGrid::new(size, |_| (), |_| (), |pos| pos);
        for pos in grid.iter_hexes() {
            for corner in HexCorner::ALL {
                let left = HexCornerPos::from((pos, corner)).norm();
                let right = grid.corner((pos, corner).into()).norm();
                assert_eq!(left, right);
            }
        }
    }
}

#[test]
fn edge_iterator() {
    for size in HexGridSize::test_sizes() {
        let mut seen_edges = HashSet::new();
        for pos in size.iter_hexes() {
            for edge in HexEdge::ALL {
                seen_edges.insert(HexEdgePos::from((pos, edge)).norm());
            }
        }
        let mut iter_edges = Vec::new();
        let mut it = HexEdgeIterator::new(size);
        while let Some(e) = it.next() {
            assert!(size.contains_edge(e));
            iter_edges.push(e.norm());
        }
        assert_eq!(seen_edges.len(), iter_edges.len(), "size: {:?}", size);
        assert_eq!(seen_edges, iter_edges.into_iter().collect::<HashSet<_>>());
    }
}

#[test]
fn corner_iterator() {
    for size in HexGridSize::test_sizes() {
        let mut seen_corners = HashSet::new();
        for pos in size.iter_hexes() {
            for corner in HexCorner::ALL {
                seen_corners.insert(HexCornerPos::from((pos, corner)).norm());
            }
        }
        let mut iter_corners = Vec::new();
        let mut it = HexCornerIterator::new(size);
        while let Some(c) = it.next() {
            assert!(size.contains_corner(c));
            iter_corners.push(c.norm());
        }
        assert_eq!(seen_corners.len(), iter_corners.len(), "size: {:?}", size);
        assert_eq!(seen_corners, iter_corners.into_iter().collect::<HashSet<_>>());
    }
}

#[test]
fn contains_only_nearby_parts() {
    let size = HexGridSize::new(3, 3).unwrap();
    assert!(size.contains_hex(HexPos::new(1, 1)));
    assert!(size.contains_hex(HexPos::new(2, 2)));
    assert!(!size.contains_hex(HexPos::new(4, 0)));
    assert!(!size.contains_edge(HexEdgePos::from((HexPos::new(6, 0), HexEdge::Top))));
    assert!(!size.contains_corner(HexCornerPos::from((HexPos::new(6, 6), HexCorner::Left))));
    let region: HexRegion = size.into();
    assert_eq!(region, HexRegion::new(0, 0, 2, 2));
}

#[test]
fn grid_read_after_write() {
    let size = HexGridSize::new(4, 5).unwrap();
    let mut grid = HexGrid::<i32, i32, i32>::new_with_defaults(size);
    let p = HexPos::new(1, 3);
    *grid.hex_mut(p) = 7;
    assert_eq!(*grid.hex(p), 7);
    assert_eq!(*grid.hex(HexPos::new(0, 0)), 0);

    let e = HexEdgePos::from((p, HexEdge::Bottom));
    *grid.edge_mut(e) = 11;
    assert_eq!(*grid.edge(e), 11);
    let other_name = HexEdgePos::from((p.neighbor(HexEdge::Bottom), HexEdge::Top));
    assert_eq!(*grid.edge(other_name), 11);

    let c = HexCornerPos::from((p, HexCorner::Right));
    *grid.corner_mut(c) = 13;
    for variant in c.variants() {
        assert_eq!(*grid.corner(variant), 13);
    }
    assert_eq!(*grid.corner(HexCornerPos::from((p, HexCorner::Left))), 0);
    assert_eq!(grid.width(), 4);
    assert_eq!(grid.height(), 5);
    assert_eq!(grid.len(), size.len());
}

#[test]
fn grid_default_is_empty() {
    let grid: HexGrid<i32, i32, i32> = HexGrid::default();
    assert_eq!(grid.size(), HexGridSize::default());
    assert_eq!(grid.len(), 0);
    assert!(grid.iter_hexes().is_empty());
}
