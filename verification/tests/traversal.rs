use hexgridrect::{
    HexDelta, HexEdge, HexEdgePos, HexGridSize, HexGroup, HexPerimeterIterator, HexPos,
    HexPosContainer, HexRegion, HexRegionIterator, HexRingIterator,
};
use std::collections::HashSet;

fn ring_positions(center: HexPos, radius: i32, limit: usize) -> Vec<HexPos> {
    let mut iter = HexRingIterator::new(center, radius);
    let mut out = Vec::new();
    while out.len() < limit {
        match iter.next() {
            Some(p) => out.push(p),
            None => break,
        }
    }
    out
}

fn perimeter_edges<C: HexPosContainer>(container: &C) -> Vec<HexEdgePos> {
    let is_exterior_edge =
        |pos: HexPos, edge: HexEdge| !container.contains_hex(pos.neighbor(edge));
    let mut edges_seen = HashSet::new();
    let mut result = Vec::new();
    for starting_hex in container.iter_hexes() {
        let exterior_edge = HexEdge::ALL
            .into_iter()
            .find(|&edge| is_exterior_edge(starting_hex, edge));
        let Some(starting_edge) = exterior_edge else {
            continue;
        };
        if !edges_seen.insert(HexEdgePos::from((starting_hex, starting_edge))) {
            continue;
        }
        let mut edge = starting_edge;
        let mut hex = starting_hex;
        loop {
            result.push(HexEdgePos::from((hex, edge)));
            edges_seen.insert(HexEdgePos::from((hex, edge)));
            edge = edge.rotate(1);
            if !is_exterior_edge(hex, edge) {
                hex = hex.neighbor(edge);
                edge = edge.rotate(-2);
            }
            if hex == starting_hex && edge == starting_edge {
                break;
            }
        }
    }
    result
}

fn walk<C: HexPosContainer>(mut iter: HexPerimeterIterator<'_, C>) -> Vec<HexEdgePos> {
    let mut out = Vec::new();
    while let Some(e) = iter.next() {
        out.push(e);
    }
    assert_eq!(iter.next(), None);
    out
}

fn sample_containers() -> Vec<Vec<HexPos>> {
    let ring: Vec<HexPos> = ring_positions(HexPos::new(4, 4), 1, 100);
    let mut two_rings = ring_positions(HexPos::new(0, 0), 2, 100);
    two_rings.extend(ring_positions(HexPos::new(20, 0), 1, 100));
    let mut blob = Vec::new();
    for (u, v) in [(0, 0), (1, 1), (2, 0), (2, 2), (3, 3), (4, 2), (6, 0), (7, 1), (0, 4)] {
        blob.push(HexPos::new(u, v));
    }
    vec![
        vec![HexPos::new(0, 0)],
        vec![HexPos::new(0, 0), HexPos::new(1, 1)],
        ring,
        two_rings,
        blob,
        HexGridSize::new(5, 6).unwrap().iter_hexes(),
    ]
}

#[test]
fn ring_iterator0() {
    for center in [HexPos::new(0, 0), HexPos::new(-7, 3), HexPos::new(100, -40)] {
        let mut iter = HexRingIterator::new(center, 0);
        assert_eq!(iter.next(), Some(center));
        assert_eq!(iter.next(), None);
    }
}

#[test]
fn ring_iterator1() {
    for center in [HexPos::new(0, 0), HexPos::new(-7, 3), HexPos::new(100, -40)] {
        let ring = ring_positions(center, 1, 7);
        let expected: Vec<HexPos> = HexEdge::ALL.into_iter().map(|e| center.neighbor(e)).collect();
        assert_eq!(ring, expected);
    }
}

#[test]
fn ring_iterator2() {
    for center in [HexPos::new(0, 0), HexPos::new(-7, 3), HexPos::new(100, -40)] {
        let (u, v) = center.u_v();
        let radius = 2;
        let ring = ring_positions(center, radius, (6 * radius + 1) as usize);
        let expected = vec![
            HexPos::new(u + 2, v + 2),
            HexPos::new(u + 1, v + 3),
            HexPos::new(u, v + 4),
            HexPos::new(u - 1, v + 3),
            HexPos::new(u - 2, v + 2),
            HexPos::new(u - 2, v),
            HexPos::new(u - 2, v - 2),
            HexPos::new(u - 1, v - 3),
            HexPos::new(u, v - 4),
            HexPos::new(u + 1, v - 3),
            HexPos::new(u + 2, v - 2),
            HexPos::new(u + 2, v),
        ];
        assert_eq!(ring, expected);
    }
}

#[test]
fn ring_iterator_size() {
    for radius in [0, 1, 2, 3, 7, 50, 255] {
        let center = HexPos::new(3, -5);
        let ring = ring_positions(center, radius, usize::MAX);
        let expected = if radius == 0 { 1 } else { 6 * radius };
        assert_eq!(ring.len(), expected as usize);
        let distinct: HashSet<HexPos> = ring.iter().copied().collect();
        assert_eq!(distinct.len(), ring.len());
        for p in ring {
            let d = p - center;
            let (du, dv) = (d.du().abs(), d.dv().abs());
            let dist = if du >= dv { du } else { (du + dv) / 2 };
            assert_eq!(dist, radius);
        }
    }
}

#[test]
fn perimeter() {
    for hexes in sample_containers() {
        let expected = perimeter_edges(&hexes);
        let actual = walk(HexPerimeterIterator::new(&hexes));
        assert_eq!(expected, actual);
    }
}

#[test]
fn perimeter_from() {
    let mut contiguous = vec![HexPos::new(0, 0)];
    for edge in [HexEdge::Top, HexEdge::TopRight, HexEdge::BottomRight, HexEdge::BottomRight, HexEdge::Bottom] {
        let last = *contiguous.last().unwrap();
        contiguous.push(last.neighbor(edge));
    }
    for n in 1..=contiguous.len() {
        let hexes = contiguous[..n].to_vec();
        let expected = perimeter_edges(&hexes);
        let actual = walk(HexPerimeterIterator::new_from(HexPos::new(0, 0), &hexes));
        assert_eq!(expected, actual);
    }
}

#[test]
fn perimeter_edges_are_exterior_and_distinct() {
    for hexes in sample_containers() {
        let edges = walk(HexPerimeterIterator::new(&hexes));
        let distinct: HashSet<HexEdgePos> = edges.iter().copied().collect();
        assert_eq!(distinct.len(), edges.len());
        assert!(edges.len() <= 6 * hexes.len());
        for e in &edges {
            assert!(hexes.contains(&e.pos()));
            assert!(!hexes.contains(&e.pos().neighbor(e.edge())));
        }
        let mut exterior = HashSet::new();
        for p in &hexes {
            for edge in HexEdge::ALL {
                if !hexes.contains(&p.neighbor(edge)) {
                    exterior.insert(HexEdgePos::from((*p, edge)));
                }
            }
        }
        assert_eq!(distinct, exterior);
    }
}

#[test]
fn perimeter_walks_are_closed_and_cover_starts() {
    for hexes in sample_containers() {
        let edges = walk(HexPerimeterIterator::new(&hexes));
        let set: HashSet<HexEdgePos> = edges.iter().copied().collect();
        for e in &edges {
            let turned = e.edge().rotate(1);
            let across = e.pos().neighbor(turned);
            let next = if hexes.contains(&across) {
                HexEdgePos::from((across, e.edge().rotate(-1)))
            } else {
                HexEdgePos::from((e.pos(), turned))
            };
            assert!(set.contains(&next), "{:?} -> {:?}", e, next);
        }
        for p in &hexes {
            if let Some(first) = HexEdge::ALL.into_iter().find(|&d| !hexes.contains(&p.neighbor(d))) {
                assert!(set.contains(&HexEdgePos::from((*p, first))));
            }
        }
    }
}

#[test]
fn perimeter_of_grid_lies_in_grid() {
    for size in HexGridSize::test_sizes() {
        for edge_pos in walk(HexPerimeterIterator::new(&size)) {
            assert!(size.contains_edge(edge_pos));
            let neighbor_edge = HexEdgePos::from((
                edge_pos.pos().neighbor(edge_pos.edge()),
                edge_pos.edge().opposite(),
            ));
            assert!(size.contains_edge(neighbor_edge), "size: {:?}", size);
        }
    }
}

#[test]
fn perimeter_counts() {
    let single = vec![HexPos::new(0, 0)];
    assert_eq!(walk(HexPerimeterIterator::new(&single)).len(), 6);
    let pair = vec![HexPos::new(0, 0), HexPos::new(0, 2)];
    assert_eq!(walk(HexPerimeterIterator::new(&pair)).len(), 10);
    let ring = ring_positions(HexPos::new(0, 0), 1, 100);
    // The outer boundary and the boundary of the hole in the middle.
    assert_eq!(walk(HexPerimeterIterator::new(&ring)).len(), 18 + 6);
    assert_eq!(walk(HexPerimeterIterator::new_from(HexPos::new(1, 1), &ring)).len(), 18);
}

#[test]
fn region_iterator() {
    let region = HexRegion::new(-1, 0, 2, 2);
    let mut it = HexRegionIterator::new(region);
    let mut out = Vec::new();
    while let Some(p) = it.next() {
        out.push(p);
    }
    let expected = vec![
        HexPos::new(0, 0),
        HexPos::new(2, 0),
        HexPos::new(-1, 1),
        HexPos::new(1, 1),
        HexPos::new(0, 2),
        HexPos::new(2, 2),
    ];
    assert_eq!(out, expected);
    assert_eq!(region.len(), 6);
    assert_eq!(region.width(), 4);
    assert_eq!(region.height(), 3);
    assert_eq!(HexRegion::new(1, 1, 1, 1).len(), 1);
    assert_eq!(HexRegion::new(1, 0, 1, 1).len(), 1);
    assert_eq!(HexRegion::new(0, 1, 0, 1).len(), 0);
    assert!(HexRegion::new(3, 0, 1, 4).is_empty());
    let mut empty = HexRegionIterator::new(HexRegion::new(3, 0, 1, 4));
    assert_eq!(empty.next(), None);
}

#[test]
fn region_edges_and_corners() {
    let region = HexRegion::new(0, 0, 3, 3);
    let mut edges = region.iter_edges();
    let mut seen = HashSet::new();
    while let Some(e) = edges.next() {
        assert!(region.contains_edge(e));
        assert!(seen.insert(e.norm()));
    }
    let mut expected = HashSet::new();
    for p in region.iter_hexes() {
        for edge in HexEdge::ALL {
            expected.insert(HexEdgePos::from((p, edge)).norm());
        }
    }
    assert_eq!(seen, expected);
    let mut corners = region.iter_corners();
    let mut count = 0;
    while let Some(c) = corners.next() {
        assert!(region.contains_corner(c));
        count += 1;
    }
    assert!(count > 0);
}

#[test]
fn group_basics() {
    let mut group: HexGroup = HexGroup::new();
    assert!(group.is_empty());
    assert!(group.insert(HexPos::new(0, 0)));
    assert!(group.insert(HexPos::new(1, 1)));
    assert!(!group.insert(HexPos::new(0, 0)));
    assert_eq!(group.len(), 2);
    assert!(group.contains(HexPos::new(1, 1)));
    assert!(!group.contains(HexPos::new(2, 2)));
    assert!(group.remove(&HexPos::new(0, 0)));
    assert!(!group.remove(&HexPos::new(0, 0)));
    assert_eq!(group.len(), 1);
    group.extend(vec![HexPos::new(2, 0), HexPos::new(2, 0), HexPos::new(1, 1)]);
    assert_eq!(group.len(), 2);
    let mut items = group.clone().into_vec();
    items.sort_by_key(|p| p.u_v());
    assert_eq!(items, vec![HexPos::new(1, 1), HexPos::new(2, 0)]);
    assert_eq!(group.as_slice().len(), 2);
    assert!(group.contains_hex(HexPos::new(2, 0)));
    assert_eq!(HexPosContainer::len(&group), 2);
    let with_cap: HexGroup = HexGroup::with_capacity(10);
    assert_eq!(with_cap, HexGroup::default());
}

#[test]
fn group_equality_ignores_order() {
    let mut a: HexGroup = HexGroup::new();
    let mut b: HexGroup = HexGroup::new();
    a.insert(HexPos::new(0, 0));
    a.insert(HexPos::new(1, 1));
    b.insert(HexPos::new(1, 1));
    b.insert(HexPos::new(0, 0));
    assert_eq!(a, b);
    b.insert(HexPos::new(2, 2));
    assert_ne!(a, b);
}

#[test]
fn group_region() {
    let group = HexGroup::region(0, 0, 3, 2);
    let mut items = group.into_vec();
    items.sort_by_key(|p| p.u_v());
    let expected = vec![
        HexPos::new(0, 0),
        HexPos::new(0, 2),
        HexPos::new(1, 1),
        HexPos::new(2, 0),
        HexPos::new(2, 2),
        HexPos::new(3, 1),
    ];
    assert_eq!(items, expected);
    assert!(HexGroup::region(-2, -2, -3, -3).is_empty());
}

#[test]
fn group_rotate_and_shift() {
    let center = HexPos::new(0, 0);
    let mut group: HexGroup = HexGroup::new();
    for p in ring_positions(center, 1, 100) {
        group.insert(p);
    }
    group.insert(HexPos::new(2, 2));
    let rotated = group.clone().rotate_around(center, 1);
    assert_eq!(rotated.len(), 7);
    assert!(rotated.contains(HexPos::new(0, 4)));
    assert!(!rotated.contains(HexPos::new(2, 2)));
    let back = rotated.rotate_around(center, -1);
    assert_eq!(back, group);
    let shifted = group.clone().shift(HexDelta::new(1, 1));
    assert!(shifted.contains(HexPos::new(3, 3)));
    assert!(shifted.contains(HexPos::new(1, 3)));
    assert_eq!(shifted.len(), 7);
    assert_eq!(shifted.shift(HexDelta::new(-1, -1)), group);

    let mut edges: HexGroup<HexEdgePos> = HexGroup::new();
    edges.insert(HexEdgePos::from((HexPos::new(2, 0), HexEdge::Top)));
    let turned = edges.rotate_around(center, 3);
    assert!(turned.contains(HexEdgePos::from((HexPos::new(-2, 0), HexEdge::Bottom))));
}

#[test]
fn slice_and_vec_containers() {
    let v = vec![HexPos::new(0, 0), HexPos::new(1, 1), HexPos::new(3, 1)];
    let s: &[HexPos] = &v;
    assert!(HexPosContainer::contains_hex(s, HexPos::new(1, 1)));
    assert!(!HexPosContainer::contains_hex(s, HexPos::new(2, 2)));
    assert_eq!(HexPosContainer::iter_hexes(s), v);
    assert_eq!(HexPosContainer::len(s), 3);
    assert!(!HexPosContainer::is_empty(s));
    assert!(v.contains_hex(HexPos::new(3, 1)));
    assert_eq!(v.iter_hexes(), v);
    let empty: Vec<HexPos> = Vec::new();
    assert!(HexPosContainer::is_empty(&empty));
}

#[test]
fn perimeter_from_skips_holes() {
    let ring = vec![
        HexPos::new(1, 1),
        HexPos::new(0, 2),
        HexPos::new(-1, 1),
        HexPos::new(-1, -1),
        HexPos::new(0, -2),
        HexPos::new(1, -1),
    ];
    let hole = HexPos::new(0, 0);
    for start in ring.clone() {
        let edges = walk(HexPerimeterIterator::new_from(start, &ring));
        assert_eq!(edges.len(), 18);
        let distinct: HashSet<HexEdgePos> = edges.iter().copied().collect();
        assert_eq!(distinct.len(), 18);
        for e in &edges {
            assert!(ring.contains(&e.pos()));
            let outside = e.pos().neighbor(e.edge());
            assert!(!ring.contains(&outside));
            assert_ne!(outside, hole);
        }
    }
    // The first exterior edge of (-1, -1) faces the hole, so the walk starts
    // on the top edge of the topmost hexagon instead.
    let mut it = HexPerimeterIterator::new_from(HexPos::new(-1, -1), &ring);
    assert_eq!(it.next(), Some(HexEdgePos::from((HexPos::new(0, 2), HexEdge::Top))));
    // From (1, 1) the first exterior edge is on the outer boundary.
    let mut it = HexPerimeterIterator::new_from(HexPos::new(1, 1), &ring);
    assert_eq!(it.next(), Some(HexEdgePos::from((HexPos::new(1, 1), HexEdge::TopRight))));
}

#[test]
fn group_len_tracks_inserts_and_removals() {
    let mut group: HexGroup = HexGroup::new();
    assert_eq!(group.len(), 0);
    assert!(group.insert(HexPos::new(2, 0)));
    assert_eq!(group.len(), 1);
    assert!(!group.insert(HexPos::new(2, 0)));
    assert_eq!(group.len(), 1);
    assert!(group.insert(HexPos::new(-1, 1)));
    assert_eq!(group.len(), 2);
    assert!(!group.remove(&HexPos::new(5, 5)));
    assert_eq!(group.len(), 2);
    assert!(group.remove(&HexPos::new(2, 0)));
    assert_eq!(group.len(), 1);
}

#[test]
fn group_moves_undo() {
    let center = HexPos::new(1, 1);
    let mut group: HexGroup = HexGroup::new();
    group.extend(vec![HexPos::new(0, 0), HexPos::new(3, 1), HexPos::new(-2, 4)]);
    for steps in -7..=7 {
        let turned = group.clone().rotate_around(center, steps);
        assert_eq!(turned.len(), group.len());
        if steps % 6 == 0 {
            assert_eq!(turned, group);
        }
        assert_eq!(turned.rotate_around(center, -steps), group);
    }
    let delta = HexDelta::new(3, -1);
    let moved = group.clone().shift(delta);
    assert_eq!(moved.len(), 3);
    assert_eq!(moved.shift(HexDelta::new(-3, 1)), group);
    assert_eq!(group.clone().shift(HexDelta::new(0, 0)), group);

    let mut corners: HexGroup<hexgridrect::HexCornerPos> = HexGroup::new();
    corners.insert(hexgridrect::HexCornerPos::from((HexPos::new(2, 0), hexgridrect::HexCorner::Left)));
    corners.insert(hexgridrect::HexCornerPos::from((HexPos::new(0, 2), hexgridrect::HexCorner::Right)));
    let turned = corners.clone().rotate_around(center, 2);
    assert_eq!(turned.len(), 2);
    assert_eq!(turned.rotate_around(center, -2), corners);
}
