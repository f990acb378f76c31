use hexgridrect::{HexCorner, HexEdge, NormHexCorner, NormHexEdge};

#[test]
fn corner_rotation() {
    for corner in HexCorner::ALL {
        for steps in -10..=10 {
            let rotated = corner.rotate(steps);
            assert!(
                HexCorner::ALL.contains(&rotated),
                "corner: {:?}, steps: {}, rotated: {:?}",
                corner,
                steps,
                rotated
            );
            let steps_back = rotated.steps_to(corner);
            assert_eq!(
                rotated.rotate(steps_back),
                corner,
                "corner: {:?}, steps: {}, rotated: {:?}, steps_back: {}",
                corner,
                steps,
                rotated,
                steps_back
            );
        }
    }
}

#[test]
fn adjacent_edges() {
    for corner in HexCorner::ALL {
        let edges = corner.adjacent_edges();
        assert_eq!(edges[0].rotate(1), edges[1]);
        assert_eq!(edges[1].rotate(-1), edges[0]);
        assert_eq!(corner, edges[0].ends()[1]);
        assert_eq!(corner, edges[1].ends()[0]);
    }
}

#[test]
fn all() {
    for steps in 0..6 {
        assert_eq!(
            HexEdge::ALL[steps as usize],
            HexEdge::TopRight.rotate(steps),
            "steps: {}",
            steps
        );
    }
}

#[test]
fn edge_rotation() {
    for edge in HexEdge::ALL {
        for steps in -10..=10 {
            let rotated = edge.rotate(steps);
            assert!(
                HexEdge::ALL.contains(&rotated),
                "edge: {:?}, steps: {}, rotated: {:?}",
                edge,
                steps,
                rotated
            );
            let steps_back = rotated.steps_to(edge);
            assert_eq!(
                rotated.rotate(steps_back),
                edge,
                "edge: {:?}, steps: {}, rotated: {:?}, steps_back: {}",
                edge,
                steps,
                rotated,
                steps_back
            );
        }
    }
}

#[test]
fn ends() {
    for edge in HexEdge::ALL {
        let ends = edge.ends();
        assert_eq!(ends[1], ends[0].rotate(1));
        assert_eq!(ends[0], ends[1].rotate(-1));
        assert_eq!(edge, ends[0].adjacent_edges()[1]);
        assert_eq!(edge, ends[1].adjacent_edges()[0]);
    }
}

#[test]
fn corner_rotation_values() {
    assert_eq!(HexCorner::Right.rotate(1), HexCorner::TopRight);
    assert_eq!(HexCorner::Right.rotate(-1), HexCorner::BottomRight);
    assert_eq!(HexCorner::Left.rotate(7), HexCorner::BottomLeft);
    assert_eq!(HexCorner::TopLeft.opposite(), HexCorner::BottomRight);
    assert_eq!(HexCorner::Right.steps_to(HexCorner::Left), 3);
    assert_eq!(HexCorner::Right.steps_to(HexCorner::BottomLeft), -2);
    assert_eq!(HexCorner::Right.steps_to(HexCorner::TopLeft), 2);
}

#[test]
fn edge_rotation_values() {
    assert_eq!(HexEdge::Top.rotate(1), HexEdge::TopLeft);
    assert_eq!(HexEdge::Top.rotate(-2), HexEdge::BottomRight);
    assert_eq!(HexEdge::Bottom.rotate(-13), HexEdge::BottomLeft);
    assert_eq!(HexEdge::TopRight.opposite(), HexEdge::BottomLeft);
    assert_eq!(HexEdge::Top.steps_to(HexEdge::Bottom), 3);
    assert_eq!(HexEdge::Top.steps_to(HexEdge::TopRight), -1);
}

#[test]
fn touching() {
    assert!(HexEdge::Top.touches_corner(HexCorner::TopRight));
    assert!(HexEdge::Top.touches_corner(HexCorner::TopLeft));
    assert!(!HexEdge::Top.touches_corner(HexCorner::Right));
    assert!(HexCorner::Right.touches_edge(HexEdge::BottomRight));
    assert!(HexCorner::Right.touches_edge(HexEdge::TopRight));
    assert!(!HexCorner::Right.touches_edge(HexEdge::Top));
}

#[test]
fn normalized_directions() {
    for edge in HexEdge::ALL {
        match NormHexEdge::from_edge(edge) {
            Some(norm) => assert_eq!(norm.to_edge(), edge),
            None => assert!(NormHexEdge::from_edge(edge.opposite()).is_some()),
        }
    }
    assert_eq!(NormHexEdge::Top.opposite(), HexEdge::Bottom);
    assert_eq!(HexEdge::from(NormHexEdge::TopLeft), HexEdge::TopLeft);
    assert_eq!(NormHexEdge::try_from(HexEdge::Bottom), Err(()));
    assert_eq!(NormHexCorner::from_corner(HexCorner::TopRight), Some(NormHexCorner::TopRight));
    assert_eq!(NormHexCorner::from_corner(HexCorner::Left), None);
    assert_eq!(HexCorner::from(NormHexCorner::TopLeft), HexCorner::TopLeft);
    assert_eq!(NormHexCorner::try_from(HexCorner::Right), Err(()));
}
