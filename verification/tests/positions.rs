use hexgridrect::{
    HexCorner, HexCornerPos, HexDelta, HexEdge, HexEdgePos, HexId, HexPos, NormHexCorner,
    NormHexEdge,
};

#[test]
fn corner_pos_variants() {
    for corner in HexCorner::ALL {
        let corner_pos = HexCornerPos::from((HexPos::new(0, 0), corner));
        for variant in corner_pos.variants() {
            assert_eq!(variant.norm(), corner_pos.norm());
        }
    }
}

#[test]
fn edge_pos_variants() {
    for edge in HexEdge::ALL {
        let edge_pos = HexEdgePos::from((HexPos::new(0, 0), edge));
        for variant in edge_pos.variants() {
            assert_eq!(variant.norm(), edge_pos.norm());
        }
    }
}

#[test]
fn rotate() {
    let delta = HexDelta::new(1, 1);
    assert_eq!(delta.rotated(0), delta);
    assert_eq!(delta.rotated(1), HexDelta::new(0, 2));
    assert_eq!(delta.rotated(2), HexDelta::new(-1, 1));
    assert_eq!(delta.rotated(3), -delta);
    assert_eq!(delta.rotated(4), HexDelta::new(0, -2));
    assert_eq!(delta.rotated(5), HexDelta::new(1, -1));

    let delta = HexDelta::new(2, 2);
    assert_eq!(delta.rotated(0), delta);
    assert_eq!(delta.rotated(1), HexDelta::new(0, 4));
    assert_eq!(delta.rotated(2), HexDelta::new(-2, 2));
    assert_eq!(delta.rotated(3), -delta);
    assert_eq!(delta.rotated(4), HexDelta::new(0, -4));
    assert_eq!(delta.rotated(5), HexDelta::new(2, -2));
}

#[test]
fn rotate_steps_compose() {
    let deltas = [
        HexDelta::new(3, 1),
        HexDelta::new(-2, 4),
        HexDelta::new(0, 0),
        HexDelta::new(5, -7),
    ];
    for delta in deltas {
        for steps in 0..20 {
            let mut by_steps = delta;
            let mut back_steps = delta;
            for _ in 0..steps {
                by_steps = by_steps.rotated(1);
                back_steps = back_steps.rotated(-1);
            }
            assert_eq!(by_steps, delta.rotated(steps));
            assert_eq!(back_steps, delta.rotated(-steps));
        }
    }
}

#[test]
fn rotate_and_scale_commute() {
    let deltas = [HexDelta::new(3, 1), HexDelta::new(-2, 4), HexDelta::new(1, -1)];
    for delta in deltas {
        for steps in 0..8 {
            for scale in 0..5 {
                assert_eq!(delta.rotated(steps) * scale, (delta * scale).rotated(steps));
                assert_eq!(scale * delta, delta * scale);
            }
        }
    }
}

#[test]
fn delta_arithmetic() {
    let a = HexDelta::new(3, 1);
    let b = HexDelta::new(-1, 5);
    assert_eq!(a + b, HexDelta::new(2, 6));
    assert_eq!(a - b, HexDelta::new(4, -4));
    assert_eq!(-a, HexDelta::new(-3, -1));
    assert_eq!(a * 3, HexDelta::new(9, 3));
    assert_eq!(a.du_dv(), (3, 1));
    assert_eq!(b.du(), -1);
    assert_eq!(b.dv(), 5);
    let p = HexPos::new(2, 4);
    assert_eq!(p + a, HexPos::new(5, 5));
    assert_eq!(a + p, HexPos::new(5, 5));
    assert_eq!(p - a, HexPos::new(-1, 3));
    assert_eq!(HexPos::new(5, 5) - p, a);
}

#[test]
fn neighbors() {
    let p = HexPos::new(0, 0);
    assert_eq!(p.neighbor(HexEdge::TopRight), HexPos::new(1, 1));
    assert_eq!(p.neighbor(HexEdge::Top), HexPos::new(0, 2));
    assert_eq!(p.neighbor(HexEdge::TopLeft), HexPos::new(-1, 1));
    assert_eq!(p.neighbor(HexEdge::BottomLeft), HexPos::new(-1, -1));
    assert_eq!(p.neighbor(HexEdge::Bottom), HexPos::new(0, -2));
    assert_eq!(p.neighbor(HexEdge::BottomRight), HexPos::new(1, -1));
    for edge in HexEdge::ALL {
        let q = p.neighbor(edge);
        assert!(p.is_neighbor(q));
        assert_eq!(p.neighbor_edge(q), Some(edge));
        assert_eq!(q.neighbor_edge(p), Some(edge.opposite()));
        assert_eq!(q.neighbor(edge.opposite()), p);
    }
    assert!(!p.is_neighbor(p));
    assert_eq!(p.neighbor_edge(HexPos::new(2, 0)), None);
}

#[test]
fn neighbors_at_corners() {
    let p = HexPos::new(4, 2);
    for corner in HexCorner::ALL {
        let here = HexCornerPos::from((p, corner)).norm();
        for (q, c) in p.neighbors_at_corner(corner) {
            assert!(p.is_neighbor(q));
            assert_eq!(HexCornerPos::from((q, c)).norm(), here);
        }
    }
    let [(a, ca), (b, cb)] = p.neighbors_at_corner(HexCorner::Left);
    assert_eq!((a, ca), (HexPos::new(3, 3), HexCorner::BottomRight));
    assert_eq!((b, cb), (HexPos::new(3, 1), HexCorner::TopRight));
}

#[test]
fn normalized_positions() {
    let p = HexPos::new(0, 0);
    assert_eq!(
        HexEdgePos::from((p, HexEdge::Bottom)).norm(),
        HexEdgePos::from((HexPos::new(0, -2), NormHexEdge::Top))
    );
    assert_eq!(
        HexEdgePos::from((p, HexEdge::TopRight)).norm(),
        HexEdgePos::from((p, NormHexEdge::TopRight))
    );
    assert_eq!(
        HexCornerPos::from((p, HexCorner::Right)).norm(),
        (HexPos::new(1, -1), NormHexCorner::TopLeft)
    );
    assert_eq!(
        HexCornerPos::from((p, HexCorner::TopLeft)).norm(),
        (p, NormHexCorner::TopLeft)
    );
    assert_eq!(
        HexCornerPos::from((p, NormHexCorner::TopRight)),
        HexCornerPos::new(p, HexCorner::TopRight)
    );
}

#[test]
fn ids_rotate_and_shift() {
    let center = HexPos::new(1, 1);
    let p = HexPos::new(3, 3);
    assert_eq!(p.rotate_around(center, 1), HexPos::new(1, 5));
    assert_eq!(p.rotate_around(center, 3), HexPos::new(-1, -1));
    assert_eq!(p.rotate_around(center, 6), p);
    assert_eq!(p.rotate_around(center, 2).rotate_around(center, -2), p);
    assert_eq!(p.rotate_around(center, 2).rotate_around(center, 3), p.rotate_around(center, 5));
    for steps in -7..=7 {
        assert_eq!(center.rotate_around(center, steps), center);
    }
    assert_eq!(p.shift(HexDelta::new(1, -1)), HexPos::new(4, 2));
    let e = HexEdgePos::from((p, HexEdge::Top));
    let r = e.rotate_around(center, 1);
    assert_eq!(r.pos(), HexPos::new(1, 5));
    assert_eq!(r.edge(), HexEdge::TopLeft);
    let c = HexCornerPos::from((p, HexCorner::Right));
    let r = c.rotate_around(center, 2);
    assert_eq!(r.pos(), HexPos::new(-1, 3));
    assert_eq!(r.corner(), HexCorner::TopLeft);
    assert_eq!(c.shift(HexDelta::new(0, 2)).pos(), HexPos::new(3, 5));
    assert_eq!(e.u_v(), (3, 3));
    assert_eq!(HexId::pos(&c), p);
    assert_eq!(e.edges(), vec![HexEdge::Top]);
    assert_eq!(c.corners(), vec![HexCorner::Right]);
    assert!(p.edges().is_empty());
    assert!(p.corners().is_empty());
}
