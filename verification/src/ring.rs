use vstd::prelude::*;
use vstd::arithmetic::div_mod::{
    lemma_fundamental_div_mod, lemma_fundamental_div_mod_converse, lemma_mod_pos_bound,
};
use crate::HexCoord;
use crate::delta::{fits_coord, fits_pair, is_even_pair, pair_add, group_delta};
use crate::edge::{HexEdge, edge_at, edge_dir, edge_ord};
use crate::pos::{HexPos, neighbor_of, group_pos};

verus! {

broadcast use {group_delta, group_pos};

/// The position `j` steps along side `s` of the ring of radius `r` around
/// `c`.  Side `s` starts at the hexagon reached from `c` by `r` steps across
/// edge `s` (counting counter-clockwise from the top-right edge), and runs
/// across edge `s + 2`.
pub open spec fn ring_side_pos(c: (int, int), r: int, s: int, j: int) -> (int, int) {
    let t = s % 6;
    if t == 0 {
        (c.0 + r - j, c.1 + r + j)
    } else if t == 1 {
        (c.0 - j, c.1 + 2 * r - j)
    } else if t == 2 {
        (c.0 - r, c.1 + r - 2 * j)
    } else if t == 3 {
        (c.0 - r + j, c.1 - r - j)
    } else if t == 4 {
        (c.0 + j, c.1 - 2 * r + j)
    } else {
        (c.0 + r, c.1 - r + 2 * j)
    }
}

/// The `k`-th position of the ring of radius `r > 0` around `c`: the ring
/// starts `r` steps from `c` across the top-right edge and runs
/// counter-clockwise, `r` positions per side.
pub open spec fn ring_pos(c: (int, int), r: int, k: int) -> (int, int) {
    ring_side_pos(c, r, k / r, k % r)
}

/// The positions of the ring of radius `r` around `c`, in order: `6 * r`
/// positions for a positive radius, and the center alone for radius 0.
pub open spec fn ring_seq(c: (int, int), r: int) -> Seq<(int, int)> {
    if r == 0 {
        seq![c]
    } else {
        Seq::new((6 * r) as nat, |k: int| ring_pos(c, r, k))
    }
}

/// True when every position of the ring of radius `r` around `c` has
/// representable coordinates.
pub open spec fn ring_fits(c: (int, int), r: int) -> bool {
    &&& fits_coord(c.0 - r)
    &&& fits_coord(c.0 + r)
    &&& fits_coord(c.1 - 2 * r)
    &&& fits_coord(c.1 + 2 * r)
}

pub open spec fn abs(x: int) -> int {
    if x < 0 {
        -x
    } else {
        x
    }
}

/// The number of steps between neighbors needed to go from `a` to `b`.
pub open spec fn hex_distance(a: (int, int), b: (int, int)) -> int {
    let du = abs(b.0 - a.0);
    let dv = abs(b.1 - a.1);
    if du >= dv {
        du
    } else {
        (du + dv) / 2
    }
}

/// One step along a side moves one position further; the end of a side is the
/// start of the next one.
proof fn lemma_side_step(c: (int, int), r: int, s: int, j: int)
    requires
        0 <= s < 6,
    ensures
        neighbor_of(ring_side_pos(c, r, s, j), edge_at(s + 2)) == ring_side_pos(c, r, s, j + 1),
        ring_side_pos(c, r, s, r) == ring_side_pos(c, r, s + 1, 0),
{
}

/// Every position of a side lies within the bounding box of the ring, and at
/// distance `r` from the center.
proof fn lemma_side_bounds(c: (int, int), r: int, s: int, j: int)
    requires
        0 <= s < 6,
        0 <= j <= r,
    ensures
        c.0 - r <= ring_side_pos(c, r, s, j).0 <= c.0 + r,
        c.1 - 2 * r <= ring_side_pos(c, r, s, j).1 <= c.1 + 2 * r,
        hex_distance(c, ring_side_pos(c, r, s, j)) == r,
        is_even_pair(c) ==> is_even_pair(ring_side_pos(c, r, s, j)),
{
}

/// Two positions of the ring, given by side and step, are equal only when the
/// sides and steps are.
proof fn lemma_side_distinct(c: (int, int), r: int, s1: int, j1: int, s2: int, j2: int)
    requires
        0 <= s1 < 6,
        0 <= j1 < r,
        0 <= s2 < 6,
        0 <= j2 < r,
        ring_side_pos(c, r, s1, j1) == ring_side_pos(c, r, s2, j2),
    ensures
        s1 == s2,
        j1 == j2,
{
}

/// Splits a ring index into its side and its step along the side.
proof fn lemma_ring_index(r: int, k: int)
    requires
        r > 0,
        0 <= k < 6 * r,
    ensures
        0 <= k / r < 6,
        0 <= k % r < r,
        k == (k / r) * r + k % r,
{
    lemma_fundamental_div_mod(k, r);
    lemma_mod_pos_bound(k, r);
    let s = k / r;
    let j = k % r;
    assert(k == s * r + j) by (nonlinear_arith)
        requires
            k == r * s + j,
    ;
    assert(0 <= s < 6) by (nonlinear_arith)
        requires
            k == s * r + j,
            0 <= j < r,
            0 <= k < 6 * r,
            r > 0,
    ;
}

/// The ring starts at the hexagon `r` steps from the center across the
/// top-right edge, and each position is followed by its neighbor across edge
/// `k / r + 2`; after the last position this leads back to the start.
proof fn lemma_ring_advance(c: (int, int), r: int, k: int)
    requires
        r > 0,
        0 <= k < 6 * r,
    ensures
        ring_pos(c, r, 0) == ring_side_pos(c, r, 0, 0),
        ring_side_pos(c, r, 0, 0) == (c.0 + r, c.1 + r),
        neighbor_of(ring_pos(c, r, k), edge_at(k / r + 2)) == if k + 1 < 6 * r {
            ring_pos(c, r, k + 1)
        } else {
            ring_side_pos(c, r, 0, 0)
        },
        k + 1 < 6 * r ==> ring_pos(c, r, k + 1) != ring_side_pos(c, r, 0, 0),
        c.0 - r <= ring_pos(c, r, k).0 <= c.0 + r,
        c.1 - 2 * r <= ring_pos(c, r, k).1 <= c.1 + 2 * r,
{
    lemma_fundamental_div_mod_converse(0, r, 0, 0);
    lemma_ring_index(r, k);
    let s = k / r;
    let j = k % r;
    lemma_side_bounds(c, r, s, j);
    lemma_side_step(c, r, s, j);
    if j + 1 < r {
        lemma_fundamental_div_mod_converse(k + 1, r, s, j + 1);
        assert(k + 1 < 6 * r) by (nonlinear_arith)
            requires
                k == s * r + j,
                j + 1 < r,
                0 <= s < 6,
                r > 0,
        ;
    } else {
        assert(k + 1 == (s + 1) * r) by (nonlinear_arith)
            requires
                k == s * r + j,
                j + 1 == r,
        ;
        if k + 1 < 6 * r {
            lemma_fundamental_div_mod_converse(k + 1, r, s + 1, 0);
            assert(ring_side_pos(c, r, s, j + 1) == ring_side_pos(c, r, s, r));
        } else {
            assert(s == 5) by (nonlinear_arith)
                requires
                    k + 1 == (s + 1) * r,
                    k + 1 == 6 * r,
                    r > 0,
            ;
            assert(ring_side_pos(c, r, s, j + 1) == ring_side_pos(c, r, s, r));
            assert(ring_side_pos(c, r, 5, r) == ring_side_pos(c, r, 0, 0));
        }
    }
    if k + 1 < 6 * r {
        lemma_ring_index(r, k + 1);
        if ring_pos(c, r, k + 1) == ring_side_pos(c, r, 0, 0) {
            lemma_side_distinct(c, r, (k + 1) / r, (k + 1) % r, 0, 0);
            lemma_fundamental_div_mod(k + 1, r);
            assert(false);
        }
    }
}

/// The side and the step along it at which the ring of radius `r` around `c`
/// passes through `p`, for a `p` at distance `r` from `c`.
spec fn ring_coords(c: (int, int), r: int, p: (int, int)) -> (int, int) {
    let du = p.0 - c.0;
    let dv = p.1 - c.1;
    if abs(du) >= abs(dv) {
        if du > 0 {
            if dv == r {
                (0, 0)
            } else {
                (5, (dv + r) / 2)
            }
        } else {
            if dv == -r {
                (3, 0)
            } else {
                (2, (r - dv) / 2)
            }
        }
    } else if dv > 0 {
        if du > 0 {
            (0, r - du)
        } else {
            (1, -du)
        }
    } else {
        if du >= 0 {
            (4, du)
        } else {
            (3, r + du)
        }
    }
}

proof fn lemma_ring_coords(c: (int, int), r: int, p: (int, int))
    requires
        r > 0,
        is_even_pair(c),
        is_even_pair(p),
        hex_distance(c, p) == r,
    ensures
        0 <= ring_coords(c, r, p).0 < 6,
        0 <= ring_coords(c, r, p).1 < r,
        ring_side_pos(c, r, ring_coords(c, r, p).0, ring_coords(c, r, p).1) == p,
{
}

/// The ring of radius `r` around `c` holds each hexagon at distance `r` from
/// `c` exactly once: `6 * r` of them for a positive radius, and the center
/// alone for radius 0.
pub proof fn lemma_ring_exact(c: (int, int), r: int)
    requires
        r >= 0,
        is_even_pair(c),
    ensures
        ring_seq(c, r).len() == if r == 0 {
            1
        } else {
            6 * r
        },
        ring_seq(c, r).no_duplicates(),
        forall|p: (int, int)|
            #![trigger ring_seq(c, r).contains(p)]
            ring_seq(c, r).contains(p) <==> is_even_pair(p) && hex_distance(c, p) == r,
{
    let q = ring_seq(c, r);
    if r == 0 {
        assert forall|p: (int, int)|
            #![trigger q.contains(p)]
            q.contains(p) <==> is_even_pair(p) && hex_distance(c, p) == r by {
            if q.contains(p) {
                let i = choose|i: int| 0 <= i < q.len() && q[i] == p;
                assert(i == 0);
            }
            if is_even_pair(p) && hex_distance(c, p) == r {
                assert(q[0] == p);
            }
        }
    } else {
        assert forall|a: int, b: int| 0 <= a < q.len() && 0 <= b < q.len() && a != b implies q[a]
            != q[b] by {
            lemma_ring_index(r, a);
            lemma_ring_index(r, b);
            if q[a] == q[b] {
                lemma_side_distinct(c, r, a / r, a % r, b / r, b % r);
            }
        }
        assert forall|p: (int, int)|
            #![trigger q.contains(p)]
            q.contains(p) <==> is_even_pair(p) && hex_distance(c, p) == r by {
            if q.contains(p) {
                let k = choose|k: int| 0 <= k < q.len() && q[k] == p;
                lemma_ring_index(r, k);
                lemma_side_bounds(c, r, k / r, k % r);
            }
            if is_even_pair(p) && hex_distance(c, p) == r {
                lemma_ring_coords(c, r, p);
                let (s, j) = ring_coords(c, r, p);
                let k = s * r + j;
                assert(0 <= k < 6 * r) by (nonlinear_arith)
                    requires
                        k == s * r + j,
                        0 <= s < 6,
                        0 <= j < r,
                ;
                lemma_fundamental_div_mod_converse(k, r, s, j);
                assert(q[k] == p);
            }
        }
    }
}

/// An iterator that yields the positions of hexagons in a ring around a given
/// center hexagon, at a given radius.
#[derive(Debug, Clone, Copy)]
pub struct HexRingIterator {
    pos: HexPos,
    start: HexPos,
    direction: HexEdge,
    steps_remaining: HexCoord,
    done: bool,
    radius: HexCoord,
}

impl HexRingIterator {
    /// The center of the ring: the start lies `radius` steps from it across
    /// the top-right edge.
    spec fn center(self) -> (int, int) {
        (self.start@.0 - self.radius, self.start@.1 - self.radius)
    }

    /// The side of the ring that the iterator is walking.
    spec fn side(self) -> int {
        (edge_ord(self.direction) + 4) % 6
    }

    /// How many positions of the ring have been returned.
    spec fn index(self) -> int {
        self.side() * self.radius + self.radius - self.steps_remaining
    }

    #[verifier::type_invariant]
    spec fn inv(self) -> bool {
        &&& self.radius >= 0
        &&& ring_fits(self.center(), self.radius as int)
        &&& is_even_pair(self.center())
        &&& self.radius == 0 ==> self.pos == self.start
        &&& (self.radius > 0 && !self.done) ==> {
            &&& 0 <= self.steps_remaining <= self.radius
            &&& self.steps_remaining == self.radius ==> self.side() == 0
            &&& 0 <= self.index() < 6 * self.radius
            &&& self.pos@ == ring_pos(self.center(), self.radius as int, self.index())
        }
    }

    /// The positions that the iterator has yet to return, in order.
    pub closed spec fn rest(self) -> Seq<(int, int)> {
        if self.done {
            Seq::empty()
        } else if self.radius == 0 {
            seq![self.center()]
        } else {
            let r = self.radius as int;
            Seq::new(
                (6 * r - self.index()) as nat,
                |i: int| ring_pos(self.center(), r, self.index() + i),
            )
        }
    }

    /// Creates a new iterator that will yield the positions of hexagons in a
    /// ring around the given `center` hexagon, at the given `radius`.  For the
    /// special case of radius 0, the iterator yields only the center hexagon.
    pub fn new(center: HexPos, radius: HexCoord) -> (r: HexRingIterator)
        requires
            radius >= 0,
            ring_fits(center@, radius as int),
        ensures
            r.rest() == ring_seq(center@, radius as int),
    {
        proof {
            use_type_invariant(&center);
        }
        if radius == 0 {
            HexRingIterator {
                pos: center,
                start: center,
                direction: HexEdge::TopRight,
                steps_remaining: 1,
                done: false,
                radius: 0,
            }
        } else {
            let mut pos = center;
            let mut i: HexCoord = 0;
            while i < radius
                invariant
                    0 <= i <= radius,
                    ring_fits(center@, radius as int),
                    pos@ == (center@.0 + i, center@.1 + i),
                decreases radius - i,
            {
                pos = pos.neighbor(HexEdge::TopRight);
                i += 1;
            }
            let ghost r = radius as int;
            proof {
                lemma_ring_advance(center@, r, 0);
            }
            let it = HexRingIterator {
                pos,
                start: pos,
                direction: HexEdge::TopLeft,
                steps_remaining: radius,
                done: false,
                radius,
            };
            proof {
                assert(it.rest() =~= ring_seq(center@, r));
            }
            it
        }
    }

    /// Returns the next position of the ring, or `None` when all positions
    /// have been returned.
    #[verifier::rlimit(40)]
    #[verifier::spinoff_prover]
    pub fn next(&mut self) -> (r: Option<HexPos>)
        ensures
            old(self).rest().len() == 0 ==> r is None && final(self).rest().len() == 0,
            old(self).rest().len() > 0 ==> r is Some && r.unwrap()@ == old(self).rest()[0]
                && final(self).rest() == old(self).rest().drop_first(),
    {
        proof {
            use_type_invariant(&*self);
        }
        if self.done {
            return None;
        }
        let result = self.pos;
        if self.radius == 0 {
            *self = HexRingIterator { done: true, ..*self };
            proof {
                assert(old(self).rest() =~= seq![result@]);
            }
            return Some(result);
        }
        let ghost c = self.center();
        let ghost r = self.radius as int;
        let ghost k = self.index();
        let ghost d = self.side();
        let mut direction = self.direction;
        let mut steps = self.steps_remaining;
        let ghost ost = steps as int;
        proof {
            lemma_ring_index(r, k);
            lemma_ring_advance(c, r, k);
        }
        if steps == 0 {
            proof {
                assert(k == (d + 1) * r + 0) by (nonlinear_arith)
                    requires
                        k == d * r + r,
                ;
                assert(d + 1 < 6) by (nonlinear_arith)
                    requires
                        k == (d + 1) * r,
                        k < 6 * r,
                        r > 0,
                ;
                lemma_fundamental_div_mod_converse(k, r, d + 1, 0);
            }
            direction = direction.rotate(1);
            steps = self.radius;
        } else {
            proof {
                lemma_fundamental_div_mod_converse(k, r, d, r - steps);
            }
        }
        steps -= 1;
        assert(direction == edge_at(k / r + 2));
        let pos = self.pos.neighbor(direction);
        let done = pos == self.start;
        assert(done == (k + 1 == 6 * r));
        *self = HexRingIterator { pos, direction, steps_remaining: steps, done, ..*self };
        proof {
            assert(self.center() == c);
            assert(self.index() == k + 1) by (nonlinear_arith)
                requires
                    self.index() == self.side() * r + r - steps,
                    k == d * r + r - ost,
                    ost == 0 ==> self.side() == d + 1 && steps == r - 1,
                    ost != 0 ==> self.side() == d && steps == ost - 1,
            ;
            assert(final(self).rest() =~= old(self).rest().drop_first());
        }
        Some(result)
    }
}

} // verus!
