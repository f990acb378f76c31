use vstd::prelude::*;
use vstd::std_specs::ops::{AddSpecImpl, MulSpecImpl, NegSpecImpl, SubSpecImpl};
use crate::HexCoord;

verus! {

/// True when `x` can be held by a `HexCoord`.
pub open spec fn fits_coord(x: int) -> bool {
    i32::MIN <= x <= i32::MAX
}

/// True when both members of the pair can be held by a `HexCoord`.
pub open spec fn fits_pair(p: (int, int)) -> bool {
    fits_coord(p.0) && fits_coord(p.1)
}

/// True when the two members of the pair have an even sum, as the two
/// coordinates of every grid position and every difference of positions do.
pub open spec fn is_even_pair(p: (int, int)) -> bool {
    (p.0 + p.1) % 2 == 0
}

pub open spec fn pair_add(a: (int, int), b: (int, int)) -> (int, int) {
    (a.0 + b.0, a.1 + b.1)
}

pub open spec fn pair_sub(a: (int, int), b: (int, int)) -> (int, int) {
    (a.0 - b.0, a.1 - b.1)
}

pub open spec fn pair_neg(a: (int, int)) -> (int, int) {
    (-a.0, -a.1)
}

pub open spec fn pair_scale(a: (int, int), k: int) -> (int, int) {
    (a.0 * k, a.1 * k)
}

/// The vector `d` rotated counter-clockwise by `steps` sixths of a full turn.
pub open spec fn rotate_pair(d: (int, int), steps: int) -> (int, int) {
    let (du, dv) = d;
    let k = steps % 6;
    if k == 0 {
        d
    } else if k == 1 {
        ((du - dv) / 2, (3 * du + dv) / 2)
    } else if k == 2 {
        (-(du + dv) / 2, (3 * du - dv) / 2)
    } else if k == 3 {
        (-du, -dv)
    } else if k == 4 {
        ((dv - du) / 2, (-3 * du - dv) / 2)
    } else {
        ((du + dv) / 2, (-3 * du + dv) / 2)
    }
}

/// A difference of two [`HexPos`](crate::HexPos) values, represented by two
/// rectangular coordinates (du, dv), where du + dv is always even.
///
/// A delta is essentially a vector; it can be added, subtracted, scaled, and
/// rotated.
#[derive(Debug, Clone, Copy, PartialEq, Eq, Hash, Structural)]
pub struct HexDelta(HexCoord, HexCoord);

/// The delta whose coordinates are the given pair (meaningful when the pair is
/// even and fits).
pub closed spec fn delta_of(p: (int, int)) -> HexDelta {
    HexDelta(p.0 as i32, p.1 as i32)
}

impl View for HexDelta {
    type V = (int, int);

    closed spec fn view(&self) -> (int, int) {
        (self.0 as int, self.1 as int)
    }
}

pub broadcast proof fn lemma_delta_of_view(d: HexDelta)
    ensures
        delta_of(#[trigger] d@) == d,
        fits_pair(d@),
{
}

pub broadcast proof fn lemma_view_delta_of(p: (int, int))
    requires
        fits_pair(p),
    ensures
        #[trigger] delta_of(p)@ == p,
{
}

pub broadcast group group_delta {
    lemma_delta_of_view,
    lemma_view_delta_of,
}

/// The pair with axial coordinates (x, y): every even pair is one of these.
pub open spec fn axial_pair(x: int, y: int) -> (int, int) {
    (x + y, y - x)
}

/// Rotation of axial coordinates by `steps` sixths of a turn.
pub open spec fn axial_rotate(x: int, y: int, steps: int) -> (int, int) {
    let k = steps % 6;
    if k == 0 {
        (x, y)
    } else if k == 1 {
        (-y, x + y)
    } else if k == 2 {
        (-x - y, x)
    } else if k == 3 {
        (-x, -y)
    } else if k == 4 {
        (y, -x - y)
    } else {
        (x + y, -x)
    }
}

proof fn lemma_even_is_axial(d: (int, int))
    requires
        is_even_pair(d),
    ensures
        d == axial_pair((d.0 - d.1) / 2, (d.0 + d.1) / 2),
{
}

proof fn lemma_rotate_axial(x: int, y: int, steps: int)
    ensures
        rotate_pair(axial_pair(x, y), steps) == axial_pair(
            axial_rotate(x, y, steps).0,
            axial_rotate(x, y, steps).1,
        ),
{
    let k = steps % 6;
    let du = x + y;
    let dv = y - x;
    if k == 1 {
        assert(du - dv == 2 * x);
        assert(3 * du + dv == 2 * (x + 2 * y));
    } else if k == 2 {
        assert(-(du + dv) == 2 * (-y));
        assert(3 * du - dv == 2 * (2 * x + y));
    } else if k == 4 {
        assert(dv - du == 2 * (-x));
        assert(-3 * du - dv == 2 * (-x - 2 * y));
    } else if k == 5 {
        assert(du + dv == 2 * y);
        assert(-3 * du + dv == 2 * (-2 * x - y));
    }
}

proof fn lemma_axial_compose(x: int, y: int, a: int, b: int)
    ensures
        axial_rotate(axial_rotate(x, y, a).0, axial_rotate(x, y, a).1, b) == axial_rotate(x, y, a + b),
{
    let ka = a % 6;
    let kb = b % 6;
    vstd::arithmetic::div_mod::lemma_add_mod_noop(a, b, 6);
    assert((a + b) % 6 == (ka + kb) % 6);
    let p = axial_rotate(x, y, a);
    assert(axial_rotate(p.0, p.1, b) == axial_rotate(p.0, p.1, kb));
    if ka == 0 {
        assert(p == (x, y));
    } else if ka == 1 {
        assert(p == (-y, x + y));
    } else if ka == 2 {
        assert(p == (-x - y, x));
    } else if ka == 3 {
        assert(p == (-x, -y));
    } else if ka == 4 {
        assert(p == (y, -x - y));
    } else {
        assert(p == (x + y, -x));
    }
}

/// Rotation keeps a pair even and is determined by the number of steps modulo 6.
pub proof fn lemma_rotate_even(d: (int, int), steps: int)
    requires
        is_even_pair(d),
    ensures
        is_even_pair(rotate_pair(d, steps)),
        rotate_pair(d, steps) == rotate_pair(d, steps % 6),
{
    lemma_even_is_axial(d);
    let x = (d.0 - d.1) / 2;
    let y = (d.0 + d.1) / 2;
    lemma_rotate_axial(x, y, steps);
    lemma_rotate_axial(x, y, steps % 6);
    assert((steps % 6) % 6 == steps % 6);
}

/// Rotating by `a` steps and then by `b` steps is rotating by `a + b` steps.
pub proof fn lemma_rotate_compose(d: (int, int), a: int, b: int)
    requires
        is_even_pair(d),
    ensures
        rotate_pair(rotate_pair(d, a), b) == rotate_pair(d, a + b),
{
    lemma_even_is_axial(d);
    let x = (d.0 - d.1) / 2;
    let y = (d.0 + d.1) / 2;
    lemma_rotate_axial(x, y, a);
    let p = axial_rotate(x, y, a);
    lemma_rotate_axial(p.0, p.1, b);
    lemma_rotate_axial(x, y, a + b);
    lemma_axial_compose(x, y, a, b);
}

/// Rotating by `steps` and then by `-steps` gives back the vector.
pub proof fn lemma_rotate_inverse(d: (int, int), steps: int)
    requires
        is_even_pair(d),
    ensures
        rotate_pair(rotate_pair(d, steps), -steps) == d,
{
    lemma_rotate_compose(d, steps, -steps);
}

/// Half a turn negates a vector.
pub proof fn lemma_rotate_half_turn(d: (int, int))
    ensures
        rotate_pair(d, 3) == pair_neg(d),
{
}

/// Rotation commutes with scaling by an integer.
pub proof fn lemma_rotate_scale(d: (int, int), steps: int, k: int)
    requires
        is_even_pair(d),
    ensures
        is_even_pair(pair_scale(d, k)),
        rotate_pair(pair_scale(d, k), steps) == pair_scale(rotate_pair(d, steps), k),
{
    let x = (d.0 - d.1) / 2;
    let y = (d.0 + d.1) / 2;
    assert(d.0 == x + y && d.1 == y - x);
    assert(d.0 * k == x * k + y * k) by (nonlinear_arith)
        requires d.0 == x + y;
    assert(d.1 * k == y * k - x * k) by (nonlinear_arith)
        requires d.1 == y - x;
    let xk = x * k;
    let yk = y * k;
    assert(rotate_pair(pair_scale(d, k), steps) == pair_scale(rotate_pair(d, steps), k)) by {
        let s = steps % 6;
        assert((x + y) * k == xk + yk) by (nonlinear_arith) requires xk == x * k, yk == y * k;
        assert((y - x) * k == yk - xk) by (nonlinear_arith) requires xk == x * k, yk == y * k;
        assert((x + 2 * y) * k == xk + 2 * yk) by (nonlinear_arith) requires xk == x * k, yk == y * k;
        assert((2 * x + y) * k == 2 * xk + yk) by (nonlinear_arith) requires xk == x * k, yk == y * k;
        assert((-y) * k == -yk) by (nonlinear_arith) requires yk == y * k;
        assert((-x) * k == -xk) by (nonlinear_arith) requires xk == x * k;
        assert((-(x + y)) * k == -(xk + yk)) by (nonlinear_arith) requires xk == x * k, yk == y * k;
        assert((x - y) * k == xk - yk) by (nonlinear_arith) requires xk == x * k, yk == y * k;
        assert((-x - 2 * y) * k == -xk - 2 * yk) by (nonlinear_arith) requires xk == x * k, yk == y * k;
        assert((-2 * x - y) * k == -2 * xk - yk) by (nonlinear_arith) requires xk == x * k, yk == y * k;
    }
}

/// Scaling keeps a pair even.
pub proof fn lemma_scale_even(d: (int, int), k: int)
    requires
        is_even_pair(d),
    ensures
        is_even_pair(pair_scale(d, k)),
{
    let m = (d.0 + d.1) / 2;
    assert(d.0 * k + d.1 * k == (d.0 + d.1) * k) by (nonlinear_arith);
    assert((d.0 + d.1) * k == 2 * (m * k)) by (nonlinear_arith)
        requires d.0 + d.1 == 2 * m;
}

impl HexDelta {
    /// Every delta has an even coordinate sum.
    #[verifier::type_invariant]
    pub open spec fn wf(self) -> bool {
        is_even_pair(self@)
    }

    /// Creates a new `HexDelta` with the given du and dv values; du + dv must
    /// be even.
    pub fn new(du: HexCoord, dv: HexCoord) -> (r: HexDelta)
        requires
            (du + dv) % 2 == 0,
        ensures
            r@ == (du as int, dv as int),
    {
        HexDelta(du, dv)
    }

    /// Returns the du coordinate of the delta.
    pub fn du(&self) -> (r: HexCoord)
        ensures
            r == self@.0,
    {
        self.0
    }

    /// Returns the dv coordinate of the delta.
    pub fn dv(&self) -> (r: HexCoord)
        ensures
            r == self@.1,
    {
        self.1
    }

    /// Returns the du and dv coordinates of the delta as a tuple.
    pub fn du_dv(self) -> (r: (HexCoord, HexCoord))
        ensures
            (r.0 as int, r.1 as int) == self@,
    {
        (self.0, self.1)
    }

    /// Rotates the delta by 60 degrees counterclockwise `steps` times.
    pub fn rotated(self, steps: i32) -> (r: HexDelta)
        requires
            fits_pair(rotate_pair(self@, steps as int)),
        ensures
            r@ == rotate_pair(self@, steps as int),
    {
        proof {
            use_type_invariant(&self);
            lemma_rotate_even(self@, steps as int);
        }
        let du = self.0 as i64;
        let dv = self.1 as i64;
        // Axial coordinates: (du, dv) == (x + y, y - x).
        let x = (du - dv) / 2;
        let y = (du + dv) / 2;
        proof {
            lemma_even_is_axial(self@);
            lemma_rotate_axial(x as int, y as int, steps as int);
        }
        let k = steps % 6;
        let k = if k < 0 { k + 6 } else { k };
        assert(k == steps % 6);
        let (ax, ay) = if k == 0 {
            (x, y)
        } else if k == 1 {
            (-y, x + y)
        } else if k == 2 {
            (-x - y, x)
        } else if k == 3 {
            (-x, -y)
        } else if k == 4 {
            (y, -x - y)
        } else {
            (x + y, -x)
        };
        HexDelta((ax + ay) as i32, (ay - ax) as i32)
    }
}

impl core::ops::Neg for HexDelta {
    type Output = HexDelta;

    fn neg(self) -> (r: HexDelta)
        ensures
            r@ == pair_neg(self@),
    {
        proof {
            use_type_invariant(&self);
        }
        HexDelta(-self.0, -self.1)
    }
}

impl NegSpecImpl for HexDelta {
    open spec fn obeys_neg_spec() -> bool {
        true
    }

    open spec fn neg_req(self) -> bool {
        fits_pair(pair_neg(self@))
    }

    open spec fn neg_spec(self) -> HexDelta {
        delta_of(pair_neg(self@))
    }
}

impl core::ops::Add for HexDelta {
    type Output = HexDelta;

    fn add(self, other: HexDelta) -> (r: HexDelta)
        ensures
            r@ == pair_add(self@, other@),
    {
        proof {
            use_type_invariant(&self);
            use_type_invariant(&other);
        }
        HexDelta(self.0 + other.0, self.1 + other.1)
    }
}

impl AddSpecImpl for HexDelta {
    open spec fn obeys_add_spec() -> bool {
        true
    }

    open spec fn add_req(self, rhs: HexDelta) -> bool {
        fits_pair(pair_add(self@, rhs@))
    }

    open spec fn add_spec(self, rhs: HexDelta) -> HexDelta {
        delta_of(pair_add(self@, rhs@))
    }
}

impl core::ops::Sub for HexDelta {
    type Output = HexDelta;

    fn sub(self, other: HexDelta) -> (r: HexDelta)
        ensures
            r@ == pair_sub(self@, other@),
    {
        proof {
            use_type_invariant(&self);
            use_type_invariant(&other);
        }
        HexDelta(self.0 - other.0, self.1 - other.1)
    }
}

impl SubSpecImpl for HexDelta {
    open spec fn obeys_sub_spec() -> bool {
        true
    }

    open spec fn sub_req(self, rhs: HexDelta) -> bool {
        fits_pair(pair_sub(self@, rhs@))
    }

    open spec fn sub_spec(self, rhs: HexDelta) -> HexDelta {
        delta_of(pair_sub(self@, rhs@))
    }
}

impl core::ops::Mul<HexCoord> for HexDelta {
    type Output = HexDelta;

    fn mul(self, rhs: HexCoord) -> (r: HexDelta)
        ensures
            r@ == pair_scale(self@, rhs as int),
    {
        proof {
            use_type_invariant(&self);
            let k = rhs as int;
            let (a, b) = self@;
            lemma_scale_even(self@, k);
        }
        HexDelta(self.0 * rhs, self.1 * rhs)
    }
}

impl MulSpecImpl<HexCoord> for HexDelta {
    open spec fn obeys_mul_spec() -> bool {
        true
    }

    open spec fn mul_req(self, rhs: HexCoord) -> bool {
        fits_pair(pair_scale(self@, rhs as int))
    }

    open spec fn mul_spec(self, rhs: HexCoord) -> HexDelta {
        delta_of(pair_scale(self@, rhs as int))
    }
}

impl core::ops::Mul<HexDelta> for HexCoord {
    type Output = HexDelta;

    fn mul(self, rhs: HexDelta) -> (r: HexDelta)
        ensures
            r@ == pair_scale(rhs@, self as int),
    {
        rhs * self
    }
}

impl MulSpecImpl<HexDelta> for HexCoord {
    open spec fn obeys_mul_spec() -> bool {
        true
    }

    open spec fn mul_req(self, rhs: HexDelta) -> bool {
        fits_pair(pair_scale(rhs@, self as int))
    }

    open spec fn mul_spec(self, rhs: HexDelta) -> HexDelta {
        delta_of(pair_scale(rhs@, self as int))
    }
}

} // verus!
