//! A 2D coordinate value type with verified arithmetic, geometry,
//! text round-tripping and random sampling.
//!
//! The element type of the components is fixed to `i64`: every operation
//! carries an exact integer contract, and the preconditions state exactly
//! which inputs stay within the machine range.

use vstd::arithmetic::div_mod::{
    lemma_div_is_ordered, lemma_div_is_ordered_by_denominator, lemma_div_multiples_vanish,
    lemma_div_pos_is_pos,
};
use vstd::math::abs;
use vstd::prelude::*;

pub mod sampling;
pub mod text;
pub mod traits;

verus! {

/// A 2D coordinate with signed 64-bit components.
#[derive(PartialEq, Eq, Structural, Clone, Copy, Hash, Debug)]
pub struct Pos {
    pub x: i64,
    pub y: i64,
}

/// Whether a mathematical integer fits the component type.
pub open spec fn in_i64(v: int) -> bool {
    i64::MIN <= v <= i64::MAX
}

/// The dot product of two coordinates, as a mathematical integer.
pub open spec fn spec_dot(a: Pos, b: Pos) -> int {
    a.x * b.x + a.y * b.y
}

/// The squared magnitude of a coordinate.
pub open spec fn spec_mag2(v: Pos) -> int {
    spec_dot(v, v)
}

/// The squared distance between two coordinates.
pub open spec fn spec_dist2(a: Pos, b: Pos) -> int {
    (b.x - a.x) * (b.x - a.x) + (b.y - a.y) * (b.y - a.y)
}

/// Division truncating toward zero, as the component type's `/` does.
pub open spec fn trunc_div(a: int, b: int) -> int {
    let q = abs(a) as int / abs(b) as int;
    if (a < 0) == (b < 0) {
        q
    } else {
        -q
    }
}

/// The component of the projection of `v` onto `dir` along the first axis.
pub open spec fn spec_part_x(v: Pos, dir: Pos) -> int {
    trunc_div(dir.x * spec_dot(v, dir), spec_mag2(dir))
}

/// The component of the projection of `v` onto `dir` along the second axis.
pub open spec fn spec_part_y(v: Pos, dir: Pos) -> int {
    trunc_div(dir.y * spec_dot(v, dir), spec_mag2(dir))
}

/// The first component of the part of `v` perpendicular to `dir`.
pub open spec fn spec_complement_x(v: Pos, dir: Pos) -> int {
    v.x - spec_part_x(v, dir)
}

/// The second component of the part of `v` perpendicular to `dir`.
pub open spec fn spec_complement_y(v: Pos, dir: Pos) -> int {
    v.y - spec_part_y(v, dir)
}

/// The products and the sum of the dot product of `a` and `b` fit `i64`.
pub open spec fn dot_fits(a: Pos, b: Pos) -> bool {
    &&& in_i64(a.x * b.x)
    &&& in_i64(a.y * b.y)
    &&& in_i64(spec_dot(a, b))
}

/// The differences and squares of the squared distance of `a` and `b` fit `i64`.
pub open spec fn dist2_fits(a: Pos, b: Pos) -> bool {
    &&& in_i64(b.x - a.x)
    &&& in_i64(b.y - a.y)
    &&& in_i64((b.x - a.x) * (b.x - a.x))
    &&& in_i64((b.y - a.y) * (b.y - a.y))
    &&& in_i64(spec_dist2(a, b))
}

/// The intermediate values of the projection of `v` onto `dir` fit `i64`,
/// and `dir` is not the zero vector.
pub open spec fn part_fits(v: Pos, dir: Pos) -> bool {
    &&& dot_fits(v, dir)
    &&& dot_fits(dir, dir)
    &&& spec_mag2(dir) != 0
    &&& in_i64(dir.x * spec_dot(v, dir))
    &&& in_i64(dir.y * spec_dot(v, dir))
}

/// As `part_fits`, and the perpendicular components fit `i64` as well.
pub open spec fn complement_fits(v: Pos, dir: Pos) -> bool {
    &&& part_fits(v, dir)
    &&& in_i64(spec_complement_x(v, dir))
    &&& in_i64(spec_complement_y(v, dir))
}

/// Division of `a` by `b`, truncating toward zero.
///
/// The one pair the component type cannot divide, `i64::MIN / -1`,
/// is excluded by precondition.
fn div_trunc(a: i64, b: i64) -> (r: i64)
    requires
        b != 0,
        !(a == i64::MIN && b == -1),
    ensures
        r == trunc_div(a as int, b as int),
{
    let ua: u64 = if a >= 0 {
        a as u64
    } else {
        (-(a as i128)) as u64
    };
    let ub: u64 = if b >= 0 {
        b as u64
    } else {
        (-(b as i128)) as u64
    };
    assert(ua == abs(a as int) && ub == abs(b as int));
    let q: u64 = ua / ub;
    proof {
        lemma_div_pos_is_pos(ua as int, ub as int);
        lemma_div_is_ordered_by_denominator(ua as int, 1, ub as int);
        assert(q <= ua);
    }
    if (a < 0) == (b < 0) {
        proof {
            if ub == 1 {
                assert(a != i64::MIN);
            } else {
                lemma_div_is_ordered(ua as int, 0x8000_0000_0000_0000, ub as int);
                lemma_div_is_ordered_by_denominator(0x8000_0000_0000_0000, 2, ub as int);
            }
            assert(q <= i64::MAX);
        }
        q as i64
    } else {
        (-(q as i128)) as i64
    }
}

impl Pos {
    /// Constructs a coordinate from its two components.
    pub fn new(x: i64, y: i64) -> (r: Self)
        ensures
            r.x == x,
            r.y == y,
    {
        Pos { x, y }
    }

    /// The dot product of the two coordinates.
    pub fn dot(a: Self, b: Self) -> (r: i64)
        requires
            dot_fits(a, b),
        ensures
            r == spec_dot(a, b),
    {
        a.x * b.x + a.y * b.y
    }

    /// The squared magnitude of this coordinate: its dot product with itself.
    pub fn mag2(self) -> (r: i64)
        requires
            dot_fits(self, self),
        ensures
            r == spec_mag2(self),
            r >= 0,
    {
        proof {
            assert(self.x * self.x >= 0 && self.y * self.y >= 0) by (nonlinear_arith);
        }
        Self::dot(self, self)
    }

    /// The squared distance from this coordinate to `pos`.
    pub fn dist2_from(self, pos: Self) -> (r: i64)
        requires
            dist2_fits(self, pos),
        ensures
            r == spec_dist2(self, pos),
            r >= 0,
    {
        pos.minus(self).mag2()
    }

    /// The part of `self` parallel to the direction `dir`.
    ///
    /// Each component is `dir * dot(self, dir) / mag2(dir)` with the
    /// component type's truncating division; a non-exact projection is
    /// truncated toward zero. `dir` must not be the zero vector.
    pub fn part(self, dir: Self) -> (r: Self)
        requires
            part_fits(self, dir),
        ensures
            r.x == spec_part_x(self, dir),
            r.y == spec_part_y(self, dir),
    {
        let d = Self::dot(self, dir);
        let m = dir.mag2();
        Pos { x: div_trunc(dir.x * d, m), y: div_trunc(dir.y * d, m) }
    }

    /// The part of `self` perpendicular to the direction `dir`.
    pub fn complement(self, dir: Self) -> (r: Self)
        requires
            complement_fits(self, dir),
        ensures
            r.x == spec_complement_x(self, dir),
            r.y == spec_complement_y(self, dir),
    {
        let part = self.part(dir);
        self.minus(part)
    }

    /// Breaks `self` into its parallel and perpendicular parts relative
    /// to `dir`, in that order, computing the projection only once.
    pub fn componenets(self, dir: Self) -> (r: (Self, Self))
        requires
            complement_fits(self, dir),
        ensures
            r.0.x == spec_part_x(self, dir),
            r.0.y == spec_part_y(self, dir),
            r.1.x == spec_complement_x(self, dir),
            r.1.y == spec_complement_y(self, dir),
    {
        let part = self.part(dir);
        (part, self.minus(part))
    }

    /// Component-wise negation.
    pub fn negate(self) -> (r: Self)
        requires
            self.x != i64::MIN,
            self.y != i64::MIN,
        ensures
            r.x == -self.x,
            r.y == -self.y,
    {
        Pos { x: -self.x, y: -self.y }
    }

    /// Component-wise addition, returning a new coordinate.
    pub fn plus(self, rhs: Self) -> (r: Self)
        requires
            in_i64(self.x + rhs.x),
            in_i64(self.y + rhs.y),
        ensures
            r.x == self.x + rhs.x,
            r.y == self.y + rhs.y,
    {
        Pos { x: self.x + rhs.x, y: self.y + rhs.y }
    }

    /// Component-wise addition in place.
    pub fn plus_assign(&mut self, rhs: Self)
        requires
            in_i64(old(self).x + rhs.x),
            in_i64(old(self).y + rhs.y),
        ensures
            final(self).x == old(self).x + rhs.x,
            final(self).y == old(self).y + rhs.y,
    {
        self.x = self.x + rhs.x;
        self.y = self.y + rhs.y;
    }

    /// Component-wise subtraction, returning a new coordinate.
    pub fn minus(self, rhs: Self) -> (r: Self)
        requires
            in_i64(self.x - rhs.x),
            in_i64(self.y - rhs.y),
        ensures
            r.x == self.x - rhs.x,
            r.y == self.y - rhs.y,
    {
        Pos { x: self.x - rhs.x, y: self.y - rhs.y }
    }

    /// Component-wise subtraction in place.
    pub fn minus_assign(&mut self, rhs: Self)
        requires
            in_i64(old(self).x - rhs.x),
            in_i64(old(self).y - rhs.y),
        ensures
            final(self).x == old(self).x - rhs.x,
            final(self).y == old(self).y - rhs.y,
    {
        self.x = self.x - rhs.x;
        self.y = self.y - rhs.y;
    }

    /// Multiplies each component by the scalar `k`.
    pub fn scale(self, k: i64) -> (r: Self)
        requires
            in_i64(self.x * k),
            in_i64(self.y * k),
        ensures
            r.x == self.x * k,
            r.y == self.y * k,
    {
        Pos { x: self.x * k, y: self.y * k }
    }

    /// Multiplies each component by the scalar `k` in place.
    pub fn scale_assign(&mut self, k: i64)
        requires
            in_i64(old(self).x * k),
            in_i64(old(self).y * k),
        ensures
            final(self).x == old(self).x * k,
            final(self).y == old(self).y * k,
    {
        self.x = self.x * k;
        self.y = self.y * k;
    }

    /// Divides each component by the scalar `k`, truncating toward zero.
    pub fn divide(self, k: i64) -> (r: Self)
        requires
            k != 0,
            !(self.x == i64::MIN && k == -1),
            !(self.y == i64::MIN && k == -1),
        ensures
            r.x == trunc_div(self.x as int, k as int),
            r.y == trunc_div(self.y as int, k as int),
    {
        Pos { x: div_trunc(self.x, k), y: div_trunc(self.y, k) }
    }

    /// Divides each component by the scalar `k` in place, truncating toward zero.
    pub fn divide_assign(&mut self, k: i64)
        requires
            k != 0,
            !(old(self).x == i64::MIN && k == -1),
            !(old(self).y == i64::MIN && k == -1),
        ensures
            final(self).x == trunc_div(old(self).x as int, k as int),
            final(self).y == trunc_div(old(self).y as int, k as int),
    {
        self.x = div_trunc(self.x, k);
        self.y = div_trunc(self.y, k);
    }

    /// Component access by index: index 0 is `x`, index 1 is `y`.
    ///
    /// Any other index is a caller bug, excluded by precondition.
    pub fn index(&self, index: usize) -> (r: i64)
        requires
            index < 2,
        ensures
            r == (if index == 0 { self.x } else { self.y }),
    {
        if index == 0 {
            self.x
        } else {
            self.y
        }
    }

    /// Replaces the component at `index`: index 0 is `x`, index 1 is `y`.
    ///
    /// Any other index is a caller bug, excluded by precondition.
    pub fn set_index(&mut self, index: usize, value: i64)
        requires
            index < 2,
        ensures
            final(self).x == (if index == 0 { value } else { old(self).x }),
            final(self).y == (if index == 1 { value } else { old(self).y }),
    {
        if index == 0 {
            self.x = value;
        } else {
            self.y = value;
        }
    }

    /// The two components as a pair, `x` first.
    pub fn to_pair(self) -> (r: (i64, i64))
        ensures
            r.0 == self.x,
            r.1 == self.y,
    {
        (self.x, self.y)
    }
}

impl Default for Pos {
    /// The zero coordinate.
    fn default() -> (r: Self)
        ensures
            r.x == 0,
            r.y == 0,
    {
        Pos { x: 0, y: 0 }
    }
}

impl From<(i64, i64)> for Pos {
    /// Conversion from a two-element tuple, `x` first.
    fn from(pair: (i64, i64)) -> (r: Self)
        ensures
            r.x == pair.0,
            r.y == pair.1,
    {
        Pos { x: pair.0, y: pair.1 }
    }
}

impl vstd::std_specs::convert::FromSpecImpl<(i64, i64)> for Pos {
    open spec fn obeys_from_spec() -> bool {
        true
    }

    open spec fn from_spec(pair: (i64, i64)) -> Pos {
        Pos { x: pair.0, y: pair.1 }
    }
}

/// The origin of the coordinate system.
pub fn origin() -> (r: Pos)
    ensures
        r.x == 0,
        r.y == 0,
{
    Pos { x: 0, y: 0 }
}

/// The unit vector of the X axis.
pub fn x_unit() -> (r: Pos)
    ensures
        r.x == 1,
        r.y == 0,
{
    Pos { x: 1, y: 0 }
}

/// The unit vector of the Y axis.
pub fn y_unit() -> (r: Pos)
    ensures
        r.x == 0,
        r.y == 1,
{
    Pos { x: 0, y: 1 }
}

/// The sum of the first components of a sequence of coordinates.
pub open spec fn spec_sum_x(s: Seq<Pos>) -> int
    decreases s.len(),
{
    if s.len() == 0 {
        0
    } else {
        spec_sum_x(s.drop_last()) + s.last().x
    }
}

/// The sum of the second components of a sequence of coordinates.
pub open spec fn spec_sum_y(s: Seq<Pos>) -> int
    decreases s.len(),
{
    if s.len() == 0 {
        0
    } else {
        spec_sum_y(s.drop_last()) + s.last().y
    }
}

impl Pos {
    /// Folds the coordinates into one by repeated addition, starting
    /// from the zero coordinate, in sequence order.
    pub fn sum(ps: &Vec<Pos>) -> (r: Self)
        requires
            forall|i: int|
                0 <= i <= ps@.len() ==> in_i64(spec_sum_x(#[trigger] ps@.take(i))) && in_i64(
                    spec_sum_y(ps@.take(i)),
                ),
        ensures
            r.x == spec_sum_x(ps@),
            r.y == spec_sum_y(ps@),
    {
        let mut acc = Pos { x: 0, y: 0 };
        let mut i: usize = 0;
        proof {
            assert(ps@.take(0) =~= Seq::<Pos>::empty());
        }
        while i < ps.len()
            invariant
                0 <= i <= ps@.len(),
                acc.x == spec_sum_x(ps@.take(i as int)),
                acc.y == spec_sum_y(ps@.take(i as int)),
                forall|j: int|
                    0 <= j <= ps@.len() ==> in_i64(spec_sum_x(#[trigger] ps@.take(j))) && in_i64(
                        spec_sum_y(ps@.take(j)),
                    ),
            decreases ps@.len() - i,
        {
            proof {
                assert(ps@.take(i + 1).drop_last() =~= ps@.take(i as int));
                assert(ps@.take(i + 1).last() == ps@[i as int]);
            }
            acc.x = acc.x + ps[i].x;
            acc.y = acc.y + ps[i].y;
            i = i + 1;
        }
        proof {
            assert(ps@.take(ps@.len() as int) =~= ps@);
        }
        acc
    }
}

/// The dot product is commutative.
pub proof fn lemma_dot_commutes(a: Pos, b: Pos)
    ensures
        spec_dot(a, b) == spec_dot(b, a),
{
    assert(a.x * b.x == b.x * a.x && a.y * b.y == b.y * a.y) by (nonlinear_arith);
}

/// The squared magnitude is the dot product of a coordinate with itself,
/// and is never negative.
pub proof fn lemma_mag2_nonneg(v: Pos)
    ensures
        spec_mag2(v) == spec_dot(v, v),
        spec_mag2(v) >= 0,
{
    assert(v.x * v.x >= 0 && v.y * v.y >= 0) by (nonlinear_arith);
}

/// The squared distance is symmetric in its two coordinates.
pub proof fn lemma_dist2_symmetric(a: Pos, b: Pos)
    ensures
        spec_dist2(a, b) == spec_dist2(b, a),
{
    assert((b.x - a.x) * (b.x - a.x) == (a.x - b.x) * (a.x - b.x) && (b.y - a.y) * (b.y - a.y) == (
    a.y - b.y) * (a.y - b.y)) by (nonlinear_arith);
}

/// Decomposition is exact: the parallel and perpendicular parts of a
/// coordinate relative to any direction add back to the coordinate,
/// and are exactly what `part` and `complement` return.
pub proof fn lemma_components_decompose(v: Pos, dir: Pos)
    ensures
        spec_part_x(v, dir) + spec_complement_x(v, dir) == v.x,
        spec_part_y(v, dir) + spec_complement_y(v, dir) == v.y,
{
}

/// Truncating division is exact on multiples: `(k * m) / m == k`.
pub proof fn lemma_trunc_div_exact(k: int, m: int)
    requires
        m != 0,
    ensures
        trunc_div(k * m, m) == k,
{
    let n = k * m;
    let ak = abs(k) as int;
    let am = abs(m) as int;
    lemma_div_multiples_vanish(ak, am);
    assert(am * ak == ak * am) by (nonlinear_arith);
    assert((ak * am) / am == ak);
    if k == 0 {
        assert(n == 0) by (nonlinear_arith)
            requires
                k == 0 && n == k * m,
        ;
        lemma_div_multiples_vanish(0, am);
        assert(trunc_div(n, m) == 0);
    } else if k > 0 && m > 0 {
        assert(n == ak * am && n > 0) by (nonlinear_arith)
            requires
                k > 0 && m > 0 && n == k * m && ak == k && am == m,
        ;
        assert(trunc_div(n, m) == ak);
    } else if k > 0 && m < 0 {
        assert(-n == ak * am && n < 0) by (nonlinear_arith)
            requires
                k > 0 && m < 0 && n == k * m && ak == k && am == -m,
        ;
        assert(trunc_div(n, m) == ak);
    } else if k < 0 && m > 0 {
        assert(-n == ak * am && n < 0) by (nonlinear_arith)
            requires
                k < 0 && m > 0 && n == k * m && ak == -k && am == m,
        ;
        assert(trunc_div(n, m) == -ak);
    } else {
        assert(n == ak * am && n > 0) by (nonlinear_arith)
            requires
                k < 0 && m < 0 && n == k * m && ak == -k && am == -m,
        ;
        assert(trunc_div(n, m) == -ak);
    }
}

/// Projecting a coordinate that is already parallel to the direction
/// returns it unchanged: if `v == dir * k`, then `part(v, dir) == v`.
pub proof fn lemma_part_of_parallel(v: Pos, dir: Pos, k: int)
    requires
        v.x == dir.x * k,
        v.y == dir.y * k,
        spec_mag2(dir) != 0,
    ensures
        spec_part_x(v, dir) == v.x,
        spec_part_y(v, dir) == v.y,
{
    let m = spec_mag2(dir);
    assert(spec_dot(v, dir) == k * m) by (nonlinear_arith)
        requires
            v.x == dir.x * k && v.y == dir.y * k && m == dir.x * dir.x + dir.y * dir.y,
    ;
    assert(dir.x * (k * m) == (dir.x * k) * m && dir.y * (k * m) == (dir.y * k) * m)
        by (nonlinear_arith);
    lemma_trunc_div_exact(dir.x * k, m);
    lemma_trunc_div_exact(dir.y * k, m);
}

/// Projecting a coordinate perpendicular to the direction returns the
/// zero coordinate as its parallel part.
pub proof fn lemma_part_of_perpendicular(v: Pos, dir: Pos)
    requires
        spec_dot(v, dir) == 0,
        spec_mag2(dir) != 0,
    ensures
        spec_part_x(v, dir) == 0,
        spec_part_y(v, dir) == 0,
{
    let m = spec_mag2(dir);
    assert(dir.x * 0 == 0 * m && dir.y * 0 == 0 * m) by (nonlinear_arith);
    lemma_trunc_div_exact(0, m);
}

/// Adding the negation of a coordinate yields the zero coordinate.
pub proof fn lemma_plus_negate_is_zero(p: Pos)
    ensures
        p.x + (-p.x) == 0,
        p.y + (-p.y) == 0,
{
}

/// Adding and then subtracting the same coordinate is the identity.
pub proof fn lemma_plus_minus_cancels(p: Pos, q: Pos)
    ensures
        (p.x + q.x) - q.x == p.x,
        (p.y + q.y) - q.y == p.y,
{
}

/// Scaling by a non-zero scalar and then dividing by it is the identity.
pub proof fn lemma_scale_divide_cancels(p: Pos, k: int)
    requires
        k != 0,
    ensures
        trunc_div(p.x * k, k) == p.x,
        trunc_div(p.y * k, k) == p.y,
{
    lemma_trunc_div_exact(p.x as int, k);
    lemma_trunc_div_exact(p.y as int, k);
}

} // verus!
