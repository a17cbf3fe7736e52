//! Two-component fixed-point vectors, used for image-plane coordinates.

use vstd::prelude::*;
use crate::math::mag;
use crate::math::tdiv;
use crate::math::fmul;
use crate::math::sqrt_floor;
use crate::math::lemma_sqrt_floor;
use crate::math::lemma_tdiv_quotient_le;
use crate::math::div_trunc;
use crate::math::fixed_mul;
use crate::math::isqrt_i64;
use crate::math::ApproxEq;
use crate::math::UNIT;
use crate::math::EPSILON;
use crate::math::T_FAR;

verus! {

/// A 2D vector of fixed-point components.
#[derive(Copy, Clone, Debug, PartialEq, Eq, Structural)]
pub struct Vec2 {
    pub x: i64,
    pub y: i64,
}

/// The mathematical value of a [`Vec2`]: a pair of unbounded integers.
pub struct V2 {
    pub x: int,
    pub y: int,
}

impl View for Vec2 {
    type V = V2;

    open spec fn view(&self) -> V2 {
        V2 { x: self.x as int, y: self.y as int }
    }
}

impl V2 {
    /// Componentwise sum.
    pub open spec fn plus(self, o: V2) -> V2 {
        V2 { x: self.x + o.x, y: self.y + o.y }
    }

    /// Componentwise difference.
    pub open spec fn minus(self, o: V2) -> V2 {
        V2 { x: self.x - o.x, y: self.y - o.y }
    }

    /// Exact dot product; one raw scale higher than its operands.
    pub open spec fn dot(self, o: V2) -> int {
        self.x * o.x + self.y * o.y
    }

    /// Exact squared length; twice the raw scale of the operand.
    pub open spec fn len2(self) -> int {
        self.dot(self)
    }

    /// Componentwise fixed-point product with a scalar.
    pub open spec fn scale_fixed(self, s: int) -> V2 {
        V2 { x: fmul(self.x, s), y: fmul(self.y, s) }
    }

    /// The normalized vector: each component is `c * UNIT / |self|`,
    /// rounded toward zero. Unspecified for the zero vector.
    pub open spec fn norm(self) -> V2 {
        let l = sqrt_floor(self.len2());
        V2 { x: tdiv(self.x * (UNIT as int), l), y: tdiv(self.y * (UNIT as int), l) }
    }

    /// Every component is at most `b` in magnitude.
    pub open spec fn within(self, b: int) -> bool {
        mag(self.x) <= b && mag(self.y) <= b
    }

    /// All components are zero.
    pub open spec fn is_zero(self) -> bool {
        self.x == 0 && self.y == 0
    }

    /// The componentwise sums stay in the 64-bit range.
    pub open spec fn plus_fits(self, o: V2) -> bool {
        &&& i64::MIN <= self.x + o.x <= i64::MAX
        &&& i64::MIN <= self.y + o.y <= i64::MAX
    }

    /// The componentwise differences stay in the 64-bit range.
    pub open spec fn minus_fits(self, o: V2) -> bool {
        &&& i64::MIN <= self.x - o.x <= i64::MAX
        &&& i64::MIN <= self.y - o.y <= i64::MAX
    }
}

/// Each square is bounded by the squared length of the pair, and the length
/// bounds each component.
proof fn lemma_pair_bounds(v: V2)
    ensures
        v.x * v.x <= v.len2(),
        v.y * v.y <= v.len2(),
        v.len2() >= 0,
        !v.is_zero() ==> v.len2() >= 1,
        mag(v.x) <= sqrt_floor(v.len2()),
        mag(v.y) <= sqrt_floor(v.len2()),
{
    assert(v.x * v.x >= 0 && v.y * v.y >= 0) by (nonlinear_arith);
    if !v.is_zero() {
        assert(v.x != 0 ==> v.x * v.x >= 1) by (nonlinear_arith);
        assert(v.y != 0 ==> v.y * v.y >= 1) by (nonlinear_arith);
    }
    crate::math::vec3::lemma_component_le_sqrt(v.x, v.len2());
    crate::math::vec3::lemma_component_le_sqrt(v.y, v.len2());
}

impl Vec2 {
    /// Builds a vector from its components.
    pub fn new(x: i64, y: i64) -> (r: Vec2)
        ensures
            r.x == x,
            r.y == y,
    {
        Vec2 { x, y }
    }

    /// The zero vector.
    pub fn zero() -> (r: Vec2)
        ensures
            r@.is_zero(),
    {
        Vec2 { x: 0, y: 0 }
    }

    /// Componentwise sum.
    pub fn add(&self, rhs: &Vec2) -> (r: Vec2)
        requires
            self@.plus_fits(rhs@),
        ensures
            r@ == self@.plus(rhs@),
    {
        Vec2 { x: self.x + rhs.x, y: self.y + rhs.y }
    }

    /// Componentwise difference.
    pub fn sub(&self, rhs: &Vec2) -> (r: Vec2)
        requires
            self@.minus_fits(rhs@),
        ensures
            r@ == self@.minus(rhs@),
    {
        Vec2 { x: self.x - rhs.x, y: self.y - rhs.y }
    }

    /// Componentwise fixed-point product with a scalar.
    pub fn scale(&self, s: i64) -> (r: Vec2)
        requires
            self@.within(T_FAR as int),
            mag(s as int) <= T_FAR as int,
        ensures
            r@ == self@.scale_fixed(s as int),
    {
        proof {
            crate::math::lemma_fmul_bound(
                self.x as int,
                s as int,
                T_FAR as int,
                T_FAR as int,
                1_000_000_000_000_000_000,
            );
            crate::math::lemma_fmul_bound(
                self.y as int,
                s as int,
                T_FAR as int,
                T_FAR as int,
                1_000_000_000_000_000_000,
            );
        }
        Vec2 { x: fixed_mul(self.x, s), y: fixed_mul(self.y, s) }
    }

    /// Fixed-point dot product, rounded toward zero once, after the exact sum.
    pub fn dot(&self, rhs: &Vec2) -> (r: i64)
        requires
            self@.within(T_FAR as int),
            rhs@.within(T_FAR as int),
        ensures
            r as int == tdiv(self@.dot(rhs@), UNIT as int),
    {
        proof {
            crate::math::lemma_mul_mag_le(self@.x, rhs@.x, T_FAR as int, T_FAR as int);
            crate::math::lemma_mul_mag_le(self@.y, rhs@.y, T_FAR as int, T_FAR as int);
            lemma_tdiv_quotient_le(self@.dot(rhs@), UNIT as int, 2_000_000_000_000_000_000);
        }
        let s: i128 = (self.x as i128) * (rhs.x as i128) + (self.y as i128) * (rhs.y as i128);
        let q = div_trunc(s, UNIT as i128);
        q as i64
    }

    /// Exact squared length.
    pub fn length_squared(&self) -> (r: i64)
        requires
            self@.len2() <= i64::MAX as int,
        ensures
            r as int == self@.len2(),
            r >= 0,
    {
        proof {
            lemma_pair_bounds(self@);
        }
        let s: i128 = (self.x as i128) * (self.x as i128) + (self.y as i128) * (self.y as i128);
        s as i64
    }

    /// Length: the integer square root of the exact squared length.
    pub fn length(&self) -> (r: i64)
        requires
            self@.len2() <= i64::MAX as int,
        ensures
            r as int == sqrt_floor(self@.len2()),
            r >= 0,
    {
        let l2 = self.length_squared();
        isqrt_i64(l2)
    }

    /// Normalizes in place. The zero vector is the caller's error.
    pub fn normalize(&mut self)
        requires
            !old(self)@.is_zero(),
            old(self)@.len2() <= i64::MAX as int,
        ensures
            final(self)@ == old(self)@.norm(),
            final(self)@.within(UNIT as int),
    {
        proof {
            lemma_pair_bounds(self@);
            lemma_sqrt_floor(self@.len2());
            let l = sqrt_floor(self@.len2());
            assert(mag(self@.x * (UNIT as int)) == mag(self@.x) * (UNIT as int))
                by (nonlinear_arith);
            assert(mag(self@.y * (UNIT as int)) == mag(self@.y) * (UNIT as int))
                by (nonlinear_arith);
            assert(mag(self@.x) * (UNIT as int) <= (UNIT as int) * mag(l)) by (nonlinear_arith)
                requires
                    mag(self@.x) <= l,
                    mag(l) == l,
            ;
            assert(mag(self@.y) * (UNIT as int) <= (UNIT as int) * mag(l)) by (nonlinear_arith)
                requires
                    mag(self@.y) <= l,
                    mag(l) == l,
            ;
            lemma_tdiv_quotient_le(self@.x * (UNIT as int), l, UNIT as int);
            lemma_tdiv_quotient_le(self@.y * (UNIT as int), l, UNIT as int);
        }
        let l2 = self.length_squared();
        let l = isqrt_i64(l2);
        let nx = div_trunc((self.x as i128) * (UNIT as i128), l as i128);
        let ny = div_trunc((self.y as i128) * (UNIT as i128), l as i128);
        self.x = nx as i64;
        self.y = ny as i64;
    }

    /// The normalized copy of this vector.
    pub fn normalized(&self) -> (r: Vec2)
        requires
            !self@.is_zero(),
            self@.len2() <= i64::MAX as int,
        ensures
            r@ == self@.norm(),
            r@.within(UNIT as int),
    {
        let mut v = *self;
        v.normalize();
        v
    }

    /// Componentwise minimum.
    pub fn min_vector(&self, rhs: &Vec2) -> (r: Vec2)
        ensures
            r.x == if self.x <= rhs.x {
                self.x
            } else {
                rhs.x
            },
            r.y == if self.y <= rhs.y {
                self.y
            } else {
                rhs.y
            },
    {
        Vec2 {
            x: if self.x <= rhs.x {
                self.x
            } else {
                rhs.x
            },
            y: if self.y <= rhs.y {
                self.y
            } else {
                rhs.y
            },
        }
    }

    /// Componentwise maximum.
    pub fn max_vector(&self, rhs: &Vec2) -> (r: Vec2)
        ensures
            r.x == if self.x >= rhs.x {
                self.x
            } else {
                rhs.x
            },
            r.y == if self.y >= rhs.y {
                self.y
            } else {
                rhs.y
            },
    {
        Vec2 {
            x: if self.x >= rhs.x {
                self.x
            } else {
                rhs.x
            },
            y: if self.y >= rhs.y {
                self.y
            } else {
                rhs.y
            },
        }
    }

    /// Smaller component.
    pub fn min_component(&self) -> (r: i64)
        ensures
            r == if self.x <= self.y {
                self.x
            } else {
                self.y
            },
    {
        if self.x <= self.y {
            self.x
        } else {
            self.y
        }
    }

    /// Larger component.
    pub fn max_component(&self) -> (r: i64)
        ensures
            r == if self.x >= self.y {
                self.x
            } else {
                self.y
            },
    {
        if self.x >= self.y {
            self.x
        } else {
            self.y
        }
    }
}

impl ApproxEq for Vec2 {
    open spec fn approx_spec(&self, rhs: &Self) -> bool {
        mag(self@.x - rhs@.x) < EPSILON as int && mag(self@.y - rhs@.y) < EPSILON as int
    }

    fn a_eq(&self, rhs: &Self) -> (r: bool) {
        self.x.a_eq(&rhs.x) && self.y.a_eq(&rhs.y)
    }
}

} // verus!
