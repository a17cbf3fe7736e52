//! Three-component fixed-point vectors: the coordinate type of the scene.

use vstd::prelude::*;
use crate::math::mag;
use crate::math::tdiv;
use crate::math::fmul;
use crate::math::sqrt_floor;
use crate::math::lemma_sqrt_floor;
use crate::math::lemma_tdiv_error;
use crate::math::lemma_tdiv_bounds;
use crate::math::lemma_tdiv_quotient_le;
use crate::math::div_trunc;
use crate::math::fixed_mul;
use crate::math::isqrt_u128;
use crate::math::ApproxEq;
use crate::math::UNIT;
use crate::math::EPSILON;
use crate::math::T_FAR;

verus! {

/// A 3D vector of fixed-point components.
#[derive(Copy, Clone, Debug, PartialEq, Eq, Structural)]
pub struct Vec3 {
    pub x: i64,
    pub y: i64,
    pub z: i64,
}

/// The mathematical value of a [`Vec3`]: a triple of unbounded integers.
pub struct V3 {
    pub x: int,
    pub y: int,
    pub z: int,
}

impl View for Vec3 {
    type V = V3;

    open spec fn view(&self) -> V3 {
        V3 { x: self.x as int, y: self.y as int, z: self.z as int }
    }
}

impl V3 {
    /// Componentwise sum.
    pub open spec fn plus(self, o: V3) -> V3 {
        V3 { x: self.x + o.x, y: self.y + o.y, z: self.z + o.z }
    }

    /// Componentwise difference.
    pub open spec fn minus(self, o: V3) -> V3 {
        V3 { x: self.x - o.x, y: self.y - o.y, z: self.z - o.z }
    }

    /// Componentwise negation.
    pub open spec fn negv(self) -> V3 {
        V3 { x: -self.x, y: -self.y, z: -self.z }
    }

    /// Exact dot product; one raw scale higher than its operands.
    pub open spec fn dot(self, o: V3) -> int {
        self.x * o.x + self.y * o.y + self.z * o.z
    }

    /// Exact squared length; twice the raw scale of the operand.
    pub open spec fn len2(self) -> int {
        self.dot(self)
    }

    /// Exact cross product; one raw scale higher than its operands.
    pub open spec fn cross_raw(self, o: V3) -> V3 {
        V3 {
            x: self.y * o.z - self.z * o.y,
            y: self.z * o.x - self.x * o.z,
            z: self.x * o.y - self.y * o.x,
        }
    }

    /// Cross product of fixed-point vectors, each term rounded toward zero.
    pub open spec fn cross_fixed(self, o: V3) -> V3 {
        V3 {
            x: fmul(self.y, o.z) - fmul(self.z, o.y),
            y: fmul(self.z, o.x) - fmul(self.x, o.z),
            z: fmul(self.x, o.y) - fmul(self.y, o.x),
        }
    }

    /// Componentwise fixed-point product with a scalar.
    pub open spec fn scale_fixed(self, s: int) -> V3 {
        V3 { x: fmul(self.x, s), y: fmul(self.y, s), z: fmul(self.z, s) }
    }

    /// The input normalization works on: a vector shorter than one unit is
    /// first brought up by a whole scale step, which leaves its direction
    /// unchanged but keeps the root from collapsing, so the unit-length
    /// guarantee holds for every nonzero input.
    pub open spec fn norm_input(self) -> V3 {
        if self.len2() < (UNIT as int) * (UNIT as int) {
            V3 { x: self.x * (UNIT as int), y: self.y * (UNIT as int), z: self.z * (UNIT as int) }
        } else {
            self
        }
    }

    /// The normalized vector: each component of the (pre-scaled, see
    /// [`V3::norm_input`]) input is divided by that input's length,
    /// rounded toward zero. Unspecified for the zero vector.
    pub open spec fn norm(self) -> V3 {
        let w = self.norm_input();
        let l = sqrt_floor(w.len2());
        V3 {
            x: tdiv(w.x * (UNIT as int), l),
            y: tdiv(w.y * (UNIT as int), l),
            z: tdiv(w.z * (UNIT as int), l),
        }
    }

    /// The normalized vector, or zero for the zero vector. The zero branch
    /// exists for one degenerate corner — a surface offset that collapses
    /// to nothing, reachable only for spheres a few raw steps wide — where
    /// the floating-point formulation would produce an undefined normal.
    pub open spec fn norm_or_zero(self) -> V3 {
        if self.is_zero() {
            self
        } else {
            self.norm()
        }
    }

    /// Componentwise fixed-point reciprocal; zero components give zero.
    pub open spec fn recipv(self) -> V3 {
        V3 {
            x: if self.x == 0 {
                0
            } else {
                tdiv((UNIT as int) * (UNIT as int), self.x)
            },
            y: if self.y == 0 {
                0
            } else {
                tdiv((UNIT as int) * (UNIT as int), self.y)
            },
            z: if self.z == 0 {
                0
            } else {
                tdiv((UNIT as int) * (UNIT as int), self.z)
            },
        }
    }

    /// Componentwise minimum.
    pub open spec fn minv(self, o: V3) -> V3 {
        V3 {
            x: if self.x <= o.x {
                self.x
            } else {
                o.x
            },
            y: if self.y <= o.y {
                self.y
            } else {
                o.y
            },
            z: if self.z <= o.z {
                self.z
            } else {
                o.z
            },
        }
    }

    /// Componentwise maximum.
    pub open spec fn maxv(self, o: V3) -> V3 {
        V3 {
            x: if self.x >= o.x {
                self.x
            } else {
                o.x
            },
            y: if self.y >= o.y {
                self.y
            } else {
                o.y
            },
            z: if self.z >= o.z {
                self.z
            } else {
                o.z
            },
        }
    }

    /// Smallest component.
    pub open spec fn min_comp(self) -> int {
        if self.x <= self.y && self.x <= self.z {
            self.x
        } else if self.y <= self.z {
            self.y
        } else {
            self.z
        }
    }

    /// Largest component.
    pub open spec fn max_comp(self) -> int {
        if self.x >= self.y && self.x >= self.z {
            self.x
        } else if self.y >= self.z {
            self.y
        } else {
            self.z
        }
    }

    /// Every component is at most `b` in magnitude.
    pub open spec fn within(self, b: int) -> bool {
        mag(self.x) <= b && mag(self.y) <= b && mag(self.z) <= b
    }

    /// All components are zero.
    pub open spec fn is_zero(self) -> bool {
        self.x == 0 && self.y == 0 && self.z == 0
    }

    /// The componentwise sums stay in the 64-bit range.
    pub open spec fn plus_fits(self, o: V3) -> bool {
        &&& i64::MIN <= self.x + o.x <= i64::MAX
        &&& i64::MIN <= self.y + o.y <= i64::MAX
        &&& i64::MIN <= self.z + o.z <= i64::MAX
    }

    /// The componentwise differences stay in the 64-bit range.
    pub open spec fn minus_fits(self, o: V3) -> bool {
        &&& i64::MIN <= self.x - o.x <= i64::MAX
        &&& i64::MIN <= self.y - o.y <= i64::MAX
        &&& i64::MIN <= self.z - o.z <= i64::MAX
    }
}

/// A component bounded by the squared length is bounded by the root.
pub proof fn lemma_component_le_sqrt(c: int, n: int)
    requires
        c * c <= n,
        n >= 0,
    ensures
        mag(c) <= sqrt_floor(n),
{
    lemma_sqrt_floor(n);
    let l = sqrt_floor(n);
    assert(c * c == mag(c) * mag(c)) by (nonlinear_arith);
    if mag(c) > l {
        assert((l + 1) * (l + 1) <= mag(c) * mag(c)) by (nonlinear_arith)
            requires
                0 <= l + 1 <= mag(c),
        ;
    }
}

/// Each square is bounded by the squared length of the whole vector.
pub proof fn lemma_square_le_len2(v: V3)
    ensures
        v.x * v.x <= v.len2(),
        v.y * v.y <= v.len2(),
        v.z * v.z <= v.len2(),
        v.len2() >= 0,
        !v.is_zero() ==> v.len2() >= 1,
{
    assert(v.x * v.x >= 0 && v.y * v.y >= 0 && v.z * v.z >= 0) by (nonlinear_arith);
    if !v.is_zero() {
        assert(v.x != 0 ==> v.x * v.x >= 1) by (nonlinear_arith);
        assert(v.y != 0 ==> v.y * v.y >= 1) by (nonlinear_arith);
        assert(v.z != 0 ==> v.z * v.z >= 1) by (nonlinear_arith);
    }
}

/// A normalized vector has components of at most one unit in magnitude,
/// and is zero only for the zero vector.
pub proof fn lemma_norm_input(v: V3)
    requires
        !v.is_zero(),
    ensures
        !v.norm_input().is_zero(),
        v.norm_input().len2() >= (UNIT as int) * (UNIT as int),
{
    let s = UNIT as int;
    lemma_square_le_len2(v);
    if v.len2() < s * s {
        let w = v.norm_input();
        assert(v.x != 0 ==> v.x * s != 0) by (nonlinear_arith)
            requires
                s > 0,
        ;
        assert(v.y != 0 ==> v.y * s != 0) by (nonlinear_arith)
            requires
                s > 0,
        ;
        assert(v.z != 0 ==> v.z * s != 0) by (nonlinear_arith)
            requires
                s > 0,
        ;
        assert((v.x * s) * (v.x * s) == (v.x * v.x) * (s * s)) by (nonlinear_arith);
        assert((v.y * s) * (v.y * s) == (v.y * v.y) * (s * s)) by (nonlinear_arith);
        assert((v.z * s) * (v.z * s) == (v.z * v.z) * (s * s)) by (nonlinear_arith);
        lemma_distribute3(v.x * v.x, v.y * v.y, v.z * v.z, s * s);
        assert(w.len2() == v.len2() * (s * s));
        assert(v.len2() * (s * s) >= 1 * (s * s)) by (nonlinear_arith)
            requires
                v.len2() >= 1,
                s > 0,
        ;
    }
}

/// A normalized vector has components of at most one unit in magnitude,
/// and is zero only for the zero vector.
pub proof fn lemma_norm_bounded(v: V3)
    requires
        !v.is_zero(),
    ensures
        v.norm().within(UNIT as int),
        !v.norm().is_zero(),
{
    lemma_norm_input(v);
    let w = v.norm_input();
    let n = w.len2();
    let l = sqrt_floor(n);
    lemma_square_le_len2(w);
    lemma_sqrt_floor(n);
    lemma_component_le_sqrt(w.x, n);
    lemma_component_le_sqrt(w.y, n);
    lemma_component_le_sqrt(w.z, n);
    assert(l >= 1) by {
        if l == 0 {
            assert(n < 1);
        }
    }
    assert(mag(w.x * (UNIT as int)) == mag(w.x) * (UNIT as int)) by (nonlinear_arith);
    assert(mag(w.y * (UNIT as int)) == mag(w.y) * (UNIT as int)) by (nonlinear_arith);
    assert(mag(w.z * (UNIT as int)) == mag(w.z) * (UNIT as int)) by (nonlinear_arith);
    assert(mag(w.x) * (UNIT as int) <= (UNIT as int) * mag(l)) by (nonlinear_arith)
        requires
            mag(w.x) <= l,
            mag(l) == l,
    ;
    assert(mag(w.y) * (UNIT as int) <= (UNIT as int) * mag(l)) by (nonlinear_arith)
        requires
            mag(w.y) <= l,
            mag(l) == l,
    ;
    assert(mag(w.z) * (UNIT as int) <= (UNIT as int) * mag(l)) by (nonlinear_arith)
        requires
            mag(w.z) <= l,
            mag(l) == l,
    ;
    lemma_tdiv_quotient_le(w.x * (UNIT as int), l, UNIT as int);
    lemma_tdiv_quotient_le(w.y * (UNIT as int), l, UNIT as int);
    lemma_tdiv_quotient_le(w.z * (UNIT as int), l, UNIT as int);
    // the largest component keeps at least half a unit, so the result is not zero
    let m = if mag(w.x) >= mag(w.y) && mag(w.x) >= mag(w.z) {
        w.x
    } else if mag(w.y) >= mag(w.z) {
        w.y
    } else {
        w.z
    };
    assert(n <= 3 * (mag(m) * mag(m))) by (nonlinear_arith)
        requires
            mag(w.x) <= mag(m),
            mag(w.y) <= mag(m),
            mag(w.z) <= mag(m),
            n == w.x * w.x + w.y * w.y + w.z * w.z,
    ;
    assert(l <= 2 * mag(m)) by {
        if l > 2 * mag(m) {
            assert((2 * mag(m)) * (2 * mag(m)) < l * l) by (nonlinear_arith)
                requires
                    0 <= 2 * mag(m),
                    2 * mag(m) < l,
            ;
            assert(l * l <= n);
            assert((2 * mag(m)) * (2 * mag(m)) >= 3 * (mag(m) * mag(m))) by (nonlinear_arith)
                requires
                    mag(m) >= 0,
            ;
        }
    }
    // hence |m| * UNIT / l >= UNIT / 2 > 0
    assert(mag(m) >= 1);
    let q = tdiv(m * (UNIT as int), l);
    lemma_tdiv_bounds(m * (UNIT as int), l);
    assert(mag(m * (UNIT as int)) == mag(m) * (UNIT as int)) by (nonlinear_arith);
    let k = (UNIT as int) / 2;
    assert(mag(m) * (UNIT as int) >= l * k) by (nonlinear_arith)
        requires
            l <= 2 * mag(m),
            l >= 1,
            k == (UNIT as int) / 2,
    ;
    vstd::arithmetic::div_mod::lemma_div_is_ordered(l * k, mag(m) * (UNIT as int), l);
    assert(l * k == k * l) by (nonlinear_arith);
    vstd::arithmetic::div_mod::lemma_div_by_multiple(k, l);
    assert(mag(q) >= k);
}

/// Normalization yields a unit vector up to rounding, for every nonzero
/// input: the squared length of the result never falls more than six
/// rounding steps below one square unit, nor rises more than a few steps
/// above it. (Inputs shorter than one unit keep this precision because
/// normalization pre-scales them, see [`V3::norm_input`].)
#[verifier::rlimit(60)]
pub proof fn lemma_norm_near_unit(v: V3)
    requires
        !v.is_zero(),
    ensures
        v.norm().len2() >= (UNIT as int) * (UNIT as int) - 6 * (UNIT as int),
        v.norm().len2() <= (UNIT as int) * (UNIT as int) + 2 * (UNIT as int) + 3,
{
    let s = UNIT as int;
    lemma_norm_input(v);
    let w = v.norm_input();
    let n = w.len2();
    let l = sqrt_floor(n);
    let u = v.norm();
    lemma_square_le_len2(w);
    lemma_sqrt_floor(n);
    if l == 0 {
        assert((l + 1) * (l + 1) == 1) by (nonlinear_arith)
            requires
                l == 0,
        ;
        assert(n < 1);
    }
    lemma_component_le_sqrt(w.x, n);
    lemma_component_le_sqrt(w.y, n);
    lemma_component_le_sqrt(w.z, n);
    let rx = w.x * s - u.x * l;
    let ry = w.y * s - u.y * l;
    let rz = w.z * s - u.z * l;
    lemma_norm_remainder(w.x, l, u.x);
    lemma_norm_remainder(w.y, l, u.y);
    lemma_norm_remainder(w.z, l, u.z);
    // each squared component, written through its rounding remainder
    lemma_square_expand(w.x, u.x, l, rx, s);
    lemma_square_expand(w.y, u.y, l, ry, s);
    lemma_square_expand(w.z, u.z, l, rz, s);
    let t = w.x * rx + w.y * ry + w.z * rz;
    let rr = rx * rx + ry * ry + rz * rz;
    lemma_distribute3(u.x * u.x, u.y * u.y, u.z * u.z, l * l);
    lemma_distribute3(w.x * w.x, w.y * w.y, w.z * w.z, s * s);
    lemma_distribute3(w.x * rx, w.y * ry, w.z * rz, 2 * s);
    assert(u.len2() == u.x * u.x + u.y * u.y + u.z * u.z);
    assert(u.len2() * (l * l) == (u.x * u.x) * (l * l) + (u.y * u.y) * (l * l) + (u.z * u.z) * (l
        * l));
    assert(n * (s * s) == (w.x * w.x) * (s * s) + (w.y * w.y) * (s * s) + (w.z * w.z) * (s * s));
    assert(t * (2 * s) == (w.x * rx) * (2 * s) + (w.y * ry) * (2 * s) + (w.z * rz) * (2 * s));
    assert(t * (2 * s) == 2 * s * t) by (nonlinear_arith);
    assert((w.x * rx) * (2 * s) == 2 * s * (w.x * rx)) by (nonlinear_arith);
    assert((w.y * ry) * (2 * s) == 2 * s * (w.y * ry)) by (nonlinear_arith);
    assert((w.z * rz) * (2 * s) == 2 * s * (w.z * rz)) by (nonlinear_arith);
    assert(u.len2() * (l * l) == n * (s * s) - 2 * s * t + rr);
    // the cross terms are small: each remainder shares its component's sign
    // and stays below the root
    assert(w.x * rx <= l * l && w.y * ry <= l * l && w.z * rz <= l * l) by {
        crate::math::lemma_mul_mag_le(w.x, rx, l, l);
        crate::math::lemma_mul_mag_le(w.y, ry, l, l);
        crate::math::lemma_mul_mag_le(w.z, rz, l, l);
    }
    assert(rx * rx <= l * l && ry * ry <= l * l && rz * rz <= l * l) by {
        crate::math::lemma_mul_mag_le(rx, rx, l, l);
        crate::math::lemma_mul_mag_le(ry, ry, l, l);
        crate::math::lemma_mul_mag_le(rz, rz, l, l);
    }
    assert(rx * rx >= 0 && ry * ry >= 0 && rz * rz >= 0) by (nonlinear_arith);
    // combine the bounds over the atoms of the identity; the pre-scaled
    // input is always at least a unit long, so both halves apply
    lemma_norm_lower_bound(u.len2(), n, t, rr, l, s);
    assert(l >= s) by {
        if l < s {
            assert((l + 1) * (l + 1) <= s * s) by (nonlinear_arith)
                requires
                    0 <= l + 1 <= s,
            ;
        }
    }
    assert((l + 1) * (l + 1) == l * l + 2 * l + 1) by (nonlinear_arith);
    lemma_norm_upper_bound(u.len2(), n, t, rr, l, s);
}

/// One squared term of the rounding identity.
proof fn lemma_square_expand(c: int, q: int, l: int, r: int, s: int)
    requires
        r == c * s - q * l,
    ensures
        q * q * (l * l) == c * c * (s * s) - 2 * s * (c * r) + r * r,
{
    assert((c * s - r) * (c * s - r) == c * c * (s * s) - 2 * s * (c * r) + r * r)
        by (nonlinear_arith);
    assert(q * l == c * s - r);
    assert((q * l) * (q * l) == q * q * (l * l)) by (nonlinear_arith);
    assert((q * l) * (q * l) == (c * s - r) * (c * s - r));
}

/// Multiplication distributes over a three-term sum.
proof fn lemma_distribute3(a: int, b: int, c: int, m: int)
    ensures
        (a + b + c) * m == a * m + b * m + c * m,
{
    assert((a + b + c) * m == a * m + b * m + c * m) by (nonlinear_arith);
}

/// The lower half of the unit-length bound.
proof fn lemma_norm_lower_bound(x: int, n: int, t: int, rr: int, l: int, s: int)
    requires
        x * (l * l) == n * (s * s) - 2 * s * t + rr,
        n >= l * l,
        t <= 3 * (l * l),
        rr >= 0,
        s > 0,
        l >= 1,
    ensures
        x >= s * s - 6 * s,
{
    assert(x * (l * l) >= (l * l) * (s * s - 6 * s)) by (nonlinear_arith)
        requires
            x * (l * l) == n * (s * s) - 2 * s * t + rr,
            n >= l * l,
            t <= 3 * (l * l),
            rr >= 0,
            s > 0,
            l >= 1,
    ;
    assert(x >= s * s - 6 * s) by (nonlinear_arith)
        requires
            x * (l * l) >= (l * l) * (s * s - 6 * s),
            l >= 1,
    ;
}

/// The upper half of the unit-length bound, for inputs of at least a unit.
proof fn lemma_norm_upper_bound(x: int, n: int, t: int, rr: int, l: int, s: int)
    requires
        x * (l * l) == n * (s * s) - 2 * s * t + rr,
        n <= l * l + 2 * l,
        t >= 0,
        rr <= 3 * (l * l),
        s > 0,
        l >= s,
    ensures
        x <= s * s + 2 * s + 3,
{
    assert(x * (l * l) <= (l * l) * (s * s + 2 * s + 3)) by (nonlinear_arith)
        requires
            x * (l * l) == n * (s * s) - 2 * s * t + rr,
            n <= l * l + 2 * l,
            t >= 0,
            rr <= 3 * (l * l),
            s > 0,
            l >= s,
    ;
    assert(x <= s * s + 2 * s + 3) by (nonlinear_arith)
        requires
            x * (l * l) <= (l * l) * (s * s + 2 * s + 3),
            l >= 1,
    ;
}

/// The rounding remainder of one normalized component: below the root in
/// magnitude, and never of the opposite sign to the component.
pub proof fn lemma_norm_remainder(c: int, l: int, q: int)
    requires
        l >= 1,
        q == tdiv(c * (UNIT as int), l),
    ensures
        mag(c * (UNIT as int) - q * l) < l,
        c * (c * (UNIT as int) - q * l) >= 0,
        mag(c * (c * (UNIT as int) - q * l)) <= mag(c) * l,
{
    let s = UNIT as int;
    lemma_tdiv_error(c * s, l);
    assert(mag(l) == l);
    let r = c * s - q * l;
    if c >= 0 {
        assert(c * s >= 0) by (nonlinear_arith)
            requires
                c >= 0,
                s > 0,
        ;
        assert(q * l == (c * s) - mag(c * s) % mag(l));
        assert(r >= 0);
        assert(c * r >= 0) by (nonlinear_arith)
            requires
                c >= 0,
                r >= 0,
        ;
    } else {
        assert(c * s < 0) by (nonlinear_arith)
            requires
                c < 0,
                s > 0,
        ;
        assert(q * l == (c * s) + mag(c * s) % mag(l));
        assert(r <= 0);
        assert(c * r >= 0) by (nonlinear_arith)
            requires
                c <= 0,
                r <= 0,
        ;
    }
    crate::math::lemma_mul_mag_le(c, r, mag(c), l);
}

impl Vec3 {
    /// Builds a vector from its components.
    pub fn new(x: i64, y: i64, z: i64) -> (r: Vec3)
        ensures
            r.x == x,
            r.y == y,
            r.z == z,
    {
        Vec3 { x, y, z }
    }

    /// The zero vector.
    pub fn zero() -> (r: Vec3)
        ensures
            r@.is_zero(),
    {
        Vec3 { x: 0, y: 0, z: 0 }
    }

    /// Componentwise sum.
    pub fn add(&self, rhs: &Vec3) -> (r: Vec3)
        requires
            self@.plus_fits(rhs@),
        ensures
            r@ == self@.plus(rhs@),
    {
        Vec3 { x: self.x + rhs.x, y: self.y + rhs.y, z: self.z + rhs.z }
    }

    /// Componentwise difference.
    pub fn sub(&self, rhs: &Vec3) -> (r: Vec3)
        requires
            self@.minus_fits(rhs@),
        ensures
            r@ == self@.minus(rhs@),
    {
        Vec3 { x: self.x - rhs.x, y: self.y - rhs.y, z: self.z - rhs.z }
    }

    /// Componentwise negation.
    pub fn neg(&self) -> (r: Vec3)
        requires
            self.x > i64::MIN,
            self.y > i64::MIN,
            self.z > i64::MIN,
        ensures
            r@ == self@.negv(),
    {
        Vec3 { x: -self.x, y: -self.y, z: -self.z }
    }

    /// Componentwise fixed-point product with a scalar.
    pub fn scale(&self, s: i64) -> (r: Vec3)
        requires
            self@.within(T_FAR as int),
            mag(s as int) <= T_FAR as int,
        ensures
            r@ == self@.scale_fixed(s as int),
    {
        proof {
            lemma_fmul_within(self.x as int, s as int, T_FAR as int);
            lemma_fmul_within(self.y as int, s as int, T_FAR as int);
            lemma_fmul_within(self.z as int, s as int, T_FAR as int);
        }
        Vec3 {
            x: fixed_mul(self.x, s),
            y: fixed_mul(self.y, s),
            z: fixed_mul(self.z, s),
        }
    }

    /// Fixed-point dot product, rounded toward zero once, after the exact sum.
    pub fn dot(&self, rhs: &Vec3) -> (r: i64)
        requires
            self@.within(T_FAR as int),
            rhs@.within(T_FAR as int),
        ensures
            r as int == tdiv(self@.dot(rhs@), UNIT as int),
    {
        proof {
            lemma_dot_bound(self@, rhs@, T_FAR as int, T_FAR as int);
            assert(3 * (T_FAR as int) * (T_FAR as int)
                == 3_000_000_000_000_000_000int * mag(UNIT as int));
            lemma_tdiv_quotient_le(self@.dot(rhs@), UNIT as int, 3_000_000_000_000_000_000);
        }
        let s: i128 = (self.x as i128) * (rhs.x as i128) + (self.y as i128) * (rhs.y as i128)
            + (self.z as i128) * (rhs.z as i128);
        let q = div_trunc(s, UNIT as i128);
        q as i64
    }

    /// Fixed-point cross product, each term rounded toward zero.
    pub fn cross(&self, rhs: &Vec3) -> (r: Vec3)
        requires
            self@.within(T_FAR as int),
            rhs@.within(T_FAR as int),
        ensures
            r@ == self@.cross_fixed(rhs@),
    {
        proof {
            lemma_fmul_within(self.y as int, rhs.z as int, T_FAR as int);
            lemma_fmul_within(self.z as int, rhs.y as int, T_FAR as int);
            lemma_fmul_within(self.z as int, rhs.x as int, T_FAR as int);
            lemma_fmul_within(self.x as int, rhs.z as int, T_FAR as int);
            lemma_fmul_within(self.x as int, rhs.y as int, T_FAR as int);
            lemma_fmul_within(self.y as int, rhs.x as int, T_FAR as int);
        }
        Vec3 {
            x: fixed_mul(self.y, rhs.z) - fixed_mul(self.z, rhs.y),
            y: fixed_mul(self.z, rhs.x) - fixed_mul(self.x, rhs.z),
            z: fixed_mul(self.x, rhs.y) - fixed_mul(self.y, rhs.x),
        }
    }

    /// Exact squared length.
    pub fn length_squared(&self) -> (r: i64)
        requires
            self@.len2() <= i64::MAX as int,
        ensures
            r as int == self@.len2(),
            r >= 0,
    {
        proof {
            lemma_square_le_len2(self@);
        }
        let s: i128 = (self.x as i128) * (self.x as i128) + (self.y as i128) * (self.y as i128)
            + (self.z as i128) * (self.z as i128);
        s as i64
    }

    /// Length: the integer square root of the exact squared length.
    pub fn length(&self) -> (r: i64)
        requires
            self@.len2() <= i64::MAX as int,
        ensures
            r as int == sqrt_floor(self@.len2()),
            r >= 0,
    {
        let l2 = self.length_squared();
        crate::math::isqrt_i64(l2)
    }

    /// Normalizes in place. The zero vector is the caller's error.
    pub fn normalize(&mut self)
        requires
            !old(self)@.is_zero(),
        ensures
            final(self)@ == old(self)@.norm(),
            final(self)@.within(UNIT as int),
            !final(self)@.is_zero(),
    {
        proof {
            lemma_square_le_len2(self@);
            lemma_norm_bounded(self@);
            lemma_norm_input(self@);
            assert(0 <= (self.x as int) * (self.x as int)
                <= 85070591730234615865843651857942052864int) by (nonlinear_arith)
                requires
                    i64::MIN <= self.x <= i64::MAX,
            ;
            assert(0 <= (self.y as int) * (self.y as int)
                <= 85070591730234615865843651857942052864int) by (nonlinear_arith)
                requires
                    i64::MIN <= self.y <= i64::MAX,
            ;
            assert(0 <= (self.z as int) * (self.z as int)
                <= 85070591730234615865843651857942052864int) by (nonlinear_arith)
                requires
                    i64::MIN <= self.z <= i64::MAX,
            ;
        }
        let xx: i128 = (self.x as i128) * (self.x as i128);
        let yy: i128 = (self.y as i128) * (self.y as i128);
        let zz: i128 = (self.z as i128) * (self.z as i128);
        let n: u128 = (xx as u128) + (yy as u128) + (zz as u128);
        // a vector shorter than one unit is scaled up by a whole step
        // first, so that the division below keeps its precision
        let (vx, vy, vz): (i64, i64, i64) = if n < 1_000_000_000_000u128 {
            proof {
                assert(mag(self@.x) <= 999_999 && mag(self@.y) <= 999_999 && mag(self@.z)
                    <= 999_999) by {
                    lemma_component_le_sqrt(self@.x, self@.len2());
                    lemma_component_le_sqrt(self@.y, self@.len2());
                    lemma_component_le_sqrt(self@.z, self@.len2());
                    lemma_sqrt_floor(self@.len2());
                    assert(sqrt_floor(self@.len2()) <= 999_999) by {
                        if sqrt_floor(self@.len2()) >= 1_000_000 {
                            assert(sqrt_floor(self@.len2()) * sqrt_floor(self@.len2())
                                >= 1_000_000_000_000int) by (nonlinear_arith)
                                requires
                                    sqrt_floor(self@.len2()) >= 1_000_000,
                            ;
                        }
                    }
                }
            }
            (self.x * UNIT, self.y * UNIT, self.z * UNIT)
        } else {
            (self.x, self.y, self.z)
        };
        let ghost w = self@.norm_input();
        proof {
            assert(vx as int == w.x && vy as int == w.y && vz as int == w.z);
            lemma_square_le_len2(w);
            assert(0 <= (vx as int) * (vx as int) <= 85070591730234615865843651857942052864int)
                by (nonlinear_arith)
                requires
                    i64::MIN <= vx <= i64::MAX,
            ;
            assert(0 <= (vy as int) * (vy as int) <= 85070591730234615865843651857942052864int)
                by (nonlinear_arith)
                requires
                    i64::MIN <= vy <= i64::MAX,
            ;
            assert(0 <= (vz as int) * (vz as int) <= 85070591730234615865843651857942052864int)
                by (nonlinear_arith)
                requires
                    i64::MIN <= vz <= i64::MAX,
            ;
        }
        let wxx: i128 = (vx as i128) * (vx as i128);
        let wyy: i128 = (vy as i128) * (vy as i128);
        let wzz: i128 = (vz as i128) * (vz as i128);
        let n2: u128 = (wxx as u128) + (wyy as u128) + (wzz as u128);
        let l_root = isqrt_u128(n2);
        let l: i128 = l_root as i128;
        proof {
            lemma_sqrt_floor(w.len2());
            assert(n2 as int == w.len2());
            assert(l >= 1) by {
                if l_root == 0 {
                    assert((sqrt_floor(w.len2()) + 1) * (sqrt_floor(w.len2()) + 1) == 1)
                        by (nonlinear_arith)
                        requires
                            sqrt_floor(w.len2()) == 0,
                    ;
                    assert(w.len2() < 1);
                }
            }
            crate::math::lemma_mul_mag_le(
                vx as int,
                UNIT as int,
                9_223_372_036_854_775_808,
                1_000_000,
            );
            crate::math::lemma_mul_mag_le(
                vy as int,
                UNIT as int,
                9_223_372_036_854_775_808,
                1_000_000,
            );
            crate::math::lemma_mul_mag_le(
                vz as int,
                UNIT as int,
                9_223_372_036_854_775_808,
                1_000_000,
            );
        }
        let nx = div_trunc((vx as i128) * (UNIT as i128), l);
        let ny = div_trunc((vy as i128) * (UNIT as i128), l);
        let nz = div_trunc((vz as i128) * (UNIT as i128), l);
        self.x = nx as i64;
        self.y = ny as i64;
        self.z = nz as i64;
    }

    /// The normalized copy of this vector.
    pub fn normalized(&self) -> (r: Vec3)
        requires
            !self@.is_zero(),
        ensures
            r@ == self@.norm(),
            r@.within(UNIT as int),
            !r@.is_zero(),
    {
        let mut v = *self;
        v.normalize();
        v
    }

    /// Componentwise minimum.
    pub fn min_vector(&self, rhs: &Vec3) -> (r: Vec3)
        ensures
            r@ == self@.minv(rhs@),
    {
        Vec3 {
            x: if self.x <= rhs.x {
                self.x
            } else {
                rhs.x
            },
            y: if self.y <= rhs.y {
                self.y
            } else {
                rhs.y
            },
            z: if self.z <= rhs.z {
                self.z
            } else {
                rhs.z
            },
        }
    }

    /// Componentwise maximum.
    pub fn max_vector(&self, rhs: &Vec3) -> (r: Vec3)
        ensures
            r@ == self@.maxv(rhs@),
    {
        Vec3 {
            x: if self.x >= rhs.x {
                self.x
            } else {
                rhs.x
            },
            y: if self.y >= rhs.y {
                self.y
            } else {
                rhs.y
            },
            z: if self.z >= rhs.z {
                self.z
            } else {
                rhs.z
            },
        }
    }

    /// Smallest component.
    pub fn min_component(&self) -> (r: i64)
        ensures
            r as int == self@.min_comp(),
    {
        if self.x <= self.y && self.x <= self.z {
            self.x
        } else if self.y <= self.z {
            self.y
        } else {
            self.z
        }
    }

    /// Largest component.
    pub fn max_component(&self) -> (r: i64)
        ensures
            r as int == self@.max_comp(),
    {
        if self.x >= self.y && self.x >= self.z {
            self.x
        } else if self.y >= self.z {
            self.y
        } else {
            self.z
        }
    }
}

/// A fixed-point product of values within `b` is within `b * b / UNIT`.
pub proof fn lemma_fmul_within(a: int, s: int, b: int)
    requires
        mag(a) <= b,
        mag(s) <= b,
        0 <= b <= T_FAR as int,
    ensures
        mag(fmul(a, s)) <= b * b / (UNIT as int),
        mag(fmul(a, s)) <= mag(a) * mag(s) / (UNIT as int),
{
    assert(mag(a * s) == mag(a) * mag(s)) by (nonlinear_arith);
    assert(mag(a) * mag(s) <= b * b) by (nonlinear_arith)
        requires
            0 <= mag(a) <= b,
            0 <= mag(s) <= b,
    ;
    lemma_tdiv_bounds(a * s, UNIT as int);
    vstd::arithmetic::div_mod::lemma_div_is_ordered(mag(a) * mag(s), b * b, UNIT as int);
    assert(mag(fmul(a, s)) == mag(a) * mag(s) / (UNIT as int));
    vstd::arithmetic::div_mod::lemma_div_is_ordered(
        mag(a) * mag(s),
        mag(a) * mag(s),
        UNIT as int,
    );
}

/// The scalar triple product is invariant under cyclic rotation:
/// `u . (v x w) == v . (w x u)`.
#[verifier::rlimit(100)]
pub proof fn lemma_scalar_triple(u: V3, v: V3, w: V3)
    ensures
        u.dot(v.cross_raw(w)) == v.dot(w.cross_raw(u)),
{
    let c1 = v.cross_raw(w);
    let c2 = w.cross_raw(u);
    assert(u.x * c1.x == u.x * (v.y * w.z) - u.x * (v.z * w.y)) by (nonlinear_arith)
        requires
            c1.x == v.y * w.z - v.z * w.y,
    ;
    assert(u.y * c1.y == u.y * (v.z * w.x) - u.y * (v.x * w.z)) by (nonlinear_arith)
        requires
            c1.y == v.z * w.x - v.x * w.z,
    ;
    assert(u.z * c1.z == u.z * (v.x * w.y) - u.z * (v.y * w.x)) by (nonlinear_arith)
        requires
            c1.z == v.x * w.y - v.y * w.x,
    ;
    assert(v.x * c2.x == v.x * (w.y * u.z) - v.x * (w.z * u.y)) by (nonlinear_arith)
        requires
            c2.x == w.y * u.z - w.z * u.y,
    ;
    assert(v.y * c2.y == v.y * (w.z * u.x) - v.y * (w.x * u.z)) by (nonlinear_arith)
        requires
            c2.y == w.z * u.x - w.x * u.z,
    ;
    assert(v.z * c2.z == v.z * (w.x * u.y) - v.z * (w.y * u.x)) by (nonlinear_arith)
        requires
            c2.z == w.x * u.y - w.y * u.x,
    ;
    assert(u.x * (v.y * w.z) == v.y * (w.z * u.x)) by (nonlinear_arith);
    assert(u.x * (v.z * w.y) == v.z * (w.y * u.x)) by (nonlinear_arith);
    assert(u.y * (v.z * w.x) == v.z * (w.x * u.y)) by (nonlinear_arith);
    assert(u.y * (v.x * w.z) == v.x * (w.z * u.y)) by (nonlinear_arith);
    assert(u.z * (v.x * w.y) == v.x * (w.y * u.z)) by (nonlinear_arith);
    assert(u.z * (v.y * w.x) == v.y * (w.x * u.z)) by (nonlinear_arith);
}

/// A vector is orthogonal to its own cross products:
/// `v . (v x w) == 0` and `w . (v x w) == 0`.
pub proof fn lemma_cross_orthogonal(v: V3, w: V3)
    ensures
        v.dot(v.cross_raw(w)) == 0,
        w.dot(v.cross_raw(w)) == 0,
{
    assert(v.dot(v.cross_raw(w)) == 0) by (nonlinear_arith);
    assert(w.dot(v.cross_raw(w)) == 0) by (nonlinear_arith);
}

/// The exact dot product of bounded vectors is bounded.
pub proof fn lemma_dot_bound(a: V3, b: V3, ba: int, bb: int)
    requires
        a.within(ba),
        b.within(bb),
        0 <= ba,
        0 <= bb,
    ensures
        mag(a.dot(b)) <= 3 * ba * bb,
        mag(a.x * b.x) <= ba * bb,
        mag(a.y * b.y) <= ba * bb,
        mag(a.z * b.z) <= ba * bb,
{
    assert(mag(a.x * b.x) == mag(a.x) * mag(b.x)) by (nonlinear_arith);
    assert(mag(a.y * b.y) == mag(a.y) * mag(b.y)) by (nonlinear_arith);
    assert(mag(a.z * b.z) == mag(a.z) * mag(b.z)) by (nonlinear_arith);
    assert(mag(a.x) * mag(b.x) <= ba * bb) by (nonlinear_arith)
        requires
            0 <= mag(a.x) <= ba,
            0 <= mag(b.x) <= bb,
    ;
    assert(mag(a.y) * mag(b.y) <= ba * bb) by (nonlinear_arith)
        requires
            0 <= mag(a.y) <= ba,
            0 <= mag(b.y) <= bb,
    ;
    assert(mag(a.z) * mag(b.z) <= ba * bb) by (nonlinear_arith)
        requires
            0 <= mag(a.z) <= ba,
            0 <= mag(b.z) <= bb,
    ;
    assert(3 * (ba * bb) == 3 * ba * bb) by (nonlinear_arith);
}

impl ApproxEq for Vec3 {
    open spec fn approx_spec(&self, rhs: &Self) -> bool {
        mag(self@.x - rhs@.x) < EPSILON as int && mag(self@.y - rhs@.y) < EPSILON as int && mag(
            self@.z - rhs@.z,
        ) < EPSILON as int
    }

    fn a_eq(&self, rhs: &Self) -> (r: bool) {
        self.x.a_eq(&rhs.x) && self.y.a_eq(&rhs.y) && self.z.a_eq(&rhs.z)
    }
}

} // verus!
