//! Fixed-point scalar arithmetic: the number model, truncated division,
//! fixed-point multiplication and an integer square root.

use vstd::prelude::*;

pub mod vec2;
pub mod vec3;

verus! {

/// Raw steps in one unit of length (or one unit of color intensity):
/// every quantity in the crate is stored as a count of millionths.
pub const UNIT: i64 = 1_000_000;

/// Comparison tolerance: one thousandth of a unit.
pub const EPSILON: i64 = 1_000;

/// Largest magnitude accepted for a scene coordinate (one thousand units).
pub const COORD_LIMIT: i64 = 1_000_000_000;

/// Far clipping distance, the default upper bound of a ray's interval
/// (one million units, far outside any representable scene).
pub const T_FAR: i64 = 1_000_000_000_000;

/// Magnitude of an integer.
pub open spec fn mag(a: int) -> int {
    if a < 0 {
        -a
    } else {
        a
    }
}

/// Division rounded toward zero, the rounding of Rust's `/` on signed
/// integers. Unspecified for `b == 0`.
pub open spec fn tdiv(a: int, b: int) -> int {
    let q = mag(a) / mag(b);
    if (a < 0) != (b < 0) {
        -q
    } else {
        q
    }
}

/// Product of two fixed-point numbers, rounded toward zero.
pub open spec fn fmul(a: int, b: int) -> int {
    tdiv(a * b, UNIT as int)
}

/// Quotient of two fixed-point numbers, rounded toward zero.
pub open spec fn fdiv(a: int, b: int) -> int {
    tdiv(a * (UNIT as int), b)
}

/// The integer square root: greatest `r` with `r * r <= n` (0 for `n <= 0`).
pub open spec fn sqrt_floor(n: int) -> int
    decreases n,
{
    if n <= 0 {
        0
    } else {
        let r = sqrt_floor(n - 1);
        if (r + 1) * (r + 1) <= n {
            r + 1
        } else {
            r
        }
    }
}

/// `sqrt_floor` is the floor of the square root.
pub proof fn lemma_sqrt_floor(n: int)
    requires
        n >= 0,
    ensures
        0 <= sqrt_floor(n),
        sqrt_floor(n) * sqrt_floor(n) <= n,
        n < (sqrt_floor(n) + 1) * (sqrt_floor(n) + 1),
    decreases n,
{
    if n > 0 {
        lemma_sqrt_floor(n - 1);
        let r = sqrt_floor(n - 1);
        if (r + 1) * (r + 1) <= n {
            assert((r + 2) * (r + 2) > (r + 1) * (r + 1)) by (nonlinear_arith)
                requires
                    r >= 0,
            ;
        }
    }
}

/// Facts about truncated division: the quotient's magnitude is the Euclidean
/// quotient of the magnitudes, never larger than the dividend's magnitude.
pub proof fn lemma_tdiv_bounds(a: int, b: int)
    requires
        b != 0,
    ensures
        mag(tdiv(a, b)) == mag(a) / mag(b),
        0 <= mag(a) / mag(b) <= mag(a),
        mag(a) < mag(b) ==> tdiv(a, b) == 0,
{
    vstd::arithmetic::div_mod::lemma_div_pos_is_pos(mag(a), mag(b));
    vstd::arithmetic::div_mod::lemma_div_nonincreasing(mag(a), mag(b));
    if mag(a) < mag(b) {
        vstd::arithmetic::div_mod::lemma_basic_div(mag(a), mag(b));
    }
}

/// Any integer in the floor-square-root window of `n` is `sqrt_floor(n)`.
pub proof fn lemma_sqrt_floor_unique(n: int, r: int)
    requires
        n >= 0,
        r >= 0,
        r * r <= n,
        n < (r + 1) * (r + 1),
    ensures
        r == sqrt_floor(n),
{
    lemma_sqrt_floor(n);
    let s = sqrt_floor(n);
    if r < s {
        assert((r + 1) * (r + 1) <= s * s) by (nonlinear_arith)
            requires
                0 <= r + 1 <= s,
        ;
    }
    if s < r {
        assert((s + 1) * (s + 1) <= r * r) by (nonlinear_arith)
            requires
                0 <= s + 1 <= r,
        ;
    }
}

/// An exact multiple divides back to the factor.
pub proof fn lemma_tdiv_mul_exact(q: int, b: int)
    requires
        b != 0,
    ensures
        tdiv(q * b, b) == q,
{
    assert(mag(q * b) == mag(q) * mag(b)) by (nonlinear_arith);
    vstd::arithmetic::div_mod::lemma_div_by_multiple(mag(q), mag(b));
    assert(mag(q * b) / mag(b) == mag(q));
    if q == 0 {
        assert(tdiv(q * b, b) == 0);
    } else if (q < 0) == (b < 0) {
        assert(q * b >= 0) by (nonlinear_arith)
            requires
                (q < 0) == (b < 0),
        ;
    } else {
        assert(q * b < 0) by (nonlinear_arith)
            requires
                q != 0,
                b != 0,
                (q < 0) != (b < 0),
        ;
    }
}

/// Truncated division satisfies the division algorithm: the rounded-back
/// product differs from the dividend by less than the divisor, on the
/// zero-ward side.
pub proof fn lemma_tdiv_error(a: int, b: int)
    requires
        b != 0,
    ensures
        a >= 0 ==> tdiv(a, b) * b == a - (mag(a) % mag(b)),
        a < 0 ==> tdiv(a, b) * b == a + (mag(a) % mag(b)),
        0 <= mag(a) % mag(b) < mag(b),
{
    let q0 = mag(a) / mag(b);
    let r0 = mag(a) % mag(b);
    vstd::arithmetic::div_mod::lemma_fundamental_div_mod(mag(a), mag(b));
    vstd::arithmetic::div_mod::lemma_mod_bound(mag(a), mag(b));
    assert(mag(a) == mag(b) * q0 + r0);
    if b < 0 {
        assert(q0 * b == -(q0 * mag(b))) by (nonlinear_arith)
            requires
                mag(b) == -b,
        ;
        assert((-q0) * b == q0 * mag(b)) by (nonlinear_arith)
            requires
                mag(b) == -b,
        ;
    } else {
        assert(q0 * b == q0 * mag(b)) by (nonlinear_arith)
            requires
                mag(b) == b,
        ;
        assert((-q0) * b == -(q0 * mag(b))) by (nonlinear_arith)
            requires
                mag(b) == b,
        ;
    }
    assert(q0 * mag(b) == mag(b) * q0) by (nonlinear_arith);
}

/// Multiplication distributes over a two-term difference.
pub proof fn lemma_distribute2(a: int, b: int, m: int)
    ensures
        (a - b) * m == a * m - b * m,
        m * (a - b) == m * a - m * b,
        m * (a + b) == m * a + m * b,
{
    assert((a - b) * m == a * m - b * m) by (nonlinear_arith);
    assert(m * (a - b) == m * a - m * b) by (nonlinear_arith);
    assert(m * (a + b) == m * a + m * b) by (nonlinear_arith);
}

/// Products regroup around their middle factor.
pub proof fn lemma_reassoc(a: int, b: int, c: int)
    ensures
        a * (b * c) == b * (a * c),
{
    assert(a * (b * c) == b * (a * c)) by (nonlinear_arith);
}

/// Multiplication distributes over a three-term sum.
pub proof fn lemma_distribute3(a: int, b: int, c: int, m: int)
    ensures
        (a + b + c) * m == a * m + b * m + c * m,
        m * (a + b + c) == m * a + m * b + m * c,
{
    assert((a + b + c) * m == a * m + b * m + c * m) by (nonlinear_arith);
    assert(m * (a + b + c) == m * a + m * b + m * c) by (nonlinear_arith);
}

/// The magnitude of a product of bounded factors.
pub proof fn lemma_mul_mag_le(x: int, y: int, cx: int, cy: int)
    requires
        mag(x) <= cx,
        mag(y) <= cy,
        0 <= cx,
        0 <= cy,
    ensures
        mag(x * y) <= cx * cy,
{
    assert(mag(x * y) == mag(x) * mag(y)) by (nonlinear_arith);
    assert(mag(x) * mag(y) <= cx * cy) by (nonlinear_arith)
        requires
            0 <= mag(x) <= cx,
            0 <= mag(y) <= cy,
    ;
}

/// A fixed-point product of bounded factors is bounded.
pub proof fn lemma_fmul_bound(a: int, b: int, ca: int, cb: int, c: int)
    requires
        mag(a) <= ca,
        mag(b) <= cb,
        0 <= ca,
        0 <= cb,
        ca * cb <= c * (UNIT as int),
        0 <= c,
    ensures
        mag(fmul(a, b)) <= c,
{
    assert(mag(a * b) == mag(a) * mag(b)) by (nonlinear_arith);
    assert(mag(a) * mag(b) <= ca * cb) by (nonlinear_arith)
        requires
            0 <= mag(a) <= ca,
            0 <= mag(b) <= cb,
    ;
    lemma_tdiv_quotient_le(a * b, UNIT as int, c);
}

/// A magnitude bound on the dividend gives a bound on the quotient.
pub proof fn lemma_tdiv_quotient_le(a: int, b: int, c: int)
    requires
        b != 0,
        c >= 0,
        mag(a) <= c * mag(b),
    ensures
        mag(tdiv(a, b)) <= c,
{
    lemma_tdiv_bounds(a, b);
    assert(mag(b) * c == c * mag(b)) by (nonlinear_arith);
    vstd::arithmetic::div_mod::lemma_multiply_divide_le(mag(a), mag(b), c);
}

/// The quotient's sign follows the operands' signs.
pub proof fn lemma_tdiv_sign(a: int, b: int)
    requires
        b != 0,
    ensures
        (a >= 0 && b > 0) ==> tdiv(a, b) >= 0,
        (a <= 0 && b < 0) ==> tdiv(a, b) >= 0,
        (a >= 0 && b < 0) ==> tdiv(a, b) <= 0,
        (a <= 0 && b > 0) ==> tdiv(a, b) <= 0,
{
    lemma_tdiv_bounds(a, b);
}

/// A dividend at least as large as the divisor gives a quotient of at
/// least one in magnitude.
pub proof fn lemma_tdiv_ge_one(a: int, b: int)
    requires
        b != 0,
        mag(a) >= mag(b),
    ensures
        mag(tdiv(a, b)) >= 1,
{
    lemma_tdiv_bounds(a, b);
    vstd::arithmetic::div_mod::lemma_div_is_ordered(mag(b), mag(a), mag(b));
    vstd::arithmetic::div_mod::lemma_div_by_self(mag(b));
}

/// For nonnegative operands, truncated division is Euclidean division.
pub proof fn lemma_tdiv_nonneg(a: int, b: int)
    requires
        a >= 0,
        b > 0,
    ensures
        tdiv(a, b) == a / b,
{
}

/// A common positive factor preserves order when cancelled.
pub proof fn lemma_cancel_le(m: int, x: int, y: int)
    requires
        m >= 1,
        m * x <= m * y,
    ensures
        x <= y,
{
    assert(x <= y) by (nonlinear_arith)
        requires
            m >= 1,
            m * x <= m * y,
    ;
}

/// Truncated division on machine integers.
pub fn div_trunc(a: i128, b: i128) -> (q: i128)
    requires
        b != 0,
        !(a == i128::MIN && b == -1),
    ensures
        q == tdiv(a as int, b as int),
{
    proof {
        let x = a as int;
        let d = b as int;
        lemma_tdiv_bounds(x, d);
        if d == 1 {
            assert(mag(x) / 1int == mag(x));
            assert(tdiv(x, d) == x);
        } else if d == -1 {
            assert(mag(x) / 1int == mag(x));
            assert(tdiv(x, d) == -x);
        } else {
            assert(mag(d) >= 2);
            vstd::arithmetic::div_mod::lemma_div_is_ordered_by_denominator(mag(x), 2, mag(d));
            vstd::arithmetic::div_mod::lemma_div_is_ordered(
                mag(x),
                170141183460469231731687303715884105728,
                2,
            );
            assert(mag(x) / mag(d) <= 85070591730234615865843651857942052864int);
        }
        assert(i128::MIN <= tdiv(x, d) <= i128::MAX);
    }
    let q = a.checked_div(b);
    q.unwrap()
}

/// Fixed-point product on machine integers.
pub fn fixed_mul(a: i64, b: i64) -> (r: i64)
    requires
        -(i64::MAX as int) <= fmul(a as int, b as int) <= i64::MAX as int,
    ensures
        r as int == fmul(a as int, b as int),
{
    proof {
        assert((a as int) * (b as int) < i128::MAX && i128::MIN < (a as int) * (b as int))
            by (nonlinear_arith)
            requires
                i64::MIN <= a <= i64::MAX,
                i64::MIN <= b <= i64::MAX,
        ;
    }
    let p: i128 = (a as i128) * (b as i128);
    let q = div_trunc(p, UNIT as i128);
    q as i64
}

/// Integer square root of an unsigned 128-bit integer, by bisection.
pub fn isqrt_u128(n: u128) -> (r: u128)
    ensures
        r as int == sqrt_floor(n as int),
        r < 18_446_744_073_709_551_616u128,
{
    let mut lo: u128 = 0;
    let mut hi: u128 = 18_446_744_073_709_551_616;
    proof {
        assert((hi as int) * (hi as int) > u128::MAX) by (nonlinear_arith)
            requires
                hi == 18_446_744_073_709_551_616u128,
        ;
    }
    while lo + 1 < hi
        invariant
            0 <= lo < hi <= 18_446_744_073_709_551_616u128,
            (lo as int) * (lo as int) <= n as int,
            (n as int) < (hi as int) * (hi as int),
        decreases hi - lo,
    {
        let mid = lo + (hi - lo) / 2;
        proof {
            assert((mid as int) * (mid as int) <= u128::MAX) by (nonlinear_arith)
                requires
                    0 <= mid < 18_446_744_073_709_551_616u128,
            ;
        }
        if mid * mid <= n {
            lo = mid;
        } else {
            hi = mid;
        }
    }
    proof {
        lemma_sqrt_floor_unique(n as int, lo as int);
    }
    lo
}

/// Integer square root of a nonnegative signed 64-bit integer.
pub fn isqrt_i64(n: i64) -> (r: i64)
    requires
        n >= 0,
    ensures
        r as int == sqrt_floor(n as int),
        0 <= r <= n,
{
    let r = isqrt_u128(n as u128);
    proof {
        lemma_sqrt_floor(n as int);
        assert(sqrt_floor(n as int) <= n as int) by (nonlinear_arith)
            requires
                0 <= sqrt_floor(n as int),
                sqrt_floor(n as int) * sqrt_floor(n as int) <= n as int,
        ;
    }
    r as i64
}

/// Integer square root of a nonnegative signed 128-bit integer.
pub fn isqrt_i128(n: i128) -> (r: i128)
    requires
        n >= 0,
    ensures
        r as int == sqrt_floor(n as int),
        0 <= r,
        (r as int) * (r as int) <= n as int,
{
    let r = isqrt_u128(n as u128);
    proof {
        lemma_sqrt_floor(n as int);
    }
    r as i128
}

/// Approximate equality, within [`EPSILON`].
pub trait ApproxEq {
    /// What `a_eq` decides for this type.
    spec fn approx_spec(&self, rhs: &Self) -> bool;

    /// True when the two values differ by less than the tolerance.
    fn a_eq(&self, rhs: &Self) -> (r: bool)
        ensures
            r == self.approx_spec(rhs),
    ;
}

impl ApproxEq for i64 {
    open spec fn approx_spec(&self, rhs: &Self) -> bool {
        mag(*self - *rhs) < EPSILON as int
    }

    fn a_eq(&self, rhs: &Self) -> (r: bool) {
        let d: i128 = (*self as i128) - (*rhs as i128);
        let m: i128 = if d < 0 {
            -d
        } else {
            d
        };
        m < EPSILON as i128
    }
}

} // verus!
