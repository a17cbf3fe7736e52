//! Rays: an origin, a normalized direction with its cached reciprocal,
//! and the interval of accepted hit parameters.

use vstd::prelude::*;
use crate::math::mag;
use crate::math::tdiv;
use crate::math::fmul;
use crate::math::lemma_tdiv_bounds;
use crate::math::lemma_tdiv_quotient_le;
use crate::math::div_trunc;
use crate::math::fixed_mul;
use crate::math::UNIT;
use crate::math::EPSILON;
use crate::math::T_FAR;
use crate::math::vec3::Vec3;
use crate::math::vec3::V3;

verus! {

/// Largest parameter magnitude accepted by [`Ray::at`]; far larger than any
/// parameter a well-formed scene can produce, yet safely inside the 64-bit range.
pub const AT_LIMIT: i64 = 4_000_000_000_000_000_000;

/// Largest magnitude accepted for a ray origin: looser than the scene
/// coordinate range, so that a shadow ray may start at any clipped hit point.
pub const ORIGIN_LIMIT: i64 = 2_000_000_000_000;

/// Largest value accepted for the ends of a ray's parameter interval; the
/// default far clip [`T_FAR`] is well inside it, leaving room for shadow
/// rays bounded by an exact distance to a light.
pub const DIST_LIMIT: i64 = 4_000_000_000_000;

/// A half line with a fixed-point parameter interval `[min_distance, max_distance)`.
#[derive(Copy, Clone, Debug, PartialEq, Eq, Structural)]
pub struct Ray {
    pub origin: Vec3,
    pub direction: Vec3,
    pub recip_direction: Vec3,
    pub min_distance: i64,
    pub max_distance: i64,
}

impl Ray {
    /// Well-formed: a bounded origin, a direction of unit length up to
    /// normalization rounding (at most one unit per component, squared
    /// length within a few steps of one square unit), the cached
    /// componentwise reciprocal of the direction, and an interval within
    /// the far clip.
    pub open spec fn wf(self) -> bool {
        &&& self.origin@.within(ORIGIN_LIMIT as int)
        &&& self.direction@.within(UNIT as int)
        &&& !self.direction@.is_zero()
        &&& (UNIT as int) * (UNIT as int) - 6 * (UNIT as int) <= self.direction@.len2()
        &&& self.direction@.len2() <= (UNIT as int) * (UNIT as int) + 2 * (UNIT as int) + 3
        &&& self.recip_direction@ == self.direction@.recipv()
        &&& 0 <= self.min_distance <= DIST_LIMIT
        &&& 0 <= self.max_distance <= DIST_LIMIT
    }

    /// The point reached after travelling `t` along the direction.
    pub open spec fn at_spec(self, t: int) -> V3 {
        self.origin@.plus(self.direction@.scale_fixed(t))
    }

    /// Builds a ray. The direction is normalized; its reciprocal is cached
    /// componentwise (zero components keep a zero reciprocal). A missing
    /// lower bound defaults to [`EPSILON`] to avoid self-intersection, a
    /// missing upper bound to the far clip [`T_FAR`].
    pub fn new(
        origin: Vec3,
        direction: Vec3,
        min_distance: Option<i64>,
        max_distance: Option<i64>,
    ) -> (r: Ray)
        requires
            origin@.within(ORIGIN_LIMIT as int),
            !direction@.is_zero(),
            match min_distance {
                Some(m) => 0 <= m <= DIST_LIMIT,
                None => true,
            },
            match max_distance {
                Some(m) => 0 <= m <= DIST_LIMIT,
                None => true,
            },
        ensures
            r.origin == origin,
            r.direction@ == direction@.norm(),
            r.recip_direction@ == r.direction@.recipv(),
            r.min_distance as int == match min_distance {
                Some(m) => m as int,
                None => EPSILON as int,
            },
            r.max_distance as int == match max_distance {
                Some(m) => m as int,
                None => T_FAR as int,
            },
            r.wf(),
    {
        let d = direction.normalized();
        proof {
            crate::math::vec3::lemma_norm_near_unit(direction@);
        }
        let recip = recip_vector(&d);
        Ray {
            origin,
            direction: d,
            recip_direction: recip,
            min_distance: match min_distance {
                Some(m) => m,
                None => EPSILON,
            },
            max_distance: match max_distance {
                Some(m) => m,
                None => T_FAR,
            },
        }
    }

    /// The point reached after travelling `t` along the direction, each
    /// component rounded toward zero.
    pub fn at(&self, t: i64) -> (p: Vec3)
        requires
            self.wf(),
            mag(t as int) <= AT_LIMIT as int,
        ensures
            p@ == self.at_spec(t as int),
    {
        proof {
            lemma_unit_fmul_le(self.direction@.x, t as int);
            lemma_unit_fmul_le(self.direction@.y, t as int);
            lemma_unit_fmul_le(self.direction@.z, t as int);
        }
        let sx = fixed_mul(self.direction.x, t);
        let sy = fixed_mul(self.direction.y, t);
        let sz = fixed_mul(self.direction.z, t);
        Vec3 { x: self.origin.x + sx, y: self.origin.y + sy, z: self.origin.z + sz }
    }
}

/// A fixed-point product with a unit-bounded factor cannot grow the other factor.
pub proof fn lemma_unit_fmul_le(d: int, t: int)
    requires
        mag(d) <= UNIT as int,
    ensures
        mag(fmul(d, t)) <= mag(t),
{
    assert(mag(d * t) == mag(d) * mag(t)) by (nonlinear_arith);
    assert(mag(d) * mag(t) <= mag(t) * (UNIT as int)) by (nonlinear_arith)
        requires
            0 <= mag(d) <= UNIT as int,
            0 <= mag(t),
    ;
    lemma_tdiv_quotient_le(d * t, UNIT as int, mag(t));
}

/// The cached componentwise reciprocal of a direction.
fn recip_vector(d: &Vec3) -> (r: Vec3)
    ensures
        r@ == d@.recipv(),
{
    Vec3 { x: recip_component(d.x), y: recip_component(d.y), z: recip_component(d.z) }
}

/// One fixed-point reciprocal component; zero stays zero.
fn recip_component(d: i64) -> (r: i64)
    ensures
        d == 0 ==> r == 0,
        d != 0 ==> r as int == tdiv((UNIT as int) * (UNIT as int), d as int),
{
    if d == 0 {
        0
    } else {
        proof {
            lemma_tdiv_bounds((UNIT as int) * (UNIT as int), d as int);
        }
        let q = div_trunc((UNIT as i128) * (UNIT as i128), d as i128);
        q as i64
    }
}

} // verus!
