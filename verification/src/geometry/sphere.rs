//! Spheres, with the classic closest-approach intersection test.
//! Only exterior hits are reported: a ray starting inside the sphere finds
//! nothing, a deliberate simplification of this renderer.

use vstd::prelude::*;
use crate::math::mag;
use crate::math::tdiv;
use crate::math::fmul;
use crate::math::sqrt_floor;
use crate::math::lemma_sqrt_floor;
use crate::math::lemma_sqrt_floor_unique;
use crate::math::lemma_tdiv_quotient_le;
use crate::math::div_trunc;
use crate::math::isqrt_i128;
use crate::math::UNIT;
use crate::math::COORD_LIMIT;
use crate::math::vec3::Vec3;
use crate::math::vec3::V3;
use crate::math::vec3::lemma_dot_bound;
use crate::ray::Ray;
use crate::geometry::Geometry;
use crate::geometry::Hit;
use crate::geometry::HitV;
use crate::geometry::Aabb;
use crate::geometry::opt_hit_view;

verus! {

/// A sphere: center and radius.
#[derive(Copy, Clone, Debug, PartialEq, Eq, Structural)]
pub struct Sphere {
    pub center: Vec3,
    pub radius: i64,
}

impl Sphere {
    /// Builds a sphere.
    pub fn new(c: Vec3, r: i64) -> (s: Sphere)
        ensures
            s.center == c,
            s.radius == r,
    {
        Sphere { center: c, radius: r }
    }

    /// The vector from the ray origin to the center.
    pub open spec fn oc(self, ray: Ray) -> V3 {
        self.center@.minus(ray.origin@)
    }

    /// The ray parameter of the point closest to the center: the projection
    /// of `oc` onto the unit direction, rounded toward zero.
    pub open spec fn approach(self, ray: Ray) -> int {
        tdiv(self.oc(ray).dot(ray.direction@), UNIT as int)
    }

    /// Squared distance from the center to the closest point of the ray.
    pub open spec fn height2(self, ray: Ray) -> int {
        self.center@.minus(ray.at_spec(self.approach(ray))).len2()
    }

    /// The squared radius, exact.
    pub open spec fn radius2(self) -> int {
        (self.radius as int) * (self.radius as int)
    }

    /// The entry parameter: step back from the closest point by the
    /// half-chord `sqrt(radius^2 - height^2)`.
    pub open spec fn hit_distance(self, ray: Ray) -> int {
        self.approach(ray) - sqrt_floor(self.radius2() - self.height2(ray))
    }

    /// The mathematical hit: the entry point if the closest approach is
    /// inside the sphere and the entry parameter lies in the ray's interval.
    /// The normal is the normalized surface offset; only for spheres a few
    /// raw steps wide can that offset collapse to zero, in which case the
    /// zero vector stands where the floating-point formulation would
    /// produce an undefined normal (see the aimed-hit law for the proof
    /// that ordinary configurations always carry a true unit normal).
    pub open spec fn sphere_hit(self, ray: Ray) -> Option<HitV> {
        if self.height2(ray) > self.radius2() {
            None
        } else {
            let t = self.hit_distance(ray);
            if ray.min_distance as int <= t && t < ray.max_distance as int {
                let p = ray.at_spec(t);
                Some(
                    HitV {
                        point: p,
                        normal: p.minus(self.center@).norm_or_zero(),
                        distance: t,
                    },
                )
            } else {
                None
            }
        }
    }

    /// Computes the entry parameter, or reports that the closest approach
    /// misses the sphere.
    fn entry_distance(&self, ray: &Ray) -> (res: Option<i64>)
        requires
            self.wf(),
            ray.wf(),
        ensures
            match res {
                Some(t) => {
                    &&& self.height2(*ray) <= self.radius2()
                    &&& t as int == self.hit_distance(*ray)
                    &&& mag(t as int) <= 10_000_000_000_000int
                },
                None => self.height2(*ray) > self.radius2(),
            },
    {
        let mo = self.center.sub(&ray.origin);
        proof {
            lemma_dot_bound(mo@, ray.direction@, 3_000_000_000_000, UNIT as int);
            lemma_tdiv_quotient_le(mo@.dot(ray.direction@), UNIT as int, 9_000_000_000_000);
        }
        let dnum: i128 = (mo.x as i128) * (ray.direction.x as i128) + (mo.y as i128)
            * (ray.direction.y as i128) + (mo.z as i128) * (ray.direction.z as i128);
        let t_close_wide = div_trunc(dnum, UNIT as i128);
        let t_close = t_close_wide as i64;
        let p_close = ray.at(t_close);
        proof {
            crate::ray::lemma_unit_fmul_le(ray.direction@.x, t_close as int);
            crate::ray::lemma_unit_fmul_le(ray.direction@.y, t_close as int);
            crate::ray::lemma_unit_fmul_le(ray.direction@.z, t_close as int);
        }
        let hv = self.center.sub(&p_close);
        proof {
            lemma_dot_bound(hv@, hv@, 12_000_000_000_000, 12_000_000_000_000);
        }
        let h2: i128 = (hv.x as i128) * (hv.x as i128) + (hv.y as i128) * (hv.y as i128) + (
        hv.z as i128) * (hv.z as i128);
        proof {
            assert(self.radius2() <= 1_000_000_000_000_000_000int) by (nonlinear_arith)
                requires
                    0 <= self.radius <= COORD_LIMIT,
                    COORD_LIMIT == 1_000_000_000i64,
                    self.radius2() == (self.radius as int) * (self.radius as int),
            ;
        }
        let r2: i128 = (self.radius as i128) * (self.radius as i128);
        if h2 > r2 {
            return None;
        }
        proof {
            crate::math::vec3::lemma_square_le_len2(hv@);
        }
        let s_root = isqrt_i128(r2 - h2);
        proof {
            lemma_sqrt_floor((r2 - h2) as int);
            assert(s_root <= 1_000_000_000int) by (nonlinear_arith)
                requires
                    0 <= s_root as int,
                    (s_root as int) * (s_root as int) <= (r2 - h2) as int,
                    (r2 - h2) as int <= 1_000_000_000_000_000_000int,
            ;
        }
        Some(t_close - (s_root as i64))
    }
}

/// A ray whose closest approach to the center passes farther out than the
/// radius reports no hit.
pub proof fn lemma_miss_when_approach_outside(s: Sphere, ray: Ray)
    requires
        s.height2(ray) > s.radius2(),
    ensures
        s.spec_hit(ray) is None,
{
}

/// A ray aimed straight at the center from outside hits the near surface:
/// at distance-to-center minus radius exactly, with the normal pointing
/// back along the ray, away from the center. The configuration is exact:
/// the direction is exactly unit length, the center sits `k` direction
/// steps from the origin, and the radius is a whole number of direction
/// steps.
pub proof fn lemma_frontal_hit(s: Sphere, ray: Ray, k: int)
    requires
        ray.direction@.len2() == (UNIT as int) * (UNIT as int),
        (UNIT as int) * s.oc(ray).x == k * ray.direction@.x,
        (UNIT as int) * s.oc(ray).y == k * ray.direction@.y,
        (UNIT as int) * s.oc(ray).z == k * ray.direction@.z,
        (s.radius as int) * ray.direction@.x % (UNIT as int) == 0,
        (s.radius as int) * ray.direction@.y % (UNIT as int) == 0,
        (s.radius as int) * ray.direction@.z % (UNIT as int) == 0,
        1 <= s.radius < k,
        ray.min_distance as int <= k - s.radius < ray.max_distance as int,
    ensures
        sqrt_floor(s.oc(ray).len2()) == k,
        match s.spec_hit(ray) {
            Some(hit) => {
                &&& hit.distance == sqrt_floor(s.oc(ray).len2()) - s.radius
                &&& hit.normal == ray.direction@.negv()
            },
            None => false,
        },
{
    let su = UNIT as int;
    let d = ray.direction@;
    let oc = s.oc(ray);
    let r = s.radius as int;
    // the center lies k steps along the unit direction, so the projection
    // of the center offset onto the direction is exactly k
    assert((su * oc.x) * d.x == k * (d.x * d.x)) by (nonlinear_arith)
        requires
            su * oc.x == k * d.x,
    ;
    assert((su * oc.y) * d.y == k * (d.y * d.y)) by (nonlinear_arith)
        requires
            su * oc.y == k * d.y,
    ;
    assert((su * oc.z) * d.z == k * (d.z * d.z)) by (nonlinear_arith)
        requires
            su * oc.z == k * d.z,
    ;
    assert((su * oc.x) * d.x == su * (oc.x * d.x)) by (nonlinear_arith);
    assert((su * oc.y) * d.y == su * (oc.y * d.y)) by (nonlinear_arith);
    assert((su * oc.z) * d.z == su * (oc.z * d.z)) by (nonlinear_arith);
    crate::math::lemma_distribute3(oc.x * d.x, oc.y * d.y, oc.z * d.z, su);
    crate::math::lemma_distribute3(d.x * d.x, d.y * d.y, d.z * d.z, k);
    assert(su * oc.dot(d) == k * d.len2());
    assert(k * (su * su) == su * (k * su)) by (nonlinear_arith);
    lemma_cancel(su, oc.dot(d), k * su);
    crate::math::lemma_tdiv_mul_exact(k, su);
    assert(s.approach(ray) == k) by {
        assert(oc.dot(d) == k * su);
    }
    // the closest point of the ray is the center itself
    assert(d.x * k == oc.x * su) by (nonlinear_arith)
        requires
            su * oc.x == k * d.x,
    ;
    assert(d.y * k == oc.y * su) by (nonlinear_arith)
        requires
            su * oc.y == k * d.y,
    ;
    assert(d.z * k == oc.z * su) by (nonlinear_arith)
        requires
            su * oc.z == k * d.z,
    ;
    crate::math::lemma_tdiv_mul_exact(oc.x, su);
    crate::math::lemma_tdiv_mul_exact(oc.y, su);
    crate::math::lemma_tdiv_mul_exact(oc.z, su);
    let p_close = ray.at_spec(k);
    assert(p_close.x == s.center@.x && p_close.y == s.center@.y && p_close.z == s.center@.z);
    assert(s.height2(ray) == 0) by {
        assert(s.center@.minus(p_close) == (V3 { x: 0, y: 0, z: 0 }));
    }
    assert(s.radius2() == r * r);
    assert(r * r >= 1 && (r + 1) * (r + 1) > r * r) by (nonlinear_arith)
        requires
            r >= 1,
    ;
    lemma_sqrt_floor_unique(r * r, r);
    assert(s.hit_distance(ray) == k - r);
    // the whole-step radius steps back exactly onto the surface
    let wx = (r * d.x) / su;
    let wy = (r * d.y) / su;
    let wz = (r * d.z) / su;
    vstd::arithmetic::div_mod::lemma_fundamental_div_mod(r * d.x, su);
    vstd::arithmetic::div_mod::lemma_fundamental_div_mod(r * d.y, su);
    vstd::arithmetic::div_mod::lemma_fundamental_div_mod(r * d.z, su);
    assert(r * d.x == su * wx && r * d.y == su * wy && r * d.z == su * wz);
    assert(d.x * (k - r) == (oc.x - wx) * su) by (nonlinear_arith)
        requires
            su * oc.x == k * d.x,
            r * d.x == su * wx,
    ;
    assert(d.y * (k - r) == (oc.y - wy) * su) by (nonlinear_arith)
        requires
            su * oc.y == k * d.y,
            r * d.y == su * wy,
    ;
    assert(d.z * (k - r) == (oc.z - wz) * su) by (nonlinear_arith)
        requires
            su * oc.z == k * d.z,
            r * d.z == su * wz,
    ;
    crate::math::lemma_tdiv_mul_exact(oc.x - wx, su);
    crate::math::lemma_tdiv_mul_exact(oc.y - wy, su);
    crate::math::lemma_tdiv_mul_exact(oc.z - wz, su);
    let hp = ray.at_spec(k - r);
    assert(hp.x == s.center@.x - wx && hp.y == s.center@.y - wy && hp.z == s.center@.z - wz);
    let wv = hp.minus(s.center@);
    assert(wv.x == -wx && wv.y == -wy && wv.z == -wz);
    // the surface offset is r direction steps, so it is not zero and its
    // length is exactly the radius
    assert(!wv.is_zero()) by {
        if wv.is_zero() {
            assert(r * d.x == 0 && r * d.y == 0 && r * d.z == 0);
            assert(d.x == 0 && d.y == 0 && d.z == 0) by (nonlinear_arith)
                requires
                    r >= 1,
                    r * d.x == 0,
                    r * d.y == 0,
                    r * d.z == 0,
            ;
            assert(d.len2() == 0);
        }
    }
    assert((su * wv.x) * (su * wv.x) == (su * su) * (wv.x * wv.x)) by (nonlinear_arith);
    assert((su * wv.y) * (su * wv.y) == (su * su) * (wv.y * wv.y)) by (nonlinear_arith);
    assert((su * wv.z) * (su * wv.z) == (su * su) * (wv.z * wv.z)) by (nonlinear_arith);
    assert((r * d.x) * (r * d.x) == (r * r) * (d.x * d.x)) by (nonlinear_arith);
    assert((r * d.y) * (r * d.y) == (r * r) * (d.y * d.y)) by (nonlinear_arith);
    assert((r * d.z) * (r * d.z) == (r * r) * (d.z * d.z)) by (nonlinear_arith);
    assert(su * wv.x == -(r * d.x) && su * wv.y == -(r * d.y) && su * wv.z == -(r * d.z));
    assert((su * wv.x) * (su * wv.x) == (r * d.x) * (r * d.x)) by (nonlinear_arith)
        requires
            su * wv.x == -(r * d.x),
    ;
    assert((su * wv.y) * (su * wv.y) == (r * d.y) * (r * d.y)) by (nonlinear_arith)
        requires
            su * wv.y == -(r * d.y),
    ;
    assert((su * wv.z) * (su * wv.z) == (r * d.z) * (r * d.z)) by (nonlinear_arith)
        requires
            su * wv.z == -(r * d.z),
    ;
    crate::math::lemma_distribute3(wv.x * wv.x, wv.y * wv.y, wv.z * wv.z, su * su);
    crate::math::lemma_distribute3(d.x * d.x, d.y * d.y, d.z * d.z, r * r);
    assert((su * su) * wv.len2() == (r * r) * d.len2());
    assert((r * r) * (su * su) == (su * su) * (r * r)) by (nonlinear_arith);
    lemma_cancel(su * su, wv.len2(), r * r);
    lemma_sqrt_floor_unique(wv.len2(), r);
    // normalizing the offset recovers the reversed direction exactly; a
    // radius below one unit takes normalization's pre-scaled branch, where
    // the same cancellation happens one scale step higher
    if wv.len2() < su * su {
        let wb = wv.norm_input();
        assert(wb.x == wv.x * su && wb.y == wv.y * su && wb.z == wv.z * su);
        assert((wv.x * su) * (wv.x * su) == (su * su) * (wv.x * wv.x)) by (nonlinear_arith);
        assert((wv.y * su) * (wv.y * su) == (su * su) * (wv.y * wv.y)) by (nonlinear_arith);
        assert((wv.z * su) * (wv.z * su) == (su * su) * (wv.z * wv.z)) by (nonlinear_arith);
        crate::math::lemma_distribute3(wv.x * wv.x, wv.y * wv.y, wv.z * wv.z, su * su);
        assert(wb.len2() == (su * su) * (r * r));
        assert((r * su) * (r * su) == (su * su) * (r * r)) by (nonlinear_arith);
        assert((r * su + 1) * (r * su + 1) > (r * su) * (r * su)) by (nonlinear_arith)
            requires
                r * su >= 1,
        ;
        assert(r * su >= 1) by (nonlinear_arith)
            requires
                r >= 1,
                su >= 1,
        ;
        lemma_sqrt_floor_unique(wb.len2(), r * su);
        assert(wb.x * su == (-d.x) * (r * su)) by (nonlinear_arith)
            requires
                su * wv.x == -(r * d.x),
                wb.x == wv.x * su,
        ;
        assert(wb.y * su == (-d.y) * (r * su)) by (nonlinear_arith)
            requires
                su * wv.y == -(r * d.y),
                wb.y == wv.y * su,
        ;
        assert(wb.z * su == (-d.z) * (r * su)) by (nonlinear_arith)
            requires
                su * wv.z == -(r * d.z),
                wb.z == wv.z * su,
        ;
        crate::math::lemma_tdiv_mul_exact(-d.x, r * su);
        crate::math::lemma_tdiv_mul_exact(-d.y, r * su);
        crate::math::lemma_tdiv_mul_exact(-d.z, r * su);
        assert(wv.norm() == d.negv());
    } else {
        assert(wv.norm_input() == wv);
        assert(wv.x * su == (-d.x) * r) by (nonlinear_arith)
            requires
                su * wv.x == -(r * d.x),
        ;
        assert(wv.y * su == (-d.y) * r) by (nonlinear_arith)
            requires
                su * wv.y == -(r * d.y),
        ;
        assert(wv.z * su == (-d.z) * r) by (nonlinear_arith)
            requires
                su * wv.z == -(r * d.z),
        ;
        crate::math::lemma_tdiv_mul_exact(-d.x, r);
        crate::math::lemma_tdiv_mul_exact(-d.y, r);
        crate::math::lemma_tdiv_mul_exact(-d.z, r);
        assert(wv.norm() == d.negv());
    }
    // the distance to the center is exactly k
    assert((su * oc.x) * (su * oc.x) == (su * su) * (oc.x * oc.x)) by (nonlinear_arith);
    assert((su * oc.y) * (su * oc.y) == (su * su) * (oc.y * oc.y)) by (nonlinear_arith);
    assert((su * oc.z) * (su * oc.z) == (su * su) * (oc.z * oc.z)) by (nonlinear_arith);
    assert((k * d.x) * (k * d.x) == (k * k) * (d.x * d.x)) by (nonlinear_arith);
    assert((k * d.y) * (k * d.y) == (k * k) * (d.y * d.y)) by (nonlinear_arith);
    assert((k * d.z) * (k * d.z) == (k * k) * (d.z * d.z)) by (nonlinear_arith);
    crate::math::lemma_distribute3(oc.x * oc.x, oc.y * oc.y, oc.z * oc.z, su * su);
    crate::math::lemma_distribute3(d.x * d.x, d.y * d.y, d.z * d.z, k * k);
    assert((su * su) * oc.len2() == (k * k) * d.len2());
    assert((k * k) * (su * su) == (su * su) * (k * k)) by (nonlinear_arith);
    lemma_cancel(su * su, oc.len2(), k * k);
    assert(k * k >= 1 && (k + 1) * (k + 1) > k * k) by (nonlinear_arith)
        requires
            k >= 1,
    ;
    lemma_sqrt_floor_unique(oc.len2(), k);
}

/// How much clearance, below the squared radius, an interior origin needs
/// for the interior-exclusion law: the rounding noise of the closest
/// approach computation, growing with the distance `l` from the center.
pub open spec fn interior_margin(l: int) -> int {
    tdiv(27 * l * l, UNIT as int) + 30 * l + 5
}

/// A ray starting inside the sphere — its origin clear of the surface by
/// more than the rounding noise — reports no hit: only entry points from
/// outside exist, the deliberate simplification of this renderer.
#[verifier::rlimit(80)]
pub proof fn lemma_interior_ray_misses(s: Sphere, ray: Ray)
    requires
        ray.wf(),
        s.oc(ray).len2() + interior_margin(sqrt_floor(s.oc(ray).len2())) <= s.radius2(),
    ensures
        s.spec_hit(ray) is None,
{
    let su = UNIT as int;
    let oc = s.oc(ray);
    let d = ray.direction@;
    let n = oc.len2();
    let l = sqrt_floor(n);
    let r = s.radius as int;
    let mlen = d.len2();
    crate::math::vec3::lemma_square_le_len2(oc);
    lemma_sqrt_floor(n);
    crate::math::vec3::lemma_component_le_sqrt(oc.x, n);
    crate::math::vec3::lemma_component_le_sqrt(oc.y, n);
    crate::math::vec3::lemma_component_le_sqrt(oc.z, n);
    // the projection onto the direction, and its rounded parameter
    let xdot = oc.dot(d);
    let av = s.approach(ray);
    crate::math::lemma_mul_mag_le(oc.x, d.x, l, su);
    crate::math::lemma_mul_mag_le(oc.y, d.y, l, su);
    crate::math::lemma_mul_mag_le(oc.z, d.z, l, su);
    assert(mag(xdot) <= 3 * (l * su));
    assert(3 * (l * su) == (3 * l) * mag(su)) by (nonlinear_arith)
        requires
            su > 0,
    ;
    crate::math::lemma_tdiv_quotient_le(xdot, su, 3 * l);
    assert(mag(av) <= 3 * l);
    crate::math::lemma_tdiv_error(xdot, su);
    crate::math::lemma_tdiv_sign(xdot, su);
    let rho = xdot - su * av;
    assert(av * rho >= 0) by {
        if xdot >= 0 {
            assert(av * rho >= 0) by (nonlinear_arith)
                requires
                    av >= 0,
                    rho >= 0,
            ;
        } else {
            assert(av * rho >= 0) by (nonlinear_arith)
                requires
                    av <= 0,
                    rho <= 0,
            ;
        }
        assert(av * su == su * av) by (nonlinear_arith);
    }
    // the height at the closest point, through its rounding remainders
    let p = ray.at_spec(av);
    let hv = s.center@.minus(p);
    let h2 = s.height2(ray);
    assert(h2 == hv.len2());
    crate::math::lemma_tdiv_error(d.x * av, su);
    crate::math::lemma_tdiv_error(d.y * av, su);
    crate::math::lemma_tdiv_error(d.z * av, su);
    let sx = d.x * av - su * fmul(d.x, av);
    let sy = d.y * av - su * fmul(d.y, av);
    let sz = d.z * av - su * fmul(d.z, av);
    assert(mag(sx) < su && mag(sy) < su && mag(sz) < su) by {
        assert(su * fmul(d.x, av) == fmul(d.x, av) * su) by (nonlinear_arith);
        assert(su * fmul(d.y, av) == fmul(d.y, av) * su) by (nonlinear_arith);
        assert(su * fmul(d.z, av) == fmul(d.z, av) * su) by (nonlinear_arith);
    }
    let ux = su * oc.x - av * d.x;
    let uy = su * oc.y - av * d.y;
    let uz = su * oc.z - av * d.z;
    assert(su * hv.x == ux + sx) by (nonlinear_arith)
        requires
            hv.x == oc.x - fmul(d.x, av),
            ux == su * oc.x - av * d.x,
            sx == d.x * av - su * fmul(d.x, av),
    ;
    assert(su * hv.y == uy + sy) by (nonlinear_arith)
        requires
            hv.y == oc.y - fmul(d.y, av),
            uy == su * oc.y - av * d.y,
            sy == d.y * av - su * fmul(d.y, av),
    ;
    assert(su * hv.z == uz + sz) by (nonlinear_arith)
        requires
            hv.z == oc.z - fmul(d.z, av),
            uz == su * oc.z - av * d.z,
            sz == d.z * av - su * fmul(d.z, av),
    ;
    // the squared working terms
    lemma_offset_square(ux, oc.x, av, d.x, su);
    lemma_offset_square(uy, oc.y, av, d.y, su);
    lemma_offset_square(uz, oc.z, av, d.z, su);
    crate::math::lemma_distribute3(oc.x * oc.x, oc.y * oc.y, oc.z * oc.z, su * su);
    crate::math::lemma_distribute3(oc.x * d.x, oc.y * d.y, oc.z * d.z, av);
    crate::math::lemma_distribute3(d.x * d.x, d.y * d.y, d.z * d.z, av * av);
    crate::math::lemma_distribute3(
        av * (oc.x * d.x),
        av * (oc.y * d.y),
        av * (oc.z * d.z),
        2 * su,
    );
    let usum = ux * ux + uy * uy + uz * uz;
    assert(usum == (su * su) * n - 2 * su * (av * xdot) + (av * av) * mlen);
    // the middle term: one whole square of the parameter, plus a
    // same-signed remainder share
    assert(av * av >= 0) by (nonlinear_arith);
    assert(av * xdot == (av * av) * su + av * rho) by (nonlinear_arith)
        requires
            rho == xdot - su * av,
    ;
    assert(2 * su * (av * xdot) >= 2 * ((su * su) * (av * av))) by (nonlinear_arith)
        requires
            av * xdot == (av * av) * su + av * rho,
            av * rho >= 0,
            su > 0,
    ;
    assert((av * av) * mlen <= (av * av) * (su * su) + (av * av) * (2 * su + 3)) by (nonlinear_arith)
        requires
            mlen <= su * su + 2 * su + 3,
            av * av >= 0,
    ;
    assert((av * av) * (2 * su + 3) <= (9 * (l * l)) * (3 * su)) by (nonlinear_arith)
        requires
            mag(av) <= 3 * l,
            su >= 3,
            l >= 0,
    ;
    assert(usum <= (su * su) * (n - av * av) + 27 * ((l * l) * su)) by (nonlinear_arith)
        requires
            usum == (su * su) * n - 2 * su * (av * xdot) + (av * av) * mlen,
            2 * su * (av * xdot) >= 2 * ((su * su) * (av * av)),
            (av * av) * mlen <= (av * av) * (su * su) + (av * av) * (2 * su + 3),
            (av * av) * (2 * su + 3) <= (9 * (l * l)) * (3 * su),
    ;
    // the cross terms against the sub-step remainders
    assert(mag(ux) <= 4 * (l * su) && mag(uy) <= 4 * (l * su) && mag(uz) <= 4 * (l * su)) by {
        crate::math::lemma_mul_mag_le(av, d.x, 3 * l, su);
        crate::math::lemma_mul_mag_le(av, d.y, 3 * l, su);
        crate::math::lemma_mul_mag_le(av, d.z, 3 * l, su);
        assert(mag(su * oc.x) <= su * l) by (nonlinear_arith)
            requires
                mag(oc.x) <= l,
                su > 0,
        ;
        assert(mag(su * oc.y) <= su * l) by (nonlinear_arith)
            requires
                mag(oc.y) <= l,
                su > 0,
        ;
        assert(mag(su * oc.z) <= su * l) by (nonlinear_arith)
            requires
                mag(oc.z) <= l,
                su > 0,
        ;
        assert(su * l + (3 * l) * su == 4 * (l * su)) by (nonlinear_arith);
    }
    assert((su * hv.x) * (su * hv.x) <= ux * ux + 8 * ((l * su) * su) + su * su) by (nonlinear_arith)
        requires
            su * hv.x == ux + sx,
            mag(ux) <= 4 * (l * su),
            mag(sx) < su,
            su > 0,
            l >= 0,
    ;
    assert((su * hv.y) * (su * hv.y) <= uy * uy + 8 * ((l * su) * su) + su * su) by (nonlinear_arith)
        requires
            su * hv.y == uy + sy,
            mag(uy) <= 4 * (l * su),
            mag(sy) < su,
            su > 0,
            l >= 0,
    ;
    assert((su * hv.z) * (su * hv.z) <= uz * uz + 8 * ((l * su) * su) + su * su) by (nonlinear_arith)
        requires
            su * hv.z == uz + sz,
            mag(uz) <= 4 * (l * su),
            mag(sz) < su,
            su > 0,
            l >= 0,
    ;
    assert((su * hv.x) * (su * hv.x) == (su * su) * (hv.x * hv.x)) by (nonlinear_arith);
    assert((su * hv.y) * (su * hv.y) == (su * su) * (hv.y * hv.y)) by (nonlinear_arith);
    assert((su * hv.z) * (su * hv.z) == (su * su) * (hv.z * hv.z)) by (nonlinear_arith);
    crate::math::lemma_distribute3(hv.x * hv.x, hv.y * hv.y, hv.z * hv.z, su * su);
    assert((su * su) * h2 <= usum + 24 * ((l * su) * su) + 3 * (su * su));
    // assemble: the squared height plus the squared next step fits under
    // the squared radius
    assert((su * su) * ((av + 1) * (av + 1)) == (su * su) * (av * av) + (su * su) * (2 * av + 1))
        by (nonlinear_arith);
    assert((su * su) * (2 * av + 1) <= (su * su) * (6 * l + 1)) by (nonlinear_arith)
        requires
            mag(av) <= 3 * l,
            su > 0,
    ;
    assert((su * su) * (h2 + (av + 1) * (av + 1)) <= (su * su) * (n + 30 * l + 4) + 27 * ((l * l)
        * su)) by (nonlinear_arith)
        requires
            (su * su) * h2 <= (su * su) * (n - av * av) + 27 * ((l * l) * su) + 24 * ((l * su)
                * su) + 3 * (su * su),
            (su * su) * ((av + 1) * (av + 1)) <= (su * su) * (av * av) + (su * su) * (6 * l + 1),
            su > 0,
            l >= 0,
    ;
    assert((su * su) * h2 <= (su * su) * (n - av * av) + 27 * ((l * l) * su) + 24 * ((l * su) * su)
        + 3 * (su * su)) by (nonlinear_arith)
        requires
            (su * su) * h2 <= usum + 24 * ((l * su) * su) + 3 * (su * su),
            usum <= (su * su) * (n - av * av) + 27 * ((l * l) * su),
    ;
    // the margin hypothesis, brought to the same scale
    let q = tdiv(27 * l * l, su);
    crate::math::lemma_tdiv_nonneg(27 * l * l, su);
    assert(27 * l * l >= 0) by (nonlinear_arith);
    vstd::arithmetic::div_mod::lemma_fundamental_div_mod(27 * l * l, su);
    vstd::arithmetic::div_mod::lemma_mod_bound(27 * l * l, su);
    assert(su * (q + 1) > 27 * l * l) by (nonlinear_arith)
        requires
            27 * l * l == su * ((27 * l * l) / su) + (27 * l * l) % su,
            q == (27 * l * l) / su,
            (27 * l * l) % su < su,
    ;
    assert((su * su) * (q + 1) > 27 * ((l * l) * su)) by (nonlinear_arith)
        requires
            su * (q + 1) > 27 * l * l,
            su > 0,
    ;
    assert((su * su) * (n + q + 30 * l + 5) <= (su * su) * s.radius2()) by (nonlinear_arith)
        requires
            n + q + 30 * l + 5 <= s.radius2(),
            su > 0,
    ;
    assert((su * su) * (n + 30 * l + 4) == (su * su) * (n + q + 30 * l + 5) - (su * su) * (q + 1))
        by (nonlinear_arith);
    assert((su * su) * (n + 30 * l + 4) + 27 * ((l * l) * su) < (su * su) * s.radius2());
    crate::math::lemma_cancel_le(su * su, h2 + (av + 1) * (av + 1), s.radius2());
    // hence the sphere is not missed, but the entry parameter lies behind
    // the origin
    assert((av + 1) * (av + 1) >= 0) by (nonlinear_arith);
    assert(h2 <= s.radius2());
    let sq = sqrt_floor(s.radius2() - h2);
    lemma_sqrt_floor(s.radius2() - h2);
    if av >= 0 {
        assert(sq >= av + 1) by {
            if sq < av + 1 {
                assert((sq + 1) * (sq + 1) <= (av + 1) * (av + 1)) by (nonlinear_arith)
                    requires
                        0 <= sq + 1 <= av + 1,
                ;
            }
        }
    }
    assert(s.hit_distance(ray) <= -1);
}

/// One squared offset term of the closest-approach expansion.
proof fn lemma_offset_square(u: int, a: int, b: int, c: int, s: int)
    requires
        u == s * a - b * c,
    ensures
        u * u == (s * s) * (a * a) - 2 * s * (b * (a * c)) + (b * b) * (c * c),
{
    let w = b * c;
    assert((s * a - w) * (s * a - w) == (s * s) * (a * a) - 2 * s * (a * w) + w * w)
        by (nonlinear_arith);
    assert(u * u == (s * a - w) * (s * a - w));
    assert(a * w == b * (a * c)) by (nonlinear_arith)
        requires
            w == b * c,
    ;
    assert(w * w == (b * b) * (c * c)) by (nonlinear_arith)
        requires
            w == b * c,
    ;
}

/// How far the computed entry parameter of an aimed ray may drift from the
/// ideal `distance - radius`: a few steps, plus a share proportional to the
/// distance itself, as fixed-point rounding forces.
pub open spec fn aim_tolerance(l: int) -> int {
    4 * tdiv(3 * l, UNIT as int) + 10
}

/// A ray aimed at the center from outside strikes the sphere at the
/// distance to the center minus the radius, within [`aim_tolerance`] of the
/// distance, and on the side of the center that faces the origin: the
/// unnormalized surface offset, whose normalization is the reported normal,
/// points against the center direction. Unlike the exact frontal law,
/// nothing here is required to be representable: any origin and center
/// qualify, as long as the radius clears the rounding noise and the
/// interval has room for the tolerance.
#[verifier::rlimit(80)]
pub proof fn lemma_aimed_hit_distance(s: Sphere, ray: Ray)
    requires
        ray.wf(),
        s.oc(ray).len2() >= (UNIT as int) * (UNIT as int),
        ray.direction@ == s.oc(ray).norm(),
        s.radius as int >= aim_tolerance(sqrt_floor(s.oc(ray).len2())) + 4,
        ray.min_distance as int + aim_tolerance(sqrt_floor(s.oc(ray).len2())) <= sqrt_floor(
            s.oc(ray).len2(),
        ) - s.radius,
        sqrt_floor(s.oc(ray).len2()) - s.radius <= ray.max_distance as int - aim_tolerance(
            sqrt_floor(s.oc(ray).len2()),
        ) - 1,
    ensures
        match s.spec_hit(ray) {
            Some(hit) => {
                &&& mag(hit.distance - (sqrt_floor(s.oc(ray).len2()) - s.radius))
                    <= aim_tolerance(sqrt_floor(s.oc(ray).len2()))
                &&& hit.point.minus(s.center@).dot(s.oc(ray)) < 0
                &&& !hit.point.minus(s.center@).is_zero()
                &&& hit.normal == hit.point.minus(s.center@).norm()
            },
            None => false,
        },
{
    let su = UNIT as int;
    let oc = s.oc(ray);
    let d = ray.direction@;
    let n = oc.len2();
    let l = sqrt_floor(n);
    let r = s.radius as int;
    let g = tdiv(3 * l, su);
    crate::math::vec3::lemma_square_le_len2(oc);
    lemma_sqrt_floor(n);
    if l == 0 {
        assert((l + 1) * (l + 1) == 1) by (nonlinear_arith)
            requires
                l == 0,
        ;
    }
    assert(l >= 1);
    // the center is at least one unit away, so normalization did not
    // pre-scale the offset
    assert(oc.norm_input() == oc);
    crate::math::vec3::lemma_component_le_sqrt(oc.x, n);
    crate::math::vec3::lemma_component_le_sqrt(oc.y, n);
    crate::math::vec3::lemma_component_le_sqrt(oc.z, n);
    let rx = oc.x * su - d.x * l;
    let ry = oc.y * su - d.y * l;
    let rz = oc.z * su - d.z * l;
    crate::math::vec3::lemma_norm_remainder(oc.x, l, d.x);
    crate::math::vec3::lemma_norm_remainder(oc.y, l, d.y);
    crate::math::vec3::lemma_norm_remainder(oc.z, l, d.z);
    // the projection of the center offset onto the direction
    let xdot = oc.dot(d);
    assert(oc.x * d.x * l == oc.x * oc.x * su - oc.x * rx) by (nonlinear_arith)
        requires
            rx == oc.x * su - d.x * l,
    ;
    assert(oc.y * d.y * l == oc.y * oc.y * su - oc.y * ry) by (nonlinear_arith)
        requires
            ry == oc.y * su - d.y * l,
    ;
    assert(oc.z * d.z * l == oc.z * oc.z * su - oc.z * rz) by (nonlinear_arith)
        requires
            rz == oc.z * su - d.z * l,
    ;
    let tsum = oc.x * rx + oc.y * ry + oc.z * rz;
    crate::math::lemma_distribute3(oc.x * d.x, oc.y * d.y, oc.z * d.z, l);
    crate::math::lemma_distribute3(oc.x * oc.x, oc.y * oc.y, oc.z * oc.z, su);
    assert(xdot * l == n * su - tsum);
    assert(0 <= tsum && tsum <= 3 * (l * l)) by {
        crate::math::lemma_mul_mag_le(oc.x, rx, l, l);
        crate::math::lemma_mul_mag_le(oc.y, ry, l, l);
        crate::math::lemma_mul_mag_le(oc.z, rz, l, l);
    }
    // squeeze the projection between l*su - 3l and l*su + 2*su
    assert((l + 1) * (l + 1) == l * l + 2 * l + 1) by (nonlinear_arith);
    assert(n * su >= (l * l) * su && n * su <= (l * l + 2 * l) * su) by (nonlinear_arith)
        requires
            l * l <= n,
            n <= l * l + 2 * l,
            su > 0,
    ;
    assert(xdot * l >= (l * l) * su - 3 * (l * l));
    assert((l * l) * su - 3 * (l * l) == l * (l * su - 3 * l)) by (nonlinear_arith);
    assert(xdot * l <= (l * l + 2 * l) * su);
    assert((l * l + 2 * l) * su == l * (l * su + 2 * su)) by (nonlinear_arith);
    assert(xdot * l == l * xdot) by (nonlinear_arith);
    crate::math::lemma_cancel_le(l, l * su - 3 * l, xdot);
    crate::math::lemma_cancel_le(l, xdot, l * su + 2 * su);
    // hence the approach parameter sits within [l - g - 1, l + 2]
    let av = s.approach(ray);
    assert(l * su - 3 * l >= 1) by (nonlinear_arith)
        requires
            l >= 1,
            su >= 4,
    ;
    crate::math::lemma_tdiv_nonneg(xdot, su);
    crate::math::lemma_tdiv_bounds(3 * l, su);
    vstd::arithmetic::div_mod::lemma_mod_bound(3 * l, su);
    assert(su * g <= 3 * l && 3 * l < su * g + su) by {
        vstd::arithmetic::div_mod::lemma_fundamental_div_mod(3 * l, su);
        assert(tdiv(3 * l, su) == (3 * l) / su) by {
            crate::math::lemma_tdiv_nonneg(3 * l, su);
        }
    }
    assert(0 <= g) by {
        crate::math::lemma_tdiv_bounds(3 * l, su);
    }
    assert(l - g - 1 >= 0) by (nonlinear_arith)
        requires
            su * g <= 3 * l,
            su >= 4,
            l >= 1,
            g >= 0,
    ;
    assert((l - g - 1) * su <= xdot) by (nonlinear_arith)
        requires
            xdot >= l * su - 3 * l,
            3 * l < su * g + su,
    ;
    vstd::arithmetic::div_mod::lemma_div_is_ordered((l - g - 1) * su, xdot, su);
    vstd::arithmetic::div_mod::lemma_div_by_multiple(l - g - 1, su);
    assert(av >= l - g - 1);
    assert(xdot <= (l + 2) * su) by (nonlinear_arith)
        requires
            xdot <= l * su + 2 * su,
    ;
    vstd::arithmetic::div_mod::lemma_div_is_ordered(xdot, (l + 2) * su, su);
    vstd::arithmetic::div_mod::lemma_div_by_multiple(l + 2, su);
    assert(av <= l + 2);
    // the height at the closest point: every component within 2g + 4
    let hb = 2 * g + 4;
    let p = ray.at_spec(av);
    let hv = s.center@.minus(p);
    crate::math::lemma_tdiv_error(av * d.x, su);
    crate::math::lemma_tdiv_error(av * d.y, su);
    crate::math::lemma_tdiv_error(av * d.z, su);
    let sx = av * d.x - fmul(d.x, av) * su;
    let sy = av * d.y - fmul(d.y, av) * su;
    let sz = av * d.z - fmul(d.z, av) * su;
    assert(mag(sx) < su && mag(sy) < su && mag(sz) < su) by {
        assert(av * d.x == d.x * av && av * d.y == d.y * av && av * d.z == d.z * av)
            by (nonlinear_arith);
    }
    assert(hv.x * su == d.x * (l - av) + rx + sx) by (nonlinear_arith)
        requires
            hv.x == oc.x - fmul(d.x, av),
            rx == oc.x * su - d.x * l,
            sx == av * d.x - fmul(d.x, av) * su,
    ;
    assert(hv.y * su == d.y * (l - av) + ry + sy) by (nonlinear_arith)
        requires
            hv.y == oc.y - fmul(d.y, av),
            ry == oc.y * su - d.y * l,
            sy == av * d.y - fmul(d.y, av) * su,
    ;
    assert(hv.z * su == d.z * (l - av) + rz + sz) by (nonlinear_arith)
        requires
            hv.z == oc.z - fmul(d.z, av),
            rz == oc.z * su - d.z * l,
            sz == av * d.z - fmul(d.z, av) * su,
    ;
    assert(mag(l - av) <= g + 2);
    crate::math::lemma_mul_mag_le(d.x, l - av, su, g + 2);
    crate::math::lemma_mul_mag_le(d.y, l - av, su, g + 2);
    crate::math::lemma_mul_mag_le(d.z, l - av, su, g + 2);
    assert(mag(rx) < l && mag(ry) < l && mag(rz) < l);
    assert(l <= su * (g + 1)) by (nonlinear_arith)
        requires
            3 * l < su * g + su,
            l >= 0,
            su >= 1,
            g >= 0,
    ;
    assert(mag(hv.x * su) <= su * (g + 2) + su * (g + 1) + su);
    assert(mag(hv.y * su) <= su * (g + 2) + su * (g + 1) + su);
    assert(mag(hv.z * su) <= su * (g + 2) + su * (g + 1) + su);
    assert(su * (g + 2) + su * (g + 1) + su == su * hb) by (nonlinear_arith)
        requires
            hb == 2 * g + 4,
    ;
    assert(mag(hv.x) <= hb && mag(hv.y) <= hb && mag(hv.z) <= hb) by {
        assert(mag(hv.x * su) == mag(hv.x) * su) by (nonlinear_arith)
            requires
                su > 0,
        ;
        assert(mag(hv.y * su) == mag(hv.y) * su) by (nonlinear_arith)
            requires
                su > 0,
        ;
        assert(mag(hv.z * su) == mag(hv.z) * su) by (nonlinear_arith)
            requires
                su > 0,
        ;
        assert(mag(hv.x) * su <= hb * su ==> mag(hv.x) <= hb) by (nonlinear_arith)
            requires
                su >= 1,
        ;
        assert(mag(hv.y) * su <= hb * su ==> mag(hv.y) <= hb) by (nonlinear_arith)
            requires
                su >= 1,
        ;
        assert(mag(hv.z) * su <= hb * su ==> mag(hv.z) <= hb) by (nonlinear_arith)
            requires
                su >= 1,
        ;
        assert(su * hb == hb * su) by (nonlinear_arith);
    }
    let h2 = s.height2(ray);
    assert(h2 == hv.len2());
    crate::math::vec3::lemma_dot_bound(hv, hv, hb, hb);
    crate::math::vec3::lemma_square_le_len2(hv);
    assert(h2 <= 3 * (hb * hb)) by {
        assert(3 * hb * hb == 3 * (hb * hb)) by (nonlinear_arith);
    }
    // the radius clears the noise, so the closest approach is inside
    assert(hb >= 4 && r >= 2 * hb);
    assert(3 * (hb * hb) < r * r) by (nonlinear_arith)
        requires
            hb >= 4,
            r >= 2 * hb,
    ;
    assert(h2 <= s.radius2());
    // the half chord lies within [r - 2*hb, r]
    let sq = sqrt_floor(s.radius2() - h2);
    lemma_sqrt_floor(s.radius2() - h2);
    assert(sq <= r) by {
        if sq > r {
            assert(sq * sq >= (r + 1) * (r + 1)) by (nonlinear_arith)
                requires
                    sq >= r + 1,
                    r >= 0,
            ;
            assert((r + 1) * (r + 1) > r * r) by (nonlinear_arith)
                requires
                    r >= 0,
            ;
        }
    }
    assert(sq >= r - 2 * hb) by {
        assert((r - 2 * hb) * (r - 2 * hb) <= r * r - 3 * (hb * hb)) by (nonlinear_arith)
            requires
                r >= 2 * hb,
                hb >= 4,
        ;
        if sq < r - 2 * hb {
            assert((sq + 1) * (sq + 1) <= (r - 2 * hb) * (r - 2 * hb)) by (nonlinear_arith)
                requires
                    0 <= sq + 1 <= r - 2 * hb,
            ;
        }
    }
    // assemble: the entry parameter drifts at most the tolerance
    let t = s.hit_distance(ray);
    assert(t == av - sq);
    assert(mag(t - (l - r)) <= 4 * g + 10);
    assert(aim_tolerance(l) == 4 * g + 10);
    assert(ray.min_distance as int <= t && t < ray.max_distance as int);
    // the hit point stays on the origin's side of the center: the entry
    // parameter falls short of the center by most of the radius, so the
    // surface offset opposes the center direction
    let m = r - 2 * hb - 2;
    assert(m >= 4);
    assert(t - l <= -m);
    let hp = ray.at_spec(t);
    let w = hp.minus(s.center@);
    crate::math::lemma_tdiv_error(t * d.x, su);
    crate::math::lemma_tdiv_error(t * d.y, su);
    crate::math::lemma_tdiv_error(t * d.z, su);
    let ux = t * d.x - fmul(d.x, t) * su;
    let uy = t * d.y - fmul(d.y, t) * su;
    let uz = t * d.z - fmul(d.z, t) * su;
    assert(mag(ux) < su && mag(uy) < su && mag(uz) < su) by {
        assert(t * d.x == d.x * t && t * d.y == d.y * t && t * d.z == d.z * t)
            by (nonlinear_arith);
    }
    assert(su * w.x == d.x * (t - l) - rx - ux) by (nonlinear_arith)
        requires
            w.x == fmul(d.x, t) - oc.x,
            rx == oc.x * su - d.x * l,
            ux == t * d.x - fmul(d.x, t) * su,
    ;
    assert(su * w.y == d.y * (t - l) - ry - uy) by (nonlinear_arith)
        requires
            w.y == fmul(d.y, t) - oc.y,
            ry == oc.y * su - d.y * l,
            uy == t * d.y - fmul(d.y, t) * su,
    ;
    assert(su * w.z == d.z * (t - l) - rz - uz) by (nonlinear_arith)
        requires
            w.z == fmul(d.z, t) - oc.z,
            rz == oc.z * su - d.z * l,
            uz == t * d.z - fmul(d.z, t) * su,
    ;
    // multiply through by the center offset and bound each part
    assert((su * w.x) * oc.x == su * (w.x * oc.x)) by (nonlinear_arith);
    assert((su * w.y) * oc.y == su * (w.y * oc.y)) by (nonlinear_arith);
    assert((su * w.z) * oc.z == su * (w.z * oc.z)) by (nonlinear_arith);
    assert((d.x * (t - l) - rx - ux) * oc.x == (t - l) * (d.x * oc.x) - rx * oc.x - ux * oc.x)
        by (nonlinear_arith);
    assert((d.y * (t - l) - ry - uy) * oc.y == (t - l) * (d.y * oc.y) - ry * oc.y - uy * oc.y)
        by (nonlinear_arith);
    assert((d.z * (t - l) - rz - uz) * oc.z == (t - l) * (d.z * oc.z) - rz * oc.z - uz * oc.z)
        by (nonlinear_arith);
    crate::math::lemma_distribute3(w.x * oc.x, w.y * oc.y, w.z * oc.z, su);
    crate::math::lemma_distribute3(d.x * oc.x, d.y * oc.y, d.z * oc.z, t - l);
    assert(d.x * oc.x + d.y * oc.y + d.z * oc.z == xdot);
    assert(rx * oc.x + ry * oc.y + rz * oc.z == tsum) by {
        assert(rx * oc.x == oc.x * rx && ry * oc.y == oc.y * ry && rz * oc.z == oc.z * rz)
            by (nonlinear_arith);
    }
    assert(su * w.dot(oc) == (t - l) * xdot - tsum - (ux * oc.x + uy * oc.y + uz * oc.z));
    crate::math::lemma_mul_mag_le(ux, oc.x, su, l);
    crate::math::lemma_mul_mag_le(uy, oc.y, su, l);
    crate::math::lemma_mul_mag_le(uz, oc.z, su, l);
    assert(xdot >= l * (su - 3)) by (nonlinear_arith)
        requires
            xdot >= l * su - 3 * l,
    ;
    assert((t - l) * xdot <= -(m * (l * (su - 3)))) by (nonlinear_arith)
        requires
            t - l <= -m,
            m >= 4,
            xdot >= l * (su - 3),
            l >= 1,
            su >= 15,
    ;
    assert(su * w.dot(oc) <= -(m * (l * (su - 3))) + 3 * (su * l));
    assert(-(m * (l * (su - 3))) + 3 * (su * l) < 0) by (nonlinear_arith)
        requires
            m >= 4,
            l >= 1,
            su >= 15,
    ;
    assert(w.dot(oc) < 0) by (nonlinear_arith)
        requires
            su * w.dot(oc) < 0,
            su > 0,
    ;
    // a strictly negative projection rules the zero offset out, so the
    // reported normal is the true normalization of the surface offset
    if w.is_zero() {
        assert(w.dot(oc) == 0) by (nonlinear_arith)
            requires
                w.x == 0,
                w.y == 0,
                w.z == 0,
        ;
    }
}

/// Equal products with a common nonzero factor have equal cofactors.
proof fn lemma_cancel(m: int, x: int, y: int)
    requires
        m != 0,
        m * x == m * y,
    ensures
        x == y,
{
    assert(x == y) by (nonlinear_arith)
        requires
            m != 0,
            m * x == m * y,
    ;
}

impl Geometry for Sphere {
    open spec fn wf(&self) -> bool {
        &&& self.center@.within(COORD_LIMIT as int)
        &&& 0 <= self.radius <= COORD_LIMIT
    }

    open spec fn spec_hit(&self, ray: Ray) -> Option<HitV> {
        self.sphere_hit(ray)
    }

    open spec fn spec_bounds(&self) -> (V3, V3) {
        (
            V3 {
                x: self.center@.x - self.radius,
                y: self.center@.y - self.radius,
                z: self.center@.z - self.radius,
            },
            V3 {
                x: self.center@.x + self.radius,
                y: self.center@.y + self.radius,
                z: self.center@.z + self.radius,
            },
        )
    }

    fn intersect(&self, ray: &Ray) -> (res: Option<Hit>) {
        match self.entry_distance(ray) {
            None => None,
            Some(t) => {
                if ray.min_distance <= t && t < ray.max_distance {
                    let hit_point = ray.at(t);
                    proof {
                        crate::ray::lemma_unit_fmul_le(ray.direction@.x, t as int);
                        crate::ray::lemma_unit_fmul_le(ray.direction@.y, t as int);
                        crate::ray::lemma_unit_fmul_le(ray.direction@.z, t as int);
                    }
                    let w = hit_point.sub(&self.center);
                    let normal = if w.x == 0 && w.y == 0 && w.z == 0 {
                        w
                    } else {
                        w.normalized()
                    };
                    Some(Hit { point: hit_point, normal, distance: t })
                } else {
                    None
                }
            },
        }
    }

    fn does_intersect(&self, ray: &Ray) -> (res: bool) {
        match self.entry_distance(ray) {
            None => false,
            Some(t) => ray.min_distance <= t && t < ray.max_distance,
        }
    }

    fn get_bounds(&self) -> (res: Aabb) {
        Aabb {
            min: Vec3 {
                x: self.center.x - self.radius,
                y: self.center.y - self.radius,
                z: self.center.z - self.radius,
            },
            max: Vec3 {
                x: self.center.x + self.radius,
                y: self.center.y + self.radius,
                z: self.center.z + self.radius,
            },
        }
    }
}

} // verus!
