//! Point lights with inverse-square falloff and a shadow-ray occlusion test.

use vstd::prelude::*;
use crate::color::Color;
use crate::color::C3;
use crate::color::sat64;
use crate::color::sat_narrow;
use crate::math::mag;
use crate::math::tdiv;
use crate::math::sqrt_floor;
use crate::math::lemma_sqrt_floor;
use crate::math::lemma_tdiv_bounds;
use crate::math::div_trunc;
use crate::math::isqrt_i128;
use crate::math::UNIT;
use crate::math::EPSILON;
use crate::math::COORD_LIMIT;
use crate::math::vec3::Vec3;
use crate::math::vec3::V3;
use crate::math::vec3::lemma_norm_bounded;
use crate::math::vec3::lemma_square_le_len2;
use crate::math::vec3::lemma_dot_bound;
use crate::ray::Ray;
use crate::geometry::Geometry;
use crate::groups::group_hit;
use crate::groups::simple_group::SimpleGroup;
use crate::lights::LightSource;

verus! {

/// A point light: a position and an intensity per channel.
#[derive(Copy, Clone, Debug, PartialEq, Eq, Structural)]
pub struct PointLight {
    pub center: Vec3,
    pub intensity: Color,
}

impl PointLight {
    /// Builds a point light.
    pub fn new(center: Vec3, intensity: Color) -> (l: PointLight)
        ensures
            l.center == center,
            l.intensity == intensity,
    {
        PointLight { center, intensity }
    }

    /// The vector from the queried point to the light.
    pub open spec fn dirv(self, point: Vec3) -> V3 {
        self.center@.minus(point@)
    }

    /// The exact squared distance from the queried point to the light.
    pub open spec fn dist2(self, point: Vec3) -> int {
        self.dirv(point).len2()
    }

    /// The shadow ray: from the point toward the light, clipped at the
    /// distance of the light so that occluders beyond it do not count, and
    /// starting at the self-shadow tolerance.
    pub open spec fn shadow_ray(self, point: Vec3) -> Ray {
        let n = self.dirv(point).norm();
        let rc = n.recipv();
        Ray {
            origin: point,
            direction: Vec3 { x: n.x as i64, y: n.y as i64, z: n.z as i64 },
            recip_direction: Vec3 { x: rc.x as i64, y: rc.y as i64, z: rc.z as i64 },
            min_distance: EPSILON,
            max_distance: sqrt_floor(self.dist2(point)) as i64,
        }
    }

    /// Whether something in the scene blocks the light before it reaches
    /// the point.
    pub open spec fn occluded(self, point: Vec3, world: &SimpleGroup) -> bool {
        group_hit(world.list@, self.shadow_ray(point)) is Some
    }

    /// One channel of the unoccluded radiance: intensity over squared
    /// distance, at fixed-point scale.
    pub open spec fn falloff(self, c: int, point: Vec3) -> int {
        sat64(tdiv(c * (UNIT as int) * (UNIT as int), self.dist2(point)))
    }
}

/// An intensity channel brought to the falloff numerator's scale stays far
/// inside the 128-bit range.
proof fn lemma_wide_product(c: int)
    requires
        i64::MIN <= c <= i64::MAX,
    ensures
        mag(c * (UNIT as int) * (UNIT as int)) <= 10_000_000_000_000_000_000_000_000_000_000int,
{
    crate::math::lemma_mul_mag_le(c, UNIT as int, 10_000_000_000_000_000_000, 1_000_000);
    crate::math::lemma_mul_mag_le(
        c * (UNIT as int),
        UNIT as int,
        10_000_000_000_000_000_000_000_000,
        1_000_000,
    );
}

/// What a point light delivers: nothing when an occluder sits between the
/// point and the light, and intensity over squared distance otherwise —
/// exactly, whenever that quotient fits the channel type.
pub proof fn lemma_sample_radiance(l: PointLight, point: Vec3, world: &SimpleGroup)
    requires
        !l.dirv(point).is_zero(),
    ensures
        l.occluded(point, world) ==> l.radiance_at(point, world).is_black(),
        !l.occluded(point, world) ==> l.radiance_at(point, world).r == sat64(
            tdiv(l.intensity@.r * (UNIT as int) * (UNIT as int), l.dist2(point)),
        ),
        !l.occluded(point, world) ==> l.radiance_at(point, world).g == sat64(
            tdiv(l.intensity@.g * (UNIT as int) * (UNIT as int), l.dist2(point)),
        ),
        !l.occluded(point, world) ==> l.radiance_at(point, world).b == sat64(
            tdiv(l.intensity@.b * (UNIT as int) * (UNIT as int), l.dist2(point)),
        ),
{
}

impl LightSource for PointLight {
    open spec fn wf(&self) -> bool {
        self.center@.within(COORD_LIMIT as int)
    }

    open spec fn radiance_at(&self, point: Vec3, world: &SimpleGroup) -> C3 {
        if self.dirv(point).is_zero() {
            C3 { r: 0, g: 0, b: 0 }
        } else if self.occluded(point, world) {
            C3 { r: 0, g: 0, b: 0 }
        } else {
            C3 {
                r: self.falloff(self.intensity@.r, point),
                g: self.falloff(self.intensity@.g, point),
                b: self.falloff(self.intensity@.b, point),
            }
        }
    }

    open spec fn direction_to(&self, point: Vec3) -> V3 {
        if self.dirv(point).is_zero() {
            V3 { x: 0, y: 0, z: 0 }
        } else {
            self.dirv(point).norm()
        }
    }

    fn sample(&self, point: Vec3, world: &SimpleGroup) -> (res: (Color, Vec3)) {
        if self.center.x == point.x && self.center.y == point.y && self.center.z == point.z {
            return (Color::black(), Vec3::zero());
        }
        let dirv = self.center.sub(&point);
        proof {
            lemma_square_le_len2(dirv@);
            lemma_dot_bound(dirv@, dirv@, 1_002_000_000_000, 1_002_000_000_000);
        }
        let d2: i128 = (dirv.x as i128) * (dirv.x as i128) + (dirv.y as i128) * (dirv.y as i128)
            + (dirv.z as i128) * (dirv.z as i128);
        let dist_root = isqrt_i128(d2);
        proof {
            assert(dist_root <= 2_000_000_000_000int) by (nonlinear_arith)
                requires
                    0 <= dist_root as int,
                    (dist_root as int) * (dist_root as int) <= d2 as int,
                    d2 as int <= 3_012_012_000_000_000_000_000_000int,
            ;
        }
        let shadow = Ray::new(point, dirv, None, Some(dist_root as i64));
        proof {
            lemma_norm_bounded(dirv@);
            let n = self.dirv(point).norm();
            let rc = n.recipv();
            if n.x != 0 {
                lemma_tdiv_bounds((UNIT as int) * (UNIT as int), n.x);
            }
            if n.y != 0 {
                lemma_tdiv_bounds((UNIT as int) * (UNIT as int), n.y);
            }
            if n.z != 0 {
                lemma_tdiv_bounds((UNIT as int) * (UNIT as int), n.z);
            }
            assert(shadow == self.shadow_ray(point));
        }
        let hit = world.does_intersect(&shadow);
        let ndir = dirv.normalized();
        if hit {
            (Color::black(), ndir)
        } else {
            proof {
                lemma_wide_product(self.intensity@.r);
                lemma_wide_product(self.intensity@.g);
                lemma_wide_product(self.intensity@.b);
            }
            let cr = sat_narrow(
                div_trunc((self.intensity.r as i128) * (UNIT as i128) * (UNIT as i128), d2),
            );
            let cg = sat_narrow(
                div_trunc((self.intensity.g as i128) * (UNIT as i128) * (UNIT as i128), d2),
            );
            let cb = sat_narrow(
                div_trunc((self.intensity.b as i128) * (UNIT as i128) * (UNIT as i128), d2),
            );
            (Color::new(cr, cg, cb), ndir)
        }
    }
}

} // verus!
