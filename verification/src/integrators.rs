//! Integrators: from a ray and a scene to a color.

use vstd::prelude::*;
use crate::color::Color;
use crate::color::C3;
use crate::color::sat64;
use crate::color::sat_narrow;
use crate::math::tdiv;
use crate::math::lemma_mul_mag_le;
use crate::math::div_trunc;
use crate::math::UNIT;
use crate::math::vec3::Vec3;
use crate::ray::Ray;
use crate::geometry::Geometry;
use crate::geometry::Hit;
use crate::geometry::HitV;
use crate::groups::group_hit;
use crate::groups::simple_group::SimpleGroup;
use crate::lights::LightSource;
use crate::lights::LIT_LIMIT;
use crate::lights::point::PointLight;

pub mod ray_trace;
pub mod simple_shade;

verus! {

/// One light's contribution to a hit: its radiance there, weighted by the
/// clamped cosine between surface normal and light direction. A hit beyond
/// the lit range of the scene receives nothing.
pub open spec fn light_term(light: PointLight, h: HitV, g: &SimpleGroup) -> C3 {
    if h.point.within(LIT_LIMIT as int) {
        let pv = Vec3 { x: h.point.x as i64, y: h.point.y as i64, z: h.point.z as i64 };
        let c = light.radiance_at(pv, g);
        let dir = light.direction_to(pv);
        let cos = sat64(tdiv(h.normal.dot(dir), UNIT as int));
        let w = if cos > 0 {
            cos
        } else {
            0
        };
        c.scale_sat(w)
    } else {
        C3 { r: 0, g: 0, b: 0 }
    }
}

/// The summed contribution of a sequence of lights, saturating.
pub open spec fn lights_total(ls: Seq<PointLight>, h: HitV, g: &SimpleGroup) -> C3
    decreases ls.len(),
{
    if ls.len() == 0 {
        C3 { r: 0, g: 0, b: 0 }
    } else {
        lights_total(ls.drop_last(), h, g).plus_sat(light_term(ls.last(), h, g))
    }
}

/// The color of a ray in a scene: black where nothing is hit, otherwise the
/// summed light contributions at the nearest hit.
pub open spec fn shade_spec(g: &SimpleGroup, ls: Seq<PointLight>, ray: Ray) -> C3 {
    match group_hit(g.list@, ray) {
        None => C3 { r: 0, g: 0, b: 0 },
        Some(h) => lights_total(ls, h, g),
    }
}

/// A scene with no primitives yields black for every ray.
pub proof fn lemma_empty_scene_is_black(g: &SimpleGroup, ls: Seq<PointLight>, ray: Ray)
    requires
        g.list@.len() == 0,
    ensures
        shade_spec(g, ls, ray).is_black(),
{
}

/// Turns a ray into the radiance arriving along it.
pub trait Integrator: Sized {
    /// The integrator's well-formedness.
    spec fn wf(&self) -> bool;

    /// The mathematical color of a ray.
    spec fn li_spec(&self, ray: Ray) -> C3;

    /// Computes the color of a ray.
    fn li(&self, ray: &Ray) -> (c: Color)
        requires
            self.wf(),
            ray.wf(),
        ensures
            c@ == self.li_spec(*ray),
    ;
}

/// Whether a point lies inside the lit range.
fn in_lit_range(p: &Vec3) -> (b: bool)
    ensures
        b == p@.within(LIT_LIMIT as int),
{
    -LIT_LIMIT <= p.x && p.x <= LIT_LIMIT && -LIT_LIMIT <= p.y && p.y <= LIT_LIMIT && -LIT_LIMIT
        <= p.z && p.z <= LIT_LIMIT
}

/// Accumulates every light's contribution at a hit.
pub fn shade_hit(g: &SimpleGroup, lights: &Vec<PointLight>, h: &Hit) -> (c: Color)
    requires
        g.wf(),
        forall|i: int| 0 <= i < lights@.len() ==> (#[trigger] lights@[i]).wf(),
    ensures
        c@ == lights_total(lights@, h@, g),
{
    let ghost ls = lights@;
    let mut acc = Color::black();
    let mut i: usize = 0;
    proof {
        assert(ls.subrange(0, 0) =~= Seq::<PointLight>::empty());
    }
    while i < lights.len()
        invariant
            0 <= i <= lights.len(),
            ls == lights@,
            g.wf(),
            forall|j: int| 0 <= j < ls.len() ==> (#[trigger] ls[j]).wf(),
            acc@ == lights_total(ls.subrange(0, i as int), h@, g),
        decreases lights.len() - i,
    {
        let light = &lights[i];
        let term: Color = if in_lit_range(&h.point) {
            let (cl, dir) = light.sample(h.point, g);
            proof {
                assert((Vec3 {
                    x: h@.point.x as i64,
                    y: h@.point.y as i64,
                    z: h@.point.z as i64,
                }) == h.point);
                if !light.dirv(h.point).is_zero() {
                    crate::math::vec3::lemma_norm_bounded(light.dirv(h.point));
                }
                assert(dir@.within(UNIT as int));
                lemma_mul_mag_le(h@.normal.x, dir@.x, 10_000_000_000_000_000_000, 1_000_000);
                lemma_mul_mag_le(h@.normal.y, dir@.y, 10_000_000_000_000_000_000, 1_000_000);
                lemma_mul_mag_le(h@.normal.z, dir@.z, 10_000_000_000_000_000_000, 1_000_000);
            }
            let dotn: i128 = (h.normal.x as i128) * (dir.x as i128) + (h.normal.y as i128) * (
            dir.y as i128) + (h.normal.z as i128) * (dir.z as i128);
            let cos = sat_narrow(div_trunc(dotn, UNIT as i128));
            let w: i64 = if cos > 0 {
                cos
            } else {
                0
            };
            cl.scale_sat(w)
        } else {
            Color::black()
        };
        acc = acc.add_sat(&term);
        proof {
            assert(ls.subrange(0, i + 1).drop_last() =~= ls.subrange(0, i as int));
            assert(ls.subrange(0, i + 1).last() == ls[i as int]);
        }
        i = i + 1;
    }
    proof {
        assert(ls.subrange(0, ls.len() as int) =~= ls);
    }
    acc
}

} // verus!
