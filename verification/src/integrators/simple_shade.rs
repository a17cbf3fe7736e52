//! Debugging integrators: coloring by normal or by distance, and the plain
//! Lambertian shader behind [`intersect`].

use vstd::prelude::*;
use crate::color::Color;
use crate::color::C3;
use crate::color::sat64;
use crate::color::sat_narrow;
use crate::math::tdiv;
use crate::math::div_trunc;
use crate::math::COORD_LIMIT;
use crate::ray::Ray;
use crate::geometry::Geometry;
use crate::groups::simple_group::SimpleGroup;
use crate::lights::LightSource;
use crate::lights::point::PointLight;
use crate::integrators::lights_total;
use crate::integrators::shade_hit;

verus! {

/// Distance at which the distance coloring reaches full brightness.
pub const DISTANCE_SCALE: i64 = 1_700;

/// A normal component folded into a displayable channel: negative values
/// flipped positive, positive ones halved.
pub open spec fn fold_channel(v: int) -> int {
    if v < 0 {
        sat64(-v)
    } else {
        tdiv(v, 2)
    }
}

/// One displayable channel from a normal component.
fn make_color(value: i64) -> (r: i64)
    ensures
        r as int == fold_channel(value as int),
{
    if value < 0 {
        sat_narrow(-(value as i128))
    } else {
        let q = div_trunc(value as i128, 2);
        q as i64
    }
}

/// Colors a ray by the surface normal it first strikes.
pub fn normal_coloring<G: Geometry>(world: &G, ray: &Ray) -> (c: Color)
    requires
        world.wf(),
        ray.wf(),
    ensures
        c@ == (match world.spec_hit(*ray) {
            None => C3 { r: 0, g: 0, b: 0 },
            Some(h) => C3 {
                r: fold_channel(h.normal.x),
                g: fold_channel(h.normal.y),
                b: fold_channel(h.normal.z),
            },
        }),
{
    let hit = world.intersect(ray);
    let does_hit = world.does_intersect(ray);
    proof {
        // the boolean fast path cannot disagree with the full query: both
        // are pinned to the same mathematical hit
        assert(does_hit == (hit is Some));
    }
    match hit {
        Some(h) => Color::new(
            make_color(h.normal.x),
            make_color(h.normal.y),
            make_color(h.normal.z),
        ),
        None => Color::black(),
    }
}

/// Colors a ray by the distance of its first hit, white at the scale
/// distance.
pub fn distance_coloring<G: Geometry>(world: &G, ray: &Ray) -> (c: Color)
    requires
        world.wf(),
        ray.wf(),
    ensures
        c@ == (match world.spec_hit(*ray) {
            None => C3 { r: 0, g: 0, b: 0 },
            Some(h) => C3 {
                r: tdiv(h.distance, DISTANCE_SCALE as int),
                g: tdiv(h.distance, DISTANCE_SCALE as int),
                b: tdiv(h.distance, DISTANCE_SCALE as int),
            },
        }),
{
    match world.intersect(ray) {
        Some(h) => {
            let q = div_trunc(h.distance as i128, DISTANCE_SCALE as i128);
            let ch = q as i64;
            Color::new(ch, ch, ch)
        },
        None => Color::black(),
    }
}

/// The plain Lambertian shader: nearest hit, then the shadow-tested,
/// cosine-weighted sum over the lights.
fn lambertian(world: &SimpleGroup, lights: &Vec<PointLight>, ray: &Ray) -> (c: Color)
    requires
        world.wf(),
        ray.wf(),
        forall|i: int| 0 <= i < lights@.len() ==> (#[trigger] lights@[i]).wf(),
    ensures
        c@ == (match world.spec_hit(*ray) {
            None => C3 { r: 0, g: 0, b: 0 },
            Some(h) => lights_total(lights@, h, world),
        }),
{
    match world.intersect(ray) {
        Some(h) => shade_hit(world, lights, &h),
        None => Color::black(),
    }
}

/// Shades one ray against a scene: the entry point of this family.
pub fn intersect(world: &SimpleGroup, lights: &Vec<PointLight>, ray: &Ray) -> (c: Color)
    requires
        world.wf(),
        ray.wf(),
        forall|i: int| 0 <= i < lights@.len() ==> (#[trigger] lights@[i]).wf(),
    ensures
        c@ == (match world.spec_hit(*ray) {
            None => C3 { r: 0, g: 0, b: 0 },
            Some(h) => lights_total(lights@, h, world),
        }),
{
    lambertian(world, lights, ray)
}

} // verus!
