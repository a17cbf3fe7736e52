//! The whitted-style integrator: nearest hit, then one shadow-tested
//! Lambertian term per light.

use vstd::prelude::*;
use crate::color::Color;
use crate::color::C3;
use crate::geometry::Geometry;
use crate::ray::Ray;
use crate::world::World;
use crate::integrators::Integrator;
use crate::integrators::shade_spec;
use crate::integrators::shade_hit;

verus! {

/// Renders through a borrowed, read-only scene.
pub struct RayTraceIntegrator<'a> {
    pub world: &'a World,
}

impl<'a> Integrator for RayTraceIntegrator<'a> {
    open spec fn wf(&self) -> bool {
        self.world.wf()
    }

    open spec fn li_spec(&self, ray: Ray) -> C3 {
        shade_spec(&self.world.geometry, self.world.lights@, ray)
    }

    fn li(&self, ray: &Ray) -> (c: Color) {
        match self.world.geometry.intersect(ray) {
            None => Color::black(),
            Some(h) => shade_hit(&self.world.geometry, &self.world.lights, &h),
        }
    }
}

} // verus!
