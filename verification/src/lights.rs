//! Light sources: radiance arriving at a point, after an occlusion test
//! against the scene.

use vstd::prelude::*;
use crate::color::Color;
use crate::color::C3;
use crate::math::vec3::Vec3;
use crate::math::vec3::V3;
use crate::geometry::Geometry;
use crate::groups::simple_group::SimpleGroup;

pub mod point;

verus! {

/// Farthest coordinate a clipped hit point can reach: the coordinate range
/// plus the far clip. Light queries accept any point inside it.
pub const LIT_LIMIT: i64 = 1_001_000_000_000;

/// A source of light, able to report the radiance it contributes to a point
/// of the scene and the direction it shines from.
pub trait LightSource: Sized {
    /// The light's well-formedness: its parameters in range.
    spec fn wf(&self) -> bool;

    /// The radiance arriving at `point`, zero when occluded.
    spec fn radiance_at(&self, point: Vec3, world: &SimpleGroup) -> C3;

    /// The unit direction from `point` toward the light.
    spec fn direction_to(&self, point: Vec3) -> V3;

    /// Samples the light: incident radiance and its direction.
    fn sample(&self, point: Vec3, world: &SimpleGroup) -> (res: (Color, Vec3))
        requires
            self.wf(),
            world.wf(),
            point@.within(LIT_LIMIT as int),
        ensures
            res.0@ == self.radiance_at(point, world),
            res.1@ == self.direction_to(point),
    ;
}

} // verus!
