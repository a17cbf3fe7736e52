//! The scene: geometry, materials and lights, built once and read-only
//! while rendering.

use vstd::prelude::*;
use crate::geometry::Geometry;
use crate::groups::simple_group::SimpleGroup;
use crate::lights::LightSource;
use crate::lights::point::PointLight;
use crate::materials::lambertian::Lambertian;

verus! {

/// Everything a render needs: the aggregate of primitives, a side table of
/// materials, and the light sources.
pub struct World {
    pub geometry: SimpleGroup,
    pub materials: Vec<Lambertian>,
    pub lights: Vec<PointLight>,
}

impl World {
    /// The scene is well-formed when its aggregate and all lights are.
    pub open spec fn wf(&self) -> bool {
        &&& self.geometry.wf()
        &&& forall|i: int|
            0 <= i < self.lights@.len() ==> (#[trigger] self.lights@[i]).wf()
    }
}

} // verus!
