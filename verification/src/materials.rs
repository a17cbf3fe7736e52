//! Surface materials: how incident light becomes reflected light.

use vstd::prelude::*;
use crate::color::Color;
use crate::color::C3;
use crate::math::vec3::Vec3;
use crate::math::vec3::V3;
use crate::math::T_FAR;

pub mod lambertian;

verus! {

/// A reflectance model: turns incident radiance into reflected radiance for
/// a pair of light directions and a surface normal.
pub trait Material: Sized {
    /// The mathematical value of the reflectance.
    spec fn brdf_spec(&self, color_in: C3, light_in: V3, light_out: V3, normal: V3) -> C3;

    /// Evaluates the reflectance.
    fn brdf(&self, color_in: Color, light_in: Vec3, light_out: Vec3, normal: Vec3) -> (c: Color)
        requires
            light_in@.within(T_FAR as int),
            normal@.within(T_FAR as int),
        ensures
            c@ == self.brdf_spec(color_in@, light_in@, light_out@, normal@),
    ;
}

} // verus!
