//! The ideal diffuse material: reflection proportional to the cosine of the
//! incident angle.

use vstd::prelude::*;
use crate::color::Color;
use crate::color::C3;
use crate::math::tdiv;
use crate::math::UNIT;
use crate::math::vec3::Vec3;
use crate::math::vec3::V3;
use crate::materials::Material;

verus! {

/// A Lambertian surface of one albedo color.
#[derive(Copy, Clone, Debug, PartialEq, Eq, Structural)]
pub struct Lambertian {
    pub color: Color,
}

impl Material for Lambertian {
    open spec fn brdf_spec(&self, color_in: C3, light_in: V3, light_out: V3, normal: V3) -> C3 {
        color_in.scale_sat(tdiv(light_in.dot(normal), UNIT as int))
    }

    fn brdf(&self, color_in: Color, light_in: Vec3, light_out: Vec3, normal: Vec3) -> (c: Color) {
        let cos = light_in.dot(&normal);
        color_in.scale_sat(cos)
    }
}

} // verus!
