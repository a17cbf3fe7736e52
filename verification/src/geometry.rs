//! Geometry primitives and the capability they share: exact ray
//! intersection, a boolean visibility test, and a bounding box query.

use vstd::prelude::*;
use crate::math::vec3::Vec3;
use crate::math::vec3::V3;
use crate::ray::Ray;

pub mod sphere;
pub mod aabb;
pub mod triangle;

pub use sphere::Sphere;
pub use aabb::Aabb;
pub use triangle::Triangle;

verus! {

/// Where the bounding boxes of well-formed primitives live: one step looser
/// than the coordinate range, so that a sphere's box never overflows.
pub const BOUNDS_LIMIT: i64 = 2_000_000_000;

/// A surface hit: the point struck, the surface normal there, and the ray
/// parameter at which it happened.
#[derive(Copy, Clone, Debug, PartialEq, Eq, Structural)]
pub struct Hit {
    pub point: Vec3,
    pub normal: Vec3,
    pub distance: i64,
}

/// The mathematical value of a [`Hit`].
pub struct HitV {
    pub point: V3,
    pub normal: V3,
    pub distance: int,
}

impl View for Hit {
    type V = HitV;

    open spec fn view(&self) -> HitV {
        HitV { point: self.point@, normal: self.normal@, distance: self.distance as int }
    }
}

/// A box whose corners lie in the representable bounds range.
pub open spec fn box_in_range(b: Aabb) -> bool {
    b.min@.within(BOUNDS_LIMIT as int) && b.max@.within(BOUNDS_LIMIT as int)
}

/// The mathematical value of an optional hit.
pub open spec fn opt_hit_view(h: Option<Hit>) -> Option<HitV> {
    match h {
        Some(hit) => Some(hit@),
        None => None,
    }
}

/// The shared capability of every geometry primitive. Each implementation
/// gives its own mathematical hit function `spec_hit`; the two executable
/// queries are pinned to it, so `intersect` and `does_intersect` can never
/// disagree on whether a ray strikes the primitive.
pub trait Geometry: Sized {
    /// The shape's well-formedness: coordinates in range.
    spec fn wf(&self) -> bool;

    /// The mathematical hit of a ray against this shape.
    spec fn spec_hit(&self, ray: Ray) -> Option<HitV>;

    /// The mathematical corners (min, max) of the bounding box.
    spec fn spec_bounds(&self) -> (V3, V3);

    /// The nearest hit of the ray in its accepted interval, if any.
    fn intersect(&self, ray: &Ray) -> (res: Option<Hit>)
        requires
            self.wf(),
            ray.wf(),
        ensures
            opt_hit_view(res) == self.spec_hit(*ray),
    ;

    /// Whether the ray hits at all: the boolean fast path for shadow rays.
    fn does_intersect(&self, ray: &Ray) -> (res: bool)
        requires
            self.wf(),
            ray.wf(),
        ensures
            res == (self.spec_hit(*ray) is Some),
    ;

    /// An axis-aligned box containing the shape.
    fn get_bounds(&self) -> (res: Aabb)
        requires
            self.wf(),
        ensures
            (res.min@, res.max@) == self.spec_bounds(),
            box_in_range(res),
    ;
}

/// The closed set of primitives a scene can hold, dispatched by matching:
/// the uniform handle the aggregate stores.
#[derive(Copy, Clone, Debug, PartialEq, Eq, Structural)]
pub enum Primitive {
    Sphere(Sphere),
    Aabb(Aabb),
    Triangle(Triangle),
}

impl Geometry for Primitive {
    open spec fn wf(&self) -> bool {
        match self {
            Primitive::Sphere(s) => s.wf(),
            Primitive::Aabb(b) => b.wf(),
            Primitive::Triangle(t) => t.wf(),
        }
    }

    open spec fn spec_hit(&self, ray: Ray) -> Option<HitV> {
        match self {
            Primitive::Sphere(s) => s.spec_hit(ray),
            Primitive::Aabb(b) => b.spec_hit(ray),
            Primitive::Triangle(t) => t.spec_hit(ray),
        }
    }

    open spec fn spec_bounds(&self) -> (V3, V3) {
        match self {
            Primitive::Sphere(s) => s.spec_bounds(),
            Primitive::Aabb(b) => b.spec_bounds(),
            Primitive::Triangle(t) => t.spec_bounds(),
        }
    }

    fn intersect(&self, ray: &Ray) -> (res: Option<Hit>) {
        match self {
            Primitive::Sphere(s) => s.intersect(ray),
            Primitive::Aabb(b) => b.intersect(ray),
            Primitive::Triangle(t) => t.intersect(ray),
        }
    }

    fn does_intersect(&self, ray: &Ray) -> (res: bool) {
        match self {
            Primitive::Sphere(s) => s.does_intersect(ray),
            Primitive::Aabb(b) => b.does_intersect(ray),
            Primitive::Triangle(t) => t.does_intersect(ray),
        }
    }

    fn get_bounds(&self) -> (res: Aabb) {
        match self {
            Primitive::Sphere(s) => s.get_bounds(),
            Primitive::Aabb(b) => b.get_bounds(),
            Primitive::Triangle(t) => t.get_bounds(),
        }
    }
}

} // verus!
