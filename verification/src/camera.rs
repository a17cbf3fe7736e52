//! Cameras: from a normalized image-plane coordinate to a world-space ray.
//!
//! Image-space `y` grows downward, so the vertical coordinate is negated
//! when it is mapped onto the `up` basis vector.

use vstd::prelude::*;
use crate::math::mag;
use crate::math::tdiv;
use crate::math::fmul;
use crate::math::div_trunc;
use crate::math::lemma_tdiv_error;
use crate::math::lemma_tdiv_bounds;
use crate::math::lemma_mul_mag_le;
use crate::math::UNIT;
use crate::math::EPSILON;
use crate::math::COORD_LIMIT;
use crate::math::T_FAR;
use crate::math::vec2::Vec2;
use crate::math::vec3::Vec3;
use crate::math::vec3::V3;
use crate::ray::Ray;
use crate::ray::ORIGIN_LIMIT;
use crate::ray::lemma_unit_fmul_le;

verus! {

/// A normalized image coordinate remapped from `[0, 1]` to `[-1, 1]`.
pub open spec fn ndc_spec(c: int) -> int {
    2 * (c - (UNIT as int) / 2)
}

/// Maps a camera to rays: one per image-plane sample.
pub trait Camera: Sized {
    /// The camera's well-formedness: a usable basis.
    spec fn wf(&self) -> bool;

    /// How the produced ray relates to the camera and the coordinate.
    spec fn ray_matches(&self, coords: Vec2, r: Ray) -> bool;

    /// The ray of one image-plane coordinate, both components in `[0, 1]`.
    fn at(&self, coords: Vec2) -> (r: Ray)
        requires
            self.wf(),
            0 <= coords.x <= UNIT,
            0 <= coords.y <= UNIT,
        ensures
            self.ray_matches(coords, r),
            r.wf(),
    ;
}

/// Remaps both components of an image coordinate to `[-1, 1]`.
fn prepare_input(coords: Vec2) -> (r: Vec2)
    requires
        0 <= coords.x <= UNIT,
        0 <= coords.y <= UNIT,
    ensures
        r.x as int == ndc_spec(coords.x as int),
        r.y as int == ndc_spec(coords.y as int),
        mag(r.x as int) <= UNIT as int,
        mag(r.y as int) <= UNIT as int,
{
    Vec2 { x: (coords.x - 500_000) * 2, y: (coords.y - 500_000) * 2 }
}

/// A parallel-projection camera. The stored `up` and `right` are scaled to
/// half the image plane's height and width; rays share one direction and
/// start spread across the plane.
#[derive(Copy, Clone, Debug, PartialEq, Eq, Structural)]
pub struct OrthographicCamera {
    pub origin: Vec3,
    pub forward: Vec3,
    pub up: Vec3,
    pub right: Vec3,
}

impl OrthographicCamera {
    /// Builds the camera basis: forward normalized, right orthogonal to
    /// forward and the up hint, up re-orthogonalized, both scaled to the
    /// half extents.
    pub fn new(origin: Vec3, forward: Vec3, up: Vec3, size: Vec2) -> (c: OrthographicCamera)
        requires
            !forward@.is_zero(),
            !up@.is_zero(),
            !forward@.norm().cross_fixed(up@.norm()).is_zero(),
            !forward@.norm().cross_fixed(up@.norm()).norm().cross_fixed(
                forward@.norm(),
            ).is_zero(),
            mag(size.x as int) <= T_FAR as int,
            mag(size.y as int) <= T_FAR as int,
            mag(origin@.x) + mag(size.x as int) + mag(size.y as int) <= ORIGIN_LIMIT as int,
            mag(origin@.y) + mag(size.x as int) + mag(size.y as int) <= ORIGIN_LIMIT as int,
            mag(origin@.z) + mag(size.x as int) + mag(size.y as int) <= ORIGIN_LIMIT as int,
        ensures
            c.origin == origin,
            c.forward@ == forward@.norm(),
            c.right@ == forward@.norm().cross_fixed(up@.norm()).norm().scale_fixed(size.x as int),
            c.up@ == forward@.norm().cross_fixed(up@.norm()).norm().cross_fixed(
                forward@.norm(),
            ).norm().scale_fixed(size.y as int),
            c.wf(),
    {
        let f = forward.normalized();
        let u = up.normalized();
        let r = f.cross(&u).normalized();
        let right = r.scale(size.x);
        let upv = r.cross(&f).normalized().scale(size.y);
        let c = OrthographicCamera { origin, forward: f, up: upv, right };
        proof {
            lemma_scale_within(r@, size.x as int);
            lemma_scale_within(r@.cross_fixed(f@).norm(), size.y as int);
        }
        c
    }
}

/// Scaling a unit-bounded vector keeps every component within the scalar.
proof fn lemma_scale_within(v: V3, s: int)
    requires
        v.within(UNIT as int),
    ensures
        v.scale_fixed(s).within(mag(s)),
{
    lemma_unit_fmul_le(v.x, s);
    lemma_unit_fmul_le(v.y, s);
    lemma_unit_fmul_le(v.z, s);
    assert(v.x * s == s * v.x) by (nonlinear_arith);
    assert(v.y * s == s * v.y) by (nonlinear_arith);
    assert(v.z * s == s * v.z) by (nonlinear_arith);
}

impl Camera for OrthographicCamera {
    open spec fn wf(&self) -> bool {
        &&& self.forward@.within(UNIT as int)
        &&& !self.forward@.is_zero()
        &&& self.up@.within(T_FAR as int)
        &&& self.right@.within(T_FAR as int)
        &&& mag(self.origin@.x) + mag(self.up@.x) + mag(self.right@.x) <= ORIGIN_LIMIT as int
        &&& mag(self.origin@.y) + mag(self.up@.y) + mag(self.right@.y) <= ORIGIN_LIMIT as int
        &&& mag(self.origin@.z) + mag(self.up@.z) + mag(self.right@.z) <= ORIGIN_LIMIT as int
    }

    open spec fn ray_matches(&self, coords: Vec2, r: Ray) -> bool {
        let cx = ndc_spec(coords.x as int);
        let cy = ndc_spec(coords.y as int);
        let o = self.origin@.plus(self.up@.scale_fixed(-cy)).plus(
            self.right@.scale_fixed(cx),
        );
        &&& r.origin@ == o
        &&& r.direction@ == self.forward@.norm()
        &&& r.recip_direction@ == r.direction@.recipv()
        &&& r.min_distance == EPSILON
        &&& r.max_distance == T_FAR
    }

    fn at(&self, coords: Vec2) -> (r: Ray) {
        let c = prepare_input(coords);
        proof {
            lemma_unit_fmul_le(-(c.y as int), self.up@.x);
            lemma_unit_fmul_le(-(c.y as int), self.up@.y);
            lemma_unit_fmul_le(-(c.y as int), self.up@.z);
            lemma_unit_fmul_le(c.x as int, self.right@.x);
            lemma_unit_fmul_le(c.x as int, self.right@.y);
            lemma_unit_fmul_le(c.x as int, self.right@.z);
        }
        let o = self.origin.add(&self.up.scale(-c.y)).add(&self.right.scale(c.x));
        Ray::new(o, self.forward, None, None)
    }
}

/// A pinhole camera. The stored `up` and `right` are the basis vectors
/// scaled by the tangent of half the field of view, `right` additionally
/// divided by the aspect ratio; every ray starts at the one origin.
#[derive(Copy, Clone, Debug, PartialEq, Eq, Structural)]
pub struct PerspectiveCamera {
    pub origin: Vec3,
    pub forward: Vec3,
    pub up: Vec3,
    pub right: Vec3,
}

impl PerspectiveCamera {
    /// Builds the camera basis from the pose, the aspect ratio and the
    /// tangent of half the field of view (both fixed-point).
    pub fn new(origin: Vec3, forward: Vec3, up: Vec3, aspect: i64, fov_tan: i64) -> (c:
        PerspectiveCamera)
        requires
            !forward@.is_zero(),
            !up@.is_zero(),
            !forward@.norm().cross_fixed(up@.norm()).is_zero(),
            origin@.within(COORD_LIMIT as int),
            1 <= aspect <= T_FAR,
            0 <= fov_tan <= T_FAR,
            mag(tdiv(fov_tan * (UNIT as int), aspect as int)) <= T_FAR as int,
            forward@.norm().len2() > mag(
                forward@.norm().dot(up@.norm().scale_fixed(fov_tan as int)),
            ) + mag(
                forward@.norm().dot(
                    forward@.norm().cross_fixed(up@.norm()).norm().scale_fixed(
                        tdiv(fov_tan * (UNIT as int), aspect as int),
                    ),
                ),
            ) + 6 * (UNIT as int),
        ensures
            c.origin == origin,
            c.forward@ == forward@.norm(),
            c.up@ == up@.norm().scale_fixed(fov_tan as int),
            c.right@ == forward@.norm().cross_fixed(up@.norm()).norm().scale_fixed(
                tdiv(fov_tan * (UNIT as int), aspect as int),
            ),
            c.wf(),
    {
        let f = forward.normalized();
        let u = up.normalized();
        let r = f.cross(&u).normalized();
        proof {
            lemma_tdiv_bounds(fov_tan as int * (UNIT as int), aspect as int);
            lemma_mul_mag_le(fov_tan as int, UNIT as int, T_FAR as int, UNIT as int);
        }
        let size_x_wide = div_trunc((fov_tan as i128) * (UNIT as i128), aspect as i128);
        let size_x = size_x_wide as i64;
        let right = r.scale(size_x);
        let upv = u.scale(fov_tan);
        proof {
            lemma_scale_within(r@, size_x as int);
            lemma_scale_within(u@, fov_tan as int);
        }
        PerspectiveCamera { origin, forward: f, up: upv, right }
    }
}

/// Scaling by a unit-bounded factor moves a dot product against a unit
/// vector by less than three units.
proof fn lemma_scale_dot_err(u: V3, c: int, f: V3)
    requires
        mag(c) <= UNIT as int,
        f.within(UNIT as int),
    ensures
        mag(u.scale_fixed(c).dot(f)) <= mag(u.dot(f)) + 3 * (UNIT as int),
{
    let s = UNIT as int;
    lemma_tdiv_error(u.x * c, s);
    lemma_tdiv_error(u.y * c, s);
    lemma_tdiv_error(u.z * c, s);
    let ex = u.x * c - fmul(u.x, c) * s;
    let ey = u.y * c - fmul(u.y, c) * s;
    let ez = u.z * c - fmul(u.z, c) * s;
    assert(mag(ex) < s && mag(ey) < s && mag(ez) < s);
    // multiply the dot product out at full scale, one component at a time
    assert(fmul(u.x, c) * f.x * s == c * (u.x * f.x) - ex * f.x) by (nonlinear_arith)
        requires
            ex == u.x * c - fmul(u.x, c) * s,
    ;
    assert(fmul(u.y, c) * f.y * s == c * (u.y * f.y) - ey * f.y) by (nonlinear_arith)
        requires
            ey == u.y * c - fmul(u.y, c) * s,
    ;
    assert(fmul(u.z, c) * f.z * s == c * (u.z * f.z) - ez * f.z) by (nonlinear_arith)
        requires
            ez == u.z * c - fmul(u.z, c) * s,
    ;
    assert(u.scale_fixed(c).dot(f) * s == fmul(u.x, c) * f.x * s + fmul(u.y, c) * f.y * s + fmul(
        u.z,
        c,
    ) * f.z * s) by (nonlinear_arith)
        requires
            u.scale_fixed(c).dot(f) == fmul(u.x, c) * f.x + fmul(u.y, c) * f.y + fmul(u.z, c)
                * f.z,
    ;
    assert(c * u.dot(f) == c * (u.x * f.x) + c * (u.y * f.y) + c * (u.z * f.z))
        by (nonlinear_arith)
        requires
            u.dot(f) == u.x * f.x + u.y * f.y + u.z * f.z,
    ;
    assert(u.scale_fixed(c).dot(f) * s == c * u.dot(f) - (ex * f.x + ey * f.y + ez * f.z));
    lemma_mul_mag_le(ex, f.x, s, s);
    lemma_mul_mag_le(ey, f.y, s, s);
    lemma_mul_mag_le(ez, f.z, s, s);
    lemma_mul_mag_le(c, u.dot(f), s, mag(u.dot(f)));
    assert(mag(u.scale_fixed(c).dot(f) * s) <= s * mag(u.dot(f)) + 3 * (s * s));
    assert(mag(u.scale_fixed(c).dot(f) * s) == mag(u.scale_fixed(c).dot(f)) * s)
        by (nonlinear_arith)
        requires
            s > 0,
    ;
    assert(s * mag(u.dot(f)) + 3 * (s * s) == (mag(u.dot(f)) + 3 * s) * s) by (nonlinear_arith);
    assert(mag(u.scale_fixed(c).dot(f)) <= mag(u.dot(f)) + 3 * s) by (nonlinear_arith)
        requires
            mag(u.scale_fixed(c).dot(f)) * s <= (mag(u.dot(f)) + 3 * s) * s,
            s > 0,
    ;
}

impl Camera for PerspectiveCamera {
    open spec fn wf(&self) -> bool {
        &&& self.forward@.within(UNIT as int)
        &&& !self.forward@.is_zero()
        &&& self.origin@.within(COORD_LIMIT as int)
        &&& self.up@.within(T_FAR as int)
        &&& self.right@.within(T_FAR as int)
        &&& self.forward@.len2() > mag(self.forward@.dot(self.up@)) + mag(
            self.forward@.dot(self.right@),
        ) + 6 * (UNIT as int)
    }

    open spec fn ray_matches(&self, coords: Vec2, r: Ray) -> bool {
        let cx = ndc_spec(coords.x as int);
        let cy = ndc_spec(coords.y as int);
        let d = self.forward@.plus(self.up@.scale_fixed(-cy)).plus(
            self.right@.scale_fixed(cx),
        );
        &&& r.origin == self.origin
        &&& r.direction@ == d.norm()
        &&& r.recip_direction@ == r.direction@.recipv()
        &&& r.min_distance == EPSILON
        &&& r.max_distance == T_FAR
    }

    fn at(&self, coords: Vec2) -> (r: Ray) {
        let c = prepare_input(coords);
        proof {
            lemma_unit_fmul_le(-(c.y as int), self.up@.x);
            lemma_unit_fmul_le(-(c.y as int), self.up@.y);
            lemma_unit_fmul_le(-(c.y as int), self.up@.z);
            lemma_unit_fmul_le(c.x as int, self.right@.x);
            lemma_unit_fmul_le(c.x as int, self.right@.y);
            lemma_unit_fmul_le(c.x as int, self.right@.z);
        }
        let d = self.forward.add(&self.up.scale(-c.y)).add(&self.right.scale(c.x));
        proof {
            let dv = d@;
            let f = self.forward@;
            let a = self.up@.scale_fixed(-(c.y as int));
            let b = self.right@.scale_fixed(c.x as int);
            lemma_scale_dot_err(self.up@, -(c.y as int), f);
            lemma_scale_dot_err(self.right@, c.x as int, f);
            assert((f.x + a.x + b.x) * f.x == f.x * f.x + a.x * f.x + b.x * f.x)
                by (nonlinear_arith);
            assert((f.y + a.y + b.y) * f.y == f.y * f.y + a.y * f.y + b.y * f.y)
                by (nonlinear_arith);
            assert((f.z + a.z + b.z) * f.z == f.z * f.z + a.z * f.z + b.z * f.z)
                by (nonlinear_arith);
            assert(dv.dot(f) == f.len2() + a.dot(f) + b.dot(f));
            assert(f.dot(self.up@) == self.up@.dot(f)) by (nonlinear_arith);
            assert(f.dot(self.right@) == self.right@.dot(f)) by (nonlinear_arith);
            assert(dv.dot(f) > 0);
            if dv.is_zero() {
                assert(dv.dot(f) == 0) by (nonlinear_arith)
                    requires
                        dv.x == 0,
                        dv.y == 0,
                        dv.z == 0,
                ;
            }
        }
        Ray::new(self.origin, d, None, None)
    }
}

/// The center ray of a perspective camera whose forward vector is exactly
/// unit length: both image offsets vanish, so the ray starts at the camera
/// origin and travels exactly along the forward vector.
pub proof fn lemma_center_ray_is_forward(cam: PerspectiveCamera, r: Ray)
    requires
        cam.ray_matches(Vec2 { x: 500_000, y: 500_000 }, r),
        cam.forward@.len2() == (UNIT as int) * (UNIT as int),
    ensures
        r.origin == cam.origin,
        r.direction@ == cam.forward@,
{
    let su = UNIT as int;
    let f = cam.forward@;
    assert(ndc_spec(500_000) == 0);
    vstd::arithmetic::div_mod::lemma_div_of0(su);
    assert(tdiv(cam.up@.x * 0, su) == 0 && tdiv(cam.up@.y * 0, su) == 0 && tdiv(
        cam.up@.z * 0,
        su,
    ) == 0);
    assert(tdiv(cam.right@.x * 0, su) == 0 && tdiv(cam.right@.y * 0, su) == 0 && tdiv(
        cam.right@.z * 0,
        su,
    ) == 0);
    let dv = f.plus(cam.up@.scale_fixed(0)).plus(cam.right@.scale_fixed(0));
    assert(dv == f);
    assert((su + 1) * (su + 1) > su * su && su * su >= 0) by (nonlinear_arith)
        requires
            su >= 1,
    ;
    crate::math::lemma_sqrt_floor_unique(f.len2(), su);
    crate::math::lemma_tdiv_mul_exact(f.x, su);
    crate::math::lemma_tdiv_mul_exact(f.y, su);
    crate::math::lemma_tdiv_mul_exact(f.z, su);
    assert(r.direction@ == dv.norm());
    assert(dv.norm().x == f.x && dv.norm().y == f.y && dv.norm().z == f.z);
}

/// The end of the pipeline meets its beginning: the center ray of a
/// perspective camera aimed straight at a sphere on its forward axis makes
/// a frontal hit, the surface normal exactly opposing the ray direction.
/// Exact configuration as in the sphere's frontal-hit law, with the camera
/// origin and forward vector standing for the ray.
pub proof fn lemma_center_ray_frontal_hit(
    cam: PerspectiveCamera,
    s: crate::geometry::Sphere,
    r: Ray,
    k: int,
)
    requires
        cam.ray_matches(Vec2 { x: 500_000, y: 500_000 }, r),
        cam.forward@.len2() == (UNIT as int) * (UNIT as int),
        (UNIT as int) * (s.center@.x - cam.origin@.x) == k * cam.forward@.x,
        (UNIT as int) * (s.center@.y - cam.origin@.y) == k * cam.forward@.y,
        (UNIT as int) * (s.center@.z - cam.origin@.z) == k * cam.forward@.z,
        (s.radius as int) * cam.forward@.x % (UNIT as int) == 0,
        (s.radius as int) * cam.forward@.y % (UNIT as int) == 0,
        (s.radius as int) * cam.forward@.z % (UNIT as int) == 0,
        1 <= s.radius < k,
        r.min_distance as int <= k - s.radius < r.max_distance as int,
    ensures
        match crate::geometry::Geometry::spec_hit(&s, r) {
            Some(hit) => {
                &&& hit.normal == r.direction@.negv()
                &&& hit.distance == crate::math::sqrt_floor(s.oc(r).len2()) - s.radius
            },
            None => false,
        },
{
    lemma_center_ray_is_forward(cam, r);
    crate::geometry::sphere::lemma_frontal_hit(s, r, k);
}

} // verus!
