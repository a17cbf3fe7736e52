//! Triangles, intersected with the Moller-Trumbore barycentric test.
//!
//! All intermediate quantities are exact integers; the one division happens
//! at the end, for the hit parameter. The barycentric checks compare the
//! exact numerators against the determinant, which is the mathematical
//! content of the floating-point `0 <= u <= 1` tests.
//!
//! The normal is `normalize(e2 x e1)`: fixed by the vertex winding and never
//! flipped toward the ray, so back-face hits report the same normal as
//! front-face hits. This asymmetry is deliberate and preserved.

use vstd::prelude::*;
use crate::math::mag;
use crate::math::tdiv;
use crate::math::lemma_mul_mag_le;
use crate::math::lemma_tdiv_bounds;
use crate::math::div_trunc;
use crate::math::UNIT;
use crate::math::EPSILON;
use crate::math::COORD_LIMIT;
use crate::math::vec3::Vec3;
use crate::math::vec3::V3;
use crate::math::vec3::lemma_scalar_triple;
use crate::math::vec3::lemma_cross_orthogonal;
use crate::ray::Ray;
use crate::geometry::Geometry;
use crate::geometry::Hit;
use crate::geometry::HitV;
use crate::geometry::Aabb;

verus! {

/// Determinants smaller than this in magnitude count as parallel: the
/// tolerance [`EPSILON`] expressed at the determinant's scale, which is the
/// cube of the raw unit.
pub const PARALLEL_EPS: i64 = 1_000_000_000_000_000;

/// A triangle given by three ordered vertices; the winding fixes the normal.
#[derive(Copy, Clone, Debug, PartialEq, Eq, Structural)]
pub struct Triangle {
    pub v0: Vec3,
    pub v1: Vec3,
    pub v2: Vec3,
}

impl Triangle {
    /// Builds a triangle from its vertices.
    pub fn new(v0: Vec3, v1: Vec3, v2: Vec3) -> (t: Triangle)
        ensures
            t.v0 == v0,
            t.v1 == v1,
            t.v2 == v2,
    {
        Triangle { v0, v1, v2 }
    }

    /// The first edge, from vertex 0 to vertex 1.
    pub open spec fn e1(self) -> V3 {
        self.v1@.minus(self.v0@)
    }

    /// The second edge, from vertex 0 to vertex 2.
    pub open spec fn e2(self) -> V3 {
        self.v2@.minus(self.v0@)
    }

    /// The direction crossed with the second edge.
    pub open spec fn hvec(self, ray: Ray) -> V3 {
        ray.direction@.cross_raw(self.e2())
    }

    /// The determinant: the first edge projected onto `hvec`. Near zero,
    /// the ray is parallel to the triangle's plane.
    pub open spec fn det(self, ray: Ray) -> int {
        self.e1().dot(self.hvec(ray))
    }

    /// From vertex 0 to the ray origin.
    pub open spec fn svec(self, ray: Ray) -> V3 {
        ray.origin@.minus(self.v0@)
    }

    /// Numerator of the first barycentric coordinate `u`.
    pub open spec fn u_num(self, ray: Ray) -> int {
        self.svec(ray).dot(self.hvec(ray))
    }

    /// The `s` vector crossed with the first edge.
    pub open spec fn qvec(self, ray: Ray) -> V3 {
        self.svec(ray).cross_raw(self.e1())
    }

    /// Numerator of the second barycentric coordinate `v`.
    pub open spec fn v_num(self, ray: Ray) -> int {
        ray.direction@.dot(self.qvec(ray))
    }

    /// Numerator of the hit parameter.
    pub open spec fn t_num(self, ray: Ray) -> int {
        self.e2().dot(self.qvec(ray))
    }

    /// The hit parameter: `t_num / det`, brought to fixed-point scale.
    pub open spec fn hit_param(self, ray: Ray) -> int {
        tdiv(self.t_num(ray) * (UNIT as int), self.det(ray))
    }

    /// The barycentric point-in-triangle test: `0 <= u`, `0 <= v` and
    /// `u + v <= 1`, compared exactly through the numerators.
    pub open spec fn inside(self, ray: Ray) -> bool {
        let a = self.det(ray);
        let u = self.u_num(ray);
        let v = self.v_num(ray);
        if a >= 0 {
            0 <= u && u <= a && 0 <= v && u + v <= a
        } else {
            u <= 0 && a <= u && v <= 0 && a <= u + v
        }
    }

    /// The unnormalized face normal `e2 x e1`.
    pub open spec fn face_vec(self) -> V3 {
        self.e2().cross_raw(self.e1())
    }

    /// The mathematical hit of the triangle.
    pub open spec fn triangle_hit(self, ray: Ray) -> Option<HitV> {
        if mag(self.det(ray)) < PARALLEL_EPS as int {
            None
        } else if !self.inside(ray) {
            None
        } else {
            let t = self.hit_param(ray);
            if ray.min_distance as int <= t && t < ray.max_distance as int {
                Some(
                    HitV {
                        point: ray.at_spec(t),
                        normal: self.face_vec().norm(),
                        distance: t,
                    },
                )
            } else {
                None
            }
        }
    }
}

/// A ray parallel to the triangle's plane never hits, wherever it starts:
/// the determinant is exactly the direction's projection onto the face
/// vector, so a direction orthogonal enough to the face normal falls under
/// the parallel tolerance.
pub proof fn lemma_parallel_ray_misses(t: Triangle, ray: Ray)
    requires
        mag(ray.direction@.dot(t.face_vec())) < PARALLEL_EPS as int,
    ensures
        t.triangle_hit(ray) is None,
{
    lemma_scalar_triple(t.e1(), ray.direction@, t.e2());
}

/// One product of the barycentric derivation: a componentwise relation on
/// the origin offset, multiplied through by another component.
proof fn lemma_sub_mul(svc: int, e1c: int, e2c: int, dc: int, mu: int, wc: int)
    requires
        3 * (UNIT as int) * svc == (UNIT as int) * e1c + (UNIT as int) * e2c - 3 * (mu * dc),
    ensures
        3 * (UNIT as int) * (svc * wc) == (UNIT as int) * (e1c * wc) + (UNIT as int) * (e2c * wc)
            - 3 * (mu * (dc * wc)),
{
    assert(3 * (UNIT as int) * (svc * wc) == (UNIT as int) * (e1c * wc) + (UNIT as int) * (e2c
        * wc) - 3 * (mu * (dc * wc))) by (nonlinear_arith)
        requires
            3 * (UNIT as int) * svc == (UNIT as int) * e1c + (UNIT as int) * e2c - 3 * (mu * dc),
    ;
}

/// A ray through the triangle's centroid, offset out of the plane along its
/// own direction, strikes the triangle at barycentric coordinates of one
/// third each — both nonnegative, summing below one — at exactly the offset
/// parameter. The centroid `p` and the offset `mu` are exact: the vertex
/// sums are divisible by three and the origin sits `mu` direction-steps
/// before `p`.
pub proof fn lemma_centroid_ray_hits(t: Triangle, ray: Ray, p: V3, mu: int)
    requires
        3 * p.x == t.v0@.x + t.v1@.x + t.v2@.x,
        3 * p.y == t.v0@.y + t.v1@.y + t.v2@.y,
        3 * p.z == t.v0@.z + t.v1@.z + t.v2@.z,
        (UNIT as int) * (p.x - ray.origin@.x) == mu * ray.direction@.x,
        (UNIT as int) * (p.y - ray.origin@.y) == mu * ray.direction@.y,
        (UNIT as int) * (p.z - ray.origin@.z) == mu * ray.direction@.z,
        mag(t.det(ray)) >= PARALLEL_EPS as int,
        ray.min_distance as int <= mu < ray.max_distance as int,
    ensures
        3 * t.u_num(ray) == t.det(ray),
        3 * t.v_num(ray) == t.det(ray),
        t.hit_param(ray) == mu,
        t.triangle_hit(ray) == Some(
            HitV { point: ray.at_spec(mu), normal: t.face_vec().norm(), distance: mu },
        ),
{
    let s = UNIT as int;
    let d = ray.direction@;
    let e1 = t.e1();
    let e2 = t.e2();
    let sv = t.svec(ray);
    let h = t.hvec(ray);
    let q = t.qvec(ray);
    let a = t.det(ray);
    let fv = t.face_vec();
    let dl = d.cross_raw(e1);
    // the origin offset, componentwise, at three times fixed scale
    assert(sv.x == ray.origin@.x - t.v0@.x && sv.y == ray.origin@.y - t.v0@.y && sv.z
        == ray.origin@.z - t.v0@.z);
    assert(e1.x == t.v1@.x - t.v0@.x && e1.y == t.v1@.y - t.v0@.y && e1.z == t.v1@.z - t.v0@.z);
    assert(e2.x == t.v2@.x - t.v0@.x && e2.y == t.v2@.y - t.v0@.y && e2.z == t.v2@.z - t.v0@.z);
    assert(s * ray.origin@.x == s * p.x - mu * d.x);
    assert(s * ray.origin@.y == s * p.y - mu * d.y);
    assert(s * ray.origin@.z == s * p.z - mu * d.z);
    assert(3 * s * sv.x == s * e1.x + s * e2.x - 3 * (mu * d.x)) by (nonlinear_arith)
        requires
            sv.x == ray.origin@.x - t.v0@.x,
            e1.x == t.v1@.x - t.v0@.x,
            e2.x == t.v2@.x - t.v0@.x,
            s * ray.origin@.x == s * p.x - mu * d.x,
            3 * p.x == t.v0@.x + t.v1@.x + t.v2@.x,
    ;
    assert(3 * s * sv.y == s * e1.y + s * e2.y - 3 * (mu * d.y)) by (nonlinear_arith)
        requires
            sv.y == ray.origin@.y - t.v0@.y,
            e1.y == t.v1@.y - t.v0@.y,
            e2.y == t.v2@.y - t.v0@.y,
            s * ray.origin@.y == s * p.y - mu * d.y,
            3 * p.y == t.v0@.y + t.v1@.y + t.v2@.y,
    ;
    assert(3 * s * sv.z == s * e1.z + s * e2.z - 3 * (mu * d.z)) by (nonlinear_arith)
        requires
            sv.z == ray.origin@.z - t.v0@.z,
            e1.z == t.v1@.z - t.v0@.z,
            e2.z == t.v2@.z - t.v0@.z,
            s * ray.origin@.z == s * p.z - mu * d.z,
            3 * p.z == t.v0@.z + t.v1@.z + t.v2@.z,
    ;
    // the first barycentric numerator: project onto hvec; the e2 and
    // direction parts vanish against the cross product
    lemma_sub_mul(sv.x, e1.x, e2.x, d.x, mu, h.x);
    lemma_sub_mul(sv.y, e1.y, e2.y, d.y, mu, h.y);
    lemma_sub_mul(sv.z, e1.z, e2.z, d.z, mu, h.z);
    crate::math::lemma_distribute3(d.x * h.x, d.y * h.y, d.z * h.z, mu);
    lemma_cross_orthogonal(d, e2);
    assert(3 * s * t.u_num(ray) == s * a - 3 * (mu * d.dot(h)));
    assert(3 * t.u_num(ray) == a);
    // the q vector: three times its fixed scale is the face vector minus
    // the direction's cross with the first edge, mu-weighted
    lemma_sub_mul(sv.y, e1.y, e2.y, d.y, mu, e1.z);
    lemma_sub_mul(sv.z, e1.z, e2.z, d.z, mu, e1.y);
    lemma_sub_mul(sv.z, e1.z, e2.z, d.z, mu, e1.x);
    lemma_sub_mul(sv.x, e1.x, e2.x, d.x, mu, e1.z);
    lemma_sub_mul(sv.x, e1.x, e2.x, d.x, mu, e1.y);
    lemma_sub_mul(sv.y, e1.y, e2.y, d.y, mu, e1.x);
    crate::math::lemma_distribute2(d.y * e1.z, d.z * e1.y, mu);
    crate::math::lemma_distribute2(d.z * e1.x, d.x * e1.z, mu);
    crate::math::lemma_distribute2(d.x * e1.y, d.y * e1.x, mu);
    assert(3 * s * q.x == s * fv.x - 3 * (mu * dl.x));
    assert(3 * s * q.y == s * fv.y - 3 * (mu * dl.y));
    assert(3 * s * q.z == s * fv.z - 3 * (mu * dl.z));
    // the second barycentric numerator: project q onto the direction
    lemma_mix_dot(q.x, fv.x, dl.x, mu, d.x);
    lemma_mix_dot(q.y, fv.y, dl.y, mu, d.y);
    lemma_mix_dot(q.z, fv.z, dl.z, mu, d.z);
    crate::math::lemma_distribute3(d.x * dl.x, d.y * dl.y, d.z * dl.z, mu);
    lemma_scalar_triple(e1, d, e2);
    lemma_cross_orthogonal(d, e1);
    assert(3 * s * t.v_num(ray) == s * d.dot(fv) - 3 * (mu * d.dot(dl)));
    assert(3 * t.v_num(ray) == a);
    // the hit numerator: project q onto the second edge; only the
    // mu-weighted part survives, and it is the determinant itself
    lemma_mix_dot(q.x, fv.x, dl.x, mu, e2.x);
    lemma_mix_dot(q.y, fv.y, dl.y, mu, e2.y);
    lemma_mix_dot(q.z, fv.z, dl.z, mu, e2.z);
    crate::math::lemma_distribute3(e2.x * dl.x, e2.y * dl.y, e2.z * dl.z, mu);
    lemma_cross_orthogonal(e2, e1);
    lemma_scalar_triple(e2, d, e1);
    assert(d.dot(e1.cross_raw(e2)) + d.dot(e2.cross_raw(e1)) == 0) by {
        crate::math::lemma_distribute2(
            e1.y * e2.z - e1.z * e2.y,
            -(e2.y * e1.z - e2.z * e1.y),
            d.x,
        );
        assert(d.x * (e1.cross_raw(e2).x) + d.x * (e2.cross_raw(e1).x) == 0) by (nonlinear_arith);
        assert(d.y * (e1.cross_raw(e2).y) + d.y * (e2.cross_raw(e1).y) == 0) by (nonlinear_arith);
        assert(d.z * (e1.cross_raw(e2).z) + d.z * (e2.cross_raw(e1).z) == 0) by (nonlinear_arith);
    }
    assert(e2.dot(dl) == -a);
    assert(3 * s * t.t_num(ray) == s * e2.dot(fv) - 3 * (mu * e2.dot(dl)));
    assert(mu * (-a) == -(mu * a)) by (nonlinear_arith);
    assert(3 * (s * t.t_num(ray)) == 3 * (mu * a));
    assert(s * t.t_num(ray) == mu * a);
    // hence the single division returns the offset exactly
    crate::math::lemma_tdiv_mul_exact(mu, a);
    assert(t.t_num(ray) * s == mu * a) by {
        assert(s * t.t_num(ray) == t.t_num(ray) * s) by (nonlinear_arith);
    }
    assert(t.hit_param(ray) == mu);
    // barycentric thirds satisfy the inside test on either orientation
    assert(t.inside(ray));
}

/// A dot-product step of the derivation: a component of `q`, already known
/// at three times fixed scale, multiplied by another component.
proof fn lemma_mix_dot(qc: int, fc: int, dlc: int, mu: int, wc: int)
    requires
        3 * (UNIT as int) * qc == (UNIT as int) * fc - 3 * (mu * dlc),
    ensures
        3 * (UNIT as int) * (wc * qc) == (UNIT as int) * (wc * fc) - 3 * (mu * (wc * dlc)),
{
    assert(3 * (UNIT as int) * (wc * qc) == (UNIT as int) * (wc * fc) - 3 * (mu * (wc * dlc)))
        by (nonlinear_arith)
        requires
            3 * (UNIT as int) * qc == (UNIT as int) * fc - 3 * (mu * dlc),
    ;
}

impl Geometry for Triangle {
    open spec fn wf(&self) -> bool {
        &&& self.v0@.within(COORD_LIMIT as int)
        &&& self.v1@.within(COORD_LIMIT as int)
        &&& self.v2@.within(COORD_LIMIT as int)
    }

    open spec fn spec_hit(&self, ray: Ray) -> Option<HitV> {
        self.triangle_hit(ray)
    }

    open spec fn spec_bounds(&self) -> (V3, V3) {
        (self.v0@.minv(self.v1@.minv(self.v2@)), self.v0@.maxv(self.v1@.maxv(self.v2@)))
    }

    fn intersect(&self, ray: &Ray) -> (res: Option<Hit>) {
        let e1 = self.v1.sub(&self.v0);
        let e2 = self.v2.sub(&self.v0);
        proof {
            lemma_mul_mag_le(ray.direction@.y, e2@.z, 1_000_000, 2_000_000_000);
            lemma_mul_mag_le(ray.direction@.z, e2@.y, 1_000_000, 2_000_000_000);
            lemma_mul_mag_le(ray.direction@.z, e2@.x, 1_000_000, 2_000_000_000);
            lemma_mul_mag_le(ray.direction@.x, e2@.z, 1_000_000, 2_000_000_000);
            lemma_mul_mag_le(ray.direction@.x, e2@.y, 1_000_000, 2_000_000_000);
            lemma_mul_mag_le(ray.direction@.y, e2@.x, 1_000_000, 2_000_000_000);
        }
        // the direction crossed with the second edge, exactly
        let hx: i128 = (ray.direction.y as i128) * (e2.z as i128) - (ray.direction.z as i128) * (
        e2.y as i128);
        let hy: i128 = (ray.direction.z as i128) * (e2.x as i128) - (ray.direction.x as i128) * (
        e2.z as i128);
        let hz: i128 = (ray.direction.x as i128) * (e2.y as i128) - (ray.direction.y as i128) * (
        e2.x as i128);
        proof {
            lemma_mul_mag_le(e1@.x, self.hvec(*ray).x, 2_000_000_000, 4_000_000_000_000_000);
            lemma_mul_mag_le(e1@.y, self.hvec(*ray).y, 2_000_000_000, 4_000_000_000_000_000);
            lemma_mul_mag_le(e1@.z, self.hvec(*ray).z, 2_000_000_000, 4_000_000_000_000_000);
        }
        // the determinant: the first edge projected onto that cross product
        let a: i128 = (e1.x as i128) * hx + (e1.y as i128) * hy + (e1.z as i128) * hz;
        let a_mag: i128 = if a < 0 {
            -a
        } else {
            a
        };
        if a_mag < PARALLEL_EPS as i128 {
            return None;
        }
        let s = ray.origin.sub(&self.v0);
        proof {
            lemma_mul_mag_le(s@.x, self.hvec(*ray).x, 2_100_000_000_000, 4_000_000_000_000_000);
            lemma_mul_mag_le(s@.y, self.hvec(*ray).y, 2_100_000_000_000, 4_000_000_000_000_000);
            lemma_mul_mag_le(s@.z, self.hvec(*ray).z, 2_100_000_000_000, 4_000_000_000_000_000);
        }
        // numerator of the first barycentric coordinate
        let u_num: i128 = (s.x as i128) * hx + (s.y as i128) * hy + (s.z as i128) * hz;
        if a > 0 {
            if u_num < 0 || u_num > a {
                return None;
            }
        } else {
            if u_num > 0 || u_num < a {
                return None;
            }
        }
        proof {
            lemma_mul_mag_le(s@.y, e1@.z, 2_100_000_000_000, 2_000_000_000);
            lemma_mul_mag_le(s@.z, e1@.y, 2_100_000_000_000, 2_000_000_000);
            lemma_mul_mag_le(s@.z, e1@.x, 2_100_000_000_000, 2_000_000_000);
            lemma_mul_mag_le(s@.x, e1@.z, 2_100_000_000_000, 2_000_000_000);
            lemma_mul_mag_le(s@.x, e1@.y, 2_100_000_000_000, 2_000_000_000);
            lemma_mul_mag_le(s@.y, e1@.x, 2_100_000_000_000, 2_000_000_000);
        }
        // the `s` vector crossed with the first edge, exactly
        let qx: i128 = (s.y as i128) * (e1.z as i128) - (s.z as i128) * (e1.y as i128);
        let qy: i128 = (s.z as i128) * (e1.x as i128) - (s.x as i128) * (e1.z as i128);
        let qz: i128 = (s.x as i128) * (e1.y as i128) - (s.y as i128) * (e1.x as i128);
        proof {
            lemma_mul_mag_le(ray.direction@.x, self.qvec(*ray).x, 1_000_000, 9_000_000_000_000_000_000_000);
            lemma_mul_mag_le(ray.direction@.y, self.qvec(*ray).y, 1_000_000, 9_000_000_000_000_000_000_000);
            lemma_mul_mag_le(ray.direction@.z, self.qvec(*ray).z, 1_000_000, 9_000_000_000_000_000_000_000);
        }
        // numerator of the second barycentric coordinate
        let v_num: i128 = (ray.direction.x as i128) * qx + (ray.direction.y as i128) * qy + (
        ray.direction.z as i128) * qz;
        if a > 0 {
            if v_num < 0 || u_num + v_num > a {
                return None;
            }
        } else {
            if v_num > 0 || u_num + v_num < a {
                return None;
            }
        }
        proof {
            lemma_mul_mag_le(e2@.x, self.qvec(*ray).x, 2_000_000_000, 9_000_000_000_000_000_000_000);
            lemma_mul_mag_le(e2@.y, self.qvec(*ray).y, 2_000_000_000, 9_000_000_000_000_000_000_000);
            lemma_mul_mag_le(e2@.z, self.qvec(*ray).z, 2_000_000_000, 9_000_000_000_000_000_000_000);
        }
        // numerator of the hit parameter, and the one division of the test
        let t_num: i128 = (e2.x as i128) * qx + (e2.y as i128) * qy + (e2.z as i128) * qz;
        proof {
            lemma_tdiv_bounds(self.t_num(*ray) * (UNIT as int), self.det(*ray));
        }
        let t_wide = div_trunc(t_num * (UNIT as i128), a);
        if !(ray.min_distance as i128 <= t_wide && t_wide < ray.max_distance as i128) {
            return None;
        }
        let t = t_wide as i64;
        let hit_point = ray.at(t);
        proof {
            lemma_mul_mag_le(e2@.y, e1@.z, 2_000_000_000, 2_000_000_000);
            lemma_mul_mag_le(e2@.z, e1@.y, 2_000_000_000, 2_000_000_000);
            lemma_mul_mag_le(e2@.z, e1@.x, 2_000_000_000, 2_000_000_000);
            lemma_mul_mag_le(e2@.x, e1@.z, 2_000_000_000, 2_000_000_000);
            lemma_mul_mag_le(e2@.x, e1@.y, 2_000_000_000, 2_000_000_000);
            lemma_mul_mag_le(e2@.y, e1@.x, 2_000_000_000, 2_000_000_000);
        }
        // the face normal: e2 x e1, normalized; nonzero because the
        // determinant is its projection onto the direction
        let nx: i128 = (e2.y as i128) * (e1.z as i128) - (e2.z as i128) * (e1.y as i128);
        let ny: i128 = (e2.z as i128) * (e1.x as i128) - (e2.x as i128) * (e1.z as i128);
        let nz: i128 = (e2.x as i128) * (e1.y as i128) - (e2.y as i128) * (e1.x as i128);
        let nvec = Vec3 { x: nx as i64, y: ny as i64, z: nz as i64 };
        proof {
            lemma_scalar_triple(self.e1(), ray.direction@, self.e2());
            assert(nvec@.x == self.face_vec().x && nvec@.y == self.face_vec().y && nvec@.z
                == self.face_vec().z);
            if nvec@.is_zero() {
                assert(self.face_vec() == (V3 { x: 0, y: 0, z: 0 }));
                assert(ray.direction@.dot(V3 { x: 0, y: 0, z: 0 }) == 0) by (nonlinear_arith);
            }
        }
        let normal = nvec.normalized();
        Some(Hit { point: hit_point, normal, distance: t })
    }

    fn does_intersect(&self, ray: &Ray) -> (res: bool) {
        self.intersect(ray).is_some()
    }

    fn get_bounds(&self) -> (res: Aabb) {
        Aabb {
            min: self.v0.min_vector(&self.v1.min_vector(&self.v2)),
            max: self.v0.max_vector(&self.v1.max_vector(&self.v2)),
        }
    }
}

} // verus!
