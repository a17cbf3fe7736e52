//! Axis-aligned boxes, intersected with the slab method.
//!
//! Where the floating-point slab test leans on infinite reciprocals for
//! axis-aligned rays, the fixed-point version branches on a zero direction
//! component and uses the extreme 64-bit values as the infinities; an origin
//! exactly on a slab face counts as inside that slab.

use vstd::prelude::*;
use crate::math::mag;
use crate::math::tdiv;
use crate::math::fmul;
use crate::math::lemma_tdiv_bounds;
use crate::math::lemma_tdiv_sign;
use crate::math::lemma_tdiv_ge_one;
use crate::math::lemma_fmul_bound;
use crate::math::fixed_mul;
use crate::math::UNIT;
use crate::ray::Ray;
use crate::ray::ORIGIN_LIMIT;
use crate::math::vec3::Vec3;
use crate::math::vec3::V3;
use crate::geometry::Geometry;
use crate::geometry::Hit;
use crate::geometry::HitV;
use crate::geometry::BOUNDS_LIMIT;

verus! {

/// An axis-aligned box between two corners, `min <= max` componentwise when
/// built through [`Aabb::new`].
#[derive(Copy, Clone, Debug, PartialEq, Eq, Structural)]
pub struct Aabb {
    pub min: Vec3,
    pub max: Vec3,
}

/// The slab interval of one axis: the parameters at which the ray crosses
/// the two planes, ordered. A zero direction component gives the whole line
/// when the origin lies between the planes (boundary included) and an empty
/// interval on the far side otherwise.
pub open spec fn slab(minc: int, maxc: int, o: int, d: int, rc: int) -> (int, int) {
    if d != 0 {
        let t0 = fmul(minc - o, rc);
        let t1 = fmul(maxc - o, rc);
        (
            if t0 <= t1 {
                t0
            } else {
                t1
            },
            if t0 >= t1 {
                t0
            } else {
                t1
            },
        )
    } else if o < minc {
        (i64::MAX as int, i64::MAX as int)
    } else if o > maxc {
        (i64::MIN as int, i64::MIN as int)
    } else {
        (i64::MIN as int, i64::MAX as int)
    }
}

impl Aabb {
    /// Builds a box from two corners, sorting them componentwise.
    pub fn new(min: Vec3, max: Vec3) -> (b: Aabb)
        ensures
            b.min@ == min@.minv(max@),
            b.max@ == max@.maxv(min@),
    {
        Aabb { min: min.min_vector(&max), max: max.max_vector(&min) }
    }

    /// The slab interval of the x axis.
    pub open spec fn slab_x(self, ray: Ray) -> (int, int) {
        slab(
            self.min@.x,
            self.max@.x,
            ray.origin@.x,
            ray.direction@.x,
            ray.recip_direction@.x,
        )
    }

    /// The slab interval of the y axis.
    pub open spec fn slab_y(self, ray: Ray) -> (int, int) {
        slab(
            self.min@.y,
            self.max@.y,
            ray.origin@.y,
            ray.direction@.y,
            ray.recip_direction@.y,
        )
    }

    /// The slab interval of the z axis.
    pub open spec fn slab_z(self, ray: Ray) -> (int, int) {
        slab(
            self.min@.z,
            self.max@.z,
            ray.origin@.z,
            ray.direction@.z,
            ray.recip_direction@.z,
        )
    }

    /// The candidate entry parameter: the last slab entered.
    pub open spec fn entry(self, ray: Ray) -> int {
        let lx = self.slab_x(ray).0;
        let ly = self.slab_y(ray).0;
        let lz = self.slab_z(ray).0;
        if lx >= ly && lx >= lz {
            lx
        } else if ly >= lz {
            ly
        } else {
            lz
        }
    }

    /// The candidate exit parameter: the first slab left.
    pub open spec fn exit(self, ray: Ray) -> int {
        let hx = self.slab_x(ray).1;
        let hy = self.slab_y(ray).1;
        let hz = self.slab_z(ray).1;
        if hx <= hy && hx <= hz {
            hx
        } else if hy <= hz {
            hy
        } else {
            hz
        }
    }

    /// The outside test: the slabs overlap and the box is not behind the ray
    /// nor around its origin.
    pub open spec fn hits_from_outside(self, ray: Ray) -> bool {
        self.entry(ray) <= self.exit(ray) && self.entry(ray) >= 0
    }

    /// The inside-allowing test: the slabs overlap and some of the overlap
    /// lies ahead of the origin.
    pub open spec fn hits_or_inside(self, ray: Ray) -> bool {
        self.entry(ray) <= self.exit(ray) && self.exit(ray) >= 0
    }

    /// Which axis produced the entry parameter: 0, 1 or 2, ties resolved
    /// toward x, then y.
    pub open spec fn entry_axis(self, ray: Ray) -> int {
        let lx = self.slab_x(ray).0;
        let ly = self.slab_y(ray).0;
        let lz = self.slab_z(ray).0;
        if lx > ly {
            if lx > lz {
                0
            } else {
                2
            }
        } else if ly > lz {
            1
        } else {
            2
        }
    }

    /// The unit normal of the face struck: the entry axis, opposing the ray
    /// (a zero direction component counts as positive, as the sign of
    /// floating-point zero does).
    pub open spec fn entry_normal(self, ray: Ray) -> V3 {
        let a = self.entry_axis(ray);
        if a == 0 {
            V3 {
                x: if ray.direction@.x < 0 {
                    UNIT as int
                } else {
                    -(UNIT as int)
                },
                y: 0,
                z: 0,
            }
        } else if a == 1 {
            V3 {
                x: 0,
                y: if ray.direction@.y < 0 {
                    UNIT as int
                } else {
                    -(UNIT as int)
                },
                z: 0,
            }
        } else {
            V3 {
                x: 0,
                y: 0,
                z: if ray.direction@.z < 0 {
                    UNIT as int
                } else {
                    -(UNIT as int)
                },
            }
        }
    }

    /// The mathematical hit of the box. The ray's own interval is not
    /// consulted: the slab test stands alone, as the boolean tests do.
    pub open spec fn aabb_hit(self, ray: Ray) -> Option<HitV> {
        if self.hits_from_outside(ray) {
            Some(
                HitV {
                    point: ray.at_spec(self.entry(ray)),
                    normal: self.entry_normal(ray),
                    distance: self.entry(ray),
                },
            )
        } else {
            None
        }
    }

    /// The boolean test that also accepts a ray starting inside the box.
    pub fn inner_does_intersect(&self, ray: &Ray) -> (res: bool)
        requires
            self.wf(),
            ray.wf(),
        ensures
            res == self.hits_or_inside(*ray),
    {
        let (lx, hx) = slab_axis(self.min.x, self.max.x, ray.origin.x, ray.direction.x, ray.recip_direction.x);
        let (ly, hy) = slab_axis(self.min.y, self.max.y, ray.origin.y, ray.direction.y, ray.recip_direction.y);
        let (lz, hz) = slab_axis(self.min.z, self.max.z, ray.origin.z, ray.direction.z, ray.recip_direction.z);
        let entry = max3(lx, ly, lz);
        let exit = min3(hx, hy, hz);
        entry <= exit && exit >= 0
    }
}

/// The full query and the boolean query agree on whether the box is hit:
/// a hit is reported exactly when the outside slab test passes.
pub proof fn lemma_hit_tests_agree(b: Aabb, ray: Ray)
    ensures
        (b.aabb_hit(ray) is Some) == b.hits_from_outside(ray),
{
}

/// A slab axis seen from strictly between its planes: the interval covers
/// at least one step behind and one step ahead of the origin.
proof fn lemma_slab_straddles(minc: int, maxc: int, o: int, d: int, rc: int)
    requires
        minc < o < maxc,
        mag(d) <= UNIT as int,
        d != 0 ==> rc == tdiv((UNIT as int) * (UNIT as int), d),
    ensures
        slab(minc, maxc, o, d, rc).0 <= -1,
        slab(minc, maxc, o, d, rc).1 >= 1,
{
    let s = UNIT as int;
    if d != 0 {
        lemma_tdiv_bounds(s * s, d);
        vstd::arithmetic::div_mod::lemma_div_is_ordered_by_denominator(s * s, mag(d), s);
        assert((s * s) / (s as int) == s) by {
            assert(s * s == s * s);
            vstd::arithmetic::div_mod::lemma_div_by_multiple(s, s);
        }
        assert(mag(rc) >= s);
        lemma_tdiv_sign(s * s, d);
        let p0 = (minc - o) * rc;
        let p1 = (maxc - o) * rc;
        assert(mag((minc - o) * rc) == mag(minc - o) * mag(rc)) by (nonlinear_arith);
        assert(mag((maxc - o) * rc) == mag(maxc - o) * mag(rc)) by (nonlinear_arith);
        assert(mag(minc - o) * mag(rc) >= 1 * s) by (nonlinear_arith)
            requires
                mag(minc - o) >= 1,
                mag(rc) >= s,
        ;
        assert(mag(maxc - o) * mag(rc) >= 1 * s) by (nonlinear_arith)
            requires
                mag(maxc - o) >= 1,
                mag(rc) >= s,
        ;
        lemma_tdiv_ge_one(p0, s);
        lemma_tdiv_ge_one(p1, s);
        lemma_tdiv_sign(p0, s);
        lemma_tdiv_sign(p1, s);
        // the two plane crossings lie on opposite sides of the origin
        if d > 0 {
            assert(rc > 0);
            assert((minc - o) * rc < 0 && (maxc - o) * rc > 0) by (nonlinear_arith)
                requires
                    minc - o < 0,
                    maxc - o > 0,
                    rc > 0,
            ;
        } else {
            assert(rc < 0) by {
                if rc == 0 {
                    assert(mag(rc) >= s);
                }
                lemma_tdiv_sign(s * s, d);
            }
            assert((minc - o) * rc > 0 && (maxc - o) * rc < 0) by (nonlinear_arith)
                requires
                    minc - o < 0,
                    maxc - o > 0,
                    rc < 0,
            ;
        }
    }
}

/// A ray starting strictly inside the box travels out of it: the entry
/// parameter falls behind the origin, so the outside test rejects the ray
/// while the inside-allowing test accepts it.
pub proof fn lemma_inside_ray_is_behind(b: Aabb, ray: Ray)
    requires
        ray.wf(),
        b.min@.x < ray.origin@.x < b.max@.x,
        b.min@.y < ray.origin@.y < b.max@.y,
        b.min@.z < ray.origin@.z < b.max@.z,
    ensures
        b.entry(ray) <= -1,
        !b.hits_from_outside(ray),
        b.hits_or_inside(ray),
{
    lemma_slab_straddles(
        b.min@.x,
        b.max@.x,
        ray.origin@.x,
        ray.direction@.x,
        ray.recip_direction@.x,
    );
    lemma_slab_straddles(
        b.min@.y,
        b.max@.y,
        ray.origin@.y,
        ray.direction@.y,
        ray.recip_direction@.y,
    );
    lemma_slab_straddles(
        b.min@.z,
        b.max@.z,
        ray.origin@.z,
        ray.direction@.z,
        ray.recip_direction@.z,
    );
}

/// The componentwise slab computation of one axis.
fn slab_axis(minc: i64, maxc: i64, o: i64, d: i64, rc: i64) -> (res: (i64, i64))
    requires
        mag(minc as int) <= BOUNDS_LIMIT as int,
        mag(maxc as int) <= BOUNDS_LIMIT as int,
        mag(o as int) <= ORIGIN_LIMIT as int,
        d != 0 ==> rc as int == tdiv((UNIT as int) * (UNIT as int), d as int),
    ensures
        (res.0 as int, res.1 as int) == slab(minc as int, maxc as int, o as int, d as int, rc as int),
        d != 0 ==> mag(res.0 as int) <= 3_000_000_000_000_000_000int && mag(res.1 as int)
            <= 3_000_000_000_000_000_000int,
{
    if d != 0 {
        proof {
            lemma_tdiv_bounds((UNIT as int) * (UNIT as int), d as int);
            lemma_fmul_bound(
                minc as int - o as int,
                rc as int,
                3_000_000_000_000,
                1_000_000_000_000,
                3_000_000_000_000_000_000,
            );
            lemma_fmul_bound(
                maxc as int - o as int,
                rc as int,
                3_000_000_000_000,
                1_000_000_000_000,
                3_000_000_000_000_000_000,
            );
        }
        let t0 = fixed_mul(minc - o, rc);
        let t1 = fixed_mul(maxc - o, rc);
        if t0 <= t1 {
            (t0, t1)
        } else {
            (t1, t0)
        }
    } else if o < minc {
        (i64::MAX, i64::MAX)
    } else if o > maxc {
        (i64::MIN, i64::MIN)
    } else {
        (i64::MIN, i64::MAX)
    }
}

/// The largest of three values.
fn max3(a: i64, b: i64, c: i64) -> (r: i64)
    ensures
        r == a || r == b || r == c,
        r >= a && r >= b && r >= c,
{
    if a >= b && a >= c {
        a
    } else if b >= c {
        b
    } else {
        c
    }
}

/// The smallest of three values.
fn min3(a: i64, b: i64, c: i64) -> (r: i64)
    ensures
        r == a || r == b || r == c,
        r <= a && r <= b && r <= c,
{
    if a <= b && a <= c {
        a
    } else if b <= c {
        b
    } else {
        c
    }
}

impl Geometry for Aabb {
    open spec fn wf(&self) -> bool {
        &&& self.min@.within(BOUNDS_LIMIT as int)
        &&& self.max@.within(BOUNDS_LIMIT as int)
    }

    open spec fn spec_hit(&self, ray: Ray) -> Option<HitV> {
        self.aabb_hit(ray)
    }

    open spec fn spec_bounds(&self) -> (V3, V3) {
        (self.min@, self.max@)
    }

    fn intersect(&self, ray: &Ray) -> (res: Option<Hit>) {
        let (lx, hx) = slab_axis(self.min.x, self.max.x, ray.origin.x, ray.direction.x, ray.recip_direction.x);
        let (ly, hy) = slab_axis(self.min.y, self.max.y, ray.origin.y, ray.direction.y, ray.recip_direction.y);
        let (lz, hz) = slab_axis(self.min.z, self.max.z, ray.origin.z, ray.direction.z, ray.recip_direction.z);
        let entry = max3(lx, ly, lz);
        let exit = min3(hx, hy, hz);
        if !(entry <= exit && entry >= 0) {
            return None;
        }
        proof {
            // some axis is constrained, so the accepted entry is a finite
            // slab parameter, well inside the range `Ray::at` accepts
            if ray.direction@.x != 0 {
                assert(entry <= hx);
            } else if ray.direction@.y != 0 {
                assert(entry <= hy);
            } else {
                assert(!ray.direction@.is_zero());
                assert(ray.direction@.z != 0);
                assert(entry <= hz);
            }
        }
        // find the last axis crossed, ties toward x then y, and oppose the ray
        let normal: Vec3 = if lx > ly {
            if lx > lz {
                axis_normal_x(ray.direction.x)
            } else {
                axis_normal_z(ray.direction.z)
            }
        } else if ly > lz {
            axis_normal_y(ray.direction.y)
        } else {
            axis_normal_z(ray.direction.z)
        };
        Some(Hit { point: ray.at(entry), normal, distance: entry })
    }

    fn does_intersect(&self, ray: &Ray) -> (res: bool) {
        let (lx, hx) = slab_axis(self.min.x, self.max.x, ray.origin.x, ray.direction.x, ray.recip_direction.x);
        let (ly, hy) = slab_axis(self.min.y, self.max.y, ray.origin.y, ray.direction.y, ray.recip_direction.y);
        let (lz, hz) = slab_axis(self.min.z, self.max.z, ray.origin.z, ray.direction.z, ray.recip_direction.z);
        let entry = max3(lx, ly, lz);
        let exit = min3(hx, hy, hz);
        entry <= exit && entry >= 0
    }

    fn get_bounds(&self) -> (res: Aabb) {
        *self
    }
}

/// The face normal of an x slab, opposing the direction component.
fn axis_normal_x(d: i64) -> (n: Vec3)
    ensures
        n@ == (V3 {
            x: if d < 0 {
                UNIT as int
            } else {
                -(UNIT as int)
            },
            y: 0,
            z: 0,
        }),
{
    if d < 0 {
        Vec3 { x: UNIT, y: 0, z: 0 }
    } else {
        Vec3 { x: -UNIT, y: 0, z: 0 }
    }
}

/// The face normal of a y slab, opposing the direction component.
fn axis_normal_y(d: i64) -> (n: Vec3)
    ensures
        n@ == (V3 {
            x: 0,
            y: if d < 0 {
                UNIT as int
            } else {
                -(UNIT as int)
            },
            z: 0,
        }),
{
    if d < 0 {
        Vec3 { x: 0, y: UNIT, z: 0 }
    } else {
        Vec3 { x: 0, y: -UNIT, z: 0 }
    }
}

/// The face normal of a z slab, opposing the direction component.
fn axis_normal_z(d: i64) -> (n: Vec3)
    ensures
        n@ == (V3 {
            x: 0,
            y: 0,
            z: if d < 0 {
                UNIT as int
            } else {
                -(UNIT as int)
            },
        }),
{
    if d < 0 {
        Vec3 { x: 0, y: 0, z: UNIT }
    } else {
        Vec3 { x: 0, y: 0, z: -UNIT }
    }
}

} // verus!
