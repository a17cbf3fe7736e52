//! Intersection behavior of the primitives and the aggregate.

use raytrace::math::ApproxEq;
use raytrace::math::vec3::Vec3;
use raytrace::math::vec2::Vec2;
use raytrace::ray::Ray;
use raytrace::geometry::Geometry;
use raytrace::geometry::Aabb;
use raytrace::geometry::Sphere;
use raytrace::geometry::Triangle;
use raytrace::geometry::Primitive;
use raytrace::groups::Group;
use raytrace::groups::GroupContent;
use raytrace::groups::simple_group::SimpleGroup;
use raytrace::camera::Camera;
use raytrace::camera::OrthographicCamera;
use raytrace::camera::PerspectiveCamera;

fn v3(x: i64, y: i64, z: i64) -> Vec3 {
    Vec3::new(x, y, z)
}

#[test]
fn sphere_does_intersect1() {
    let s = Sphere::new(v3(0, 0, 0), 1_000_000);
    let ray1 = Ray::new(v3(-2_000_000, 0, 0), v3(1_000_000, 500_000, 0), None, None);
    assert!(s.does_intersect(&ray1));
}

#[test]
fn sphere_intersect() {
    let s = Sphere::new(v3(0, 0, 0), 1_000_000);
    let ray1 = Ray::new(v3(500_000, 0, -1_000_000), v3(0, 0, 1_000_000), None, None);
    s.intersect(&ray1);
}

#[test]
fn triangle_intersect() {
    let t1 = Triangle::new(v3(0, 0, 0), v3(1_000_000, 0, 0), v3(0, 1_000_000, 0));
    let r1 = Ray::new(v3(100_000, 100_000, -100_000), v3(0, 0, 1_000_000), None, None);
    println!("{:?}", t1.intersect(&r1));
}

#[test]
fn aabb_does_intersect1() {
    let box1 = Aabb::new(v3(-1_000_000, -1_000_000, -1_000_000), v3(1_000_000, 1_000_000, 1_000_000));
    let r1 = Ray::new(
        v3(-1_001_000, 0, 0),
        v3(1_000_000, 10_000_000, 110_000_000),
        None,
        None,
    );
    assert!(box1.inner_does_intersect(&r1));
}

#[test]
fn get_bounds() {
    let mut box1 = Aabb::new(v3(-1_000_000, -1_000_000, -1_000_000), v3(1_000_000, 1_000_000, 1_000_000));
    let box2 = box1.get_bounds();
    box1.min.x = -5_000_000;
    assert_eq!(box1.min.x, -5_000_000);
    assert_eq!(box2.min.x, -1_000_000);
}

#[test]
fn create_orthographic() {
    let cam1 = OrthographicCamera::new(
        v3(1_000_000, 1_000_000, 1_000_000),
        v3(-4_000_000, 0, 0),
        v3(0, 90_300_000, 0),
        Vec2::new(15_000_000, 15_000_000),
    );
    assert!(cam1.forward.a_eq(&v3(-1_000_000, 0, 0)));
    assert!(cam1.origin.a_eq(&v3(1_000_000, 1_000_000, 1_000_000)));
    assert!(cam1.up.a_eq(&v3(0, 15_000_000, 0)));
    assert!(cam1.right.a_eq(&v3(0, 0, -15_000_000)));
}

#[test]
fn sphere_frontal_hit_distance() {
    // aimed at the center from ten units out: strikes at distance ten
    // minus the radius, normal opposing the ray
    let s = Sphere::new(v3(0, 0, 10_000_000), 2_000_000);
    let ray = Ray::new(v3(0, 0, 0), v3(0, 0, 1_000_000), None, None);
    let hit = s.intersect(&ray).unwrap();
    assert_eq!(hit.distance, 8_000_000);
    assert_eq!(hit.point, v3(0, 0, 8_000_000));
    assert_eq!(hit.normal, v3(0, 0, -1_000_000));
    assert!(s.does_intersect(&ray));
}

#[test]
fn sphere_diagonal_frontal_hit() {
    // aimed at the center along a 3-4-5 diagonal, fifty units out
    let s = Sphere::new(v3(30_000_000, 40_000_000, 0), 5_000_000);
    let ray = Ray::new(v3(0, 0, 0), v3(3_000_000, 4_000_000, 0), None, None);
    let hit = s.intersect(&ray).unwrap();
    assert_eq!(hit.distance, 45_000_000);
    assert_eq!(hit.normal, v3(-600_000, -800_000, 0));
}

#[test]
fn sphere_aimed_hit_within_tolerance() {
    // aimed at an oblique center: the entry distance matches the distance
    // to the center minus the radius, within the rounding tolerance
    let center = v3(10_000_000, 5_000_000, 2_000_000);
    let s = Sphere::new(center, 2_000_000);
    let ray = Ray::new(v3(0, 0, 0), center, None, None);
    let hit = s.intersect(&ray).unwrap();
    // |center| = sqrt(129) units, truncated to raw steps
    let dist_to_center: i64 = 11_357_816;
    assert!((hit.distance - (dist_to_center - 2_000_000)).abs() <= 200);
    // the surface offset points back toward the origin
    let offset = hit.point.sub(&center);
    assert!(offset.x < 0 && offset.y < 0 && offset.z < 0);
}

#[test]
fn sphere_wide_approach_misses() {
    // closest approach ten units, radius one: no hit
    let s = Sphere::new(v3(0, 10_000_000, 0), 1_000_000);
    let ray = Ray::new(v3(-20_000_000, 0, 0), v3(1_000_000, 0, 0), None, None);
    assert!(s.intersect(&ray).is_none());
    assert!(!s.does_intersect(&ray));
}

#[test]
fn sphere_interior_ray_finds_nothing() {
    // rays starting inside the sphere report no hit, by design
    let s = Sphere::new(v3(0, 0, 0), 5_000_000);
    let ray = Ray::new(v3(0, 0, 0), v3(0, 0, 1_000_000), None, None);
    assert!(s.intersect(&ray).is_none());
}

#[test]
fn sphere_interior_short_direction_finds_nothing() {
    // a ray built from a direction of one raw step per axis, starting
    // inside the sphere: still no hit, and no zero-length direction games
    let s = Sphere::new(v3(1_000_000, 1_000_000, 1_000_000), 4_000_000);
    let ray = Ray::new(v3(0, 0, 0), v3(1, 1, 1), None, None);
    assert_eq!(ray.direction, v3(577_350, 577_350, 577_350));
    assert!(s.intersect(&ray).is_none());
    assert!(!s.does_intersect(&ray));
}

#[test]
fn aabb_queries_agree() {
    let b = Aabb::new(v3(-1_000_000, -1_000_000, -1_000_000), v3(1_000_000, 1_000_000, 1_000_000));
    let rays = [
        Ray::new(v3(-3_000_000, 0, 0), v3(1_000_000, 0, 0), None, None),
        Ray::new(v3(-3_000_000, 0, 0), v3(-1_000_000, 0, 0), None, None),
        Ray::new(v3(-3_000_000, 2_500_000, 0), v3(1_000_000, 0, 0), None, None),
        Ray::new(v3(0, -4_000_000, 0), v3(300_000, 1_000_000, -200_000), None, None),
        Ray::new(v3(2_000_000, 2_000_000, 2_000_000), v3(-1_000_000, -1_000_000, -1_000_000), None, None),
        Ray::new(v3(5_000_000, 0, 0), v3(0, 0, 1_000_000), None, None),
    ];
    for ray in rays.iter() {
        assert_eq!(b.does_intersect(ray), b.intersect(ray).is_some());
    }
}

#[test]
fn aabb_inside_ray_rejected_as_behind() {
    // from strictly inside, travelling outward: the boolean outside test
    // rejects, the inner test accepts
    let b = Aabb::new(v3(-1_000_000, -1_000_000, -1_000_000), v3(1_000_000, 1_000_000, 1_000_000));
    let ray = Ray::new(v3(0, 0, 0), v3(1_000_000, 0, 0), None, None);
    assert!(!b.does_intersect(&ray));
    assert!(b.intersect(&ray).is_none());
    assert!(b.inner_does_intersect(&ray));
}

#[test]
fn aabb_entry_face_normal() {
    let b = Aabb::new(v3(-1_000_000, -1_000_000, -1_000_000), v3(1_000_000, 1_000_000, 1_000_000));
    let ray = Ray::new(v3(-3_000_000, 0, 0), v3(1_000_000, 0, 0), None, None);
    let hit = b.intersect(&ray).unwrap();
    assert_eq!(hit.distance, 2_000_000);
    assert_eq!(hit.normal, v3(-1_000_000, 0, 0));
}

#[test]
fn triangle_centroid_ray_hits() {
    // through the centroid along the plane normal, offset two units out
    let t = Triangle::new(v3(0, 0, 0), v3(3_000_000, 0, 0), v3(0, 3_000_000, 0));
    let ray = Ray::new(v3(1_000_000, 1_000_000, -2_000_000), v3(0, 0, 1_000_000), None, None);
    let hit = t.intersect(&ray).unwrap();
    assert_eq!(hit.distance, 2_000_000);
    assert_eq!(hit.point, v3(1_000_000, 1_000_000, 0));
}

#[test]
fn triangle_parallel_ray_misses() {
    let t = Triangle::new(v3(0, 0, 0), v3(3_000_000, 0, 0), v3(0, 3_000_000, 0));
    // in the plane, crossing the triangle's area
    let r1 = Ray::new(v3(-5_000_000, 500_000, 0), v3(1_000_000, 0, 0), None, None);
    assert!(t.intersect(&r1).is_none());
    // parallel to the plane from above
    let r2 = Ray::new(v3(-5_000_000, 500_000, 4_000_000), v3(1_000_000, 0, 0), None, None);
    assert!(t.intersect(&r2).is_none());
}

#[test]
fn triangle_backface_same_normal() {
    // hits from either side report the winding's normal, unflipped
    let t = Triangle::new(v3(0, 0, 0), v3(3_000_000, 0, 0), v3(0, 3_000_000, 0));
    let from_below = Ray::new(v3(1_000_000, 1_000_000, -2_000_000), v3(0, 0, 1_000_000), None, None);
    let from_above = Ray::new(v3(1_000_000, 1_000_000, 2_000_000), v3(0, 0, -1_000_000), None, None);
    let h1 = t.intersect(&from_below).unwrap();
    let h2 = t.intersect(&from_above).unwrap();
    assert_eq!(h1.normal, h2.normal);
}

#[test]
fn triangle_bounds() {
    let t = Triangle::new(v3(0, 0, 0), v3(3_000_000, -1_000_000, 0), v3(0, 3_000_000, 2_000_000));
    let b = t.get_bounds();
    assert_eq!(b.min, v3(0, -1_000_000, 0));
    assert_eq!(b.max, v3(3_000_000, 3_000_000, 2_000_000));
}

#[test]
fn group_returns_hit_of_struck_member() {
    let mut g = SimpleGroup::new();
    let near = Sphere::new(v3(0, 0, 10_000_000), 1_000_000);
    let off_axis = Sphere::new(v3(0, 20_000_000, 0), 1_000_000);
    g.push(GroupContent::new(Primitive::Sphere(near), None));
    g.push(GroupContent::new(Primitive::Sphere(off_axis), None));
    let ray = Ray::new(v3(0, 0, 0), v3(0, 0, 1_000_000), None, None);
    let alone = near.intersect(&ray);
    assert_eq!(g.intersect(&ray), alone);
    // and a ray missing every member finds nothing
    let miss = Ray::new(v3(0, 0, 0), v3(0, 0, -1_000_000), None, None);
    assert!(g.intersect(&miss).is_none());
    assert!(!g.does_intersect(&miss));
}

#[test]
fn group_keeps_nearest_hit() {
    let mut g = SimpleGroup::new();
    let far = Sphere::new(v3(0, 0, 20_000_000), 1_000_000);
    let near = Sphere::new(v3(0, 0, 10_000_000), 1_000_000);
    g.push(GroupContent::new(Primitive::Sphere(far), None));
    g.push(GroupContent::new(Primitive::Sphere(near), None));
    let ray = Ray::new(v3(0, 0, 0), v3(0, 0, 1_000_000), None, None);
    let hit = g.intersect(&ray).unwrap();
    assert_eq!(hit.distance, 9_000_000);
}

#[test]
fn group_bounds_union() {
    let mut g = SimpleGroup::new();
    g.push(GroupContent::new(
        Primitive::Sphere(Sphere::new(v3(0, 0, 0), 1_000_000)),
        None,
    ));
    g.push(GroupContent::new(
        Primitive::Sphere(Sphere::new(v3(5_000_000, 0, 0), 2_000_000)),
        None,
    ));
    let b = g.get_bounds();
    assert_eq!(b.min, v3(-1_000_000, -2_000_000, -2_000_000));
    assert_eq!(b.max, v3(7_000_000, 2_000_000, 2_000_000));
}

#[test]
fn ray_short_direction_is_unit() {
    // a sub-unit direction still yields a unit stored direction
    let ray = Ray::new(v3(0, 0, 0), v3(1, 1, 1), None, None);
    assert_eq!(ray.direction, v3(577_350, 577_350, 577_350));
    let len2 = ray.direction.x * ray.direction.x + ray.direction.y * ray.direction.y
        + ray.direction.z * ray.direction.z;
    // squared length within a few steps of one square unit
    assert!((len2 - 1_000_000_000_000i64).abs() <= 6_000_000);
    assert_eq!(ray.recip_direction, v3(1_732_051, 1_732_051, 1_732_051));
}

#[test]
fn ray_stores_unit_direction_and_reciprocal() {
    let ray = Ray::new(v3(2_000_000, 0, 0), v3(3_000_000, 4_000_000, 0), None, None);
    // a 3-4-5 direction normalizes exactly
    assert_eq!(ray.direction, v3(600_000, 800_000, 0));
    // the cached reciprocal is the componentwise reciprocal of that unit
    // direction; zero components keep a zero reciprocal
    assert_eq!(ray.recip_direction, v3(1_666_666, 1_250_000, 0));
    assert_eq!(ray.min_distance, 1_000);
    assert_eq!(ray.max_distance, 1_000_000_000_000);
}

#[test]
fn perspective_center_ray() {
    let cam = PerspectiveCamera::new(
        v3(0, 0, 0),
        v3(0, 0, 1_000_000),
        v3(0, 1_000_000, 0),
        1_000_000,
        414_213,
    );
    let ray = cam.at(Vec2::new(500_000, 500_000));
    assert_eq!(ray.origin, v3(0, 0, 0));
    assert_eq!(ray.direction, v3(0, 0, 1_000_000));
}

#[test]
fn perspective_corner_ray_tilts() {
    let cam = PerspectiveCamera::new(
        v3(0, 0, 0),
        v3(0, 0, 1_000_000),
        v3(0, 1_000_000, 0),
        1_000_000,
        500_000,
    );
    // the top-left corner sample tilts away from the axis, upward in world
    // space since image-space y grows downward
    let ray = cam.at(Vec2::new(0, 0));
    assert!(ray.direction.x != 0);
    assert!(ray.direction.y > 0);
    assert!(ray.direction.z > 0);
}
