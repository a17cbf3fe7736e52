//! Lights, shading and the end of the pipeline: colors out of rays.

use raytrace::color::Color;
use raytrace::math::vec3::Vec3;
use raytrace::math::vec2::Vec2;
use raytrace::ray::Ray;
use raytrace::geometry::Geometry;
use raytrace::geometry::Sphere;
use raytrace::geometry::Primitive;
use raytrace::groups::Group;
use raytrace::groups::GroupContent;
use raytrace::groups::simple_group::SimpleGroup;
use raytrace::lights::LightSource;
use raytrace::lights::point::PointLight;
use raytrace::world::World;
use raytrace::camera::Camera;
use raytrace::camera::PerspectiveCamera;
use raytrace::integrators::Integrator;
use raytrace::integrators::ray_trace::RayTraceIntegrator;
use raytrace::integrators::simple_shade::intersect;
use raytrace::integrators::simple_shade::normal_coloring;
use raytrace::integrators::simple_shade::distance_coloring;

fn v3(x: i64, y: i64, z: i64) -> Vec3 {
    Vec3::new(x, y, z)
}

#[test]
fn unoccluded_light_inverse_square() {
    // intensity four at distance two gives radiance one
    let empty = SimpleGroup::new();
    let light = PointLight::new(v3(0, 0, 2_000_000), Color::new(4_000_000, 4_000_000, 4_000_000));
    let (c, dir) = light.sample(v3(0, 0, 0), &empty);
    assert_eq!(c, Color::new(1_000_000, 1_000_000, 1_000_000));
    assert_eq!(dir, v3(0, 0, 1_000_000));
}

#[test]
fn occluded_light_is_dark() {
    // an opaque sphere halfway to the light blocks it completely
    let mut g = SimpleGroup::new();
    g.push(GroupContent::new(
        Primitive::Sphere(Sphere::new(v3(0, 0, 1_000_000), 500_000)),
        None,
    ));
    let light = PointLight::new(v3(0, 0, 2_000_000), Color::new(4_000_000, 4_000_000, 4_000_000));
    let (c, dir) = light.sample(v3(0, 0, 0), &g);
    assert_eq!(c, Color::new(0, 0, 0));
    // the direction is still reported for the cosine term
    assert_eq!(dir, v3(0, 0, 1_000_000));
}

#[test]
fn occluder_beyond_light_ignored() {
    // a sphere behind the light does not cast a shadow on the point
    let mut g = SimpleGroup::new();
    g.push(GroupContent::new(
        Primitive::Sphere(Sphere::new(v3(0, 0, 5_000_000), 500_000)),
        None,
    ));
    let light = PointLight::new(v3(0, 0, 2_000_000), Color::new(4_000_000, 4_000_000, 4_000_000));
    let (c, _dir) = light.sample(v3(0, 0, 0), &g);
    assert_eq!(c, Color::new(1_000_000, 1_000_000, 1_000_000));
}

#[test]
fn empty_scene_renders_black() {
    let world = World {
        geometry: SimpleGroup::new(),
        materials: Vec::new(),
        lights: vec![PointLight::new(v3(0, 0, 0), Color::new(1_000_000, 1_000_000, 1_000_000))],
    };
    let integrator = RayTraceIntegrator { world: &world };
    let cam = PerspectiveCamera::new(
        v3(0, 0, 0),
        v3(0, 0, 1_000_000),
        v3(0, 1_000_000, 0),
        1_000_000,
        414_213,
    );
    let samples = [
        Vec2::new(0, 0),
        Vec2::new(500_000, 500_000),
        Vec2::new(1_000_000, 250_000),
        Vec2::new(250_000, 750_000),
    ];
    for s in samples.iter() {
        let ray = cam.at(*s);
        assert_eq!(integrator.li(&ray), Color::new(0, 0, 0));
    }
}

#[test]
fn center_ray_frontal_shading() {
    // a sphere dead ahead, one light at the camera: full pipeline, exact
    let mut g = SimpleGroup::new();
    g.push(GroupContent::new(
        Primitive::Sphere(Sphere::new(v3(0, 0, 10_000_000), 2_000_000)),
        None,
    ));
    let world = World {
        geometry: g,
        materials: Vec::new(),
        // intensity 64 at distance 8 gives radiance 1; the cosine is 1
        lights: vec![PointLight::new(v3(0, 0, 0), Color::new(64_000_000, 64_000_000, 64_000_000))],
    };
    let cam = PerspectiveCamera::new(
        v3(0, 0, 0),
        v3(0, 0, 1_000_000),
        v3(0, 1_000_000, 0),
        1_000_000,
        414_213,
    );
    let ray = cam.at(Vec2::new(500_000, 500_000));
    // frontal hit: the normal opposes the ray direction exactly
    let hit = world.geometry.intersect(&ray).unwrap();
    assert_eq!(hit.normal, v3(0, 0, -1_000_000));
    assert_eq!(hit.distance, 8_000_000);
    let integrator = RayTraceIntegrator { world: &world };
    assert_eq!(integrator.li(&ray), Color::new(1_000_000, 1_000_000, 1_000_000));
}

#[test]
fn light_behind_surface_contributes_nothing() {
    // the cosine term is clamped at zero, never subtracted
    let mut g = SimpleGroup::new();
    g.push(GroupContent::new(
        Primitive::Sphere(Sphere::new(v3(0, 0, 10_000_000), 2_000_000)),
        None,
    ));
    let lights = vec![PointLight::new(
        v3(0, 0, 30_000_000),
        Color::new(64_000_000, 64_000_000, 64_000_000),
    )];
    let ray = Ray::new(v3(0, 0, 0), v3(0, 0, 1_000_000), None, None);
    let c = intersect(&g, &lights, &ray);
    assert_eq!(c, Color::new(0, 0, 0));
}

#[test]
fn simple_shade_matches_integrator() {
    let mut g = SimpleGroup::new();
    g.push(GroupContent::new(
        Primitive::Sphere(Sphere::new(v3(0, 0, 10_000_000), 2_000_000)),
        None,
    ));
    let lights = vec![PointLight::new(v3(0, 0, 0), Color::new(64_000_000, 64_000_000, 64_000_000))];
    let ray = Ray::new(v3(0, 0, 0), v3(0, 0, 1_000_000), None, None);
    let direct = intersect(&g, &lights, &ray);
    let world = World { geometry: g, materials: Vec::new(), lights };
    let integrator = RayTraceIntegrator { world: &world };
    assert_eq!(direct, integrator.li(&ray));
}

#[test]
fn normal_coloring_folds_channels() {
    let s = Sphere::new(v3(0, 0, 10_000_000), 2_000_000);
    let ray = Ray::new(v3(0, 0, 0), v3(0, 0, 1_000_000), None, None);
    // the frontal normal (0, 0, -1) folds to (0, 0, 1)
    assert_eq!(normal_coloring(&s, &ray), Color::new(0, 0, 1_000_000));
    let miss = Ray::new(v3(0, 0, 0), v3(0, 0, -1_000_000), None, None);
    assert_eq!(normal_coloring(&s, &miss), Color::new(0, 0, 0));
}

#[test]
fn distance_coloring_scales() {
    let s = Sphere::new(v3(0, 0, 10_000_000), 2_000_000);
    let ray = Ray::new(v3(0, 0, 0), v3(0, 0, 1_000_000), None, None);
    // eight units over the seventeen-hundred scale, rounded toward zero
    let expected = 8_000_000 / 1_700;
    assert_eq!(distance_coloring(&s, &ray), Color::new(expected, expected, expected));
}

#[test]
fn color_to_u8_clamps_and_rounds() {
    assert_eq!(Color::new(0, 0, 0).to_u8(), [0, 0, 0]);
    assert_eq!(Color::new(1_000_000, 1_000_000, 1_000_000).to_u8(), [255, 255, 255]);
    assert_eq!(Color::new(-300_000, 2_000_000, 500_000).to_u8(), [0, 255, 128]);
    // 0.1 of a unit rounds to the nearest step of 255
    assert_eq!(Color::new(100_000, 0, 0).to_u8(), [26, 0, 0]);
}

#[test]
fn color_saturating_sum() {
    let a = Color::new(i64::MAX, 1, -5);
    let b = Color::new(10, 2, -7);
    let c = a.add_sat(&b);
    assert_eq!(c, Color::new(i64::MAX, 3, -12));
}

#[test]
fn shadowed_side_light() {
    // light shining from the side of a frontal hit: cosine zero
    let mut g = SimpleGroup::new();
    g.push(GroupContent::new(
        Primitive::Sphere(Sphere::new(v3(0, 0, 10_000_000), 2_000_000)),
        None,
    ));
    let lights = vec![PointLight::new(
        v3(20_000_000, 0, 8_000_000),
        Color::new(64_000_000, 64_000_000, 64_000_000),
    )];
    let ray = Ray::new(v3(0, 0, 0), v3(0, 0, 1_000_000), None, None);
    // the light direction is orthogonal to the normal: no contribution
    let c = intersect(&g, &lights, &ray);
    assert_eq!(c, Color::new(0, 0, 0));
}
