//! Vector algebra at fixed-point scale: one raw unit is a millionth.

use raytrace::math::ApproxEq;
use raytrace::math::EPSILON;
use raytrace::math::vec3::Vec3;

fn assert_fx_eq(lhs: i64, rhs: i64) {
    assert!(
        (lhs - rhs).abs() < EPSILON,
        "{} and {} are not close enough, allowed tolerance {}",
        lhs,
        rhs,
        EPSILON
    );
}

fn assert_vec_eq(lhs: Vec3, rhs: Vec3) {
    assert_fx_eq(lhs.x, rhs.x);
    assert_fx_eq(lhs.y, rhs.y);
    assert_fx_eq(lhs.z, rhs.z);
}

fn v3(x: i64, y: i64, z: i64) -> Vec3 {
    Vec3::new(x, y, z)
}

#[test]
fn creation1() {
    let v1 = v3(1_000_000, 2_000_000, 3_000_000);
    assert_fx_eq(v1.x, 1_000_000);
    assert_fx_eq(v1.y, 2_000_000);
    assert_fx_eq(v1.z, 3_000_000);
    let v2 = v3(1_453_000_000, 2_000_000_000, 30_000_000_000_000_000);
    assert_fx_eq(v2.x, 1_453_000_000);
    assert_fx_eq(v2.y, 2_000_000_000);
    assert_fx_eq(v2.z, 30_000_000_000_000_000);
}

#[test]
fn creation2() {
    let v = v3(5_000, 20_000, 112_340);
    assert_fx_eq(v.x, 5_000);
    assert_fx_eq(v.y, 20_000);
    assert_fx_eq(v.z, 112_340);
}

#[test]
fn creation3() {
    let v1 = v3(-200_000_000, -1_000_000, -555_555_000_000);
    assert_fx_eq(v1.x, -200_000_000);
    assert_fx_eq(v1.y, -1_000_000);
    assert_fx_eq(v1.z, -555_555_000_000);
    let v2 = v3(-5_000_000, -1_000_000, 22_301_000_000);
    assert_fx_eq(v2.x, -5_000_000);
    assert_fx_eq(v2.y, -1_000_000);
    assert_fx_eq(v2.z, 22_301_000_000);
    let v3a = v3(900, -50_000, -200_005_000);
    assert_fx_eq(v3a.x, 900);
    assert_fx_eq(v3a.y, -50_000);
    assert_fx_eq(v3a.z, -200_005_000);
    let v3b = v3(200_002_000, -99_999_100, 0);
    assert_fx_eq(v3b.x, 200_002_000);
    assert_fx_eq(v3b.y, -99_999_100);
    assert_fx_eq(v3b.z, 0);
    let v4 = v3(0, -0, 0);
    assert_fx_eq(v4.x, 0);
    assert_fx_eq(v4.y, 0);
    assert_fx_eq(v4.z, 0);
}

#[test]
fn add1() {
    assert_vec_eq(
        v3(1_000_000, 2_000_000, 3_000_000).add(&v3(10_000_000, 20_000_000, 100_000_000_000)),
        v3(11_000_000, 22_000_000, 100_003_000_000),
    );
    assert_vec_eq(
        v3(0, 0, 0).add(&v3(-10_000_000, -4_000_000, -100_000_000)),
        v3(-10_000_000, -4_000_000, -100_000_000),
    );
    assert_vec_eq(
        v3(100_000_000_000_000, 77_000_000, -500_000_000).add(&v3(0, -10_000_000, -74_000_000)),
        v3(100_000_000_000_000, 67_000_000, -574_000_000),
    );
    assert_vec_eq(
        v3(-123_000_000, -44_000_000, 100_000_000).add(&v3(123_000_000, -1_000_000, 9_000_000)),
        v3(0, -45_000_000, 109_000_000),
    );
    assert_vec_eq(v3(9_000, 700_000, 9_000).add(&v3(1_000, 10_000, 90_000)), v3(10_000, 710_000, 99_000));
    assert_vec_eq(
        v3(10_000_000, 99_999_000, 950_000).add(&v3(20_000_000, -34_412_000, -30_000)),
        v3(30_000_000, 65_587_000, 920_000),
    );
    assert_vec_eq(
        v3(50_000, 900_000, 60).add(&v3(1_000_000, 10_000_000, 10_000_000_000)),
        v3(1_050_000, 10_900_000, 10_000_000_060),
    );
    assert_vec_eq(
        v3(50_000, 900_000, 60).add(&v3(1_100_000, 10_000_900, 10_000_550_000)),
        v3(1_150_000, 10_900_900, 10_000_550_060),
    );
}

#[test]
fn add2() {
    let mut v = Vec3::zero();
    v = v.add(&v3(10_000_000, 20_000_000, 30_000_000));
    assert_vec_eq(v, v3(10_000_000, 20_000_000, 30_000_000));
    v = v.add(&v3(-6_000, 900_000, 100_004_000));
    assert_vec_eq(v, v3(9_994_000, 20_900_000, 130_004_000));
    v = v.add(&v3(-9_500_000, -80_900_000, 100_000_000_000));
    assert_vec_eq(v, v3(494_000, -60_000_000, 100_130_004_000));
}

#[test]
fn normalize() {
    assert_vec_eq(v3(10_000_000, 0, 0).normalized(), v3(1_000_000, 0, 0));
    assert_vec_eq(v3(0, 10_000_000, 0).normalized(), v3(0, 1_000_000, 0));
    assert_vec_eq(v3(0, 0, 10_000_000).normalized(), v3(0, 0, 1_000_000));
}

#[test]
fn cross() {
    // right handed coordinate system
    assert_vec_eq(
        v3(1_000_000, 0, 0).cross(&v3(0, 1_000_000, 0)),
        v3(0, 0, 1_000_000),
    );
}

#[test]
fn normalize_short_vector() {
    // one raw step on each axis: far below one unit, yet the result is
    // still unit length, because short inputs are pre-scaled
    let n = v3(1, 1, 1).normalized();
    assert_eq!(n, v3(577_350, 577_350, 577_350));
    assert_fx_eq(n.length(), 1_000_000);
    // a single raw step on one axis normalizes to that axis exactly
    assert_eq!(v3(0, -1, 0).normalized(), v3(0, -1_000_000, 0));
}

#[test]
fn normalize_pythagorean() {
    // a 3-4-5 triple normalizes exactly
    let n = v3(3_000_000, 4_000_000, 0).normalized();
    assert_eq!(n, v3(600_000, 800_000, 0));
    // and its length is exactly one unit
    assert_eq!(n.length(), 1_000_000);
}

#[test]
fn length_exact() {
    assert_eq!(v3(3_000_000, 4_000_000, 0).length(), 5_000_000);
    assert_eq!(v3(0, 0, 0).length(), 0);
    assert_eq!(v3(2_000_000, 3_000_000, 6_000_000).length(), 7_000_000);
}

#[test]
fn min_max_components() {
    let a = v3(1, -2, 3);
    let b = v3(2, -5, 1);
    assert_eq!(a.min_vector(&b), v3(1, -5, 1));
    assert_eq!(a.max_vector(&b), v3(2, -2, 3));
    assert_eq!(a.min_component(), -2);
    assert_eq!(a.max_component(), 3);
}

#[test]
fn approx_equality() {
    assert!(v3(0, 0, 0).a_eq(&v3(999, -999, 0)));
    assert!(!v3(0, 0, 0).a_eq(&v3(1_000, 0, 0)));
    let a: i64 = 5_000;
    assert!(a.a_eq(&5_999));
    assert!(!a.a_eq(&6_000));
}
