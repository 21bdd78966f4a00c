use tinytracer::fixed::{fp_div, fp_mul, fp_sqrt, sqrt_floor_u128, SCALE};
use tinytracer::vec3::Vec3;

#[test]
fn scale_is_one_million() {
    assert_eq!(SCALE, 1_000_000);
}

#[test]
fn fp_mul_exact_product() {
    // 2.0 * 3.0 == 6.0
    assert_eq!(fp_mul(2_000_000, 3_000_000), 6_000_000);
    // 0.5 * 0.5 == 0.25
    assert_eq!(fp_mul(500_000, 500_000), 250_000);
    assert_eq!(fp_mul(0, 123_456), 0);
}

#[test]
fn fp_mul_rounds_toward_zero() {
    // -1.5 * smallest step: the exact product is -1.5 steps, kept as -1.
    assert_eq!(fp_mul(-1_500_000, 1), -1);
    assert_eq!(fp_mul(1_500_000, 1), 1);
    assert_eq!(fp_mul(-1_500_000, -1), 1);
}

#[test]
fn fp_div_exact_quotient() {
    // 1.0 / 2.0 == 0.5
    assert_eq!(fp_div(1_000_000, 2_000_000), 500_000);
    // -1.0 / 3.0 truncates toward zero.
    assert_eq!(fp_div(-1_000_000, 3_000_000), -333_333);
    assert_eq!(fp_div(7, 2), 3_500_000);
}

#[test]
fn sqrt_floor_small_values() {
    assert_eq!(sqrt_floor_u128(0), 0);
    assert_eq!(sqrt_floor_u128(1), 1);
    assert_eq!(sqrt_floor_u128(10), 3);
    assert_eq!(sqrt_floor_u128(144), 12);
    assert_eq!(sqrt_floor_u128(u64::MAX as u128 * u64::MAX as u128), u64::MAX);
}

#[test]
fn fp_sqrt_exact_squares() {
    // sqrt(4.0) == 2.0 and sqrt(2.25) == 1.5
    assert_eq!(fp_sqrt(4_000_000), 2_000_000);
    assert_eq!(fp_sqrt(2_250_000), 1_500_000);
    assert_eq!(fp_sqrt(0), 0);
    // sqrt(2.0) rounded down at the last step.
    assert_eq!(fp_sqrt(2_000_000), 1_414_213);
}

#[test]
fn vec3_componentwise_ops() {
    let a = Vec3::new(1_000_000, -2_000_000, 3_000_000);
    let b = Vec3::new(500_000, 500_000, -500_000);
    let sum = a.plus(b);
    assert_eq!((sum.x, sum.y, sum.z), (1_500_000, -1_500_000, 2_500_000));
    let diff = a.minus(b);
    assert_eq!((diff.x, diff.y, diff.z), (500_000, -2_500_000, 3_500_000));
    let doubled = a.scale(2_000_000);
    assert_eq!((doubled.x, doubled.y, doubled.z), (2_000_000, -4_000_000, 6_000_000));
}

#[test]
fn vec3_dot_and_norm() {
    let a = Vec3::new(1_000_000, 2_000_000, 3_000_000);
    let b = Vec3::new(4_000_000, -5_000_000, 6_000_000);
    // 1*4 - 2*5 + 3*6 == 12
    assert_eq!(a.dot(b), 12_000_000);
    // |(3, 4, 0)| == 5
    let v = Vec3::new(3_000_000, 4_000_000, 0);
    assert_eq!(v.norm(), 5_000_000);
}

#[test]
fn vec3_normalize_unit_axis() {
    let v = Vec3::new(0, 0, -10_000_000);
    let u = v.normalize();
    assert_eq!((u.x, u.y, u.z), (0, 0, -1_000_000));
    let w = Vec3::new(3_000_000, 4_000_000, 0).normalize();
    // (0.6, 0.8, 0) exactly
    assert_eq!((w.x, w.y, w.z), (600_000, 800_000, 0));
}

#[test]
fn vec3_repeat_and_zeros() {
    let r = Vec3::repeat(7);
    assert_eq!((r.x, r.y, r.z), (7, 7, 7));
    let z = Vec3::zeros();
    assert_eq!((z.x, z.y, z.z), (0, 0, 0));
}
