//! Fixed-point scalar and vector arithmetic.

use vr_hands::fx::{fx_div, fx_mul, isqrt_u128, LIM, SCALE};
use vr_hands::vec3::Vec3;

#[test]
fn fixed_point_product_rounds_toward_zero() {
    // 1.5 * 2.0 = 3.0
    assert_eq!(fx_mul(15_000, 20_000), 30_000);
    // Small products truncate to zero.
    assert_eq!(fx_mul(7, 7), 0);
    // Truncation is symmetric about zero.
    assert_eq!(fx_mul(-15_001, 10_001), -15_002);
    assert_eq!(fx_mul(15_001, -10_001), -15_002);
    assert_eq!(fx_mul(-15_001, -10_001), 15_002);
    // Identity factor.
    assert_eq!(fx_mul(123_456, SCALE), 123_456);
}

#[test]
fn fixed_point_quotient_rounds_toward_zero() {
    // 0.01 / 0.0003 = 33.3333...
    assert_eq!(fx_div(100, 3), 333_333);
    assert_eq!(fx_div(-100, 3), -333_333);
    assert_eq!(fx_div(100, SCALE), 100);
    assert_eq!(fx_div(0, 77), 0);
}

#[test]
fn integer_square_root_brackets_its_argument() {
    assert_eq!(isqrt_u128(0), 0);
    assert_eq!(isqrt_u128(1), 1);
    assert_eq!(isqrt_u128(99), 9);
    assert_eq!(isqrt_u128(100), 10);
    assert_eq!(isqrt_u128(100_000_000), 10_000);
    let big: u128 = (u64::MAX as u128) * (u64::MAX as u128);
    assert_eq!(isqrt_u128(big), u64::MAX);
}

#[test]
fn vector_ops_are_componentwise() {
    let a = Vec3 { x: 100, y: -200, z: 300 };
    let b = Vec3 { x: 5, y: 5, z: 5 };
    assert_eq!(a.add(&b), Vec3 { x: 105, y: -195, z: 305 });
    assert_eq!(a.sub(&b), Vec3 { x: 95, y: -205, z: 295 });
    assert_eq!(a.neg(), Vec3 { x: -100, y: 200, z: -300 });
    assert_eq!(a.scale(2 * SCALE), Vec3 { x: 200, y: -400, z: 600 });
    assert_eq!(a.norm_sq(), 100 * 100 + 200 * 200 + 300 * 300);
}

#[test]
fn distance_squared_is_exact() {
    let a = Vec3 { x: 300, y: 0, z: 0 };
    let o = Vec3 { x: 0, y: 0, z: 0 };
    assert_eq!(a.dist_sq(&o), 90_000);
    assert_eq!(o.dist_sq(&a), 90_000);
    assert_eq!(a.dist_sq(&a), 0);
}

#[test]
fn clamp_keeps_short_vectors_and_shortens_long_ones() {
    let short = Vec3 { x: 100, y: 0, z: 0 };
    assert_eq!(short.clamp_length_max(100), short);
    // A 3-4-5 triangle shortens exactly.
    let long = Vec3 { x: 30_000, y: 40_000, z: 0 };
    assert_eq!(long.clamp_length_max(25_000), Vec3 { x: 15_000, y: 20_000, z: 0 });
    assert_eq!(long.clamp_length_max(0), Vec3 { x: 0, y: 0, z: 0 });
}

#[test]
fn unit_direction_of_a_pythagorean_vector_is_exact() {
    let v = Vec3 { x: 300, y: 400, z: 0 };
    assert_eq!(v.unit_dir(), Vec3 { x: 6_000, y: 8_000, z: 0 });
    let w = Vec3 { x: -LIM, y: 0, z: 0 };
    assert_eq!(w.unit_dir(), Vec3 { x: -SCALE, y: 0, z: 0 });
}
