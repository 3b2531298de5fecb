use rasterizer::arith::{index_within, isqrt, lerp};
use rasterizer::image::{create, Color};
use rasterizer::vectors::{Mat4, Vec2, Vec3, Vec4};

#[test]
fn cross_and_dot() {
    let x = Vec3::new(1, 0, 0);
    let y = Vec3::new(0, 1, 0);
    assert_eq!(x.cross(y), Vec3 { x: 0, y: 0, z: 1 });
    assert_eq!(y.cross(x), Vec3 { x: 0, y: 0, z: -1 });
    let a = Vec3::new(2, -3, 5);
    let b = Vec3::new(-7, 11, 13);
    assert_eq!(a.cross(b), Vec3 { x: -94, y: -61, z: 1 });
    assert_eq!(a.mul(b), -14 - 33 + 65);
    assert_eq!(a.cross(b).mul(a), 0);
    let big = Vec3::new(0x4000_0000, -0x4000_0000, 0x4000_0000);
    assert_eq!(big.cross(Vec3::new(0x4000_0000, 0x4000_0000, 0)).z, 1 << 61);
}

#[test]
fn norm_rounds_down() {
    assert_eq!(Vec3::new(3, 4, 0).norm(), 5);
    assert_eq!(Vec3::new(1, 1, 1).norm(), 1);
    assert_eq!(Vec3::new(2, 2, 1).norm(), 3);
    assert_eq!(Vec3::new(0, 0, 0).norm(), 0);
    assert_eq!(Vec3::new(0, 0, -(1 << 61)).norm(), 1 << 61);
}

#[test]
fn normalize_scales_to_unit() {
    assert_eq!(Vec3::new(3, 4, 0).normalize(1000), Vec3 { x: 600, y: 800, z: 0 });
    assert_eq!(Vec3::new(0, 0, -7).normalize(1_000_000), Vec3 { x: 0, y: 0, z: -1_000_000 });
    assert_eq!(Vec3::new(-1, 2, 2).normalize(100), Vec3 { x: -33, y: 66, z: 66 });
}

#[test]
fn vec4_parts_and_difference() {
    let v = Vec4::new(5, 7, 9, 1);
    assert_eq!(v.xyz(), Vec3 { x: 5, y: 7, z: 9 });
    assert_eq!(v.xy(), Vec2 { x: 5, y: 7 });
    assert_eq!(v.sub(Vec4::new(1, 10, -1, 1)), Vec4 { x: 4, y: -3, z: 10, w: 0 });
    assert_eq!(Vec2::new(1, 2), Vec2 { x: 1, y: 2 });
}

#[test]
fn matrix_times_vector() {
    let id = Mat4::new(1, 0, 0, 0, 0, 1, 0, 0, 0, 0, 1, 0, 0, 0, 0, 1);
    let v = Vec4::new(3, -4, 5, 1);
    assert_eq!(id.mul(v), v);
    let cam = Mat4::new(512, 0, 0, 512, 0, 512, 0, 512, 0, 0, 1, 0, 0, 0, 0, 1);
    assert_eq!(cam.mul(v), Vec4 { x: 3 * 512 + 512, y: -4 * 512 + 512, z: 5, w: 1 });
    let m = Mat4::new(1, 2, 3, 4, 5, 6, 7, 8, 9, 10, 11, 12, 13, 14, 15, 16);
    assert_eq!(m.mul(Vec4::new(1, 1, 1, 1)), Vec4 { x: 10, y: 26, z: 42, w: 58 });
    assert_eq!(m.m21, 10);
}

#[test]
fn integer_square_root() {
    assert_eq!(isqrt(0), 0);
    assert_eq!(isqrt(1), 1);
    assert_eq!(isqrt(15), 3);
    assert_eq!(isqrt(16), 4);
    assert_eq!(isqrt(17), 4);
    assert_eq!(isqrt(u128::MAX), u64::MAX);
    assert_eq!(isqrt(1 << 126), 1 << 63);
}

#[test]
fn interpolation_rounds_toward_zero() {
    assert_eq!(lerp(0, 10, 3, 10), 3);
    assert_eq!(lerp(0, 2, 1, 4), 0);
    assert_eq!(lerp(0, -2, 1, 4), 0);
    assert_eq!(lerp(-3, -1, 1, 4), -2);
    assert_eq!(lerp(5, 5, 0, 1), 5);
    assert_eq!(lerp(i64::MIN, i64::MAX, u64::MAX, u64::MAX), i64::MAX);
    assert_eq!(lerp(i64::MIN, i64::MAX, 0, u64::MAX), i64::MIN);
    assert_eq!(lerp(7, 1, 2, 3), 3);
}

#[test]
fn index_is_clamped_to_the_axis() {
    assert_eq!(index_within(-5, 10), 0);
    assert_eq!(index_within(3, 10), 3);
    assert_eq!(index_within(10, 10), 10);
    assert_eq!(index_within(i64::MAX, 10), 10);
    assert_eq!(index_within(0, 0), 0);
}

#[test]
fn color_scaling_saturates() {
    let c = Color { r: 200, g: 100, b: 50 };
    assert_eq!(c.mul(1, 2), Color { r: 100, g: 50, b: 25 });
    assert_eq!(c.mul(3, 1), Color { r: 255, g: 255, b: 150 });
    assert_eq!(c.mul(-1, 1), Color { r: 0, g: 0, b: 0 });
    assert_eq!(c.mul(1, 100), Color { r: 2, g: 1, b: 0 });
    assert_eq!(c.mul(0, 5), Color { r: 0, g: 0, b: 0 });
    assert_eq!(c.mul(1, 3), Color { r: 66, g: 33, b: 16 });
    let img = create(1, 1);
    assert_eq!(img.read(0, 0).mul(7, 1), Color { r: 0, g: 0, b: 0 });
}

#[test]
fn range_tests_compare_every_component() {
    assert!(Vec3::new(5, -5, 0).is_within(5));
    assert!(!Vec3::new(5, -6, 0).is_within(5));
    assert!(!Vec3::new(0, 0, 6).is_within(5));
    assert!(Vec4::new(1, 2, 3, -4).is_within(4));
    assert!(!Vec4::new(1, 2, 3, -5).is_within(4));
    assert!(!Vec4::new(0, 0, 0, 0).is_within(-1));
    assert!(Vec4::new(i64::MIN + 1, i64::MAX, 0, 0).is_within(i64::MAX));
    assert!(!Vec4::new(i64::MIN, 0, 0, 0).is_within(i64::MAX));
    let m = Mat4::new(1, 2, 3, 4, 5, 6, 7, 8, 9, 10, 11, 12, 13, 14, 15, -16);
    assert!(m.is_within(16));
    assert!(!m.is_within(15));
    assert!(!Mat4::new(0, 0, 0, 0, 0, 0, 9, 0, 0, 0, 0, 0, 0, 0, 0, 0).is_within(8));
}
