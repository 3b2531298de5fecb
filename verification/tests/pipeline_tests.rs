use rasterizer::depth::{create_depth_buffer, depth_at, store, FARTHEST};
use rasterizer::image::{create, Color};
use rasterizer::pipeline::{draw_face, faces_light, intensity, normal_of, on_screen, project};
use rasterizer::shading::{blend, lit, reaches, sample, shade};
use rasterizer::triangle::edge;
use rasterizer::vectors::{Mat4, Vec2, Vec3, Vec4};

const RED: Color = Color { r: 255, g: 0, b: 0 };
const UNIT: i64 = 1_000_000;

fn w(x: i64, y: i64, z: i64) -> Vec4 {
    Vec4::new(x * UNIT, y * UNIT, z * UNIT, UNIT)
}

fn s(x: i64, y: i64, z: i64) -> Vec4 {
    Vec4::new(x, y, z, 1)
}

#[test]
fn normal_and_light() {
    let n = normal_of(w(0, 0, 0), w(1, 0, 0), w(0, 1, 0));
    assert_eq!(n, Vec3 { x: 0, y: 0, z: UNIT * UNIT });
    let toward = Vec3::new(0, 0, 1);
    assert!(faces_light(w(0, 0, 0), w(1, 0, 0), w(0, 1, 0), toward));
    assert!(!faces_light(w(0, 0, 0), w(0, 1, 0), w(1, 0, 0), toward));
    assert!(!faces_light(w(0, 0, 0), w(1, 0, 0), w(2, 0, 0), toward));
    assert!(!faces_light(w(0, 0, 0), w(1, 0, 0), w(0, 0, 1), toward));
}

#[test]
fn intensity_is_a_fraction() {
    let light = Vec3::new(0, 0, 1);
    let (num, den) = intensity(w(0, 0, 0), w(1, 0, 0), w(0, 1, 0), light, 1);
    assert_eq!(num, (UNIT * UNIT) as i128);
    assert_eq!(den, (UNIT * UNIT) as i128);
    // a face at 45 degrees to the light: cos = 0.7071
    let (num, den) = intensity(w(0, 0, 0), w(1, 0, 1), w(0, 1, 0), Vec3::new(0, 0, 1000), 1000);
    assert_eq!(num, (UNIT * UNIT * 1000) as i128);
    assert_eq!(den, 1_414_213_562_373i128 * 1000);
    assert_eq!(intensity(w(1, 1, 1), w(1, 1, 1), w(2, 2, 2), light, 1), (0, 0));
    let (num, _) = intensity(w(0, 0, 0), w(0, 1, 0), w(1, 0, 0), light, 1);
    assert!(num < 0);
}

#[test]
fn face_turned_away_is_skipped() {
    let mut img = create(16, 16);
    let mut z = create_depth_buffer(16, 16);
    let light = Vec3::new(0, 0, 1);
    let (s0, s1, s2) = (s(0, 0, 4), s(10, 0, 4), s(0, 10, 4));
    draw_face(w(0, 0, 0), w(0, 1, 0), w(1, 0, 0), light, s0, s1, s2, &mut img, &mut z, |_, _, _, _| RED);
    assert_eq!(img.pixels, vec![0u8; 16 * 16 * 3]);
    assert_eq!(z, vec![FARTHEST; 256]);
    draw_face(w(0, 0, 0), w(1, 0, 0), w(2, 0, 0), light, s0, s1, s2, &mut img, &mut z, |_, _, _, _| RED);
    assert_eq!(img.pixels, vec![0u8; 16 * 16 * 3]);
    draw_face(w(0, 0, 0), w(1, 0, 0), w(0, 1, 0), light, s0, s1, s2, &mut img, &mut z, |_, _, _, _| RED);
    assert_eq!(img.read(3, 3), RED);
    assert_eq!(depth_at(&img, &z, 3, 3), 4);
    assert_eq!(depth_at(&img, &z, 15, 15), FARTHEST);
}

#[test]
fn store_sets_one_pixel() {
    let mut img = create(4, 4);
    let mut z = create_depth_buffer(4, 4);
    store(&mut img, &mut z, 2, 1, RED, 77);
    assert_eq!(img.read(2, 1), RED);
    assert_eq!(z[1 * 4 + 2], 77);
    assert_eq!(z.iter().filter(|d| **d != FARTHEST).count(), 1);
}

#[test]
fn edge_function_signs() {
    let a = s(0, 0, 0);
    let b = s(10, 0, 0);
    assert_eq!(edge(Vec2::new(3, 4), a, b), -40);
    assert_eq!(edge(Vec2::new(3, -4), a, b), 40);
    assert_eq!(edge(Vec2::new(7, 0), a, b), 0);
    assert_eq!(edge(Vec2::new(3, 4), b, a), 40);
}

#[test]
fn blend_interpolates_by_weights() {
    assert_eq!(blend(0, 100, 200, -50, -20, -30, -100), 80);
    assert_eq!(blend(7, 7, 7, -1, -1, -1, -3), 7);
    assert_eq!(blend(0, 0, 10, -2, -1, 0, -3), 0);
    assert_eq!(blend(0, 0, -10, -2, 0, -1, -3), -3);
    assert_eq!(blend(5, 9, 1, -4, 0, 0, -4), 5);
}

#[test]
fn light_never_turns_a_color_black_by_sign() {
    let c = Color { r: 200, g: 100, b: 250 };
    assert_eq!(lit(c, 1, 2), Color { r: 100, g: 50, b: 125 });
    assert_eq!(lit(c, 0, 0), Color { r: 2, g: 1, b: 2 });
    assert_eq!(lit(c, -5, 7), Color { r: 2, g: 1, b: 2 });
    assert_eq!(lit(c, 3, 2), Color { r: 255, g: 150, b: 255 });
}

#[test]
fn sample_reads_the_nearest_texel() {
    let mut tex = create(4, 2);
    tex.set(3, 1, Color { r: 1, g: 2, b: 3 });
    tex.set(0, 0, Color { r: 4, g: 5, b: 6 });
    assert_eq!(sample(&tex, Vec2::new(999_999, 999_999), UNIT), Color { r: 1, g: 2, b: 3 });
    assert_eq!(sample(&tex, Vec2::new(750_000, 500_000), UNIT), Color { r: 1, g: 2, b: 3 });
    assert_eq!(sample(&tex, Vec2::new(249_999, 499_999), UNIT), Color { r: 4, g: 5, b: 6 });
    assert_eq!(sample(&tex, Vec2::new(250_000, 0), UNIT), Color { r: 0, g: 0, b: 0 });
}

#[test]
fn shade_combines_texture_and_light() {
    let mut tex = create(2, 2);
    tex.set(1, 0, Color { r: 200, g: 100, b: 50 });
    let (t0, t1, t2) = (Vec2::new(0, 0), Vec2::new(999_999, 0), Vec2::new(0, 999_999));
    // weights 0.25, 0.75, 0: u = 0.749999, v = 0
    let c = shade(&tex, t0, t1, t2, UNIT, 1, 2, -1, -3, 0, -4);
    assert_eq!(c, Color { r: 100, g: 50, b: 25 });
    let dark = shade(&tex, t0, t1, t2, UNIT, -1, 2, -1, -3, 0, -4);
    assert_eq!(dark, Color { r: 2, g: 1, b: 0 });
    let other = shade(&tex, t0, t1, t2, UNIT, 1, 1, -3, -1, 0, -4);
    assert_eq!(other, Color { r: 0, g: 0, b: 0 });
}

#[test]
fn project_divides_by_w() {
    let cam = Mat4::new(512, 0, 0, 512, 0, 512, 0, 512, 0, 0, 1, 0, 0, 0, 0, 1);
    let v = Vec4::new(UNIT / 2, -UNIT / 4, 123, UNIT);
    assert_eq!(project(cam, v), Some(Vec4 { x: 768, y: 384, z: 123, w: UNIT }));
    let edge_of_pixel = Vec4::new(-999_999, 1, -5, UNIT);
    assert_eq!(project(cam, edge_of_pixel), Some(Vec4 { x: 0, y: 512, z: -5, w: UNIT }));
    assert_eq!(project(cam, Vec4::new(1, 2, 3, 0)), None);
    assert_eq!(project(cam, Vec4::new(1, 2, 3, -UNIT)), None);
    let half = Mat4::new(1, 0, 0, 0, 0, 1, 0, 0, 0, 0, 1, 0, 0, 0, 0, 2);
    assert_eq!(project(half, Vec4::new(-7, 7, 9, 1)), Some(Vec4 { x: -3, y: 3, z: 9, w: 2 }));
    assert!(on_screen(Vec4::new(0x100_0000, -0x100_0000, 0, 99)));
    assert!(!on_screen(Vec4::new(0x100_0001, 0, 0, 1)));
    assert!(!on_screen(Vec4::new(0, 0, -0x100_0001, 1)));
}

#[test]
fn reaches_tests_both_axes() {
    let tex = create(4, 2);
    assert!(reaches(&tex, Vec2::new(0, 0), UNIT));
    assert!(reaches(&tex, Vec2::new(999_999, 999_999), UNIT));
    assert!(!reaches(&tex, Vec2::new(UNIT, 0), UNIT));
    assert!(!reaches(&tex, Vec2::new(0, UNIT), UNIT));
    assert!(!reaches(&tex, Vec2::new(-250_000, 0), UNIT));
    // a coordinate just below zero still rounds to the first texel
    assert!(reaches(&tex, Vec2::new(-1, -1), UNIT));
    assert!(!reaches(&create(0, 0), Vec2::new(0, 0), UNIT));
}
