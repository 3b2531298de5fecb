use rasterizer::depth::{create_depth_buffer, FARTHEST};
use rasterizer::image::{create, Color, Image};
use rasterizer::scanline::fill_triangle_scanline;
use rasterizer::triangle::rasterize;
use rasterizer::vectors::Vec4;

const RED: Color = Color { r: 255, g: 0, b: 0 };
const BLUE: Color = Color { r: 0, g: 0, b: 255 };
const BLACK: Color = Color { r: 0, g: 0, b: 0 };

fn count(img: &Image, c: Color) -> usize {
    let mut n = 0;
    for y in 0..img.height {
        for x in 0..img.width {
            if img.read(x, y) == c {
                n += 1;
            }
        }
    }
    n
}

fn v(x: i64, y: i64, z: i64) -> Vec4 {
    Vec4::new(x, y, z, 1)
}

#[test]
fn depth_buffer_starts_farthest() {
    let z = create_depth_buffer(3, 2);
    assert_eq!(z, vec![FARTHEST; 6]);
    assert_eq!(FARTHEST, i64::MIN);
}

#[test]
fn scanline_right_triangle_area() {
    let mut img = create(16, 16);
    let mut z = create_depth_buffer(16, 16);
    fill_triangle_scanline(v(0, 0, 5), v(10, 0, 5), v(0, 10, 5), RED, &mut img, &mut z);
    // rows 0 to 9, row y holding the columns 0 to 9 - y: 55 pixels for an area of 50
    assert_eq!(count(&img, RED), 55);
    for y in 0..16 {
        for x in 0..16 {
            if img.read(x, y) == RED {
                assert!(x <= 10 && y <= 10);
                assert_eq!(z[y * 16 + x], 5);
            } else {
                assert_eq!(z[y * 16 + x], FARTHEST);
            }
        }
    }
    assert_eq!(img.read(0, 0), RED);
    assert_eq!(img.read(9, 0), RED);
    assert_eq!(img.read(10, 0), BLACK);
    assert_eq!(img.read(0, 9), RED);
    assert_eq!(img.read(0, 10), BLACK);
}

#[test]
fn scanline_twice_is_once() {
    let mut img = create(16, 16);
    let mut z = create_depth_buffer(16, 16);
    fill_triangle_scanline(v(1, 2, 3), v(12, 4, 9), v(5, 14, 1), RED, &mut img, &mut z);
    let (p1, z1) = (img.pixels.clone(), z.clone());
    fill_triangle_scanline(v(1, 2, 3), v(12, 4, 9), v(5, 14, 1), RED, &mut img, &mut z);
    assert_eq!(img.pixels, p1);
    assert_eq!(z, z1);
    assert!(count(&img, RED) > 30);
}

#[test]
fn scanline_nearer_wins_in_either_order() {
    let a = (v(0, 0, 10), v(12, 0, 10), v(0, 12, 10));
    let b = (v(2, 2, 20), v(14, 2, 20), v(2, 14, 20));
    let mut i1 = create(16, 16);
    let mut z1 = create_depth_buffer(16, 16);
    fill_triangle_scanline(a.0, a.1, a.2, RED, &mut i1, &mut z1);
    fill_triangle_scanline(b.0, b.1, b.2, BLUE, &mut i1, &mut z1);
    let mut i2 = create(16, 16);
    let mut z2 = create_depth_buffer(16, 16);
    fill_triangle_scanline(b.0, b.1, b.2, BLUE, &mut i2, &mut z2);
    fill_triangle_scanline(a.0, a.1, a.2, RED, &mut i2, &mut z2);
    assert_eq!(i1.pixels, i2.pixels);
    assert_eq!(z1, z2);
    assert_eq!(i1.read(3, 3), BLUE);
    assert_eq!(i1.read(1, 1), RED);
    assert_eq!(z1[3 * 16 + 3], 20);
}

#[test]
fn scanline_interpolates_depth() {
    let mut img = create(8, 8);
    let mut z = create_depth_buffer(8, 8);
    fill_triangle_scanline(v(0, 0, 0), v(8, 0, 80), v(0, 8, 0), RED, &mut img, &mut z);
    assert_eq!(z[0], 0);
    assert_eq!(z[4], 40);
    assert_eq!(z[7], 70);
}

// The winding for which every edge value is at most zero inside.
fn tri() -> (Vec4, Vec4, Vec4) {
    (v(0, 0, 4), v(10, 0, 4), v(0, 10, 4))
}

#[test]
fn shaded_triangle_covers_closed_interior() {
    let mut img = create(16, 16);
    let mut z = create_depth_buffer(16, 16);
    let (a, b, c) = tri();
    rasterize(a, b, c, &mut img, &mut z, |_, _, _, _| RED);
    // x >= 0, y >= 0, x + y <= 10: 66 lattice points
    assert_eq!(count(&img, RED), 66);
    assert_eq!(img.read(0, 0), RED);
    assert_eq!(img.read(10, 0), RED);
    assert_eq!(img.read(0, 10), RED);
    assert_eq!(img.read(5, 5), RED);
    assert_eq!(img.read(6, 5), BLACK);
    assert_eq!(z[0], 4);
    assert_eq!(z[5 * 16 + 5], 4);
    assert_eq!(z[5 * 16 + 6], FARTHEST);
}

#[test]
fn shaded_opposite_winding_draws_nothing_inside() {
    let mut img = create(16, 16);
    let mut z = create_depth_buffer(16, 16);
    let (a, b, c) = tri();
    rasterize(a, c, b, &mut img, &mut z, |_, _, _, _| RED);
    assert_eq!(img.read(3, 3), BLACK);
    assert_eq!(z[3 * 16 + 3], FARTHEST);
}

#[test]
fn shaded_degenerate_triangle_draws_nothing() {
    let mut img = create(16, 16);
    let mut z = create_depth_buffer(16, 16);
    rasterize(v(1, 1, 4), v(5, 5, 4), v(9, 9, 4), &mut img, &mut z, |_, _, _, _| RED);
    assert_eq!(count(&img, RED), 0);
    assert_eq!(z, vec![FARTHEST; 256]);
}

#[test]
fn shaded_twice_is_once() {
    let mut img = create(16, 16);
    let mut z = create_depth_buffer(16, 16);
    let (a, b, c) = tri();
    rasterize(a, b, c, &mut img, &mut z, |_, _, _, _| RED);
    let (p1, z1) = (img.pixels.clone(), z.clone());
    rasterize(a, b, c, &mut img, &mut z, |_, _, _, _| RED);
    assert_eq!(img.pixels, p1);
    assert_eq!(z, z1);
}

#[test]
fn shaded_larger_depth_wins_in_either_order() {
    let near = (v(0, 0, 9), v(10, 0, 9), v(0, 10, 9));
    let far = (v(2, 2, 3), v(12, 2, 3), v(2, 12, 3));
    let mut i1 = create(16, 16);
    let mut z1 = create_depth_buffer(16, 16);
    rasterize(near.0, near.1, near.2, &mut i1, &mut z1, |_, _, _, _| RED);
    rasterize(far.0, far.1, far.2, &mut i1, &mut z1, |_, _, _, _| BLUE);
    let mut i2 = create(16, 16);
    let mut z2 = create_depth_buffer(16, 16);
    rasterize(far.0, far.1, far.2, &mut i2, &mut z2, |_, _, _, _| BLUE);
    rasterize(near.0, near.1, near.2, &mut i2, &mut z2, |_, _, _, _| RED);
    assert_eq!(i1.pixels, i2.pixels);
    assert_eq!(z1, z2);
    assert_eq!(i1.read(3, 3), RED);
    assert_eq!(i1.read(7, 7), BLUE);
    assert_eq!(z1[3 * 16 + 3], 9);
}

fn weights(e0: i64, e1: i64, e2: i64, area: i64) -> Color {
    Color { r: (255 * e0 / area) as u8, g: (255 * e1 / area) as u8, b: (255 * e2 / area) as u8 }
}

#[test]
fn weights_at_vertices_are_one_and_zero() {
    let mut img = create(16, 16);
    let mut z = create_depth_buffer(16, 16);
    let (a, b, c) = tri();
    rasterize(a, b, c, &mut img, &mut z, weights);
    assert_eq!(img.read(0, 0), Color { r: 255, g: 0, b: 0 });
    assert_eq!(img.read(10, 0), Color { r: 0, g: 255, b: 0 });
    assert_eq!(img.read(0, 10), Color { r: 0, g: 0, b: 255 });
    assert_eq!(img.read(2, 3), Color { r: 127, g: 51, b: 76 });
}

#[test]
fn shaded_depth_is_inverse_interpolated() {
    let mut img = create(16, 16);
    let mut z = create_depth_buffer(16, 16);
    rasterize(v(0, 0, 2), v(10, 0, 4), v(0, 10, 4), &mut img, &mut z, |_, _, _, _| RED);
    assert_eq!(z[0], 2);
    assert_eq!(z[10], 4);
    // halfway along the top edge: 1 / (0.5 / 2 + 0.5 / 4) = 2.66..
    assert_eq!(z[5], 2);
    // at (0, 8): 1 / (0.2 / 2 + 0.8 / 4) = 3.33..
    assert_eq!(z[8 * 16], 3);
}

#[test]
fn shaded_triangle_is_clipped_to_the_grid() {
    let mut img = create(4, 4);
    let mut z = create_depth_buffer(4, 4);
    rasterize(v(-5, -5, 1), v(20, -5, 1), v(-5, 20, 1), &mut img, &mut z, |_, _, _, _| RED);
    assert_eq!(count(&img, RED), 16);
    let mut empty = create(0, 0);
    let mut ez = create_depth_buffer(0, 0);
    rasterize(v(0, 0, 1), v(3, 0, 1), v(0, 3, 1), &mut empty, &mut ez, |_, _, _, _| RED);
    assert!(empty.pixels.is_empty());
}

#[test]
fn shaded_triangle_of_depth_zero_is_drawn() {
    let mut img = create(16, 16);
    let mut z = create_depth_buffer(16, 16);
    rasterize(v(0, 0, 0), v(10, 0, 0), v(0, 10, 0), &mut img, &mut z, |_, _, _, _| RED);
    assert_eq!(count(&img, RED), 66);
    assert_eq!(z[0], 0);
    assert_eq!(z[3 * 16 + 3], 0);
    assert_eq!(z[15 * 16 + 15], FARTHEST);
    // one vertex at depth zero: the numerator of every depth is zero
    let mut img = create(16, 16);
    let mut z = create_depth_buffer(16, 16);
    rasterize(v(0, 0, 0), v(10, 0, 4), v(0, 10, 4), &mut img, &mut z, |_, _, _, _| RED);
    assert_eq!(count(&img, RED), 66);
    assert_eq!(z[0], 0);
    assert_eq!(z[3 * 16 + 3], 0);
    assert_eq!(z[10], 0);
    // depths of opposite sign that cancel at a pixel: (5, 0) halfway between 2 and -2
    let mut img = create(16, 16);
    let mut z = create_depth_buffer(16, 16);
    rasterize(v(0, 0, 2), v(10, 0, -2), v(0, 10, 2), &mut img, &mut z, |_, _, _, _| RED);
    assert_eq!(img.read(5, 0), RED);
    assert_eq!(z[5], 0);
}

#[test]
fn scanline_first_fragment_always_passes() {
    let mut img = create(8, 8);
    let mut z = create_depth_buffer(8, 8);
    let low = i64::MIN + 1;
    fill_triangle_scanline(v(0, 0, low), v(8, 0, low), v(0, 8, low), RED, &mut img, &mut z);
    assert_eq!(count(&img, RED), 36);
    assert_eq!(z[0], low);
}

#[test]
fn shaded_equal_depth_does_not_overwrite() {
    let mut img = create(16, 16);
    let mut z = create_depth_buffer(16, 16);
    rasterize(v(0, 0, 1), v(10, 0, 1), v(0, 10, 1), &mut img, &mut z, |_, _, _, _| RED);
    let depths = z.clone();
    rasterize(v(0, 0, 1), v(10, 0, 1), v(0, 10, 1), &mut img, &mut z, |_, _, _, _| BLUE);
    assert_eq!(img.read(1, 1), RED);
    assert_eq!(&img.pixels[51..54], &[0u8, 0, 255]);
    assert_eq!(count(&img, RED), 66);
    assert_eq!(count(&img, BLUE), 0);
    assert_eq!(z, depths);
    // a larger depth still wins
    rasterize(v(0, 0, 2), v(10, 0, 2), v(0, 10, 2), &mut img, &mut z, |_, _, _, _| BLUE);
    assert_eq!(img.read(1, 1), BLUE);
    assert_eq!(z[17], 2);
}

#[test]
fn scanline_equal_depth_does_not_overwrite() {
    let mut img = create(16, 16);
    let mut z = create_depth_buffer(16, 16);
    fill_triangle_scanline(v(0, 0, 1), v(10, 0, 1), v(0, 10, 1), RED, &mut img, &mut z);
    fill_triangle_scanline(v(0, 0, 1), v(10, 0, 1), v(0, 10, 1), BLUE, &mut img, &mut z);
    assert_eq!(img.read(1, 1), RED);
    assert_eq!(count(&img, BLUE), 0);
}
