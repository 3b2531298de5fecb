use rasterizer::image::{create, Color, Image};

const RED: Color = Color { r: 255, g: 0, b: 0 };
const BLACK: Color = Color { r: 0, g: 0, b: 0 };

fn colored(img: &Image) -> Vec<(usize, usize)> {
    let mut out = Vec::new();
    for y in 0..img.height {
        for x in 0..img.width {
            if img.read(x, y) != BLACK {
                out.push((x, y));
            }
        }
    }
    out
}

#[test]
fn horizontal_line_excludes_far_end() {
    let mut img = create(16, 4);
    rasterizer::line::line(0, 0, 10, 0, RED, &mut img);
    let expected: Vec<(usize, usize)> = (0..10).map(|x| (x, 0)).collect();
    assert_eq!(colored(&img), expected);
    assert_eq!(img.read(10, 0), BLACK);
    assert_eq!(img.read(9, 0), RED);
}

#[test]
fn line_is_symmetric_in_its_ends() {
    let ends = [(1, 2, 13, 7), (3, 14, 9, 1), (0, 0, 15, 15), (12, 3, 2, 11), (5, 5, 5, 12)];
    for &(x0, y0, x1, y1) in ends.iter() {
        let mut a = create(16, 16);
        let mut b = create(16, 16);
        rasterizer::line::line(x0, y0, x1, y1, RED, &mut a);
        rasterizer::line::line(x1, y1, x0, y0, RED, &mut b);
        assert_eq!(a.pixels, b.pixels);
        assert!(!colored(&a).is_empty());
    }
}

#[test]
fn shallow_line_interpolates_rows() {
    let mut img = create(8, 8);
    rasterizer::line::line(0, 0, 4, 2, RED, &mut img);
    assert_eq!(colored(&img), vec![(0, 0), (1, 0), (2, 1), (3, 1)]);
}

#[test]
fn steep_line_walks_rows() {
    let mut img = create(8, 8);
    rasterizer::line::line(1, 0, 3, 6, RED, &mut img);
    let mut got = colored(&img);
    got.sort();
    assert_eq!(got, vec![(1, 0), (1, 1), (1, 2), (2, 3), (2, 4), (2, 5)]);
}

#[test]
fn single_point_draws_nothing() {
    let mut img = create(8, 8);
    rasterizer::line::line(3, 3, 3, 3, RED, &mut img);
    assert!(colored(&img).is_empty());
}

#[test]
fn line_leaving_the_grid_is_clipped() {
    let mut img = create(4, 4);
    rasterizer::line::line(-3, 1, 9, 1, RED, &mut img);
    assert_eq!(colored(&img), vec![(0, 1), (1, 1), (2, 1), (3, 1)]);
    // rows above the grid are not drawn into its first row
    let mut img = create(8, 8);
    rasterizer::line::line(0, -4, 8, 4, RED, &mut img);
    assert_eq!(colored(&img), vec![(4, 0), (5, 1), (6, 2), (7, 3)]);
    let mut img = create(4, 4);
    rasterizer::line::line(0, -4, 8, 4, RED, &mut img);
    assert!(colored(&img).is_empty());
    let mut img = create(4, 4);
    rasterizer::line::line(i64::MIN, i64::MIN, i64::MAX, i64::MAX, RED, &mut img);
    assert_eq!(colored(&img), vec![(0, 0), (1, 1), (2, 2), (3, 3)]);
}
