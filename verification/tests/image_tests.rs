use rasterizer::image::{create, Color};

#[test]
fn create_is_black() {
    let img = create(4, 3);
    assert_eq!(img.width, 4);
    assert_eq!(img.height, 3);
    assert_eq!(img.pixels, vec![0u8; 36]);
    assert_eq!(img.read(3, 2), Color { r: 0, g: 0, b: 0 });
}

#[test]
fn set_stores_blue_green_red() {
    let mut img = create(4, 3);
    img.set(1, 2, Color { r: 10, g: 20, b: 30 });
    let i = (2 * 4 + 1) * 3;
    assert_eq!(&img.pixels[i..i + 3], &[30u8, 20, 10]);
    assert_eq!(img.read(1, 2), Color { r: 10, g: 20, b: 30 });
    assert_eq!(img.read(0, 2), Color { r: 0, g: 0, b: 0 });
}

#[test]
fn set_outside_is_ignored() {
    let mut img = create(4, 3);
    img.set(4, 0, Color { r: 1, g: 2, b: 3 });
    img.set(0, 3, Color { r: 1, g: 2, b: 3 });
    img.set(usize::MAX, usize::MAX, Color { r: 1, g: 2, b: 3 });
    assert_eq!(img.pixels, vec![0u8; 36]);
}
