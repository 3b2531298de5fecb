use rasterizer::image::{create, Color};
use rasterizer::tga::{load, save, TgaError};

#[test]
fn save_writes_header_then_pixels() {
    let mut img = create(3, 2);
    img.set(1, 0, Color { r: 1, g: 2, b: 3 });
    let bytes = save(img);
    assert_eq!(bytes.len(), 18 + 18);
    assert_eq!(&bytes[..18], &[0u8, 0, 2, 0, 0, 0, 0, 0, 0, 0, 0, 0, 3, 0, 2, 0, 24, 0]);
    assert_eq!(&bytes[18 + 3..18 + 6], &[3u8, 2, 1]);
}

#[test]
fn save_splits_dimensions_into_two_bytes() {
    let bytes = save(create(0x0123, 0));
    assert_eq!(bytes.len(), 18);
    assert_eq!(&bytes[12..16], &[0x23u8, 0x01, 0, 0]);
}

#[test]
fn round_trip_keeps_pixels() {
    let mut img = create(5, 4);
    img.set(0, 0, Color { r: 9, g: 8, b: 7 });
    img.set(4, 3, Color { r: 200, g: 100, b: 50 });
    img.set(2, 1, Color { r: 1, g: 255, b: 0 });
    let pixels = img.pixels.clone();
    let back = load(&save(img)).unwrap();
    assert_eq!(back.width, 5);
    assert_eq!(back.height, 4);
    assert_eq!(back.pixels, pixels);
    assert_eq!(back.read(4, 3), Color { r: 200, g: 100, b: 50 });
}

#[test]
fn load_rejects_other_image_types() {
    let mut bytes = save(create(2, 2));
    bytes[2] = 10;
    assert_eq!(load(&bytes).err(), Some(TgaError::Unsupported));
    bytes[2] = 0;
    assert_eq!(load(&bytes).err(), Some(TgaError::Unsupported));
}

#[test]
fn load_rejects_short_input() {
    let bytes = save(create(2, 2));
    assert_eq!(load(&bytes[..17]).err(), Some(TgaError::Truncated));
    assert_eq!(load(&bytes[..bytes.len() - 1]).err(), Some(TgaError::Truncated));
    assert_eq!(load(&[]).err(), Some(TgaError::Truncated));
    assert!(load(&bytes).is_ok());
}

#[test]
fn load_skips_the_blocks_before_the_pixels() {
    let mut bytes = vec![0u8; 18];
    bytes[0] = 2;
    bytes[2] = 2;
    bytes[3] = 3;
    bytes[12] = 1;
    bytes[14] = 1;
    bytes[16] = 24;
    bytes.extend_from_slice(&[9, 9, 8, 8, 8, 10, 20, 30, 77]);
    let img = load(&bytes).unwrap();
    assert_eq!((img.width, img.height), (1, 1));
    assert_eq!(img.pixels, vec![10, 20, 30]);
    assert_eq!(img.read(0, 0), Color { r: 30, g: 20, b: 10 });
}

#[test]
fn load_sizes_pixels_by_bits_per_pixel() {
    let mut bytes = vec![0u8; 18];
    bytes[2] = 2;
    bytes[12] = 2;
    bytes[14] = 1;
    bytes[16] = 32;
    bytes.extend_from_slice(&[1, 2, 3, 4, 5, 6, 7, 8]);
    let img = load(&bytes).unwrap();
    assert_eq!(img.pixels, vec![1, 2, 3, 4, 5, 6, 7, 8]);
}
