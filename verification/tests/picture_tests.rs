use hyprdie::color::Rgb;
use hyprdie::picture::{decode_picture, fill_picture, paint_background, paint_background_checked, Picture};
use image::{ImageFormat, RgbaImage};
use std::io::Cursor;

fn png(width: u32, height: u32, rgba: Vec<u8>) -> Vec<u8> {
    let img = RgbaImage::from_raw(width, height, rgba).unwrap();
    let mut out = Cursor::new(Vec::new());
    img.write_to(&mut out, ImageFormat::Png).unwrap();
    out.into_inner()
}

#[test]
fn decodes_png_picture() {
    let bytes = png(2, 1, vec![1, 2, 3, 255, 4, 5, 6, 255]);
    let picture = decode_picture(&bytes).unwrap();
    assert_eq!(picture.width, 2);
    assert_eq!(picture.height, 1);
    assert_eq!(picture.encoded, bytes);
    let filled = fill_picture(&picture, 2, 1);
    assert_eq!(filled, vec![1, 2, 3, 255, 4, 5, 6, 255]);
}

#[test]
fn refuses_bytes_that_are_no_picture() {
    assert!(decode_picture(b"this is not a picture").is_err());
    assert!(decode_picture(&[]).is_err());
}

#[test]
fn fill_picture_covers_the_requested_size() {
    let picture = decode_picture(&png(1, 1, vec![10, 20, 30, 255])).unwrap();
    let filled = fill_picture(&picture, 3, 2);
    assert_eq!(filled.len(), 3 * 2 * 4);
    for pixel in filled.chunks(4) {
        assert_eq!(pixel, &[10, 20, 30, 255]);
    }
}

#[test]
fn paints_solid_background_without_picture() {
    let mut canvas = vec![9u8; 10];
    paint_background(&mut canvas, &None, 2, 1, Rgb::new(1, 2, 3));
    assert_eq!(canvas, vec![1, 2, 3, 255, 1, 2, 3, 255, 9, 9]);
}

#[test]
fn paints_scaled_picture_with_red_and_blue_swapped() {
    let picture = decode_picture(&png(1, 1, vec![255, 0, 0, 255])).unwrap();
    let mut canvas = vec![7u8; 16];
    paint_background(&mut canvas, &Some(picture), 2, 2, Rgb::new(1, 2, 3));
    for pixel in canvas.chunks(4) {
        assert_eq!(pixel, &[0, 0, 255, 255]);
    }
}

#[test]
fn scales_the_picture_in_its_own_format() {
    // A 16-bit grey picture is scaled before it is brought to 8-bit RGBA.
    let img = image::ImageBuffer::<image::Luma<u16>, Vec<u16>>::from_raw(1, 1, vec![0x8080]).unwrap();
    let mut out = Cursor::new(Vec::new());
    img.write_to(&mut out, ImageFormat::Png).unwrap();
    let picture = decode_picture(&out.into_inner()).unwrap();
    assert_eq!((picture.width, picture.height), (1, 1));
    let filled = fill_picture(&picture, 2, 2);
    assert_eq!(filled.len(), 16);
    for pixel in filled.chunks(4) {
        assert_eq!(pixel, &[0x80, 0x80, 0x80, 255]);
    }
}

#[test]
fn checked_paint_scales_a_decoded_picture() {
    let picture = decode_picture(&png(1, 1, vec![255, 0, 0, 255])).unwrap();
    let mut canvas = vec![7u8; 8];
    assert!(paint_background_checked(&mut canvas, &Some(picture), 2, 1, Rgb::new(1, 2, 3)));
    assert_eq!(canvas, vec![0, 0, 255, 255, 0, 0, 255, 255]);
}

#[test]
fn checked_paint_fills_solid_without_picture() {
    let mut canvas = vec![7u8; 6];
    assert!(paint_background_checked(&mut canvas, &None, 1, 1, Rgb::new(1, 2, 3)));
    assert_eq!(canvas, vec![1, 2, 3, 255, 7, 7]);
}

#[test]
fn checked_paint_refuses_a_picture_it_cannot_scale() {
    let bytes = png(1, 1, vec![255, 0, 0, 255]);
    let wrong_size = Picture { encoded: bytes, width: 3, height: 3 };
    let mut canvas = vec![7u8; 8];
    assert!(!paint_background_checked(&mut canvas, &Some(wrong_size), 2, 1, Rgb::new(1, 2, 3)));
    assert_eq!(canvas, vec![7u8; 8]);
    let not_a_picture = Picture { encoded: b"nothing".to_vec(), width: 1, height: 1 };
    assert!(!paint_background_checked(&mut canvas, &Some(not_a_picture), 2, 1, Rgb::new(1, 2, 3)));
    assert_eq!(canvas, vec![7u8; 8]);
}
