use std::mem::size_of;

use bmp::header::{BmpDibHeader, BmpHeader, BmpId};
use bmp::image::Image;
use bmp::Pixel;

const RED: Pixel = Pixel { r: 255, g: 0, b: 0 };
const LIME: Pixel = Pixel { r: 0, g: 255, b: 0 };
const BLUE: Pixel = Pixel { r: 0, g: 0, b: 255 };
const WHITE: Pixel = Pixel { r: 255, g: 255, b: 255 };

/// A 2x2 bitmap: blue, white in the first stored row; red, lime in the second.
fn rgbw_bmp() -> Vec<u8> {
    vec![
        0x42, 0x4D, // identifier
        70, 0, 0, 0, // file size
        0, 0, 0, 0, // reserved
        54, 0, 0, 0, // pixel offset
        40, 0, 0, 0, // info header size
        2, 0, 0, 0, // width
        2, 0, 0, 0, // height
        1, 0, // planes
        24, 0, // bits per pixel
        0, 0, 0, 0, // compression
        16, 0, 0, 0, // data size
        0, 1, 0, 0, // horizontal resolution
        0, 1, 0, 0, // vertical resolution
        0, 0, 0, 0, // palette colours
        0, 0, 0, 0, // important colours
        0xFF, 0x00, 0x00, 0xFF, 0xFF, 0xFF, 0, 0, // blue, white, padding
        0x00, 0x00, 0xFF, 0x00, 0xFF, 0x00, 0, 0, // red, lime, padding
    ]
}

fn verify_test_bmp_image(img: &Image) {
    let header = img.file_header();
    assert_eq!(70, header.file_size);
    assert_eq!(0, header.creator1);
    assert_eq!(0, header.creator2);

    let dib_header = img.info_header();
    assert_eq!(54, header.pixel_offset);
    assert_eq!(40, dib_header.header_size);
    assert_eq!(2, dib_header.width);
    assert_eq!(2, dib_header.height);
    assert_eq!(1, dib_header.num_planes);
    assert_eq!(24, dib_header.bits_per_pixel);
    assert_eq!(0, dib_header.compress_type);
    assert_eq!(16, dib_header.data_size);
    assert_eq!(0x100, dib_header.hres);
    assert_eq!(0x100, dib_header.vres);
    assert_eq!(0, dib_header.num_colors);
    assert_eq!(0, dib_header.num_imp_colors);

    assert_eq!(2, img.padding());
}

#[test]
fn size_of_bmp_header_is_54_bytes() {
    let bmp_magic_size = size_of::<BmpId>();
    let bmp_header_size = size_of::<BmpHeader>();
    let bmp_bip_header_size = size_of::<BmpDibHeader>();

    assert_eq!(2, bmp_magic_size);
    assert_eq!(12, bmp_header_size);
    assert_eq!(40, bmp_bip_header_size);
}

#[test]
fn size_of_4pixel_bmp_image_is_70_bytes() {
    let mut bmp = Image::new(2, 2);
    bmp.set_pixel(0, 0, BLUE).unwrap();
    bmp.set_pixel(1, 0, WHITE).unwrap();
    bmp.set_pixel(0, 1, RED).unwrap();
    bmp.set_pixel(1, 1, LIME).unwrap();
    let size = bmp.to_bytes().len() as i32;
    assert_eq!(70, size);
    assert_eq!(bmp.to_bytes(), rgbw_bmp());
}

#[test]
fn can_read_bmp_image() {
    let bmp_img = Image::from_bytes(&rgbw_bmp()).unwrap();
    verify_test_bmp_image(&bmp_img);
}

#[test]
fn can_read_image_data() {
    let f = rgbw_bmp();
    assert_eq!(0x42, f[0]);
    assert_eq!(0x4D, f[1]);

    let pixel = Pixel { r: f[54], g: f[55], b: f[56] };

    assert_eq!(pixel, RED);
}

#[test]
fn can_read_entire_bmp_image() {
    let bmp_img = Image::from_bytes(&rgbw_bmp()).unwrap();
    assert!(bmp_img.has_pixels());

    assert_eq!(bmp_img.get_pixel(0, 0), Ok(BLUE));
    assert_eq!(bmp_img.get_pixel(1, 0), Ok(WHITE));
    assert_eq!(bmp_img.get_pixel(0, 1), Ok(RED));
    assert_eq!(bmp_img.get_pixel(1, 1), Ok(LIME));
}

#[test]
fn can_create_bmp_file() {
    let mut bmp = Image::new(2, 2);
    bmp.set_pixel(0, 0, RED).unwrap();
    bmp.set_pixel(1, 0, WHITE).unwrap();
    bmp.set_pixel(0, 1, BLUE).unwrap();
    bmp.set_pixel(1, 1, LIME).unwrap();
    let bytes = bmp.to_bytes();

    let bmp_img = Image::from_bytes(&bytes).unwrap();
    assert_eq!(bmp_img.get_pixel(0, 0), Ok(RED));
    assert_eq!(bmp_img.get_pixel(1, 0), Ok(WHITE));
    assert_eq!(bmp_img.get_pixel(0, 1), Ok(BLUE));
    assert_eq!(bmp_img.get_pixel(1, 1), Ok(LIME));

    verify_test_bmp_image(&bmp_img);
}

#[test]
fn changing_pixels_does_not_push_image_data() {
    let mut img = Image::new(2, 1);
    img.set_pixel(1, 0, WHITE).unwrap();
    img.set_pixel(0, 0, WHITE).unwrap();

    assert_eq!(img.get_pixel(0, 0), Ok(WHITE));
    assert_eq!(img.get_pixel(1, 0), Ok(WHITE));
    assert_eq!(img.pixel_count(), 2);
}
