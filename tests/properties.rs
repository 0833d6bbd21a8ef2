use bmp::header::{
    BmpDibHeader, BmpHeader, BmpId, FILE_HEADER_SIZE, HEADERS_SIZE, ID_SIZE, INFO_HEADER_SIZE,
};
use bmp::image::{BmpError, Image};
use bmp::Pixel;

fn px(r: u8, g: u8, b: u8) -> Pixel {
    Pixel { r, g, b }
}

#[test]
fn header_block_sizes_add_up_to_54() {
    assert_eq!(ID_SIZE + FILE_HEADER_SIZE + INFO_HEADER_SIZE, 54);
    assert_eq!(HEADERS_SIZE, 54);
    let img = Image::new(3, 5);
    let mut out = Vec::new();
    img.write_header(&mut out);
    assert_eq!(out.len(), 54);
    assert_eq!(&out[0..2], &[0x42, 0x4D]);
}

#[test]
fn two_by_two_image_sizes() {
    let img = Image::new(2, 2);
    assert_eq!(img.file_header().file_size, 70);
    assert_eq!(img.file_header().pixel_offset, 54);
    assert_eq!(img.info_header().data_size, 16);
    assert_eq!(img.padding(), 2);
    assert_eq!(img.to_bytes().len(), 70);
}

#[test]
fn padding_and_sizes_for_each_width_class() {
    // width 1: 3 bytes + 1 padding; width 3: 9 + 3; width 4: 12 + 0; width 5: 15 + 1.
    let cases: [(i32, i32, u32); 4] = [(1, 1, 4), (3, 3, 12), (4, 0, 12), (5, 1, 16)];
    for (w, pad, stride) in cases {
        let img = Image::new(w, 2);
        assert_eq!(img.padding(), pad);
        assert_eq!(img.info_header().data_size, 2 * stride);
        assert_eq!(img.file_header().file_size, 54 + 2 * stride);
        assert_eq!(img.to_bytes().len() as u32, 54 + 2 * stride);
    }
}

#[test]
fn new_image_is_black_with_fixed_header_fields() {
    let img = Image::new(3, 2);
    assert!(img.has_pixels());
    assert_eq!(img.pixel_count(), 6);
    assert_eq!(img.width(), 3);
    assert_eq!(img.height(), 2);
    for y in 0..2 {
        for x in 0..3 {
            assert_eq!(img.get_pixel(x, y), Ok(px(0, 0, 0)));
        }
    }
    let ih = img.info_header();
    assert_eq!(ih.bits_per_pixel, 24);
    assert_eq!(ih.num_planes, 1);
    assert_eq!(ih.compress_type, 0);
}

#[test]
fn header_constructors() {
    assert_eq!(BmpId::new(), BmpId { magic1: 0x42, magic2: 0x4D });
    let fh = BmpHeader::new(3, 2);
    assert_eq!(fh.file_size, 54 + 24);
    assert_eq!(fh.pixel_offset, 54);
    let ih = BmpDibHeader::new(3, 2);
    assert_eq!(ih.data_size, 24);
    assert_eq!(ih.header_size, 40);
    assert_eq!(ih.hres, 0x100);
    assert_eq!(ih.vres, 0x100);
}

#[test]
fn one_pixel_image_bytes() {
    let mut img = Image::new(1, 1);
    img.set_pixel(0, 0, px(1, 2, 3)).unwrap();
    let b = img.to_bytes();
    assert_eq!(b.len(), 58);
    assert_eq!(&b[2..6], &[58, 0, 0, 0]);
    assert_eq!(&b[54..58], &[3, 2, 1, 0]);
}

#[test]
fn round_trip_keeps_every_pixel_and_header() {
    let mut img = Image::new(3, 4);
    for y in 0..4usize {
        for x in 0..3usize {
            img.set_pixel(x, y, px((x * 40) as u8, (y * 50) as u8, (x + y) as u8)).unwrap();
        }
    }
    let back = Image::from_bytes(&img.to_bytes()).unwrap();
    assert_eq!(back.file_header(), img.file_header());
    assert_eq!(back.info_header(), img.info_header());
    assert_eq!(back.padding(), 3);
    for y in 0..4usize {
        for x in 0..3usize {
            assert_eq!(back.get_pixel(x, y), img.get_pixel(x, y));
        }
    }
}

#[test]
fn out_of_bounds_access_is_an_error_and_writes_nothing() {
    let mut img = Image::new(2, 3);
    assert_eq!(img.get_pixel(2, 0), Err(BmpError::IndexOutOfBounds { x: 2, y: 0 }));
    assert_eq!(img.get_pixel(0, 3), Err(BmpError::IndexOutOfBounds { x: 0, y: 3 }));
    assert_eq!(
        img.set_pixel(5, 1, px(9, 9, 9)),
        Err(BmpError::IndexOutOfBounds { x: 5, y: 1 })
    );
    assert_eq!(img.pixel_count(), 6);
    for y in 0..3 {
        for x in 0..2 {
            assert_eq!(img.get_pixel(x, y), Ok(px(0, 0, 0)));
        }
    }
}

#[test]
fn set_pixel_keeps_the_store_size() {
    let mut img = Image::new(4, 4);
    for i in 0..16usize {
        img.set_pixel(i % 4, i / 4, px(i as u8, 0, 0)).unwrap();
        assert_eq!(img.pixel_count(), 16);
    }
    assert_eq!(img.get_pixel(3, 2), Ok(px(11, 0, 0)));
}

#[test]
fn wrong_identifier_is_not_a_bitmap() {
    let mut b = Image::new(2, 2).to_bytes();
    b[1] = b'N';
    assert_eq!(Image::from_bytes(&b).err(), Some(BmpError::NotABitmap));
    assert_eq!(Image::from_bytes(&[]).err(), Some(BmpError::NotABitmap));
    assert_eq!(Image::from_bytes(&[0x42]).err(), Some(BmpError::NotABitmap));
    assert_eq!(Image::from_bytes(&[b'P', b'K', 3, 4]).err(), Some(BmpError::NotABitmap));
}

#[test]
fn short_headers_are_truncated() {
    let b = Image::new(2, 2).to_bytes();
    assert_eq!(Image::from_bytes(&b[0..2]).err(), Some(BmpError::TruncatedHeader));
    assert_eq!(Image::from_bytes(&b[0..20]).err(), Some(BmpError::TruncatedHeader));
    assert_eq!(Image::from_bytes(&b[0..53]).err(), Some(BmpError::TruncatedHeader));
}

#[test]
fn short_pixel_rows_are_truncated() {
    let b = Image::new(2, 2).to_bytes();
    assert_eq!(Image::from_bytes(&b[0..60]).err(), Some(BmpError::TruncatedData));
    // the padding of the last row may be missing
    let img = Image::from_bytes(&b[0..68]).unwrap();
    assert!(img.has_pixels());
}

#[test]
fn data_size_mismatch_keeps_headers_without_pixels() {
    let mut b = Image::new(2, 2).to_bytes();
    b[34] = 17;
    let img = Image::from_bytes(&b).unwrap();
    assert!(!img.has_pixels());
    assert_eq!(img.pixel_count(), 0);
    assert_eq!(img.info_header().data_size, 17);
    assert_eq!(img.info_header().width, 2);
    assert_eq!(img.file_header().file_size, 70);
}

#[test]
fn negative_height_has_no_pixels() {
    let mut b = Image::new(2, 2).to_bytes();
    b[22..26].copy_from_slice(&(-2i32).to_le_bytes());
    let img = Image::from_bytes(&b).unwrap();
    assert!(!img.has_pixels());
    assert_eq!(img.height(), -2);
}

#[test]
fn pixel_rows_follow_the_stored_offset() {
    let mut b = Image::new(1, 1).to_bytes();
    b.truncate(54);
    b[10] = 58;
    b.extend_from_slice(&[0xAA, 0xAA, 0xAA, 0xAA, 10, 20, 30, 0]);
    let img = Image::from_bytes(&b).unwrap();
    assert_eq!(img.get_pixel(0, 0), Ok(px(30, 20, 10)));
}
