//! The three fixed-size header blocks at the start of a BMP file.
use vstd::prelude::*;

use crate::bytes::{
    le_i32_at, le_i32_bytes, le_u16_at, le_u16_bytes, le_u32_at, le_u32_bytes,
    lemma_le_i32_round_trip, lemma_le_u16_round_trip, lemma_le_u32_round_trip,
};

verus! {

/// Bytes taken by the file identifier.
pub const ID_SIZE: usize = 2;

/// Bytes taken by the file header.
pub const FILE_HEADER_SIZE: usize = 12;

/// Bytes taken by the info header.
pub const INFO_HEADER_SIZE: usize = 40;

/// Offset of the pixel rows in every file this codec writes: the three headers.
pub const HEADERS_SIZE: u32 = 54;

/// The largest value of a `u32`.
pub const U32_MAX: u64 = 0xffff_ffff;

/// The two-byte file identifier, `'B'` then `'M'` in a bitmap.
#[derive(Clone, Copy, Debug, PartialEq, Eq, Structural)]
pub struct BmpId {
    pub magic1: u8,
    pub magic2: u8,
}

/// The file header: total size, two reserved fields and the offset of the pixel rows.
#[derive(Clone, Copy, Debug, PartialEq, Eq, Structural)]
pub struct BmpHeader {
    pub file_size: u32,
    pub creator1: u16,
    pub creator2: u16,
    pub pixel_offset: u32,
}

/// The info (DIB) header: geometry and encoding of the pixel rows.
#[derive(Clone, Copy, Debug, PartialEq, Eq, Structural)]
pub struct BmpDibHeader {
    pub header_size: u32,
    pub width: i32,
    pub height: i32,
    pub num_planes: u16,
    pub bits_per_pixel: u16,
    pub compress_type: u32,
    pub data_size: u32,
    pub hres: i32,
    pub vres: i32,
    pub num_colors: u32,
    pub num_imp_colors: u32,
}

/// Bytes of one stored row of `width` 24-bit pixels, rounded up to a multiple of four.
pub open spec fn row_stride(width: int) -> int {
    ((24 * width + 31) / 32) * 4
}

/// Zero bytes that follow the pixels of each row.
pub open spec fn row_padding(width: int) -> int {
    (4 - (3 * width) % 4) % 4
}

/// Bytes of the pixel rows of a `width` by `height` image.
pub open spec fn pixel_data_size(width: int, height: int) -> int {
    row_stride(width) * height
}

/// Size of the file this codec writes for a `width` by `height` image.
pub open spec fn file_size_for(width: int, height: int) -> int {
    HEADERS_SIZE + pixel_data_size(width, height)
}

/// The file header written for a `width` by `height` image: rows right after the headers.
pub open spec fn file_header_for(width: int, height: int) -> BmpHeader {
    BmpHeader {
        file_size: file_size_for(width, height) as u32,
        creator1: 0,
        creator2: 0,
        pixel_offset: HEADERS_SIZE,
    }
}

/// The info header written for an uncompressed 24-bit `width` by `height` image.
pub open spec fn info_header_for(width: i32, height: i32) -> BmpDibHeader {
    BmpDibHeader {
        header_size: INFO_HEADER_SIZE as u32,
        width,
        height,
        num_planes: 1,
        bits_per_pixel: 24,
        compress_type: 0,
        data_size: pixel_data_size(width as int, height as int) as u32,
        hres: 0x100,
        vres: 0x100,
        num_colors: 0,
        num_imp_colors: 0,
    }
}

pub open spec fn is_bmp_id(id: BmpId) -> bool {
    id.magic1 == 0x42 && id.magic2 == 0x4D
}

pub open spec fn id_bytes(id: BmpId) -> Seq<u8> {
    seq![id.magic1, id.magic2]
}

pub open spec fn file_header_bytes(h: BmpHeader) -> Seq<u8> {
    le_u32_bytes(h.file_size) + le_u16_bytes(h.creator1) + le_u16_bytes(h.creator2)
        + le_u32_bytes(h.pixel_offset)
}

pub open spec fn info_header_bytes(h: BmpDibHeader) -> Seq<u8> {
    le_u32_bytes(h.header_size) + le_i32_bytes(h.width) + le_i32_bytes(h.height) + le_u16_bytes(
        h.num_planes,
    ) + le_u16_bytes(h.bits_per_pixel) + le_u32_bytes(h.compress_type) + le_u32_bytes(
        h.data_size,
    ) + le_i32_bytes(h.hres) + le_i32_bytes(h.vres) + le_u32_bytes(h.num_colors) + le_u32_bytes(
        h.num_imp_colors,
    )
}

/// The file header stored at `pos` in `b`.
pub open spec fn parse_file_header(b: Seq<u8>, pos: int) -> BmpHeader {
    BmpHeader {
        file_size: le_u32_at(b, pos),
        creator1: le_u16_at(b, pos + 4),
        creator2: le_u16_at(b, pos + 6),
        pixel_offset: le_u32_at(b, pos + 8),
    }
}

/// The info header stored at `pos` in `b`.
pub open spec fn parse_info_header(b: Seq<u8>, pos: int) -> BmpDibHeader {
    BmpDibHeader {
        header_size: le_u32_at(b, pos),
        width: le_i32_at(b, pos + 4),
        height: le_i32_at(b, pos + 8),
        num_planes: le_u16_at(b, pos + 12),
        bits_per_pixel: le_u16_at(b, pos + 14),
        compress_type: le_u32_at(b, pos + 16),
        data_size: le_u32_at(b, pos + 20),
        hres: le_i32_at(b, pos + 24),
        vres: le_i32_at(b, pos + 28),
        num_colors: le_u32_at(b, pos + 32),
        num_imp_colors: le_u32_at(b, pos + 36),
    }
}

/// The stored pixel rows have the size that the width and height call for.
pub open spec fn data_size_matches(h: BmpDibHeader) -> bool {
    &&& h.width >= 0
    &&& h.height >= 0
    &&& pixel_data_size(h.width as int, h.height as int) == h.data_size
}

/// A row is its pixels, three bytes each, then its padding; the padding is `width % 4`.
pub proof fn lemma_row_stride(width: int)
    requires
        width >= 0,
    ensures
        row_stride(width) == 3 * width + row_padding(width),
        row_padding(width) == width % 4,
        0 <= row_padding(width) < 4,
{
    let q = width / 4;
    let r = width % 4;
    assert(width == 4 * q + r);
    assert(24 * width + 31 == 32 * (3 * q + r) + (31 - 8 * r));
    assert((24 * width + 31) / 32 == 3 * q + r);
    assert(3 * width == 4 * (3 * q) + 3 * r);
    assert((3 * width) % 4 == (3 * r) % 4);
}

/// The identifier, file header and info header take 2, 12 and 40 bytes: 54 in all.
pub proof fn lemma_header_sizes(id: BmpId, fh: BmpHeader, ih: BmpDibHeader)
    ensures
        id_bytes(id).len() == ID_SIZE,
        file_header_bytes(fh).len() == FILE_HEADER_SIZE,
        info_header_bytes(ih).len() == INFO_HEADER_SIZE,
        ID_SIZE + FILE_HEADER_SIZE + INFO_HEADER_SIZE == HEADERS_SIZE,
{
}

/// A file header read back from its bytes is the header that was written.
pub proof fn lemma_file_header_round_trip(h: BmpHeader, pre: Seq<u8>, post: Seq<u8>)
    ensures
        parse_file_header(pre + file_header_bytes(h) + post, pre.len() as int) == h,
{
    let b = pre + file_header_bytes(h) + post;
    let p = pre.len() as int;
    lemma_le_u32_round_trip(h.file_size);
    lemma_le_u16_round_trip(h.creator1);
    lemma_le_u16_round_trip(h.creator2);
    lemma_le_u32_round_trip(h.pixel_offset);
    assert(b.subrange(p, p + 4) =~= le_u32_bytes(h.file_size));
    assert(b.subrange(p + 4, p + 6) =~= le_u16_bytes(h.creator1));
    assert(b.subrange(p + 6, p + 8) =~= le_u16_bytes(h.creator2));
    assert(b.subrange(p + 8, p + 12) =~= le_u32_bytes(h.pixel_offset));
}

/// An info header read back from its bytes is the header that was written.
pub proof fn lemma_info_header_round_trip(h: BmpDibHeader, pre: Seq<u8>, post: Seq<u8>)
    ensures
        parse_info_header(pre + info_header_bytes(h) + post, pre.len() as int) == h,
{
    let b = pre + info_header_bytes(h) + post;
    let p = pre.len() as int;
    lemma_le_u32_round_trip(h.header_size);
    lemma_le_i32_round_trip(h.width);
    lemma_le_i32_round_trip(h.height);
    lemma_le_u16_round_trip(h.num_planes);
    lemma_le_u16_round_trip(h.bits_per_pixel);
    lemma_le_u32_round_trip(h.compress_type);
    lemma_le_u32_round_trip(h.data_size);
    lemma_le_i32_round_trip(h.hres);
    lemma_le_i32_round_trip(h.vres);
    lemma_le_u32_round_trip(h.num_colors);
    lemma_le_u32_round_trip(h.num_imp_colors);
    assert(b.subrange(p, p + 4) =~= le_u32_bytes(h.header_size));
    assert(b.subrange(p + 4, p + 8) =~= le_i32_bytes(h.width));
    assert(b.subrange(p + 8, p + 12) =~= le_i32_bytes(h.height));
    assert(b.subrange(p + 12, p + 14) =~= le_u16_bytes(h.num_planes));
    assert(b.subrange(p + 14, p + 16) =~= le_u16_bytes(h.bits_per_pixel));
    assert(b.subrange(p + 16, p + 20) =~= le_u32_bytes(h.compress_type));
    assert(b.subrange(p + 20, p + 24) =~= le_u32_bytes(h.data_size));
    assert(b.subrange(p + 24, p + 28) =~= le_i32_bytes(h.hres));
    assert(b.subrange(p + 28, p + 32) =~= le_i32_bytes(h.vres));
    assert(b.subrange(p + 32, p + 36) =~= le_u32_bytes(h.num_colors));
    assert(b.subrange(p + 36, p + 40) =~= le_u32_bytes(h.num_imp_colors));
}

/// Bytes of one stored row of `width` pixels.
pub fn row_stride_of(width: u32) -> (r: u64)
    ensures
        r == row_stride(width as int),
        r <= 4 * (width as int) + 4,
{
    ((24 * (width as u64) + 31) / 32) * 4
}

/// Bytes of the pixel rows of a `width` by `height` image.
pub fn pixel_data_size_of(width: u32, height: u32) -> (r: u64)
    requires
        (width <= 0x7fff_ffff && height <= 0x7fff_ffff) || pixel_data_size(width as int, height as int)
            <= U32_MAX,
    ensures
        r == pixel_data_size(width as int, height as int),
{
    let s = row_stride_of(width);
    proof {
        if width <= 0x7fff_ffff && height <= 0x7fff_ffff {
            vstd::arithmetic::mul::lemma_mul_upper_bound(
                s as int,
                0x2_0000_0000,
                height as int,
                0x7fff_ffff,
            );
        }
    }
    s * (height as u64)
}

/// Zero bytes after each row of a `width` pixels wide image.
pub fn row_padding_of(width: i32) -> (r: i32)
    ensures
        r == row_padding(width as int),
{
    let r = ((width as u32) & 3) as i32;
    proof {
        let q = width / 4;
        let m = width % 4;
        assert(3 * width == 4 * (3 * q) + 3 * m);
        assert((3 * width) % 4 == (3 * m) % 4);
        assert(((width as u32) & 3) as int == width % 4) by (bit_vector);
    }
    r
}

impl BmpId {
    /// The identifier of a bitmap: `'B'`, `'M'`.
    pub fn new() -> (r: BmpId)
        ensures
            is_bmp_id(r),
    {
        BmpId { magic1: 0x42, magic2: 0x4D }
    }
}

impl BmpHeader {
    /// The file header of a `width` by `height` image whose rows follow the headers directly.
    pub fn new(width: u32, height: u32) -> (r: BmpHeader)
        requires
            file_size_for(width as int, height as int) <= U32_MAX,
        ensures
            r == file_header_for(width as int, height as int),
    {
        let size = pixel_data_size_of(width, height);
        BmpHeader {
            file_size: (HEADERS_SIZE as u64 + size) as u32,
            creator1: 0,
            creator2: 0,
            pixel_offset: HEADERS_SIZE,
        }
    }
}

impl BmpDibHeader {
    /// The info header of an uncompressed 24-bit `width` by `height` image.
    pub fn new(width: i32, height: i32) -> (r: BmpDibHeader)
        requires
            width >= 0,
            height >= 0,
            pixel_data_size(width as int, height as int) <= U32_MAX,
        ensures
            r == info_header_for(width, height),
            data_size_matches(r),
    {
        let size = pixel_data_size_of(width as u32, height as u32);
        BmpDibHeader {
            header_size: INFO_HEADER_SIZE as u32,
            width,
            height,
            num_planes: 1,
            bits_per_pixel: 24,
            compress_type: 0,
            data_size: size as u32,
            hres: 0x100,
            vres: 0x100,
            num_colors: 0,
            num_imp_colors: 0,
        }
    }
}

} // verus!
