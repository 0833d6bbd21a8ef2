//! The image: a grid of pixels with its headers, and its encoding to and from bytes.
use vstd::prelude::*;

use crate::bytes::{read_le_i32, read_le_u16, read_le_u32, write_le_i32, write_le_u16, write_le_u32};
use crate::header::{
    data_size_matches, file_header_bytes, file_header_for, file_size_for, id_bytes, info_header_bytes,
    info_header_for, is_bmp_id, lemma_file_header_round_trip, lemma_info_header_round_trip,
    lemma_row_stride, parse_file_header, parse_info_header,
    pixel_data_size, pixel_data_size_of, row_padding, row_padding_of, row_stride, row_stride_of,
    BmpDibHeader, BmpHeader, BmpId, HEADERS_SIZE, U32_MAX,
};
use crate::pixel::{channel, Pixel};

verus! {

/// Why an operation on an image failed.
#[derive(Clone, Copy, Debug, PartialEq, Eq, Structural)]
pub enum BmpError {
    /// The coordinates lie outside the image.
    IndexOutOfBounds { x: usize, y: usize },
    /// The stream does not start with `'B'`, `'M'`.
    NotABitmap,
    /// The stream ends inside the headers.
    TruncatedHeader,
    /// The stream ends inside the pixel rows.
    TruncatedData,
}

/// What an image holds: its two headers and, when they could be decoded, its pixels
/// row by row from the top, `width * height` of them.
pub struct ImageView {
    pub file_header: BmpHeader,
    pub info_header: BmpDibHeader,
    pub pixels: Option<Seq<Pixel>>,
}

/// The pixels, if any, agree with the geometry in the info header.
pub open spec fn view_wf(v: ImageView) -> bool {
    match v.pixels {
        Some(p) => {
            &&& data_size_matches(v.info_header)
            &&& p.len() == v.info_header.width * v.info_header.height
        },
        None => true,
    }
}

/// The width of an image, from its info header.
pub open spec fn view_width(v: ImageView) -> int {
    v.info_header.width as int
}

/// The height of an image, from its info header.
pub open spec fn view_height(v: ImageView) -> int {
    v.info_header.height as int
}

/// Byte `i` of the stored rows of an image `width` pixels wide: the rows follow one
/// another from the top, each its pixels as blue, green, red, then zero padding.
pub open spec fn encoded_byte(p: Seq<Pixel>, width: int, i: int) -> u8 {
    let s = row_stride(width);
    let c = i % s;
    if c < 3 * width {
        channel(p[(i / s) * width + c / 3], c % 3)
    } else {
        0
    }
}

/// The stored rows of a `width` by `height` grid of pixels.
pub open spec fn rows_bytes(p: Seq<Pixel>, width: int, height: int) -> Seq<u8> {
    Seq::new(pixel_data_size(width, height) as nat, |i: int| encoded_byte(p, width, i))
}

/// The identifier and the two headers, as they start a file.
pub open spec fn headers_bytes(fh: BmpHeader, ih: BmpDibHeader) -> Seq<u8> {
    id_bytes(BmpId { magic1: 0x42, magic2: 0x4D }) + file_header_bytes(fh) + info_header_bytes(ih)
}

/// The file that holds an image: its headers, then its rows.
#[verifier::opaque]
pub open spec fn encoded(v: ImageView) -> Seq<u8> {
    headers_bytes(v.file_header, v.info_header) + match v.pixels {
        Some(p) => rows_bytes(p, view_width(v), view_height(v)),
        None => Seq::empty(),
    }
}

/// Where the pixel at row-major index `i` starts, in a file whose rows of `width`
/// pixels start at `offset`.
pub open spec fn pixel_pos(offset: int, width: int, i: int) -> int {
    offset + (i / width) * row_stride(width) + 3 * (i % width)
}

/// The pixel at row-major index `i`, read from its blue, green and red bytes.
pub open spec fn stored_pixel(b: Seq<u8>, offset: int, width: int, i: int) -> Pixel {
    let q = pixel_pos(offset, width, i);
    Pixel { r: b[q + 2], g: b[q + 1], b: b[q] }
}

/// Every pixel of a `width` by `height` image whose rows start at `offset` lies
/// within the first `len` bytes (the padding of the last row may be missing).
pub open spec fn rows_fit(len: int, offset: int, width: int, height: int) -> bool {
    width == 0 || height == 0 || offset + (height - 1) * row_stride(width) + 3 * width <= len
}

/// The pixels of a `width` by `height` image whose rows start at `offset`, row by row.
pub open spec fn stored_pixels(b: Seq<u8>, offset: int, width: int, height: int) -> Seq<Pixel> {
    Seq::new((width * height) as nat, |i: int| stored_pixel(b, offset, width, i))
}

/// The stream starts with `'B'`, `'M'`.
pub open spec fn starts_with_bmp_id(b: Seq<u8>) -> bool {
    b.len() >= 2 && b[0] == 0x42 && b[1] == 0x4D
}

/// What decoding the bytes `b` gives. The identifier comes first, then the file header
/// and the info header. Pixels are read only when the stored data size is the one
/// that the width and height call for; otherwise the image keeps its headers alone.
#[verifier::opaque]
pub open spec fn decoded(b: Seq<u8>) -> Result<ImageView, BmpError> {
    if !starts_with_bmp_id(b) {
        Err(BmpError::NotABitmap)
    } else if b.len() < HEADERS_SIZE {
        Err(BmpError::TruncatedHeader)
    } else {
        let fh = parse_file_header(b, 2);
        let ih = parse_info_header(b, 14);
        if !data_size_matches(ih) {
            Ok(ImageView { file_header: fh, info_header: ih, pixels: None })
        } else if !rows_fit(b.len() as int, fh.pixel_offset as int, ih.width as int, ih.height as int) {
            Err(BmpError::TruncatedData)
        } else {
            Ok(
                ImageView {
                    file_header: fh,
                    info_header: ih,
                    pixels: Some(
                        stored_pixels(b, fh.pixel_offset as int, ih.width as int, ih.height as int),
                    ),
                },
            )
        }
    }
}

/// Byte `c` of row `y` is at `y * s + c` when rows take `s` bytes.
proof fn lemma_row_byte(s: int, y: int, c: int)
    requires
        0 <= c < s,
        0 <= y,
    ensures
        (y * s + c) / s == y,
        (y * s + c) % s == c,
{
    vstd::arithmetic::div_mod::lemma_fundamental_div_mod_converse(y * s + c, s, y, c);
}

/// An uncompressed 24-bit image.
#[derive(Debug)]
pub struct Image {
    magic: BmpId,
    header: BmpHeader,
    dib_header: BmpDibHeader,
    width: i32,
    height: i32,
    padding: i32,
    data: Option<Vec<Pixel>>,
}

impl View for Image {
    type V = ImageView;

    closed spec fn view(&self) -> ImageView {
        ImageView {
            file_header: self.header,
            info_header: self.dib_header,
            pixels: match self.data {
                Some(d) => Some(d@),
                None => None,
            },
        }
    }
}

/// Column `x` of row `y` lies at `y * w + x` in a row-major grid of `w * h` cells.
proof fn lemma_grid_index(x: int, y: int, w: int, h: int)
    requires
        0 <= x < w,
        0 <= y < h,
    ensures
        0 <= y * w + x < w * h,
        (y * w + x) / w == y,
        (y * w + x) % w == x,
    decreases h,
{
    vstd::arithmetic::mul::lemma_mul_inequality(y + 1, h, w);
    vstd::arithmetic::mul::lemma_mul_is_distributive_add_other_way(w, y, 1);
    vstd::arithmetic::div_mod::lemma_fundamental_div_mod_converse(y * w + x, w, y, x);
    assert(w * h == h * w) by (nonlinear_arith);
    assert(0 <= y * w) by (nonlinear_arith)
        requires
            0 <= y,
            0 <= w,
    ;
}

impl Image {
    /// The fields that repeat the headers agree with them.
    pub closed spec fn wf(&self) -> bool {
        &&& is_bmp_id(self.magic)
        &&& self.width == self.dib_header.width
        &&& self.height == self.dib_header.height
        &&& self.padding == row_padding(self.width as int)
        &&& view_wf(self@)
    }

    /// A black `width` by `height` image.
    pub fn new(width: i32, height: i32) -> (r: Image)
        requires
            width > 0,
            height > 0,
            file_size_for(width as int, height as int) <= U32_MAX,
        ensures
            r.wf(),
            r@.file_header == file_header_for(width as int, height as int),
            r@.info_header == info_header_for(width, height),
            r@.pixels == Some(Seq::new((width * height) as nat, |i: int| Pixel { r: 0, g: 0, b: 0 })),
    {
        let dib_header = BmpDibHeader::new(width, height);
        proof {
            crate::header::lemma_row_stride(width as int);
            vstd::arithmetic::mul::lemma_mul_inequality(
                width as int,
                crate::header::row_stride(width as int),
                height as int,
            );
        }
        let n = width as usize * height as usize;
        let mut data: Vec<Pixel> = Vec::with_capacity(n);
        let mut i: usize = 0;
        while i < n
            invariant
                i <= n,
                data@ =~= Seq::new(i as nat, |k: int| Pixel { r: 0, g: 0, b: 0 }),
            decreases n - i,
        {
            data.push(Pixel { r: 0, g: 0, b: 0 });
            i = i + 1;
        }
        Image {
            magic: BmpId::new(),
            header: BmpHeader::new(width as u32, height as u32),
            dib_header,
            width,
            height,
            padding: crate::header::row_padding_of(width),
            data: Some(data),
        }
    }

    /// The pixel in column `x` of row `y`, counting rows from the top.
    pub fn get_pixel(&self, x: usize, y: usize) -> (r: Result<Pixel, BmpError>)
        requires
            self.wf(),
            self@.pixels is Some,
        ensures
            x < view_width(self@) && y < view_height(self@) ==> r == Ok::<Pixel, BmpError>(
                self@.pixels->Some_0[y * view_width(self@) + x],
            ),
            !(x < view_width(self@) && y < view_height(self@)) ==> r == Err::<Pixel, BmpError>(
                BmpError::IndexOutOfBounds { x, y },
            ),
    {
        let w = self.width as usize;
        if x < w && y < self.height as usize {
            match &self.data {
                Some(data) => {
                    let n = data.len();
                    proof {
                        lemma_grid_index(x as int, y as int, w as int, self.height as int);
                    }
                    Ok(data[y * w + x])
                },
                None => Err(BmpError::IndexOutOfBounds { x, y }),
            }
        } else {
            Err(BmpError::IndexOutOfBounds { x, y })
        }
    }

    /// Replaces the pixel in column `x` of row `y`; outside the image nothing changes.
    pub fn set_pixel(&mut self, x: usize, y: usize, val: Pixel) -> (r: Result<(), BmpError>)
        requires
            old(self).wf(),
            old(self)@.pixels is Some,
        ensures
            final(self).wf(),
            final(self)@.pixels is Some,
            final(self)@.pixels->Some_0.len() == old(self)@.pixels->Some_0.len(),
            x < view_width(old(self)@) && y < view_height(old(self)@) ==> {
                &&& y * view_width(old(self)@) + x < old(self)@.pixels->Some_0.len()
                &&& r == Ok::<(), BmpError>(())
                &&& final(self)@.file_header == old(self)@.file_header
                &&& final(self)@.info_header == old(self)@.info_header
                &&& final(self)@.pixels == Some(
                    old(self)@.pixels->Some_0.update(y * view_width(old(self)@) + x, val),
                )
            },
            !(x < view_width(old(self)@) && y < view_height(old(self)@)) ==> {
                &&& r == Err::<(), BmpError>(BmpError::IndexOutOfBounds { x, y })
                &&& *final(self) == *old(self)
            },
    {
        let w = self.width as usize;
        if x < w && y < self.height as usize {
            match &mut self.data {
                Some(data) => {
                    let n = data.len();
                    proof {
                        lemma_grid_index(x as int, y as int, w as int, self.height as int);
                    }
                    data.set(y * w + x, val);
                    Ok(())
                },
                None => Ok(()),
            }
        } else {
            Err(BmpError::IndexOutOfBounds { x, y })
        }
    }

    /// The file header.
    pub fn file_header(&self) -> (r: BmpHeader)
        ensures
            r == self@.file_header,
    {
        self.header
    }

    /// The info header.
    pub fn info_header(&self) -> (r: BmpDibHeader)
        ensures
            r == self@.info_header,
    {
        self.dib_header
    }

    /// The width in pixels.
    pub fn width(&self) -> (r: i32)
        requires
            self.wf(),
        ensures
            r == view_width(self@),
    {
        self.width
    }

    /// The height in pixels.
    pub fn height(&self) -> (r: i32)
        requires
            self.wf(),
        ensures
            r == view_height(self@),
    {
        self.height
    }

    /// Zero bytes stored after each row.
    pub fn padding(&self) -> (r: i32)
        requires
            self.wf(),
        ensures
            r == row_padding(view_width(self@)),
    {
        self.padding
    }

    /// Whether the image holds its pixels (an image decoded from a file whose data size
    /// does not fit its geometry holds only its headers).
    pub fn has_pixels(&self) -> (r: bool)
        ensures
            r == self@.pixels is Some,
    {
        self.data.is_some()
    }

    /// How many pixels the image holds.
    pub fn pixel_count(&self) -> (r: usize)
        ensures
            r == match self@.pixels {
                Some(p) => p.len(),
                None => 0,
            },
    {
        match &self.data {
            Some(data) => data.len(),
            None => 0,
        }
    }

    /// Appends the identifier and the two headers, 54 bytes in all.
    pub fn write_header(&self, out: &mut Vec<u8>)
        ensures
            final(out)@ == old(out)@ + headers_bytes(self@.file_header, self@.info_header),
    {
        let ghost start = out@;
        out.push(0x42);
        out.push(0x4D);
        let header = self.header;
        write_le_u32(out, header.file_size);
        write_le_u16(out, header.creator1);
        write_le_u16(out, header.creator2);
        write_le_u32(out, header.pixel_offset);
        let dib_header = self.dib_header;
        write_le_u32(out, dib_header.header_size);
        write_le_i32(out, dib_header.width);
        write_le_i32(out, dib_header.height);
        write_le_u16(out, dib_header.num_planes);
        write_le_u16(out, dib_header.bits_per_pixel);
        write_le_u32(out, dib_header.compress_type);
        write_le_u32(out, dib_header.data_size);
        write_le_i32(out, dib_header.hres);
        write_le_i32(out, dib_header.vres);
        write_le_u32(out, dib_header.num_colors);
        write_le_u32(out, dib_header.num_imp_colors);
        assert(out@ =~= start + headers_bytes(self@.file_header, self@.info_header));
    }

    /// The file that holds this image: headers, then each row from the top as blue,
    /// green, red triplets followed by zero padding to a multiple of four bytes.
    pub fn to_bytes(&self) -> (r: Vec<u8>)
        requires
            self.wf(),
            self@.pixels is Some,
        ensures
            r@ == encoded(self@),
    {
        let mut out: Vec<u8> = Vec::new();
        self.write_header(&mut out);
        let ghost hdr = out@;
        let w = self.width as usize;
        let h = self.height as usize;
        let pad = self.padding as usize;
        let ghost s = row_stride(w as int);
        proof {
            lemma_row_stride(w as int);
        }
        match &self.data {
            Some(data) => {
                let ghost p = data@;
                let n = data.len();
                let mut y: usize = 0;
                while y < h
                    invariant
                        y <= h,
                        p == data@,
                        n == p.len(),
                        p.len() == w * h,
                        s == 3 * w + pad,
                        s == row_stride(w as int),
                        pad < 4,
                        out@ == hdr + Seq::new((y * s) as nat, |i: int| encoded_byte(p, w as int, i)),
                    decreases h - y,
                {
                    let mut x: usize = 0;
                    while x < w
                        invariant
                            y < h,
                            x <= w,
                            p == data@,
                            n == p.len(),
                            p.len() == w * h,
                            s == 3 * w + pad,
                            s == row_stride(w as int),
                            out@ == hdr + Seq::new(
                                (y * s + 3 * x) as nat,
                                |i: int| encoded_byte(p, w as int, i),
                            ),
                        decreases w - x,
                    {
                        proof {
                            lemma_grid_index(x as int, y as int, w as int, h as int);
                        }
                        let px = data[y * w + x];
                        let ghost before = out@;
                        out.push(px.b);
                        out.push(px.g);
                        out.push(px.r);
                        proof {
                            let base = y * s + 3 * x;
                            assert(encoded_byte(p, w as int, base) == px.b) by {
                                lemma_row_byte(s, y as int, 3 * x);
                                lemma_row_byte(3, x as int, 0);
                            }
                            assert(encoded_byte(p, w as int, base + 1) == px.g) by {
                                lemma_row_byte(s, y as int, 3 * x + 1);
                                lemma_row_byte(3, x as int, 1);
                            }
                            assert(encoded_byte(p, w as int, base + 2) == px.r) by {
                                lemma_row_byte(s, y as int, 3 * x + 2);
                                lemma_row_byte(3, x as int, 2);
                            }
                            assert(out@ =~= hdr + Seq::new(
                                (y * s + 3 * (x + 1)) as nat,
                                |i: int| encoded_byte(p, w as int, i),
                            ));
                        }
                        x = x + 1;
                    }
                    let mut j: usize = 0;
                    while j < pad
                        invariant
                            y < h,
                            j <= pad,
                            s == 3 * w + pad,
                            s == row_stride(w as int),
                            out@ == hdr + Seq::new(
                                (y * s + 3 * w + j) as nat,
                                |i: int| encoded_byte(p, w as int, i),
                            ),
                        decreases pad - j,
                    {
                        out.push(0);
                        proof {
                            lemma_row_byte(s, y as int, 3 * w + j);
                            assert(out@ =~= hdr + Seq::new(
                                (y * s + 3 * w + j + 1) as nat,
                                |i: int| encoded_byte(p, w as int, i),
                            ));
                        }
                        j = j + 1;
                    }
                    proof {
                        assert((y + 1) * s == y * s + s) by (nonlinear_arith);
                    }
                    y = y + 1;
                }
                proof {
                    reveal(encoded);
                    assert(h * s == s * h) by (nonlinear_arith);
                    assert(out@ =~= encoded(self@));
                }
            },
            None => {},
        }
        out
    }

    /// The two identifier bytes at the start of `b`, if there are two.
    pub fn read_bmp_id(b: &[u8]) -> (r: Option<BmpId>)
        ensures
            b@.len() < 2 ==> r is None,
            b@.len() >= 2 ==> r == Some(BmpId { magic1: b@[0], magic2: b@[1] }),
    {
        if b.len() < 2 {
            None
        } else {
            Some(BmpId { magic1: b[0], magic2: b[1] })
        }
    }

    /// The file header that follows the identifier, if `b` holds all of it.
    pub fn read_bmp_header(b: &[u8]) -> (r: Option<BmpHeader>)
        ensures
            b@.len() < 14 ==> r is None,
            b@.len() >= 14 ==> r == Some(parse_file_header(b@, 2)),
    {
        if b.len() < 14 {
            None
        } else {
            Some(
                BmpHeader {
                    file_size: read_le_u32(b, 2),
                    creator1: read_le_u16(b, 6),
                    creator2: read_le_u16(b, 8),
                    pixel_offset: read_le_u32(b, 10),
                },
            )
        }
    }

    /// The info header that follows the file header, if `b` holds all of it.
    pub fn read_bmp_dib_header(b: &[u8]) -> (r: Option<BmpDibHeader>)
        ensures
            b@.len() < HEADERS_SIZE ==> r is None,
            b@.len() >= HEADERS_SIZE ==> r == Some(parse_info_header(b@, 14)),
    {
        if b.len() < HEADERS_SIZE as usize {
            None
        } else {
            Some(
                BmpDibHeader {
                    header_size: read_le_u32(b, 14),
                    width: read_le_i32(b, 18),
                    height: read_le_i32(b, 22),
                    num_planes: read_le_u16(b, 26),
                    bits_per_pixel: read_le_u16(b, 28),
                    compress_type: read_le_u32(b, 30),
                    data_size: read_le_u32(b, 34),
                    hres: read_le_i32(b, 38),
                    vres: read_le_i32(b, 42),
                    num_colors: read_le_u32(b, 46),
                    num_imp_colors: read_le_u32(b, 50),
                },
            )
        }
    }

    /// The pixel stored as blue, green, red at `pos`.
    pub fn read_pixel(b: &[u8], pos: usize) -> (r: Pixel)
        requires
            pos + 3 <= b@.len(),
        ensures
            r == (Pixel { r: b@[pos + 2], g: b@[pos + 1], b: b@[pos as int] }),
    {
        let blue = b[pos];
        let green = b[pos + 1];
        let red = b[pos + 2];
        Pixel { r: red, g: green, b: blue }
    }

    /// The pixel rows described by `dh` that start at `offset`: none when the stored data
    /// size is not the one the geometry calls for, an error when `b` ends too soon.
    pub fn read_image_data(b: &[u8], dh: BmpDibHeader, offset: u32) -> (r: Result<
        Option<Vec<Pixel>>,
        BmpError,
    >)
        ensures
            !data_size_matches(dh) ==> r matches Ok(None),
            data_size_matches(dh) && !rows_fit(
                b@.len() as int,
                offset as int,
                dh.width as int,
                dh.height as int,
            ) ==> r matches Err(BmpError::TruncatedData),
            data_size_matches(dh) && rows_fit(
                b@.len() as int,
                offset as int,
                dh.width as int,
                dh.height as int,
            ) ==> (r matches Ok(Some(v)) && v@ == stored_pixels(
                b@,
                offset as int,
                dh.width as int,
                dh.height as int,
            )),
    {
        if dh.width < 0 || dh.height < 0 {
            return Ok(None);
        }
        let size = pixel_data_size_of(dh.width as u32, dh.height as u32);
        if size != dh.data_size as u64 {
            return Ok(None);
        }
        let w = dh.width as usize;
        let h = dh.height as usize;
        if w == 0 || h == 0 {
            proof {
                assert(w * h == 0) by (nonlinear_arith)
                    requires
                        w == 0 || h == 0,
                ;
            }
            let empty: Vec<Pixel> = Vec::new();
            assert(empty@ =~= stored_pixels(b@, offset as int, w as int, h as int));
            return Ok(Some(empty));
        }
        let stride = row_stride_of(dh.width as u32);
        let ghost s = stride as int;
        proof {
            lemma_row_stride(w as int);
            vstd::arithmetic::mul::lemma_mul_inequality(1, h as int, s);
            vstd::arithmetic::mul::lemma_mul_inequality(h - 1, h as int, s);
            assert(s * h == h * s) by (nonlinear_arith);
        }
        let last = offset as u64 + (h as u64 - 1) * stride + 3 * (w as u64);
        if last > b.len() as u64 {
            return Err(BmpError::TruncatedData);
        }
        let stride = stride as usize;
        let off = offset as usize;
        let n = b.len();
        let mut data: Vec<Pixel> = Vec::new();
        let mut y: usize = 0;
        while y < h
            invariant
                y <= h,
                0 < w,
                n == b@.len(),
                w == dh.width,
                h == dh.height,
                off == offset,
                s == stride,
                s == row_stride(w as int),
                3 * w <= s,
                (h - 1) * s <= s * h,
                off + (h - 1) * s + 3 * w <= b@.len(),
                data@ =~= Seq::new((y * w) as nat, |i: int| stored_pixel(b@, off as int, w as int, i)),
            decreases h - y,
        {
            proof {
                vstd::arithmetic::mul::lemma_mul_inequality(y as int, h - 1, s);
            }
            let row = off + y * stride;
            let mut x: usize = 0;
            while x < w
                invariant
                    y < h,
                    x <= w,
                    n == b@.len(),
                    s == row_stride(w as int),
                    3 * w <= s,
                    row == off + y * s,
                    row + 3 * w <= b@.len(),
                    data@ =~= Seq::new(
                        (y * w + x) as nat,
                        |i: int| stored_pixel(b@, off as int, w as int, i),
                    ),
                decreases w - x,
            {
                let px = Image::read_pixel(b, row + 3 * x);
                proof {
                    lemma_grid_index(x as int, y as int, w as int, h as int);
                    assert(pixel_pos(off as int, w as int, y * w + x) == row + 3 * x);
                }
                data.push(px);
                x = x + 1;
            }
            proof {
                assert((y + 1) * w == y * w + w) by (nonlinear_arith);
            }
            y = y + 1;
        }
        proof {
            assert(h * w == w * h) by (nonlinear_arith);
        }
        Ok(Some(data))
    }

    /// Decodes a BMP byte stream: identifier, file header, info header, then the pixel
    /// rows from the offset that the file header gives.
    pub fn from_bytes(b: &[u8]) -> (r: Result<Image, BmpError>)
        ensures
            match r {
                Ok(img) => img.wf() && decoded(b@) == Ok::<ImageView, BmpError>(img@),
                Err(e) => decoded(b@) == Err::<ImageView, BmpError>(e),
            },
    {
        reveal(decoded);
        let id = match Image::read_bmp_id(b) {
            Some(id) => id,
            None => return Err(BmpError::NotABitmap),
        };
        if id.magic1 != 0x42 || id.magic2 != 0x4D {
            return Err(BmpError::NotABitmap);
        }
        let header = match Image::read_bmp_header(b) {
            Some(header) => header,
            None => return Err(BmpError::TruncatedHeader),
        };
        let dib_header = match Image::read_bmp_dib_header(b) {
            Some(dib_header) => dib_header,
            None => return Err(BmpError::TruncatedHeader),
        };
        let data = match Image::read_image_data(b, dib_header, header.pixel_offset) {
            Ok(data) => data,
            Err(e) => return Err(e),
        };
        Ok(
            Image {
                magic: id,
                header,
                dib_header,
                width: dib_header.width,
                height: dib_header.height,
                padding: row_padding_of(dib_header.width),
                data,
            },
        )
    }
}

/// Pixel `i` of a grid read back from its stored rows is pixel `i` of the grid.
proof fn lemma_stored_pixel_of_rows(hdr: Seq<u8>, p: Seq<Pixel>, w: int, h: int, i: int)
    requires
        w > 0,
        h > 0,
        p.len() == w * h,
        0 <= i < w * h,
    ensures
        stored_pixel(hdr + rows_bytes(p, w, h), hdr.len() as int, w, i) == p[i],
{
    let s = row_stride(w);
    let b = hdr + rows_bytes(p, w, h);
    let y = i / w;
    let x = i % w;
    lemma_row_stride(w);
    vstd::arithmetic::div_mod::lemma_fundamental_div_mod(i, w);
    assert(y < h) by {
        if y >= h {
            vstd::arithmetic::mul::lemma_mul_inequality(h, y, w);
            assert(w * y == y * w) by (nonlinear_arith);
            assert(h * w == w * h) by (nonlinear_arith);
        }
    }
    assert(0 <= y) by {
        vstd::arithmetic::div_mod::lemma_div_pos_is_pos(i, w);
    }
    vstd::arithmetic::mul::lemma_mul_inequality(y + 1, h, s);
    assert((y + 1) * s == y * s + s) by (nonlinear_arith);
    assert(0 <= y * s) by (nonlinear_arith)
        requires
            0 <= y,
            0 <= s,
    ;
    assert(s * h == h * s) by (nonlinear_arith);
    assert(i == y * w + x) by (nonlinear_arith)
        requires
            i == w * y + x,
    ;
    let q = hdr.len() + y * s + 3 * x;
    assert(pixel_pos(hdr.len() as int, w, i) == q);
    assert forall|k: int| 0 <= k < 3 implies b[q + k] == channel(p[i], k) by {
        lemma_row_byte(s, y, 3 * x + k);
        lemma_row_byte(3, x, k);
        assert(b[q + k] == rows_bytes(p, w, h)[y * s + 3 * x + k]);
    }
    assert(b[q + 0] == channel(p[i], 0));
    assert(b[q + 1] == channel(p[i], 1));
    assert(b[q + 2] == channel(p[i], 2));
}

/// What a well-formed image holds agrees with its info header.
pub proof fn lemma_view_wf(img: &Image)
    requires
        img.wf(),
    ensures
        view_wf(img@),
{
}

/// The headers at the start of an encoded image read back as its headers.
#[verifier::spinoff_prover]
#[verifier::rlimit(40)]
proof fn lemma_encoded_headers(v: ImageView)
    requires
        v.pixels is Some,
    ensures
        encoded(v) == headers_bytes(v.file_header, v.info_header) + rows_bytes(
            v.pixels->Some_0,
            view_width(v),
            view_height(v),
        ),
        headers_bytes(v.file_header, v.info_header).len() == HEADERS_SIZE,
        starts_with_bmp_id(encoded(v)),
        parse_file_header(encoded(v), 2) == v.file_header,
        parse_info_header(encoded(v), 14) == v.info_header,
{
    reveal(encoded);
    let fh = v.file_header;
    let ih = v.info_header;
    let id = id_bytes(BmpId { magic1: 0x42, magic2: 0x4D });
    let rows = rows_bytes(v.pixels->Some_0, view_width(v), view_height(v));
    let b = encoded(v);
    assert(b =~= id + file_header_bytes(fh) + (info_header_bytes(ih) + rows));
    lemma_file_header_round_trip(fh, id, info_header_bytes(ih) + rows);
    assert(b =~= (id + file_header_bytes(fh)) + info_header_bytes(ih) + rows);
    lemma_info_header_round_trip(ih, id + file_header_bytes(fh), rows);
    assert(b[0] == 0x42 && b[1] == 0x4D);
}

/// The pixels stored after any headers read back as the grid they were written from.
proof fn lemma_encoded_rows(hdr: Seq<u8>, p: Seq<Pixel>, w: int, h: int)
    requires
        w >= 0,
        h >= 0,
        p.len() == w * h,
    ensures
        rows_fit((hdr + rows_bytes(p, w, h)).len() as int, hdr.len() as int, w, h),
        stored_pixels(hdr + rows_bytes(p, w, h), hdr.len() as int, w, h) == p,
{
    let b = hdr + rows_bytes(p, w, h);
    lemma_row_stride(w);
    let s = row_stride(w);
    if w > 0 && h > 0 {
        vstd::arithmetic::mul::lemma_mul_inequality(h - 1, h, s);
        assert((h - 1) * s + s == s * h) by (nonlinear_arith);
        assert forall|i: int| 0 <= i < w * h implies #[trigger] stored_pixel(b, hdr.len() as int, w, i)
            == p[i] by {
            lemma_stored_pixel_of_rows(hdr, p, w, h, i);
        }
    } else {
        assert(w * h == 0) by (nonlinear_arith)
            requires
                w == 0 || h == 0,
        ;
    }
    assert(stored_pixels(b, hdr.len() as int, w, h) =~= p);
}

/// Decoding the bytes of an image whose rows follow its headers gives the image back:
/// the same headers and the same pixel at every coordinate.
pub proof fn lemma_round_trip(v: ImageView)
    requires
        view_wf(v),
        v.pixels is Some,
        v.file_header.pixel_offset == HEADERS_SIZE,
    ensures
        decoded(encoded(v)) == Ok::<ImageView, BmpError>(v),
{
    reveal(decoded);
    let p = v.pixels->Some_0;
    let hdr = headers_bytes(v.file_header, v.info_header);
    lemma_encoded_headers(v);
    lemma_encoded_rows(hdr, p, view_width(v), view_height(v));
}

/// A stream whose first two bytes are not `'B'`, `'M'` is not a bitmap, whatever follows.
pub proof fn lemma_not_a_bitmap(id: Seq<u8>, rest: Seq<u8>)
    requires
        id.len() == 2,
        !(id[0] == 0x42 && id[1] == 0x4D),
    ensures
        decoded(id + rest) == Err::<ImageView, BmpError>(BmpError::NotABitmap),
{
    reveal(decoded);
    assert((id + rest)[0] == id[0] && (id + rest)[1] == id[1]);
}

/// A file whose stored data size is not the one its width and height call for decodes
/// to an image that keeps its headers and holds no pixels.
pub proof fn lemma_size_mismatch_keeps_headers(b: Seq<u8>)
    requires
        starts_with_bmp_id(b),
        b.len() >= HEADERS_SIZE,
        !data_size_matches(parse_info_header(b, 14)),
    ensures
        decoded(b) == Ok::<ImageView, BmpError>(
            ImageView {
                file_header: parse_file_header(b, 2),
                info_header: parse_info_header(b, 14),
                pixels: None,
            },
        ),
{
    reveal(decoded);
}

} // verus!
