//! A codec for uncompressed 24-bit Windows Bitmap (BMP) images.
//!
//! Decoding turns a BMP byte stream into an [`Image`]; encoding turns an
//! image back into a byte stream with the fixed 54-byte header followed by
//! padded rows of blue-green-red triplets.
pub mod bytes;
pub mod header;
pub mod image;
pub mod pixel;

pub use image::{BmpError, Image};
pub use pixel::Pixel;
