//! Encoding and decoding of PNG, QOI and baseline JPEG images.
//!
//! The byte-level codecs (chunk layout, checksums, filters, entropy coding,
//! header parsing and the QOI operation stream) are verified against
//! specifications written over `Seq<u8>`.
#![allow(unused_imports)]

pub mod error;
pub mod color_type;
pub mod sealed;
pub mod samples;
pub mod png_filter;
pub mod png_deflate;
pub mod png_write_filter;
pub mod png_write;
pub mod png_read;
pub mod png_read_filter;
pub mod png_filter_laws;
pub mod crc;
pub mod bytes;
pub mod png_laws;
pub mod qoi;
pub mod qoi_tags;
pub mod qoi_write;
pub mod qoi_read;
pub mod qoi_laws;
pub mod jpeg_read;
pub mod jpeg_entropy;
pub mod jpeg_planes;
pub mod jpeg_write;
pub mod load;
pub mod image;
pub mod fixed_deflate;
pub mod jpeg_laws;
pub mod jpeg_entropy_laws;
