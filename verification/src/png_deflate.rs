use vstd::prelude::*;
use std::io::Write;
use crate::color_type::{BitDepth, ColorType};
use crate::error::{PictorError, PictorResult};
use crate::png_write_filter::FilteredPng;

verus! {

/// The zlib stream (RFC 1950) that `flate2`'s `ZlibEncoder` produces for
/// `data` at compression level `level`.
pub uninterp spec fn spec_zlib_stream(level: u32, data: Seq<u8>) -> Seq<u8>;

/// Calls `flate2::write::ZlibEncoder::new`, `write_all` and `finish` over a
/// `Vec<u8>`. Claimed: the call succeeds, and the bytes written are the zlib
/// stream of `data` at `level`, a function of these two arguments alone.
/// Success: writing into a `Vec` cannot fail, and the deflate backend
/// reports an error only when a stream is used after an earlier error or
/// fed after it was finished, which one `write_all` and one `finish` on a
/// fresh encoder never do. Levels above 9 are left out: the backend
/// asserts, in debug builds, that the level is at most 10.
#[verifier::external_body]
fn zlib_encode(level: u32, data: &[u8]) -> (r: Result<Vec<u8>, std::io::Error>)
    requires
        level <= 9,
    ensures
        r is Ok,
        r matches Ok(v) ==> v@ == spec_zlib_stream(level, data@),
{
    let mut encoder = flate2::write::ZlibEncoder::new(Vec::new(), flate2::Compression::new(level));
    encoder.write_all(data)?;
    encoder.finish()
}

/// Compression levels of the PNG encoder.
#[derive(Clone, Copy, Debug, PartialEq, Eq, Structural)]
pub enum CompressionLevel {
    Default,
    Level1,
    Level2,
    Level3,
    Level4,
    Level5,
    Level6,
    Level7,
    Level8,
}

impl CompressionLevel {
    pub open spec fn spec_id(self) -> u8 {
        match self {
            CompressionLevel::Default => 5,
            CompressionLevel::Level1 => 1,
            CompressionLevel::Level2 => 2,
            CompressionLevel::Level3 => 3,
            CompressionLevel::Level4 => 4,
            CompressionLevel::Level5 => 5,
            CompressionLevel::Level6 => 6,
            CompressionLevel::Level7 => 7,
            CompressionLevel::Level8 => 8,
        }
    }

    /// The zlib compression level (1..=8; `Default` is 5).
    pub fn id(&self) -> (r: u8)
        ensures
            r == self.spec_id(),
            1 <= r <= 8,
    {
        match self {
            CompressionLevel::Default => 5,
            CompressionLevel::Level1 => 1,
            CompressionLevel::Level2 => 2,
            CompressionLevel::Level3 => 3,
            CompressionLevel::Level4 => 4,
            CompressionLevel::Level5 => 5,
            CompressionLevel::Level6 => 6,
            CompressionLevel::Level7 => 7,
            CompressionLevel::Level8 => 8,
        }
    }
}

/// A filtered PNG payload after zlib compression.
pub struct DeflatedPng {
    pub width: u32,
    pub height: u32,
    pub color_type: ColorType,
    pub bit_depth: BitDepth,
    pub data: Vec<u8>,
}

impl DeflatedPng {
    pub fn new(filtered: &FilteredPng, data: Vec<u8>) -> (r: DeflatedPng)
        ensures
            r.width == filtered.width,
            r.height == filtered.height,
            r.color_type == filtered.color_type,
            r.bit_depth == filtered.bit_depth,
            r.data@ == data@,
    {
        DeflatedPng {
            width: filtered.width,
            height: filtered.height,
            color_type: filtered.color_type,
            bit_depth: filtered.bit_depth,
            data,
        }
    }

    /// The zlib stream of `data` at compression level `quality`.
    pub(crate) fn compress(quality: u8, data: &[u8]) -> (r: PictorResult<Vec<u8>>)
        requires
            quality <= 9,
        ensures
            r matches Ok(v) && v@ == spec_zlib_stream(quality as u32, data@),
    {
        match zlib_encode(quality as u32, data) {
            Ok(v) => Ok(v),
            Err(err) => Err(PictorError::IoError { err }),
        }
    }
}

} // verus!
