use vstd::prelude::*;
use std::io::Read;
use crate::bytes::{ByteCursor, read_be32, spec_be32, spec_read_be32};
use crate::color_type::{BitDepth, ColorType};
use crate::crc::{generate_crc, png_sig, spec_crc32, spec_png_sig};
use crate::error::{PictorError, PictorResult};
use crate::png_deflate::spec_zlib_stream;
use crate::png_read_filter::{remove_filter, spec_bad_filter_byte, spec_decoded_size_overflows, spec_row_bytes, spec_unfiltered};
use crate::png_write::{TAG_IDAT, TAG_IEND, TAG_IHDR};
use crate::samples::SampleStorage;

verus! {

/// What `flate2`'s `ZlibDecoder` yields for the bytes `data`: the inflated
/// stream, or `None` where it reports an error.
pub uninterp spec fn spec_zlib_inflate(data: Seq<u8>) -> Option<Seq<u8>>;

/// Calls `flate2::read::ZlibDecoder::new` over `data` and `read_to_end`.
/// Claimed: whether the call succeeds, and the bytes read when it does, are
/// a function of `data` alone (the decoder reads from a slice, and reading
/// into a `Vec` fails only where the stream is invalid or ends early); and a
/// stream that `flate2`'s `ZlibEncoder` wrote at a level from 1 to 9
/// inflates back to the bytes it was written from.
#[verifier::external_body]
fn zlib_decode(data: &[u8]) -> (r: Result<Vec<u8>, std::io::Error>)
    ensures
        r is Ok <==> spec_zlib_inflate(data@) is Some,
        r matches Ok(v) ==> spec_zlib_inflate(data@) == Some(v@),
        r is Ok || !exists|level: u32, orig: Seq<u8>| 1 <= level <= 9 && data@ == spec_zlib_stream(level, orig),
        r matches Ok(v) ==> forall|level: u32, orig: Seq<u8>|
            1 <= level <= 9 && data@ == spec_zlib_stream(level, orig) ==> v@ == orig,
{
    let mut decoder = flate2::read::ZlibDecoder::new(data);
    let mut out = Vec::new();
    decoder.read_to_end(&mut out)?;
    Ok(out)
}

/// Chunk type `PLTE`, as a big-endian value.
pub const TAG_PLTE: u32 = 0x504C_5445;

/// Chunk type `tRNS`, as a big-endian value.
pub const TAG_TRNS: u32 = 0x7452_4E53;

/// Chunk type `CgBI`, as a big-endian value.
pub const TAG_CGBI: u32 = 0x4367_4249;

/// Chunk type `sBIT`, as a big-endian value.
pub const TAG_SBIT: u32 = 0x7342_4954;

/// The header of a PNG stream: what the decoder needs to undo the filters.
#[derive(Debug)]
pub struct PngDecodeRequest {
    pub width: u32,
    pub height: u32,
    pub bit_depth: BitDepth,
    pub color_type: ColorType,
    /// Bytes per filtered row: the filter type byte and one row of samples.
    pub stride: usize,
}

/// The 33 bytes of signature and `IHDR` chunk pass every check of the decoder.
pub open spec fn spec_png_header_ok(b: Seq<u8>) -> bool {
    &&& b.subrange(0, 8) == spec_png_sig()
    &&& spec_read_be32(b, 8) == 13
    &&& spec_read_be32(b, 12) == TAG_IHDR
    &&& BitDepth::spec_from_bits(b[24]) is Some
    &&& ColorType::spec_from_id(b[25]) is Some
    &&& b[26] == 0
    &&& b[27] == 0
    &&& b[28] == 0
    &&& spec_read_be32(b, 29) == spec_crc32(b.subrange(12, 29))
}

/// Bytes of one decoded row, plus the filter type byte, for a header.
pub open spec fn spec_header_stride(b: Seq<u8>) -> int {
    spec_read_be32(b, 16) * ColorType::spec_from_id(b[25])->0.spec_comp_per_pix()
        * BitDepth::spec_from_bits(b[24])->0.spec_bytes_per_comp() + 1
}

/// The header that a valid signature and `IHDR` chunk describe.
pub open spec fn spec_png_header(b: Seq<u8>) -> PngDecodeRequest {
    PngDecodeRequest {
        width: spec_read_be32(b, 16),
        height: spec_read_be32(b, 20),
        bit_depth: BitDepth::spec_from_bits(b[24])->0,
        color_type: ColorType::spec_from_id(b[25])->0,
        stride: spec_header_stride(b) as usize,
    }
}

/// What the chunk loop of the decoder ends with.
pub enum ChunkOutcome {
    /// An `IEND` chunk ended the stream; `payload` is the concatenation of
    /// the `IDAT` payloads, `pallete` the last `PLTE` entries, `end` the
    /// position after `IEND`.
    Done { payload: Seq<u8>, pallete: Option<Seq<Seq<u8>>>, end: int },
    /// The input ended inside a chunk.
    Truncated,
    /// A chunk broke a rule of the format.
    Malformed,
}

/// The entries of a palette: consecutive triples of bytes.
pub open spec fn spec_triples(s: Seq<u8>) -> Seq<Seq<u8>> {
    Seq::new(s.len() / 3, |i: int| seq![s[3 * i], s[3 * i + 1], s[3 * i + 2]])
}

/// The chunk loop of the decoder, from position `pos` of `data`.
pub open spec fn spec_png_chunks(
    req: &PngDecodeRequest,
    data: Seq<u8>,
    pos: int,
    seen_idat: bool,
    cons_idat: bool,
    pallete: Option<Seq<Seq<u8>>>,
    payload: Seq<u8>,
) -> ChunkOutcome
    decreases data.len() - pos,
{
    if pos < 0 || pos > data.len() {
        ChunkOutcome::Malformed
    } else if data.len() - pos < 8 {
        ChunkOutcome::Truncated
    } else {
        let length = spec_read_be32(data, pos) as int;
        let tag = spec_read_be32(data, pos + 4);
        let body = pos + 8;
        let cons = tag == TAG_IDAT && cons_idat;
        let chunk = data.subrange(body, body + length);
        let crc_ok = spec_read_be32(data, body + length) == spec_crc32(spec_be32(tag) + chunk);
        if tag == TAG_IDAT {
            if seen_idat && !cons {
                ChunkOutcome::Malformed
            } else if data.len() - body < length + 4 {
                ChunkOutcome::Truncated
            } else if !crc_ok {
                ChunkOutcome::Malformed
            } else {
                spec_png_chunks(req, data, body + length + 4, true, true, pallete, payload + chunk)
            }
        } else if tag == TAG_PLTE {
            if seen_idat || req.color_type == ColorType::L || req.color_type == ColorType::La {
                ChunkOutcome::Malformed
            } else if length == 0 || length % 3 != 0 {
                ChunkOutcome::Malformed
            } else if data.len() - body < length + 4 {
                ChunkOutcome::Truncated
            } else if length / 3 > 256 || !crc_ok {
                ChunkOutcome::Malformed
            } else {
                spec_png_chunks(req, data, body + length + 4, seen_idat, cons, Some(spec_triples(chunk)), payload)
            }
        } else if tag == TAG_TRNS {
            if req.color_type == ColorType::La || req.color_type == ColorType::Rgba || seen_idat {
                ChunkOutcome::Malformed
            } else if data.len() - body < length + 4 {
                ChunkOutcome::Truncated
            } else {
                spec_png_chunks(req, data, body + length + 4, seen_idat, cons, pallete, payload)
            }
        } else if tag == TAG_IEND {
            if !seen_idat {
                ChunkOutcome::Malformed
            } else if data.len() - body < 4 {
                ChunkOutcome::Truncated
            } else if length != 0 || spec_read_be32(data, body) != spec_crc32(spec_be32(TAG_IEND)) {
                ChunkOutcome::Malformed
            } else {
                ChunkOutcome::Done { payload, pallete, end: body + 4 }
            }
        } else if data.len() - body < length + 4 {
            ChunkOutcome::Truncated
        } else {
            spec_png_chunks(req, data, body + length + 4, seen_idat, cons, pallete, payload)
        }
    }
}

/// A chunk's length and type.
struct ChunkMeta {
    length: usize,
    tag: u32,
}

impl ChunkMeta {
    fn from_bytes(reader: &mut ByteCursor) -> (r: PictorResult<ChunkMeta>)
        requires
            old(reader).pos <= old(reader).data@.len(),
        ensures
            final(reader).data == old(reader).data,
            final(reader).pos <= final(reader).data@.len(),
            old(reader).data@.len() - old(reader).pos < 8 <==> r is Err,
            r matches Err(e) ==> e is IoError,
            r matches Ok(m) ==> m.length == spec_read_be32(old(reader).data@, old(reader).pos as int)
                && m.tag == spec_read_be32(old(reader).data@, old(reader).pos + 4)
                && final(reader).pos == old(reader).pos + 8,
    {
        let buff = reader.read_exact(8)?;
        let length = read_be32(buff, 0) as usize;
        let tag = read_be32(buff, 4);
        Ok(ChunkMeta { length, tag })
    }
}

/// Whether the first eight bytes are the PNG signature.
fn has_png_sig(b: &[u8]) -> (r: bool)
    requires
        b@.len() >= 8,
    ensures
        r == (b@.subrange(0, 8) == spec_png_sig()),
{
    let sig = png_sig();
    let mut i: usize = 0;
    while i < 8
        invariant
            i <= 8,
            b@.len() >= 8,
            sig@ == spec_png_sig(),
            forall|k: int| 0 <= k < i ==> b@[k] == sig@[k],
        decreases 8 - i,
    {
        if b[i] != sig[i] {
            assert(b@.subrange(0, 8)[i as int] != spec_png_sig()[i as int]);
            return false;
        }
        i = i + 1;
    }
    assert(b@.subrange(0, 8) =~= spec_png_sig());
    true
}

impl PngDecodeRequest {
    #[inline]
    pub fn width(&self) -> (r: u32)
        ensures
            r == self.width,
    {
        self.width
    }

    #[inline]
    pub fn height(&self) -> (r: u32)
        ensures
            r == self.height,
    {
        self.height
    }

    #[inline]
    pub fn color_type(&self) -> (r: ColorType)
        ensures
            r == self.color_type,
    {
        self.color_type
    }

    /// Reads and checks the signature and the `IHDR` chunk.
    pub fn read_header(reader: &mut ByteCursor) -> (r: PictorResult<PngDecodeRequest>)
        requires
            old(reader).pos <= old(reader).data@.len(),
            old(reader).data@.len() - old(reader).pos >= 33 && spec_png_header_ok(old(reader).ahead(33))
                ==> spec_header_stride(old(reader).ahead(33)) <= u32::MAX,
        ensures
            final(reader).data == old(reader).data,
            final(reader).pos <= final(reader).data@.len(),
            old(reader).data@.len() - old(reader).pos < 33 <==> (r matches Err(PictorError::IoError { .. })),
            old(reader).data@.len() - old(reader).pos >= 33 && !spec_png_header_ok(old(reader).ahead(33))
                <==> (r matches Err(PictorError::InvalidFormat { .. })),
            r matches Ok(req) ==> req == spec_png_header(old(reader).ahead(33)) && final(reader).pos
                == old(reader).pos + 33,
            r is Ok || r matches Err(PictorError::IoError { .. }) || r matches Err(PictorError::InvalidFormat { .. }),
    {
        // signature, IHDR length, IHDR tag, IHDR payload and crc
        let buffer = reader.read_exact(33)?;
        let ghost b = buffer@;

        if !has_png_sig(buffer) {
            return Err(PictorError::invalid_format("Invalid signature"));
        }

        let idhr_length = read_be32(buffer, 8);
        if idhr_length != 13 {
            return Err(PictorError::invalid_format("Invalid chunk length"));
        }

        if read_be32(buffer, 12) != TAG_IHDR {
            return Err(PictorError::invalid_format("Invalid Chunk tag"));
        }

        let width = read_be32(buffer, 16);
        let height = read_be32(buffer, 20);
        let bit_depth = BitDepth::try_from(buffer[24])?;
        let color_type = ColorType::try_from(buffer[25])?;

        if buffer[26] != 0 {
            return Err(PictorError::invalid_format("Invalid compression method"));
        }
        if buffer[27] != 0 {
            return Err(PictorError::invalid_format("Invalid filter type"));
        }
        if buffer[28] != 0 {
            return Err(PictorError::invalid_format("Invalid interlace method"));
        }

        let crc = read_be32(buffer, 29);
        let crc_check = generate_crc(&buffer[0..29], 13);
        assert(buffer@.subrange(0, 29).subrange(29 - 13 - 4, 29) =~= b.subrange(12, 29));
        if crc != crc_check {
            return Err(PictorError::invalid_format("Invalid crc"));
        }

        proof {
            assert(spec_png_header_ok(b));
            let c = color_type.spec_comp_per_pix() as int;
            let d = bit_depth.spec_bytes_per_comp() as int;
            assert(width * c * d + 1 <= u32::MAX);
            assert(width * c <= width * c * d) by (nonlinear_arith) requires d >= 1, width * c >= 0;
            assert(width * c >= 0) by (nonlinear_arith) requires c >= 1;
        }
        let stride = width * color_type.comp_per_pix() as u32 * bit_depth.bytes_per_comp() as u32 + 1;

        Ok(PngDecodeRequest {
            width,
            height,
            bit_depth,
            color_type,
            stride: stride as usize,
        })
    }
}

/// The palette entries as byte sequences.
pub open spec fn spec_pal_view(p: Option<Vec<[u8; 3]>>) -> Option<Seq<Seq<u8>>> {
    match p {
        Some(v) => Some(v@.map_values(|t: [u8; 3]| t@)),
        None => None,
    }
}

/// The chunk type as its four bytes.
fn tag_bytes(tag: u32) -> (r: Vec<u8>)
    ensures
        r@ == spec_be32(tag),
{
    let mut v: Vec<u8> = Vec::new();
    crate::bytes::write_be32(&mut v, tag);
    assert(v@ =~= spec_be32(tag));
    v
}

/// Whether the stored CRC-32 of a chunk matches its type and payload.
fn chunk_crc_ok(tag: u32, buffer: &[u8], length: usize) -> (r: bool)
    requires
        length + 4 <= buffer@.len(),
    ensures
        r == (spec_read_be32(buffer@, length as int) == spec_crc32(spec_be32(tag) + buffer@.subrange(0, length as int))),
{
    let crc = read_be32(buffer, length);
    let mut v = tag_bytes(tag);
    v.extend_from_slice(&buffer[0..length]);
    assert(v@.subrange(v@.len() - length - 4, v@.len() as int) =~= spec_be32(tag) + buffer@.subrange(0, length as int));
    let crc_check = generate_crc(v.as_slice(), length);
    crc == crc_check
}

/// Reads `length` bytes of payload and the four bytes of CRC.
fn read_chunk_body<'a>(reader: &mut ByteCursor<'a>, length: usize) -> (r: PictorResult<&'a [u8]>)
    requires
        old(reader).pos <= old(reader).data@.len(),
    ensures
        final(reader).data == old(reader).data,
        final(reader).pos <= final(reader).data@.len(),
        old(reader).data@.len() - old(reader).pos >= length + 4 <==> r is Ok,
        r matches Err(e) ==> e is IoError,
        r matches Ok(b) ==> b@ == old(reader).ahead(length + 4) && final(reader).pos == old(reader).pos + length + 4,
{
    if length > usize::MAX - 4 {
        let len = reader.data.len();
        reader.pos = len;
        return Err(PictorError::IoError { err: crate::bytes::unexpected_eof() });
    }
    reader.read_exact(length + 4)
}

impl PngDecodeRequest {
    /// Reads an `IDAT` chunk's payload and CRC, checks the CRC and appends
    /// the payload to `out`.
    fn check_idat(&self, reader: &mut ByteCursor, out: &mut Vec<u8>, length: usize) -> (r: PictorResult<()>)
        requires
            old(reader).pos <= old(reader).data@.len(),
        ensures
            final(reader).data == old(reader).data,
            final(reader).pos <= final(reader).data@.len(),
            ({
                let d = old(reader).data@;
                let body = old(reader).pos as int;
                &&& d.len() - body < length + 4 <==> (r matches Err(PictorError::IoError { .. }))
                &&& d.len() - body >= length + 4 && spec_read_be32(d, body + length) != spec_crc32(
                    spec_be32(TAG_IDAT) + d.subrange(body, body + length),
                ) <==> (r matches Err(PictorError::InvalidFormat { .. }))
                &&& r is Ok ==> final(reader).pos == body + length + 4 && final(out)@ == old(out)@ + d.subrange(
                    body,
                    body + length,
                )
                &&& (r is Ok || (r matches Err(PictorError::IoError { .. })) || (r matches Err(PictorError::InvalidFormat { .. })))
            }),
    {
        let buffer = read_chunk_body(reader, length)?;
        let ghost d = old(reader).data@;
        let ghost body = old(reader).pos as int;
        assert(buffer@.subrange(0, length as int) =~= d.subrange(body, body + length));
        assert(spec_read_be32(buffer@, length as int) == spec_read_be32(d, body + length));
        if !chunk_crc_ok(TAG_IDAT, buffer, length) {
            return Err(PictorError::invalid_format("Invalid crc"));
        }
        out.extend_from_slice(&buffer[0..length]);
        Ok(())
    }

    /// Rejects a `tRNS` chunk after image data or for a color type with alpha.
    fn check_trns(&self, seen_idat: bool) -> (r: PictorResult<()>)
        ensures
            (self.color_type == ColorType::La || self.color_type == ColorType::Rgba || seen_idat)
                <==> (r matches Err(PictorError::InvalidFormat { .. })),
            r is Ok || r matches Err(PictorError::InvalidFormat { .. }),
    {
        if self.color_type == ColorType::La || self.color_type == ColorType::Rgba || seen_idat {
            return Err(PictorError::invalid_format("Invalid TRNS chunk"));
        }
        Ok(())
    }

    /// Reads and checks a `PLTE` chunk, returning its entries.
    fn check_plte(&self, reader: &mut ByteCursor, seen_idat: bool, length: usize) -> (r: PictorResult<Vec<[u8; 3]>>)
        requires
            old(reader).pos <= old(reader).data@.len(),
        ensures
            final(reader).data == old(reader).data,
            final(reader).pos <= final(reader).data@.len(),
            ({
                let d = old(reader).data@;
                let body = old(reader).pos as int;
                let rule_broken = seen_idat || self.color_type == ColorType::L || self.color_type == ColorType::La
                    || length == 0 || length % 3 != 0;
                let bad_body = length / 3 > 256 || spec_read_be32(d, body + length) != spec_crc32(
                    spec_be32(TAG_PLTE) + d.subrange(body, body + length),
                );
                &&& !rule_broken && d.len() - body < length + 4 <==> (r matches Err(PictorError::IoError { .. }))
                &&& (rule_broken || (d.len() - body >= length + 4 && bad_body))
                    <==> (r matches Err(PictorError::InvalidFormat { .. }))
                &&& (r matches Ok(v) ==> final(reader).pos == body + length + 4 && v@.map_values(|t: [u8; 3]| t@)
                    == spec_triples(d.subrange(body, body + length)))
                &&& (r is Ok || (r matches Err(PictorError::IoError { .. })) || (r matches Err(PictorError::InvalidFormat { .. })))
            }),
    {
        if seen_idat {
            return Err(PictorError::invalid_format("PLTE chunk found after IDAT"));
        }
        if self.color_type == ColorType::L || self.color_type == ColorType::La {
            return Err(PictorError::invalid_format("PLTE chunk not allowed"));
        }
        if length == 0 || length % 3 != 0 {
            return Err(PictorError::invalid_format("Invalid chunk length."));
        }
        let buffer = read_chunk_body(reader, length)?;
        let ghost d = old(reader).data@;
        let ghost body = old(reader).pos as int;
        let ghost chunk = d.subrange(body, body + length);
        assert(buffer@.subrange(0, length as int) =~= chunk);

        let n = length / 3;
        let mut data: Vec<[u8; 3]> = Vec::with_capacity(n);
        let mut i: usize = 0;
        while i < n
            invariant
                n == length / 3,
                i <= n,
                length + 4 <= buffer@.len(),
                buffer@.subrange(0, length as int) == chunk,
                data@.len() == i,
                forall|k: int| 0 <= k < i ==> #[trigger] data@[k]@ == spec_triples(chunk)[k],
            decreases n - i,
        {
            let rgb = [buffer[3 * i], buffer[3 * i + 1], buffer[3 * i + 2]];
            assert(rgb@ =~= spec_triples(chunk)[i as int]);
            data.push(rgb);
            i = i + 1;
        }
        assert(data@.map_values(|t: [u8; 3]| t@) =~= spec_triples(chunk));

        if data.len() > 256 {
            return Err(PictorError::invalid_format("PLTE max length is 256 entries"));
        }

        assert(spec_read_be32(buffer@, length as int) == spec_read_be32(d, body + length));
        if !chunk_crc_ok(TAG_PLTE, buffer, length) {
            return Err(PictorError::invalid_format("Invalid crc"));
        }

        Ok(data)
    }

    /// Skips a chunk's payload and CRC.
    fn skip_marker(&self, reader: &mut ByteCursor, length: usize) -> (r: PictorResult<()>)
        requires
            old(reader).pos <= old(reader).data@.len(),
        ensures
            final(reader).data == old(reader).data,
            final(reader).pos <= final(reader).data@.len(),
            old(reader).data@.len() - old(reader).pos >= length + 4 <==> r is Ok,
            r matches Err(e) ==> e is IoError,
            r is Ok ==> final(reader).pos == old(reader).pos + length + 4,
    {
        let _buffer = read_chunk_body(reader, length)?;
        Ok(())
    }

    /// Reads and checks the `IEND` chunk's CRC.
    fn check_iend(&self, reader: &mut ByteCursor, seen_idat: bool, length: usize) -> (r: PictorResult<()>)
        requires
            old(reader).pos <= old(reader).data@.len(),
        ensures
            final(reader).data == old(reader).data,
            final(reader).pos <= final(reader).data@.len(),
            ({
                let d = old(reader).data@;
                let body = old(reader).pos as int;
                &&& !seen_idat ==> (r matches Err(PictorError::InvalidFormat { .. }))
                &&& seen_idat && d.len() - body < 4 <==> (r matches Err(PictorError::IoError { .. }))
                &&& seen_idat && d.len() - body >= 4 && (length != 0 || spec_read_be32(d, body) != spec_crc32(
                    spec_be32(TAG_IEND),
                )) ==> (r matches Err(PictorError::InvalidFormat { .. }))
                &&& r is Ok <==> seen_idat && d.len() - body >= 4 && length == 0 && spec_read_be32(d, body)
                    == spec_crc32(spec_be32(TAG_IEND))
                &&& r is Ok ==> final(reader).pos == body + 4
                &&& (r is Ok || (r matches Err(PictorError::IoError { .. })) || (r matches Err(PictorError::InvalidFormat { .. })))
            }),
    {
        if !seen_idat {
            return Err(PictorError::invalid_format("No data. Corrupt PNG."));
        }
        let buffer = reader.read_exact(4)?;
        if length != 0 {
            return Err(PictorError::invalid_format("Invalid chunk length."));
        }
        let crc = read_be32(buffer, 0);
        let tag = tag_bytes(TAG_IEND);
        let crc_check = generate_crc(tag.as_slice(), 0);
        assert(tag@.subrange(0, 4) =~= spec_be32(TAG_IEND));
        if crc != crc_check {
            return Err(PictorError::invalid_format("Invalid crc"));
        }
        Ok(())
    }
}

/// A decoded PNG image: raw samples, big-endian for 16-bit images.
pub struct DecodedPng<'a> {
    pub width: u32,
    pub height: u32,
    pub color_type: ColorType,
    pub bit_depth: BitDepth,
    pub pallete: Option<Vec<[u8; 3]>>,
    pub data: SampleStorage<'a, u8>,
}

impl<'a> DecodedPng<'a> {
    #[inline]
    pub fn width(&self) -> (r: u32)
        ensures
            r == self.width,
    {
        self.width
    }

    #[inline]
    pub fn height(&self) -> (r: u32)
        ensures
            r == self.height,
    {
        self.height
    }

    #[inline]
    pub fn color_type(&self) -> (r: ColorType)
        ensures
            r == self.color_type,
    {
        self.color_type
    }

    #[inline]
    pub fn bit_depth(&self) -> (r: BitDepth)
        ensures
            r == self.bit_depth,
    {
        self.bit_depth
    }

    pub fn pallete(&self) -> (r: &Option<Vec<[u8; 3]>>)
        ensures
            r == &self.pallete,
    {
        &self.pallete
    }

    /// Leaves the samples as they are; no conversion is performed.
    pub fn to_u8(&self) {
    }

    /// Leaves the samples as they are; no conversion is performed.
    pub fn to_u16(&self) {
    }
}

/// The chunk loop of the decoder from the cursor's position.
pub open spec fn spec_chunk_outcome(req: &PngDecodeRequest, reader: ByteCursor) -> ChunkOutcome {
    spec_png_chunks(req, reader.data@, reader.pos as int, false, false, None, Seq::empty())
}

/// `img` is what the decoder yields for the chunk outcome `o`: the rows
/// unfiltered from the inflated `IDAT` payload, and the palette.
pub open spec fn spec_png_decoded(req: &PngDecodeRequest, o: ChunkOutcome, img: &DecodedPng) -> bool {
    match o {
        ChunkOutcome::Done { payload, pallete, .. } => {
            let inflated = spec_zlib_inflate(payload)->0;
            &&& spec_zlib_inflate(payload) is Some
            &&& inflated.len() >= req.stride * req.height
            &&& !spec_decoded_size_overflows(req)
            &&& !spec_bad_filter_byte(req, inflated)
            &&& img.width == req.width
            &&& img.height == req.height
            &&& img.color_type == req.color_type
            &&& img.bit_depth == req.bit_depth
            &&& spec_pal_view(img.pallete) == pallete
            &&& img.data@ == spec_unfiltered(req, inflated)
        },
        _ => false,
    }
}

/// What the decoder returns for the chunk outcome `o`: an I/O error for a
/// truncated stream or image data that does not inflate, an invalid format
/// for a broken chunk rule, image data shorter than the header says or a bad
/// filter type byte, an overflow for rows too large, and otherwise the
/// unfiltered rows and the palette.
pub open spec fn spec_png_outcome(req: &PngDecodeRequest, o: ChunkOutcome, r: PictorResult<DecodedPng>) -> bool {
    match o {
        ChunkOutcome::Truncated => r matches Err(PictorError::IoError { .. }),
        ChunkOutcome::Malformed => r matches Err(PictorError::InvalidFormat { .. }),
        ChunkOutcome::Done { payload, pallete, .. } => match spec_zlib_inflate(payload) {
            None => r matches Err(PictorError::IoError { .. }),
            Some(inflated) => if req.stride * req.height > usize::MAX || inflated.len() < req.stride * req.height {
                r matches Err(PictorError::InvalidFormat { .. })
            } else if spec_decoded_size_overflows(req) {
                r matches Err(PictorError::MulOverflow { .. })
            } else if spec_bad_filter_byte(req, inflated) {
                r matches Err(PictorError::InvalidFormat { .. })
            } else {
                r matches Ok(img) && img.width == req.width && img.height == req.height && img.color_type
                    == req.color_type && img.bit_depth == req.bit_depth && spec_pal_view(img.pallete) == pallete
                    && img.data@ == spec_unfiltered(req, inflated)
            },
        },
    }
}

/// The chunk outcome `o` ends well, its `IDAT` payload is a zlib stream of
/// `orig`, and `orig` holds valid filtered rows for the header.
pub open spec fn spec_png_payload(req: &PngDecodeRequest, o: ChunkOutcome, orig: Seq<u8>) -> bool {
    match o {
        ChunkOutcome::Done { payload, .. } => {
            &&& exists|level: u32| 1 <= level <= 9 && payload == spec_zlib_stream(level, orig)
            &&& orig.len() >= req.stride * req.height
            &&& !spec_decoded_size_overflows(req)
            &&& !spec_bad_filter_byte(req, orig)
        },
        _ => false,
    }
}

impl PngDecodeRequest {
    /// Inflates a zlib stream.
    pub fn inflate(data: &[u8]) -> (r: PictorResult<Vec<u8>>)
        ensures
            r is Ok <==> spec_zlib_inflate(data@) is Some,
            r matches Ok(v) ==> spec_zlib_inflate(data@) == Some(v@),
            r matches Err(e) ==> e is IoError,
            r is Ok || !exists|level: u32, orig: Seq<u8>| 1 <= level <= 9 && data@ == spec_zlib_stream(level, orig),
            r matches Ok(v) ==> forall|level: u32, orig: Seq<u8>|
                1 <= level <= 9 && data@ == spec_zlib_stream(level, orig) ==> v@ == orig,
    {
        match zlib_decode(data) {
            Ok(out) => Ok(out),
            Err(err) => Err(PictorError::IoError { err }),
        }
    }

    /// Reads the chunks after the header up to `IEND`, inflates the image
    /// data and undoes the filters.
    pub fn decode_internal<'a>(&self, reader: &mut ByteCursor) -> (r: PictorResult<DecodedPng<'a>>)
        requires
            self.stride == spec_row_bytes(self) + 1,
            old(reader).pos <= old(reader).data@.len(),
        ensures
            spec_chunk_outcome(self, *old(reader)) is Truncated ==> (r matches Err(PictorError::IoError { .. })),
            spec_chunk_outcome(self, *old(reader)) is Malformed ==> (r matches Err(PictorError::InvalidFormat { .. })),
            r matches Ok(img) ==> spec_png_decoded(self, spec_chunk_outcome(self, *old(reader)), &img),
            forall|orig: Seq<u8>| #[trigger] spec_png_payload(self, spec_chunk_outcome(self, *old(reader)), orig)
                ==> (r matches Ok(img) && img.data@ == spec_unfiltered(self, orig)),
            spec_png_outcome(self, spec_chunk_outcome(self, *old(reader)), r),
    {
        let ghost d = reader.data@;
        let ghost p0 = reader.pos as int;
        let mut pallete: Option<Vec<[u8; 3]>> = None;
        let mut payload: Vec<u8> = Vec::new();
        let mut seen_idat: bool = false;
        let mut cons_idat: bool = false;

        assert(spec_chunk_outcome(self, *old(reader)) == spec_png_chunks(self, d, p0, false, false, None, Seq::empty()));
        loop
            invariant_except_break
                spec_png_chunks(self, d, p0, false, false, None, Seq::empty()) == spec_png_chunks(
                    self,
                    d,
                    reader.pos as int,
                    seen_idat,
                    cons_idat,
                    spec_pal_view(pallete),
                    payload@,
                ),
            invariant
                reader.data@ == d,
                reader.pos <= d.len(),
                self.stride == spec_row_bytes(self) + 1,
                spec_chunk_outcome(self, *old(reader)) == spec_png_chunks(self, d, p0, false, false, None, Seq::empty()),
            ensures
                spec_png_chunks(self, d, p0, false, false, None, Seq::empty()) == (ChunkOutcome::Done {
                    payload: payload@,
                    pallete: spec_pal_view(pallete),
                    end: reader.pos as int,
                }),
            decreases d.len() - reader.pos,
        {
            let ghost pos = reader.pos as int;
            let ghost o = spec_png_chunks(self, d, pos, seen_idat, cons_idat, spec_pal_view(pallete), payload@);
            let meta = match ChunkMeta::from_bytes(reader) {
                Ok(m) => m,
                Err(e) => {
                    assert(o is Truncated);
                    return Err(e);
                },
            };
            let ghost body = pos + 8;
            let ghost length = meta.length as int;
            if meta.tag != TAG_IDAT {
                cons_idat = false;
            }
            if meta.tag == TAG_IDAT {
                if seen_idat && !cons_idat {
                    assert(o is Malformed);
                    return Err(PictorError::invalid_format("IDAT chunk out of order"));
                }
                match self.check_idat(reader, &mut payload, meta.length) {
                    Ok(()) => {},
                    Err(e) => {
                        assert(o is Truncated || o is Malformed);
                        return Err(e);
                    },
                }
                cons_idat = true;
                seen_idat = true;
            } else if meta.tag == TAG_PLTE {
                match self.check_plte(reader, seen_idat, meta.length) {
                    Ok(plte) => {
                        pallete = Some(plte);
                        assert(spec_pal_view(pallete) == Some(spec_triples(d.subrange(body, body + length))));
                    },
                    Err(e) => {
                        assert(o is Truncated || o is Malformed);
                        return Err(e);
                    },
                }
            } else if meta.tag == TAG_TRNS {
                match self.check_trns(seen_idat) {
                    Ok(()) => {},
                    Err(e) => {
                        assert(o is Malformed);
                        return Err(e);
                    },
                }
                // the transparency entries are not applied: skip them
                match self.skip_marker(reader, meta.length) {
                    Ok(()) => {},
                    Err(e) => {
                        assert(o is Truncated);
                        return Err(e);
                    },
                }
            } else if meta.tag == TAG_IEND {
                match self.check_iend(reader, seen_idat, meta.length) {
                    Ok(()) => {},
                    Err(e) => {
                        assert(o is Truncated || o is Malformed);
                        return Err(e);
                    },
                }
                break;
            } else {
                // CgBI, sBIT and any other chunk type: skip it
                match self.skip_marker(reader, meta.length) {
                    Ok(()) => {},
                    Err(e) => {
                        assert(o is Truncated);
                        return Err(e);
                    },
                }
            }
        }

        let inflated = Self::inflate(payload.as_slice())?;
        proof {
            let o = spec_chunk_outcome(self, *old(reader));
            assert forall|orig: Seq<u8>| #[trigger] spec_png_payload(self, o, orig) implies inflated@ == orig by {
                let level = choose|level: u32| 1 <= level <= 9 && payload@ == spec_zlib_stream(level, orig);
            }
        }
        let inflated_len = inflated.len();
        let long_enough = match self.stride.checked_mul(self.height as usize) {
            Some(needed) => inflated_len >= needed,
            None => false,
        };
        if !long_enough {
            return Err(PictorError::invalid_format("Image data is shorter than its header says"));
        }
        let decoded = remove_filter(self, inflated.as_slice())?;

        Ok(DecodedPng {
            width: self.width,
            height: self.height,
            color_type: self.color_type,
            bit_depth: self.bit_depth,
            pallete,
            data: SampleStorage::Owned { data: decoded },
        })
    }
}

/// The header's row size, when its bit depth and color type bytes are
/// valid, fits in `u32`.
pub open spec fn spec_header_fits(b: Seq<u8>) -> bool {
    BitDepth::spec_from_bits(b[24]) is Some && ColorType::spec_from_id(b[25]) is Some
        ==> spec_header_stride(b) <= u32::MAX
}

/// Whether the row size of the header at the cursor fits in `u32`.
pub(crate) fn header_stride_fits(reader: &ByteCursor) -> (r: bool)
    requires
        reader.pos <= reader.data@.len(),
    ensures
        reader.data@.len() - reader.pos >= 33 ==> r == spec_header_fits(reader.ahead(33)),
        reader.data@.len() - reader.pos < 33 ==> r,
{
    let len = reader.data.len();
    if len - reader.pos < 33 {
        return true;
    }
    let b = &reader.data[reader.pos..reader.pos + 33];
    let bit_depth = match BitDepth::try_from(b[24]) {
        Ok(d) => d,
        Err(_) => {
            return true;
        },
    };
    let color_type = match ColorType::try_from(b[25]) {
        Ok(c) => c,
        Err(_) => {
            return true;
        },
    };
    let width = read_be32(b, 16) as u64;
    proof {
        let c = color_type.spec_comp_per_pix() as int;
        let d = bit_depth.spec_bytes_per_comp() as int;
        assert(width * c * d <= 0xffff_ffff * 4 * 2) by (nonlinear_arith)
            requires width <= 0xffff_ffff, 1 <= c <= 4, 1 <= d <= 2;
        assert(width * c <= 0xffff_ffff * 4) by (nonlinear_arith)
            requires width <= 0xffff_ffff, 1 <= c <= 4;
    }
    let row = width * color_type.comp_per_pix() as u64 * bit_depth.bytes_per_comp() as u64 + 1;
    row <= u32::MAX as u64
}

impl PngDecodeRequest {
    /// Decodes a whole PNG file held in memory.
    pub fn decode_bytes<'a>(data: &[u8]) -> (r: PictorResult<DecodedPng<'a>>)
        ensures
            data@.len() < 33 ==> (r matches Err(PictorError::IoError { .. })),
            data@.len() >= 33 && !(spec_png_header_ok(data@.subrange(0, 33)) && spec_header_fits(data@.subrange(0, 33)))
                ==> (r matches Err(PictorError::InvalidFormat { .. })),
            data@.len() >= 33 && spec_png_header_ok(data@.subrange(0, 33)) && spec_header_fits(data@.subrange(0, 33))
                ==> spec_png_decode_from(data@, r),
    {
        let mut reader = ByteCursor::new(data);
        if !header_stride_fits(&reader) {
            return Err(PictorError::invalid_format("Image rows are too large"));
        }
        let request = Self::read_header(&mut reader)?;
        proof {
            assert(request.color_type.spec_comp_per_pix() * request.bit_depth.spec_bytes_per_comp() * request.width
                == request.width * request.color_type.spec_comp_per_pix() * request.bit_depth.spec_bytes_per_comp())
                by (nonlinear_arith);
        }
        request.decode_internal(&mut reader)
    }
}

/// What the decoder yields for a file whose first 33 bytes are a valid
/// header: the chunk loop runs from position 33 with that header.
pub open spec fn spec_png_decode_from(data: Seq<u8>, r: PictorResult<DecodedPng>) -> bool {
    let req = spec_png_header(data.subrange(0, 33));
    let o = spec_png_chunks(&req, data, 33, false, false, None, Seq::empty());
    &&& o is Truncated ==> (r matches Err(PictorError::IoError { .. }))
    &&& o is Malformed ==> (r matches Err(PictorError::InvalidFormat { .. }))
    &&& (r matches Ok(img) ==> spec_png_decoded(&req, o, &img))
    &&& forall|orig: Seq<u8>| #[trigger] spec_png_payload(&req, o, orig)
        ==> (r matches Ok(img) && img.data@ == spec_unfiltered(&req, orig))
    &&& spec_png_outcome(&req, o, r)
}

} // verus!
