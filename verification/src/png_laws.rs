use vstd::prelude::*;
use crate::bytes::{lemma_read_be32_at, spec_be32, spec_read_be32};
use crate::color_type::{BitDepth, ColorType};
use crate::crc::{spec_crc32, spec_png_sig};
use crate::png_read::{
    ChunkOutcome, PngDecodeRequest, TAG_PLTE, TAG_TRNS, spec_header_fits, spec_triples, spec_header_stride, spec_png_chunks, spec_png_header,
    spec_png_header_ok,
};
use crate::png_write::{
    PngEncodingRequest, TAG_IDAT, TAG_IEND, TAG_IHDR, spec_chunk, spec_encoded_png, spec_filtered, spec_ihdr,
    spec_png_file,
};
use crate::png_deflate::spec_zlib_stream;
use crate::png_filter_laws::{
    lemma_unfilter_filtered, spec_filter_pair, spec_stored_rows,
};
use crate::png_read::{DecodedPng, spec_png_decode_from, spec_png_payload};
use crate::png_read_filter::{spec_row_bytes, spec_pixel_bytes, spec_decoded_size_overflows};
use crate::png_write::{lemma_row_len, spec_filterable};
use crate::png_write_filter::{spec_row_len, spec_row_start};
use crate::error::PictorResult;

verus! {

/// Reading a PNG file that the encoder framed gives back its header fields,
/// and the chunk loop ends at `IEND` with the `IDAT` payload unchanged and
/// no palette; for a payload whose length fits the chunk length field.
#[verifier::rlimit(40)]
pub proof fn lemma_png_frame_roundtrip(width: u32, height: u32, bit_depth: BitDepth, color_type: ColorType, zlib: Seq<u8>)
    requires
        zlib.len() <= u32::MAX,
        width * color_type.spec_comp_per_pix() * bit_depth.spec_bytes_per_comp() + 1 <= u32::MAX,
    ensures
        ({
            let file = spec_png_file(width, height, bit_depth.spec_bits_per_comp(), color_type.spec_id(), zlib);
            let b = file.subrange(0, 33);
            let req = spec_png_header(b);
            &&& file.len() >= 33
            &&& spec_png_header_ok(b)
            &&& spec_header_fits(b)
            &&& req.width == width
            &&& req.height == height
            &&& req.bit_depth == bit_depth
            &&& req.color_type == color_type
            &&& req.stride == width * color_type.spec_comp_per_pix() * bit_depth.spec_bytes_per_comp() + 1
            &&& spec_png_chunks(&req, file, 33, false, false, None, Seq::empty()) == (ChunkOutcome::Done {
                payload: zlib,
                pallete: None,
                end: file.len() as int,
            })
        }),
{
    let bits = bit_depth.spec_bits_per_comp();
    let color = color_type.spec_id();
    let file = spec_png_file(width, height, bits, color, zlib);
    let ihdr = spec_ihdr(width, height, bits, color);
    let n = zlib.len() as int;
    let c1 = spec_chunk(TAG_IHDR, ihdr);
    let c2 = spec_chunk(TAG_IDAT, zlib);
    let c3 = spec_chunk(TAG_IEND, Seq::empty());
    assert(ihdr.len() == 13);
    assert(file == spec_png_sig() + c1 + c2 + c3);
    assert(file.len() == 57 + n);
    let b = file.subrange(0, 33);

    // header
    assert(b.subrange(0, 8) =~= spec_png_sig());
    assert(b.subrange(8, 12) =~= spec_be32(13));
    lemma_read_be32_at(b, 8, 13);
    assert(b.subrange(12, 16) =~= spec_be32(TAG_IHDR));
    lemma_read_be32_at(b, 12, TAG_IHDR);
    assert(b.subrange(16, 20) =~= spec_be32(width));
    lemma_read_be32_at(b, 16, width);
    assert(b.subrange(20, 24) =~= spec_be32(height));
    lemma_read_be32_at(b, 20, height);
    assert(b[24] == bits);
    assert(b[25] == color);
    assert(b[26] == 0 && b[27] == 0 && b[28] == 0);
    assert(b.subrange(12, 29) =~= spec_be32(TAG_IHDR) + ihdr);
    assert(b.subrange(29, 33) =~= spec_be32(spec_crc32(spec_be32(TAG_IHDR) + ihdr)));
    lemma_read_be32_at(b, 29, spec_crc32(spec_be32(TAG_IHDR) + ihdr));
    assert(spec_png_header_ok(b));
    let req = spec_png_header(b);
    assert(req.stride == spec_header_stride(b));

    // IDAT chunk
    assert(file.subrange(33, 37) =~= spec_be32(n as u32));
    lemma_read_be32_at(file, 33, n as u32);
    assert(file.subrange(37, 41) =~= spec_be32(TAG_IDAT));
    lemma_read_be32_at(file, 37, TAG_IDAT);
    assert(file.subrange(41, 41 + n) =~= zlib);
    assert(file.subrange(41 + n, 45 + n) =~= spec_be32(spec_crc32(spec_be32(TAG_IDAT) + zlib)));
    lemma_read_be32_at(file, 41 + n, spec_crc32(spec_be32(TAG_IDAT) + zlib));

    // IEND chunk
    assert(file.subrange(45 + n, 49 + n) =~= spec_be32(0));
    lemma_read_be32_at(file, 45 + n, 0);
    assert(file.subrange(49 + n, 53 + n) =~= spec_be32(TAG_IEND));
    lemma_read_be32_at(file, 49 + n, TAG_IEND);
    assert(spec_be32(TAG_IEND) + Seq::<u8>::empty() =~= spec_be32(TAG_IEND));
    assert(file.subrange(53 + n, 57 + n) =~= spec_be32(spec_crc32(spec_be32(TAG_IEND))));
    lemma_read_be32_at(file, 53 + n, spec_crc32(spec_be32(TAG_IEND)));

    assert(Seq::<u8>::empty() + zlib =~= zlib);
    assert(spec_png_chunks(&req, file, 45 + n, true, true, None, zlib) == (ChunkOutcome::Done {
        payload: zlib,
        pallete: None,
        end: 57 + n,
    }));
}

/// The encoder settings under which decoding the encoder's file gives
/// back the image: sizes that fit the fields of the format.
pub open spec fn spec_png_roundtrip_ok(enc: &PngEncodingRequest) -> bool {
    let row = enc.width * enc.color_type.spec_comp_per_pix() * enc.bit_depth.spec_bytes_per_comp();
    &&& spec_filterable(enc)
    &&& row + 1 <= u32::MAX
    &&& enc.height * row <= u32::MAX
    &&& spec_zlib_stream(enc.compression_level.spec_id() as u32, spec_filtered(enc)).len() <= u32::MAX
}

/// Whatever the decoder returns for the file that the encoder produced is,
/// by the decoder's contract, the encoded image itself (its rows bottom-up
/// when the encoder flipped it, without the padding after each input row),
/// whatever filter the encoder forces or picks, for sizes that fit the
/// format's fields; rows stored without padding and not flipped come back
/// as the input bytes themselves.
#[verifier::rlimit(40)]
pub proof fn lemma_png_roundtrip(enc: &PngEncodingRequest, r: PictorResult<DecodedPng>)
    requires
        spec_png_roundtrip_ok(enc),
        spec_png_decode_from(spec_encoded_png(enc), r),
    ensures
        r matches Ok(img) && img.width == enc.width && img.height == enc.height && img.color_type
            == enc.color_type && img.bit_depth == enc.bit_depth && img.pallete is None && img.data@
            == spec_stored_rows(enc),
        !enc.vertical_flip && enc.stride == spec_row_len(enc) ==> spec_stored_rows(enc) == enc.data@.subrange(
            0,
            enc.height * enc.stride,
        ),
{
    let comp = enc.color_type.spec_comp_per_pix() as int;
    let bpc = enc.bit_depth.spec_bytes_per_comp() as int;
    let level = enc.compression_level.spec_id() as u32;
    let orig = spec_filtered(enc);
    let zlib = spec_zlib_stream(level, orig);
    lemma_png_frame_roundtrip(enc.width, enc.height, enc.bit_depth, enc.color_type, zlib);
    let file = spec_encoded_png(enc);
    let req = spec_png_header(file.subrange(0, 33));
    lemma_row_len(enc);
    assert(spec_filter_pair(enc, &req));
    lemma_unfilter_filtered(enc, &req);
    assert(spec_pixel_bytes(&req) == comp * bpc);
    assert(spec_row_bytes(&req) == enc.width * comp * bpc) by (nonlinear_arith)
        requires spec_row_bytes(&req) == spec_pixel_bytes(&req) * enc.width, spec_pixel_bytes(&req) == comp * bpc;
    assert(!spec_decoded_size_overflows(&req));
    let o = spec_png_chunks(&req, file, 33, false, false, None, Seq::empty());
    assert(spec_png_payload(&req, o, orig));
    if !enc.vertical_flip && enc.stride == spec_row_len(enc) {
        lemma_rows_in_order(enc);
    }
}

/// Rows that are not flipped are stored in order.
proof fn lemma_rows_in_order(enc: &PngEncodingRequest)
    requires
        !enc.vertical_flip,
        enc.stride == spec_row_len(enc),
        enc.stride * enc.height <= enc.data@.len(),
    ensures
        spec_stored_rows(enc) == enc.data@.subrange(0, enc.height * enc.stride),
{
    let st = enc.stride as int;
    let h = enc.height as int;
    assert(h * st == st * h) by (nonlinear_arith);
    assert forall|p: int| 0 <= p < h * st implies spec_stored_rows(enc)[p] == enc.data@.subrange(0, h * st)[p] by {
        assert(st > 0) by (nonlinear_arith)
            requires
                0 <= p < h * st,
                h >= 0,
        ;
        vstd::arithmetic::div_mod::lemma_fundamental_div_mod(p, st);
        assert(spec_row_start(enc, p / st) == st * (p / st));
    }
    assert(spec_stored_rows(enc) =~= enc.data@.subrange(0, h * st));
}

/// The chunk rules of the decoder, for the chunk at `pos`: an `IDAT` chunk
/// after other chunks that followed image data, an `IEND` chunk before any
/// image data, a `PLTE` chunk after image data or in a gray image, and a
/// `tRNS` chunk after image data or in an image with alpha each make the
/// stream malformed, as does an `IDAT` or `PLTE` chunk whose CRC does not
/// match; a `tRNS` chunk that is allowed is skipped whole, data and CRC.
pub proof fn lemma_png_chunk_rules(
    req: &PngDecodeRequest,
    data: Seq<u8>,
    pos: int,
    seen_idat: bool,
    cons_idat: bool,
    pallete: Option<Seq<Seq<u8>>>,
    payload: Seq<u8>,
)
    requires
        0 <= pos,
        data.len() - pos >= 8,
    ensures
        ({
            let length = spec_read_be32(data, pos) as int;
            let tag = spec_read_be32(data, pos + 4);
            let body = pos + 8;
            let complete = data.len() - body >= length + 4;
            let crc_ok = spec_read_be32(data, body + length) == spec_crc32(
                spec_be32(tag) + data.subrange(body, body + length),
            );
            let o = spec_png_chunks(req, data, pos, seen_idat, cons_idat, pallete, payload);
            &&& tag == TAG_IDAT && seen_idat && !cons_idat ==> o is Malformed
            &&& tag == TAG_IDAT && complete && !crc_ok ==> o is Malformed
            &&& tag == TAG_IEND && !seen_idat ==> o is Malformed
            &&& tag == TAG_PLTE && (seen_idat || req.color_type == ColorType::L || req.color_type == ColorType::La)
                ==> o is Malformed
            &&& tag == TAG_PLTE && complete && length % 3 == 0 && length > 0 && !crc_ok ==> o is Malformed
            &&& tag == TAG_TRNS && (seen_idat || req.color_type == ColorType::La || req.color_type == ColorType::Rgba)
                ==> o is Malformed
            &&& tag == TAG_TRNS && !seen_idat && (req.color_type == ColorType::L || req.color_type == ColorType::Rgb)
                && complete ==> o == spec_png_chunks(
                req,
                data,
                body + length + 4,
                seen_idat,
                false,
                pallete,
                payload,
            )
        }),
{
}

/// An `IDAT` chunk in its place, complete and with its CRC right, appends
/// its data to the image data gathered so far.
pub proof fn lemma_idat_appends(
    req: &PngDecodeRequest,
    data: Seq<u8>,
    pos: int,
    seen_idat: bool,
    cons_idat: bool,
    pallete: Option<Seq<Seq<u8>>>,
    payload: Seq<u8>,
)
    requires
        0 <= pos,
        data.len() - pos >= 8,
        spec_read_be32(data, pos + 4) == TAG_IDAT,
        !seen_idat || cons_idat,
        data.len() - (pos + 8) >= spec_read_be32(data, pos) + 4,
        spec_read_be32(data, pos + 8 + spec_read_be32(data, pos)) == spec_crc32(
            spec_be32(TAG_IDAT) + data.subrange(pos + 8, pos + 8 + spec_read_be32(data, pos)),
        ),
    ensures
        ({
            let length = spec_read_be32(data, pos) as int;
            spec_png_chunks(req, data, pos, seen_idat, cons_idat, pallete, payload) == spec_png_chunks(
                req,
                data,
                pos + 8 + length + 4,
                true,
                true,
                pallete,
                payload + data.subrange(pos + 8, pos + 8 + length),
            )
        }),
{
}

/// The image data that the chunk loop ends with begins with the image data
/// gathered before it: no chunk drops what earlier `IDAT` chunks held.
pub proof fn lemma_payload_kept(
    req: &PngDecodeRequest,
    data: Seq<u8>,
    pos: int,
    seen_idat: bool,
    cons_idat: bool,
    pallete: Option<Seq<Seq<u8>>>,
    payload: Seq<u8>,
)
    ensures
        spec_png_chunks(req, data, pos, seen_idat, cons_idat, pallete, payload) matches ChunkOutcome::Done {
            payload: q,
            ..
        } ==> payload.len() <= q.len() && q.subrange(0, payload.len() as int) == payload,
    decreases data.len() - pos,
{
    if 0 <= pos <= data.len() && data.len() - pos >= 8 {
        let length = spec_read_be32(data, pos) as int;
        let tag = spec_read_be32(data, pos + 4);
        let body = pos + 8;
        let cons = tag == TAG_IDAT && cons_idat;
        let chunk = data.subrange(body, body + length);
        let next = body + length + 4;
        if next > pos && next <= data.len() {
            if tag == TAG_IDAT {
                lemma_payload_kept(req, data, next, true, true, pallete, payload + chunk);
                let o = spec_png_chunks(req, data, next, true, true, pallete, payload + chunk);
                match o {
                    ChunkOutcome::Done { payload: q, .. } => {
                        assert(q.subrange(0, payload.len() as int) =~= (payload + chunk).subrange(
                            0,
                            payload.len() as int,
                        ).subrange(0, payload.len() as int));
                        assert((payload + chunk).subrange(0, payload.len() as int) =~= payload);
                    },
                    _ => {},
                }
            } else if tag == TAG_PLTE {
                lemma_payload_kept(req, data, next, seen_idat, cons, Some(spec_triples(chunk)), payload);
            } else {
                lemma_payload_kept(req, data, next, seen_idat, cons, pallete, payload);
            }
        }
        if tag == TAG_IEND {
            assert(payload.subrange(0, payload.len() as int) =~= payload);
        }
    }
}

} // verus!
