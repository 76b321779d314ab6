use vstd::prelude::*;
use crate::bytes::ByteCursor;
use crate::error::{PictorError, PictorResult};
use crate::jpeg_planes::DecodedJpeg;
use crate::jpeg_read::{JpegDecodeRequest, JpegSeg, spec_jpeg_header};
use crate::png_read::{
    DecodedPng, PngDecodeRequest, header_stride_fits, spec_chunk_outcome, spec_header_fits, spec_png_header,
    spec_png_header_ok, spec_png_outcome,
};
use crate::png_read_filter::spec_row_bytes;
use crate::qoi_read::{DecodedQoi, QoiDecodeRequest, spec_qoi_header_of, spec_qoi_header_ok};

verus! {

/// A decoded image of any of the supported formats.
pub enum DecodedFormat<'a> {
    Qoi(DecodedQoi<'a>),
    Png(DecodedPng<'a>),
    Jpeg(DecodedJpeg<'a>),
}

/// A header read in one of the supported formats, with the bytes after it.
pub enum DecodedRequest {
    Qoi { request: QoiDecodeRequest, payload: Vec<u8> },
    Png { request: PngDecodeRequest, payload: Vec<u8> },
    Jpeg { request: JpegDecodeRequest, payload: Vec<u8> },
}

/// The bytes of `data` from `pos` on.
fn tail(data: &Vec<u8>, pos: usize) -> (r: Vec<u8>)
    requires
        pos <= data@.len(),
    ensures
        r@ == data@.subrange(pos as int, data@.len() as int),
{
    let mut out: Vec<u8> = Vec::new();
    let mut i: usize = pos;
    while i < data.len()
        invariant
            pos <= i <= data@.len(),
            out@ == data@.subrange(pos as int, i as int),
        decreases data@.len() - i,
    {
        out.push(data[i]);
        i = i + 1;
        assert(out@ =~= data@.subrange(pos as int, i as int));
    }
    out
}

/// Decodes the chunks that follow a PNG header; a header whose row size is
/// not one filter type byte plus one row of samples is refused.
pub fn decode_png_payload<'a>(request: &PngDecodeRequest, payload: &[u8]) -> (r: PictorResult<DecodedPng<'a>>)
    ensures
        request.stride != spec_row_bytes(request) + 1 ==> (r matches Err(PictorError::InvalidFormat { .. })),
        request.stride == spec_row_bytes(request) + 1 ==> spec_png_outcome(
            request,
            spec_chunk_outcome(request, ByteCursor { data: payload, pos: 0 }),
            r,
        ),
{
    let comp = request.color_type.comp_per_pix() as u64;
    let bytes = request.bit_depth.bytes_per_comp() as u64;
    proof {
        assert(request.width * comp * bytes <= 0xFFFF_FFFF * 8) by (nonlinear_arith)
            requires request.width <= 0xFFFF_FFFF, comp <= 4, bytes <= 2;
        assert(request.width * comp <= 0xFFFF_FFFF * 4) by (nonlinear_arith)
            requires request.width <= 0xFFFF_FFFF, comp <= 4;
        assert(spec_row_bytes(request) == request.width * comp * bytes) by (nonlinear_arith)
            requires
                spec_row_bytes(request) == comp * bytes * request.width,
        ;
    }
    let row = request.width as u64 * comp * bytes + 1;
    if request.stride as u64 != row {
        return Err(PictorError::invalid_format("Invalid PNG row size"));
    }
    let mut reader = ByteCursor::new(payload);
    request.decode_internal(&mut reader)
}

/// `bytes` start with a PNG header that the decoder accepts.
pub open spec fn spec_is_png(d: Seq<u8>) -> bool {
    d.len() >= 33 && spec_png_header_ok(d.subrange(0, 33)) && spec_header_fits(d.subrange(0, 33))
}

/// `bytes` start with a QOI header that the decoder accepts.
pub open spec fn spec_is_qoi(d: Seq<u8>) -> bool {
    d.len() >= 14 && spec_qoi_header_ok(d.subrange(0, 14), None)
}

/// Recognizes the format of an image held in memory by its header: PNG,
/// then QOI, then JPEG; the header is read and the rest returned with it.
pub fn try_load_internal(bytes: Vec<u8>) -> (r: PictorResult<DecodedRequest>)
    ensures
        ({
            let d = bytes@;
            if spec_is_png(d) {
                r matches Ok(DecodedRequest::Png { request, payload }) && request == spec_png_header(d.subrange(0, 33))
                    && payload@ == d.subrange(33, d.len() as int)
            } else if spec_is_qoi(d) {
                r matches Ok(DecodedRequest::Qoi { request, payload }) && request == spec_qoi_header_of(
                    d.subrange(0, 14),
                    None,
                ) && payload@ == d.subrange(14, d.len() as int)
            } else {
                match spec_jpeg_header(d, 0) {
                    JpegSeg::Read { hdr, pos } => r matches Ok(DecodedRequest::Jpeg { request, payload })
                        && request.model() == hdr && request.wf() && payload@ == d.subrange(pos, d.len() as int),
                    _ => r matches Err(PictorError::InvalidFormat { .. }),
                }
            }
        }),
{
    let ghost d = bytes@;
    // png
    {
        let mut reader = ByteCursor::new(bytes.as_slice());
        let ghost start = reader;
        proof {
            if d.len() >= 33 {
                assert(start.ahead(33) =~= d.subrange(0, 33));
            }
        }
        if header_stride_fits(&reader) {
            if let Ok(png) = PngDecodeRequest::read_header(&mut reader) {
                let bytes_read = reader.position();
                let payload = tail(&bytes, bytes_read);
                return Ok(DecodedRequest::Png { request: png, payload });
            }
        }
    }
    assert(!spec_is_png(d));
    // qoi
    {
        let mut reader = ByteCursor::new(bytes.as_slice());
        let ghost start = reader;
        proof {
            if d.len() >= 14 {
                assert(start.ahead(14) =~= d.subrange(0, 14));
            }
        }
        if let Ok(qoi) = QoiDecodeRequest::read_header(&mut reader, None) {
            let bytes_read = reader.position();
            let payload = tail(&bytes, bytes_read);
            return Ok(DecodedRequest::Qoi { request: qoi, payload });
        }
    }
    assert(!spec_is_qoi(d));
    // jpeg
    {
        let mut reader = ByteCursor::new(bytes.as_slice());
        if let Ok(jpeg) = JpegDecodeRequest::read_header(&mut reader) {
            let bytes_read = reader.position();
            let payload = tail(&bytes, bytes_read);
            return Ok(DecodedRequest::Jpeg { request: jpeg, payload });
        }
    }
    Err(PictorError::invalid_format("Format not supported"))
}

} // verus!
