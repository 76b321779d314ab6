use vstd::prelude::*;
use vstd::wrapping::u8_specs::wrapping_add;
use crate::error::{PictorError, PictorResult};
use crate::png_filter::{PngFilter, spec_filter_map, spec_paeth, spec_reads_row_above};
use crate::png_read::PngDecodeRequest;

verus! {

/// Bytes per pixel of a decoded image.
pub open spec fn spec_pixel_bytes(req: &PngDecodeRequest) -> int {
    req.color_type.spec_comp_per_pix() * req.bit_depth.spec_bytes_per_comp()
}

/// Bytes per row of a decoded image.
pub open spec fn spec_row_bytes(req: &PngDecodeRequest) -> int {
    spec_pixel_bytes(req) * req.width
}

/// Byte `p` of the image recovered from the filtered rows in `data`: row
/// `s = p / row_bytes` is stored at `data[s * (row_bytes + 1)..]` behind its
/// filter type byte, and each byte is the stored byte plus the prediction
/// computed from the bytes recovered before it.
pub open spec fn spec_unfiltered_byte(req: &PngDecodeRequest, data: Seq<u8>, p: int) -> u8
    decreases p,
{
    let rb = spec_row_bytes(req);
    let c = spec_pixel_bytes(req);
    if p < 0 || rb <= 0 || c <= 0 {
        0
    } else {
        let s = p / rb;
        let i = p % rb;
        let e = data[s * (rb + 1) + 1 + i];
        let f = spec_filter_map(s == 0, data[s * (rb + 1)] as int);
        let up = if rb <= p { spec_unfiltered_byte(req, data, p - rb) } else { 0u8 };
        let left = if c <= p { spec_unfiltered_byte(req, data, p - c) } else { 0u8 };
        let up_left = if rb + c <= p { spec_unfiltered_byte(req, data, p - rb - c) } else { 0u8 };
        if i < c {
            match f {
                PngFilter::Up => wrapping_add(e, up),
                PngFilter::Average => wrapping_add(e, (up / 2) as u8),
                PngFilter::Paeth => wrapping_add(e, spec_paeth(0, up, 0)),
                _ => e,
            }
        } else {
            match f {
                PngFilter::NoFilter => e,
                PngFilter::Sub => wrapping_add(e, left),
                PngFilter::Up => wrapping_add(e, up),
                PngFilter::Average => wrapping_add(e, ((left as int + up as int) / 2) as u8),
                PngFilter::Paeth => wrapping_add(e, spec_paeth(left, up, up_left)),
                PngFilter::AverageFirstRow => wrapping_add(e, (left / 2) as u8),
                PngFilter::PaethFirstRow => wrapping_add(e, spec_paeth(left, 0, 0)),
            }
        }
    }
}

/// The image recovered from the filtered rows in `data`.
pub open spec fn spec_unfiltered(req: &PngDecodeRequest, data: Seq<u8>) -> Seq<u8> {
    Seq::new((req.height * spec_row_bytes(req)) as nat, |p: int| spec_unfiltered_byte(req, data, p))
}

/// Some row of `data` has a filter type byte above 4.
pub open spec fn spec_bad_filter_byte(req: &PngDecodeRequest, data: Seq<u8>) -> bool {
    exists|s: int| 0 <= s < req.height && #[trigger] data[s * req.stride] > 4
}

/// The total size of the decoded image exceeds `u32::MAX`.
pub open spec fn spec_decoded_size_overflows(req: &PngDecodeRequest) -> bool {
    req.height * spec_row_bytes(req) > u32::MAX
}

/// The header's stride is one filter type byte plus one row, and `data`
/// holds all the filtered rows.
pub open spec fn spec_unfilter_input_ok(req: &PngDecodeRequest, data: Seq<u8>) -> bool {
    &&& req.stride == spec_row_bytes(req) + 1
    &&& req.stride * req.height <= data.len()
}

pub(crate) proof fn lemma_div_mod_row(s: int, i: int, rb: int)
    requires
        0 <= s,
        0 <= i < rb,
    ensures
        (s * rb + i) / rb == s,
        (s * rb + i) % rb == i,
{
    vstd::arithmetic::div_mod::lemma_fundamental_div_mod_converse(s * rb + i, rb, s, i);
}

/// Undoes the filters of all rows.
pub(crate) fn remove_filter(req: &PngDecodeRequest, data: &[u8]) -> (r: PictorResult<Vec<u8>>)
    requires
        spec_unfilter_input_ok(req, data@),
    ensures
        spec_decoded_size_overflows(req) <==> r matches Err(PictorError::MulOverflow { .. }),
        !spec_decoded_size_overflows(req) && spec_bad_filter_byte(req, data@)
            <==> r matches Err(PictorError::InvalidFormat { .. }),
        r matches Ok(v) ==> v@ == spec_unfiltered(req, data@),
        r is Ok || r matches Err(PictorError::MulOverflow { .. }) || r matches Err(PictorError::InvalidFormat { .. }),
{
    unfilter_scanlines(req, data)
}

/// The byte at `pos`, for the first pixel of a row, recovered with `filter`.
#[inline]
fn decode_first_byte(stride: usize, data: &[u8], pos: usize, byte: u8, filter: PngFilter) -> (r: u8)
    requires
        pos < data@.len(),
        spec_reads_row_above(filter) ==> pos >= stride,
    ensures
        r == match filter {
            PngFilter::Up => wrapping_add(byte, data@[pos - stride]),
            PngFilter::Average => wrapping_add(byte, (data@[pos - stride] / 2) as u8),
            PngFilter::Paeth => wrapping_add(byte, spec_paeth(0, data@[pos - stride], 0)),
            _ => byte,
        },
{
    match filter {
        PngFilter::NoFilter => byte,
        PngFilter::Sub => byte,
        PngFilter::Up => byte.wrapping_add(data[pos - stride]),
        PngFilter::Average => byte.wrapping_add(data[pos - stride] / 2),
        PngFilter::Paeth => byte.wrapping_add(PngFilter::paeth_predictor(0, data[pos - stride], 0)),
        PngFilter::AverageFirstRow => byte,
        PngFilter::PaethFirstRow => byte,
    }
}

/// The byte at `pos`, past the first pixel of a row, recovered with `filter`.
#[inline]
fn decode_byte(
    req: &PngDecodeRequest,
    row_bytes: usize,
    decoded_data: &[u8],
    pos: usize,
    byte: u8,
    filter: PngFilter,
) -> (r: u8)
    requires
        pos < decoded_data@.len(),
        pos >= spec_pixel_bytes(req),
        spec_reads_row_above(filter) ==> pos >= row_bytes + spec_pixel_bytes(req),
    ensures
        ({
            let d = decoded_data@;
            let c = spec_pixel_bytes(req);
            let left = d[pos - c];
            let up = d[pos - row_bytes];
            let up_left = d[pos - row_bytes - c];
            r == match filter {
                PngFilter::NoFilter => byte,
                PngFilter::Sub => wrapping_add(byte, left),
                PngFilter::Up => wrapping_add(byte, up),
                PngFilter::Average => wrapping_add(byte, ((left as int + up as int) / 2) as u8),
                PngFilter::Paeth => wrapping_add(byte, spec_paeth(left, up, up_left)),
                PngFilter::AverageFirstRow => wrapping_add(byte, (left / 2) as u8),
                PngFilter::PaethFirstRow => wrapping_add(byte, spec_paeth(left, 0, 0)),
            }
        }),
{
    let comp = (req.color_type.comp_per_pix() as usize) * req.bit_depth.bytes_per_comp() as usize;
    let left = decoded_data[pos - comp];
    match filter {
        PngFilter::NoFilter => byte,
        PngFilter::Sub => byte.wrapping_add(left),
        PngFilter::Up => byte.wrapping_add(decoded_data[pos - row_bytes]),
        PngFilter::Average => {
            let avg = ((left as u16 + decoded_data[pos - row_bytes] as u16) / 2) as u8;
            byte.wrapping_add(avg)
        },
        PngFilter::Paeth => byte.wrapping_add(
            PngFilter::paeth_predictor(
                left,
                decoded_data[pos - row_bytes],
                decoded_data[pos - row_bytes - comp],
            ),
        ),
        PngFilter::AverageFirstRow => byte.wrapping_add(left / 2),
        PngFilter::PaethFirstRow => byte.wrapping_add(PngFilter::paeth_predictor(left, 0, 0)),
    }
}

/// Recovers row `s` into `decoded_data[out_line_start..out_line_start + row_bytes]`.
fn decode_line(
    req: &PngDecodeRequest,
    decoded_data: &mut Vec<u8>,
    encoded_line: &[u8],
    out_line_start: usize,
    filter: PngFilter,
    Ghost(data): Ghost<Seq<u8>>,
    Ghost(s): Ghost<int>,
)
    requires
        spec_unfilter_input_ok(req, data),
        0 <= s < req.height,
        s * req.stride + req.stride <= data.len(),
        out_line_start == s * spec_row_bytes(req),
        old(decoded_data)@.len() == req.height * spec_row_bytes(req),
        encoded_line@ == data.subrange(s * req.stride + 1, s * req.stride + req.stride),
        data[s * req.stride] <= 4,
        filter == spec_filter_map(s == 0, data[s * req.stride] as int),
        forall|q: int| 0 <= q < out_line_start ==> old(decoded_data)@[q] == spec_unfiltered_byte(req, data, q),
    ensures
        final(decoded_data)@.len() == old(decoded_data)@.len(),
        forall|q: int|
            0 <= q < out_line_start + spec_row_bytes(req) ==> final(decoded_data)@[q] == spec_unfiltered_byte(req, data, q),
{
    let comp = (req.color_type.comp_per_pix() as usize) * req.bit_depth.bytes_per_comp() as usize;
    let n = encoded_line.len();
    let ghost rb = spec_row_bytes(req);
    let ghost total = req.height * spec_row_bytes(req);
    assert(encoded_line@.len() == rb);
    proof {
        assert(rb >= 0) by (nonlinear_arith) requires rb == spec_pixel_bytes(req) * req.width, spec_pixel_bytes(req) >= 1;
        assert(out_line_start + rb <= total) by (nonlinear_arith)
            requires out_line_start == s * rb, s + 1 <= req.height, total == req.height * rb, rb >= 0;
    }
    let row_bytes = n;
    let dlen = decoded_data.len();
    let mut i: usize = 0;
    while i < n
        invariant
            n == encoded_line@.len(),
            n == rb,
            row_bytes == rb,
            rb == spec_row_bytes(req),
            comp == spec_pixel_bytes(req),
            1 <= comp <= 8,
            i <= n,
            spec_unfilter_input_ok(req, data),
            0 <= s < req.height,
            s * req.stride + req.stride <= data.len(),
            dlen == total,
            out_line_start == s * rb,
            out_line_start + rb <= total,
            total == req.height * spec_row_bytes(req),
            decoded_data@.len() == total,
            encoded_line@ == data.subrange(s * req.stride + 1, s * req.stride + req.stride),
            data[s * req.stride] <= 4,
            filter == spec_filter_map(s == 0, data[s * req.stride] as int),
            forall|q: int| 0 <= q < out_line_start + i ==> decoded_data@[q] == spec_unfiltered_byte(req, data, q),
        decreases n - i,
    {
        let pos = out_line_start + i;
        let item = encoded_line[i];
        proof {
            lemma_div_mod_row(s, i as int, rb);
            assert(s * req.stride == s * (rb + 1));
            assert(encoded_line@[i as int] == data[s * req.stride + 1 + i]);
            assert(item == data[s * (rb + 1) + 1 + i]);
            if spec_reads_row_above(filter) {
                assert(s >= 1);
                assert(s * rb >= rb) by (nonlinear_arith) requires s >= 1, rb >= 0;
            }
        }
        let b = if i < comp {
            decode_first_byte(row_bytes, decoded_data.as_slice(), pos, item, filter)
        } else {
            decode_byte(req, row_bytes, decoded_data.as_slice(), pos, item, filter)
        };
        proof {
            let p = pos as int;
            assert(p / rb == s && p % rb == i);
            if rb <= p {
                assert(decoded_data@[p - rb] == spec_unfiltered_byte(req, data, p - rb));
            }
            if comp <= p {
                assert(decoded_data@[p - comp] == spec_unfiltered_byte(req, data, p - comp));
            }
            if rb + comp <= p {
                assert(decoded_data@[p - rb - comp] == spec_unfiltered_byte(req, data, p - rb - comp));
            }
            assert(b == spec_unfiltered_byte(req, data, p));
        }
        decoded_data.set(pos, b);
        i = i + 1;
    }
}

/// Checks the filter type byte of row `s` and recovers the row.
#[inline]
fn remove_filter_scanline(
    req: &PngDecodeRequest,
    decoded_data: &mut Vec<u8>,
    encoded_line: &[u8],
    out_line_start: usize,
    map: [PngFilter; 5],
    Ghost(data): Ghost<Seq<u8>>,
    Ghost(s): Ghost<int>,
) -> (r: PictorResult<()>)
    requires
        spec_unfilter_input_ok(req, data),
        0 <= s < req.height,
        s * req.stride + req.stride <= data.len(),
        out_line_start == s * spec_row_bytes(req),
        old(decoded_data)@.len() == req.height * spec_row_bytes(req),
        encoded_line@ == data.subrange(s * req.stride, s * req.stride + req.stride),
        forall|k: int| 0 <= k < 5 ==> #[trigger] map@[k] == spec_filter_map(s == 0, k),
        forall|q: int| 0 <= q < out_line_start ==> old(decoded_data)@[q] == spec_unfiltered_byte(req, data, q),
    ensures
        final(decoded_data)@.len() == old(decoded_data)@.len(),
        data[s * req.stride] > 4 <==> r matches Err(PictorError::InvalidFormat { .. }),
        data[s * req.stride] <= 4 <==> r is Ok,
        r is Ok ==> forall|q: int|
            0 <= q < out_line_start + spec_row_bytes(req) ==> final(decoded_data)@[q] == spec_unfiltered_byte(req, data, q),
{
    let filter_byte = encoded_line[0];
    if filter_byte > 4 {
        return Err(PictorError::invalid_format("Invalid filter type"));
    }
    let encoded_line = &encoded_line[1..encoded_line.len()];
    let filter = map[filter_byte as usize];
    assert(encoded_line@ =~= data.subrange(s * req.stride + 1, s * req.stride + req.stride));
    decode_line(req, decoded_data, encoded_line, out_line_start, filter, Ghost(data), Ghost(s));
    Ok(())
}

fn unfilter_scanlines(req: &PngDecodeRequest, data: &[u8]) -> (r: PictorResult<Vec<u8>>)
    requires
        spec_unfilter_input_ok(req, data@),
    ensures
        spec_decoded_size_overflows(req) <==> r matches Err(PictorError::MulOverflow { .. }),
        !spec_decoded_size_overflows(req) && spec_bad_filter_byte(req, data@)
            <==> r matches Err(PictorError::InvalidFormat { .. }),
        r matches Ok(v) ==> v@ == spec_unfiltered(req, data@),
        r is Ok || r matches Err(PictorError::MulOverflow { .. }) || r matches Err(PictorError::InvalidFormat { .. }),
{
    let comp = req.color_type.comp_per_pix() as u32;
    let bpc = req.bit_depth.bytes_per_comp() as u32;
    let ghost rb = spec_row_bytes(req);
    let ghost h = req.height as int;
    let ghost w = req.width as int;
    proof {
        assert(rb == comp * bpc * w);
        assert(h * rb == h * w * comp * bpc) by (nonlinear_arith)
            requires rb == comp * bpc * w;
        assert(h * w <= h * w * comp) by (nonlinear_arith) requires comp >= 1, h >= 0, w >= 0;
        assert(h * w * comp <= h * w * comp * bpc) by (nonlinear_arith) requires bpc >= 1, h * w * comp >= 0;
        assert(h * w >= 0 && h * w * comp >= 0) by (nonlinear_arith) requires h >= 0, w >= 0, comp >= 1;
    }
    let out_size: u32 = match req.height.checked_mul(req.width) {
        Some(hw) => match hw.checked_mul(comp) {
            Some(hwc) => match hwc.checked_mul(bpc) {
                Some(total) => total,
                None => {
                    return Err(PictorError::MulOverflow { op: "" });
                },
            },
            None => {
                return Err(PictorError::MulOverflow { op: "" });
            },
        },
        None => {
            return Err(PictorError::MulOverflow { op: "" });
        },
    };
    proof {
        assert(rb >= 0) by (nonlinear_arith) requires rb == comp * bpc * w, w >= 0, comp >= 1, bpc >= 1;
    }
    let mut out = vec![0u8; out_size as usize];
    let data_len = data.len();
    let mut scanline: u32 = 0;
    while scanline < req.height
        invariant
            spec_unfilter_input_ok(req, data@),
            data_len == data@.len(),
            rb == spec_row_bytes(req),
            rb >= 0,
            h == req.height,
            w == req.width,
            comp as int == req.color_type.spec_comp_per_pix() as int,
            bpc as int == req.bit_depth.spec_bytes_per_comp() as int,
            rb == comp * bpc * w,
            1 <= comp <= 4,
            1 <= bpc <= 2,
            out_size == h * rb,
            !spec_decoded_size_overflows(req),
            out@.len() == h * rb,
            scanline <= req.height,
            forall|q: int| 0 <= q < scanline * rb ==> out@[q] == spec_unfiltered_byte(req, data@, q),
            forall|t: int| 0 <= t < scanline ==> data@[#[trigger] (t * req.stride)] <= 4,
        decreases req.height - scanline,
    {
        proof {
            assert(req.stride * (scanline + 1) <= req.stride * h) by (nonlinear_arith)
                requires scanline + 1 <= h;
            assert(req.stride * scanline + req.stride == req.stride * (scanline + 1)) by (nonlinear_arith);
            assert(scanline * rb <= h * rb) by (nonlinear_arith) requires scanline <= h, rb >= 0;
            assert(scanline * w * comp * bpc == scanline * rb) by (nonlinear_arith)
                requires rb == comp * bpc * w;
            assert(scanline * w <= scanline * w * comp) by (nonlinear_arith) requires comp >= 1, scanline >= 0, w >= 0;
            assert(scanline * w * comp <= scanline * w * comp * bpc) by (nonlinear_arith)
                requires bpc >= 1, scanline * w * comp >= 0;
            assert(scanline * w >= 0 && scanline * w * comp >= 0) by (nonlinear_arith)
                requires scanline >= 0, w >= 0, comp >= 1;
            assert(req.stride * scanline == scanline * req.stride) by (nonlinear_arith);
        }
        let in_line_start = req.stride * scanline as usize;
        let out_line_start: u32 = match scanline.checked_mul(req.width) {
            Some(sw) => match sw.checked_mul(comp) {
                Some(swc) => match swc.checked_mul(bpc) {
                    Some(v) => v,
                    None => {
                        return Err(PictorError::MulOverflow { op: "" });
                    },
                },
                None => {
                    return Err(PictorError::MulOverflow { op: "" });
                },
            },
            None => {
                return Err(PictorError::MulOverflow { op: "" });
            },
        };

        let encoded_line = &data[in_line_start..in_line_start + req.stride];

        let map = if scanline == 0 {
            PngFilter::mapping_first_row()
        } else {
            PngFilter::mapping()
        };

        let res = remove_filter_scanline(
            req,
            &mut out,
            encoded_line,
            out_line_start as usize,
            map,
            Ghost(data@),
            Ghost(scanline as int),
        );
        match res {
            Ok(()) => {},
            Err(e) => {
                assert(data@[scanline * req.stride] > 4);
                assert(spec_bad_filter_byte(req, data@));
                return Err(e);
            },
        }
        proof {
            assert((scanline + 1) * rb == scanline * rb + rb) by (nonlinear_arith);
            assert(data@[scanline * req.stride] <= 4);
        }
        scanline = scanline + 1;
    }
    assert(!spec_bad_filter_byte(req, data@));
    assert(out@ =~= spec_unfiltered(req, data@));
    Ok(out)
}

} // verus!
