use vstd::prelude::*;
use vstd::wrapping::u8_specs::{wrapping_add, wrapping_sub};
use crate::png_filter::{PngFilter, spec_filter_id, spec_filter_map, spec_paeth};
use crate::png_read::PngDecodeRequest;
use crate::png_read_filter::{
    lemma_div_mod_row, spec_bad_filter_byte, spec_pixel_bytes, spec_row_bytes, spec_unfilter_input_ok, spec_unfiltered,
    spec_unfiltered_byte,
};
use crate::png_write::{PngEncodingRequest, spec_filterable, spec_filtered, lemma_filtered_rows_len, lemma_row_len};
use crate::png_write_filter::{
    spec_above, spec_encode_byte, spec_encode_first_byte, spec_encode_line, spec_fast_line, spec_filtered_line, spec_filtered_rows, spec_row_start,
    spec_best, spec_row_map, spec_enc_bpp, spec_row_len,
};

verus! {

/// The encoder and decoder settings under which unfiltering gives back the
/// filtered image: the same geometry, and the decoder's filtered rows one
/// type byte longer than an image row.
pub open spec fn spec_filter_pair(enc: &PngEncodingRequest, dec: &PngDecodeRequest) -> bool {
    &&& spec_filterable(enc)
    &&& dec.bit_depth == enc.bit_depth
    &&& dec.width == enc.width
    &&& dec.height == enc.height
    &&& dec.color_type == enc.color_type
    &&& dec.stride == spec_row_len(enc) + 1
}

/// The image rows in the order the encoder stores them (bottom-up when it
/// flips the image), each without the padding that follows it in the input.
pub open spec fn spec_stored_rows(enc: &PngEncodingRequest) -> Seq<u8> {
    let rl = spec_row_len(enc);
    Seq::new((enc.height * rl) as nat, |p: int| enc.data@[spec_row_start(enc, p / rl) + p % rl])
}

proof fn lemma_rows_index(enc: &PngEncodingRequest, n: nat, s: int, j: int)
    requires
        0 <= s < n,
        0 <= j <= spec_row_len(enc),
    ensures
        spec_filtered_rows(enc, n)[s * (spec_row_len(enc) + 1) + j] == spec_filtered_line(enc, s)[j],
    decreases n,
{
    lemma_row_len(enc);
    let st = spec_row_len(enc) + 1;
    lemma_filtered_rows_len(enc, (n - 1) as nat);
    let prev = spec_filtered_rows(enc, (n - 1) as nat);
    assert(spec_filtered_rows(enc, n) == prev + spec_filtered_line(enc, n - 1));
    if s == n - 1 {
        assert(prev.len() == s * st);
    } else {
        lemma_rows_index(enc, (n - 1) as nat, s, j);
        assert(s * st + j < (n - 1) * st) by (nonlinear_arith)
            requires s + 1 <= n - 1, j < st, st >= 1;
    }
}

/// The filter the encoder picks among the filters of a row's map is one whose
/// type byte the decoder maps back to it.
proof fn lemma_best_in_map(enc: &PngEncodingRequest, ls: int, first: bool, n: nat)
    requires
        n <= 5,
    ensures
        ({
            let b = spec_best(enc, ls, spec_row_map(first), n).0;
            spec_filter_map(first, spec_filter_id(b) as int) == b
        }),
    decreases n,
{
    if n > 0 {
        lemma_best_in_map(enc, ls, first, (n - 1) as nat);
    }
}

/// Output row `s` is a filter type byte the decoder accepts, then the row
/// filtered with the filter that the decoder reads from that byte.
proof fn lemma_line_shape(enc: &PngEncodingRequest, s: int)
    ensures
        spec_filtered_line(enc, s).len() == spec_row_len(enc) + 1,
        spec_filtered_line(enc, s)[0] <= 4,
        forall|i: int|
            0 <= i < spec_row_len(enc) ==> #[trigger] spec_filtered_line(enc, s)[1 + i] == spec_encode_line(
                enc,
                spec_row_start(enc, s),
                spec_filter_map(s == 0, spec_filtered_line(enc, s)[0] as int),
            )[i],
{
    let line = spec_filtered_line(enc, s);
    let ls = spec_row_start(enc, s);
    let map = spec_row_map(s == 0);
    match enc.filter {
        Some(f) => {
            if f is NoFilter {
                assert forall|i: int| 0 <= i < spec_row_len(enc) implies #[trigger] line[1 + i] == spec_encode_line(
                    enc,
                    ls,
                    PngFilter::NoFilter,
                )[i] by {}
            } else {
                assert(map[spec_filter_id(f) as int] == spec_filter_map(s == 0, spec_filter_id(f) as int));
            }
        },
        None => {
            lemma_best_in_map(enc, ls, s == 0, 5);
        },
    }
}

/// The value a filter predicts for a byte from the bytes to its left, above
/// it and above and left of it; `first_px` for a byte of a row's first pixel,
/// which has no byte to its left.
pub open spec fn spec_predictor(g: PngFilter, first_px: bool, left: u8, up: u8, up_left: u8) -> u8 {
    if first_px {
        match g {
            PngFilter::Up => up,
            PngFilter::Average => (up / 2) as u8,
            PngFilter::Paeth => spec_paeth(0, up, 0),
            _ => 0,
        }
    } else {
        match g {
            PngFilter::NoFilter => 0,
            PngFilter::Sub => left,
            PngFilter::Up => up,
            PngFilter::Average => ((left as int + up as int) / 2) as u8,
            PngFilter::Paeth => spec_paeth(left, up, up_left),
            PngFilter::AverageFirstRow => (left / 2) as u8,
            PngFilter::PaethFirstRow => spec_paeth(left, 0, 0),
        }
    }
}

proof fn lemma_encode_predictor(enc: &PngEncodingRequest, ls: int, g: PngFilter, i: int)
    requires
        0 <= i < spec_row_len(enc),
    ensures
        ({
            let c = spec_enc_bpp(enc);
            let pos = ls + i;
            let a = spec_above(enc, pos);
            spec_encode_line(enc, ls, g)[i] == wrapping_sub(
                enc.data@[pos],
                spec_predictor(g, i < c, enc.data@[pos - c], enc.data@[a], enc.data@[a - c]),
            )
        }),
{
}

proof fn lemma_decode_predictor(dec: &PngDecodeRequest, data: Seq<u8>, p: int)
    requires
        p >= 0,
        spec_row_bytes(dec) > 0,
        spec_pixel_bytes(dec) > 0,
    ensures
        ({
            let rb = spec_row_bytes(dec);
            let c = spec_pixel_bytes(dec);
            let s = p / rb;
            let i = p % rb;
            let up = if rb <= p { spec_unfiltered_byte(dec, data, p - rb) } else { 0u8 };
            let left = if c <= p { spec_unfiltered_byte(dec, data, p - c) } else { 0u8 };
            let up_left = if rb + c <= p { spec_unfiltered_byte(dec, data, p - rb - c) } else { 0u8 };
            spec_unfiltered_byte(dec, data, p) == wrapping_add(
                data[s * (rb + 1) + 1 + i],
                spec_predictor(spec_filter_map(s == 0, data[s * (rb + 1)] as int), i < c, left, up, up_left),
            )
        }),
{
}

proof fn lemma_predictor_inputs(
    g: PngFilter,
    first_row: bool,
    first_px: bool,
    l1: u8,
    u1: u8,
    ul1: u8,
    l2: u8,
    u2: u8,
    ul2: u8,
)
    requires
        !first_px ==> l1 == l2,
        !first_row ==> u1 == u2,
        !first_row && !first_px ==> ul1 == ul2,
        first_row ==> (g is NoFilter || g is Sub || g is AverageFirstRow || g is PaethFirstRow),
    ensures
        spec_predictor(g, first_px, l1, u1, ul1) == spec_predictor(g, first_px, l2, u2, ul2),
{
}

proof fn lemma_wrapping_undo(b: u8, x: u8)
    ensures
        wrapping_add(wrapping_sub(b, x), x) == b,
{
}

#[verifier::rlimit(40)]
proof fn lemma_unfilter_byte(enc: &PngEncodingRequest, dec: &PngDecodeRequest, p: int)
    requires
        spec_filter_pair(enc, dec),
        0 <= p < enc.height * spec_row_len(enc),
    ensures
        spec_unfiltered_byte(dec, spec_filtered(enc), p) == enc.data@[spec_row_start(enc, p / spec_row_len(enc)) + p
            % spec_row_len(enc)],
    decreases p,
{
    let data = spec_filtered(enc);
    let rb = spec_row_bytes(dec);
    let c = spec_pixel_bytes(dec);
    let h = enc.height as int;
    let bpc = enc.bit_depth.spec_bytes_per_comp() as int;
    let comp = enc.color_type.spec_comp_per_pix() as int;
    assert(c == comp * bpc);
    assert(c == spec_enc_bpp(enc));
    let st = enc.stride as int;
    lemma_row_len(enc);
    assert(rb == spec_row_len(enc)) by (nonlinear_arith)
        requires rb == c * dec.width, spec_row_len(enc) == enc.width * comp * bpc, dec.width == enc.width, c == comp * bpc;
    assert(rb <= st);
    assert(rb > 0) by (nonlinear_arith) requires 0 <= p < h * rb, h >= 0;
    let s = p / rb;
    let i = p % rb;
    vstd::arithmetic::div_mod::lemma_fundamental_div_mod(p, rb);
    assert(0 <= s < h) by (nonlinear_arith) requires p == rb * s + i, 0 <= i < rb, 0 <= p < h * rb, rb > 0;
    if rb <= p {
        lemma_unfilter_byte(enc, dec, p - rb);
    }
    if c <= p {
        lemma_unfilter_byte(enc, dec, p - c);
    }
    if rb + c <= p {
        lemma_unfilter_byte(enc, dec, p - rb - c);
    }
    lemma_filtered_rows_len(enc, h as nat);
    let rows = spec_filtered_rows(enc, h as nat);
    assert(s * (rb + 1) + 1 + i < rows.len()) by (nonlinear_arith)
        requires rows.len() == h * (rb + 1), s + 1 <= h, i < rb, 0 <= s, 0 <= i;
    lemma_rows_index(enc, h as nat, s, 1 + i);
    lemma_rows_index(enc, h as nat, s, 0);
    assert(data[s * (rb + 1) + 1 + i] == spec_filtered_line(enc, s)[1 + i]);
    assert(data[s * (rb + 1)] == spec_filtered_line(enc, s)[0]);
    let ls = spec_row_start(enc, s);
    let flip = enc.vertical_flip;
    assert(ls == st * (if flip { h - 1 - s } else { s }));
    assert(0 <= ls + i < h * st) by (nonlinear_arith)
        requires ls == st * (if flip { h - 1 - s } else { s }), 0 <= s < h, 0 <= i < rb, rb <= st;
    if s >= 1 {
        let la = spec_row_start(enc, s - 1);
        assert(la == st * (if flip { h - 1 - (s - 1) } else { s - 1 }));
        assert(la + i == spec_above(enc, ls + i)) by (nonlinear_arith)
            requires
                la == st * (if flip { h - 1 - (s - 1) } else { s - 1 }),
                ls == st * (if flip { h - 1 - s } else { s }),
                spec_above(enc, ls + i) == if flip { ls + i + st } else { ls + i - st },
        ;
        lemma_div_mod_row(s - 1, i, rb);
        assert(p - rb == rb * (s - 1) + i) by (nonlinear_arith) requires p == rb * s + i;
        assert(p >= rb) by (nonlinear_arith) requires p == rb * s + i, s >= 1, i >= 0, rb > 0;
        assert(spec_unfiltered_byte(dec, data, p - rb) == enc.data@[spec_above(enc, ls + i)]);
        if i >= c {
            lemma_div_mod_row(s - 1, i - c, rb);
            assert(p - rb - c == rb * (s - 1) + (i - c)) by (nonlinear_arith) requires p == rb * s + i;
            assert(spec_unfiltered_byte(dec, data, p - rb - c) == enc.data@[spec_above(enc, ls + i) - c]);
        }
    }
    if i >= c {
        lemma_div_mod_row(s, i - c, rb);
        assert(p - c == rb * s + (i - c)) by (nonlinear_arith) requires p == rb * s + i;
    }
    if rb <= p {
        assert(s >= 1) by (nonlinear_arith) requires p == rb * s + i, i < rb, rb <= p, s >= 0;
    }
    if s >= 1 {
        assert(p >= rb) by (nonlinear_arith) requires p == rb * s + i, s >= 1, i >= 0, rb > 0;
    }
    let t = data[s * (rb + 1)];
    let g = spec_filter_map(s == 0, t as int);
    let pos = ls + i;
    let a = spec_above(enc, pos);
    lemma_line_shape(enc, s);
    assert(data[s * (rb + 1) + 1 + i] == spec_encode_line(enc, ls, g)[i]);
    lemma_encode_predictor(enc, ls, g, i);
    lemma_decode_predictor(dec, data, p);
    let up = if rb <= p { spec_unfiltered_byte(dec, data, p - rb) } else { 0u8 };
    let left = if c <= p { spec_unfiltered_byte(dec, data, p - c) } else { 0u8 };
    let up_left = if rb + c <= p { spec_unfiltered_byte(dec, data, p - rb - c) } else { 0u8 };
    lemma_predictor_inputs(g, s == 0, i < c, left, up, up_left, enc.data@[pos - c], enc.data@[a], enc.data@[a - c]);
    lemma_wrapping_undo(enc.data@[pos], spec_predictor(g, i < c, enc.data@[pos - c], enc.data@[a], enc.data@[a - c]));
}

/// Unfiltering the rows that the encoder filtered gives back the image rows
/// in the order the encoder stored them (bottom-up when flipped), without
/// the padding after each input row, whatever filter the encoder forces or
/// picks; and every filter type byte the encoder wrote is accepted by the
/// decoder.
pub proof fn lemma_unfilter_filtered(enc: &PngEncodingRequest, dec: &PngDecodeRequest)
    requires
        spec_filter_pair(enc, dec),
    ensures
        spec_unfilter_input_ok(dec, spec_filtered(enc)),
        !spec_bad_filter_byte(dec, spec_filtered(enc)),
        spec_unfiltered(dec, spec_filtered(enc)) == spec_stored_rows(enc),
{
    let data = spec_filtered(enc);
    let h = enc.height as int;
    let st = spec_row_len(enc);
    lemma_filtered_rows_len(enc, h as nat);
    lemma_row_len(enc);
    let comp = enc.color_type.spec_comp_per_pix() as int;
    let bpc = enc.bit_depth.spec_bytes_per_comp() as int;
    let c = spec_pixel_bytes(dec);
    assert(c == comp * bpc);
    assert(spec_row_bytes(dec) == st) by (nonlinear_arith)
        requires spec_row_bytes(dec) == c * dec.width, st == enc.width * comp * bpc, dec.width == enc.width, c == comp * bpc;
    assert(h * (st + 1) == (st + 1) * h) by (nonlinear_arith);
    assert(data.len() == (st + 1) * h);
    assert(spec_unfilter_input_ok(dec, data)) by {
        assert(dec.stride * dec.height == (st + 1) * h) by (nonlinear_arith)
            requires dec.stride == st + 1, dec.height == h;
    }
    assert forall|s: int| 0 <= s < dec.height implies #[trigger] data[s * dec.stride] <= 4 by {
        lemma_rows_index(enc, h as nat, s, 0);
        assert(s * (st + 1) < (st + 1) * h) by (nonlinear_arith) requires 0 <= s < h, st >= 0;
    }
    assert(h * spec_row_bytes(dec) == h * st);
    assert forall|p: int| 0 <= p < h * st implies spec_unfiltered(dec, data)[p] == spec_stored_rows(enc)[p] by {
        lemma_unfilter_byte(enc, dec, p);
    }
    assert(spec_unfiltered(dec, data) =~= spec_stored_rows(enc));
}

proof fn lemma_wrapping_sub_mod(x: u8, y: u8)
    ensures
        wrapping_sub(x, y) == (x - y + 256) % 256,
{
}

/// What each filter subtracts from a byte, modulo 256, as the PNG format
/// defines it: nothing, the byte one pixel to the left, the byte above, the
/// floor of the mean of those two, or their Paeth predictor with the byte
/// above and left; on the first row the bytes above count as zero, and for
/// the first pixel of a row the bytes to the left count as zero.
pub proof fn lemma_filter_subtracts(req: &PngEncodingRequest, pos: int)
    ensures
        ({
            let bpp = spec_enc_bpp(req);
            let byte = req.data@[pos] as int;
            let left = req.data@[pos - bpp];
            let up = req.data@[spec_above(req, pos)];
            let up_left = req.data@[spec_above(req, pos) - bpp];
            &&& spec_encode_byte(req, pos, PngFilter::NoFilter) == byte
            &&& spec_encode_byte(req, pos, PngFilter::Sub) == (byte - left + 256) % 256
            &&& spec_encode_byte(req, pos, PngFilter::Up) == (byte - up + 256) % 256
            &&& spec_encode_byte(req, pos, PngFilter::Average) == (byte - (left + up) / 2 + 256) % 256
            &&& spec_encode_byte(req, pos, PngFilter::Paeth) == (byte - spec_paeth(left, up, up_left) + 256) % 256
            &&& spec_encode_byte(req, pos, PngFilter::AverageFirstRow) == (byte - left / 2 + 256) % 256
            &&& spec_encode_byte(req, pos, PngFilter::PaethFirstRow) == (byte - spec_paeth(left, 0, 0) + 256) % 256
            &&& spec_encode_first_byte(req, pos, PngFilter::NoFilter) == byte
            &&& spec_encode_first_byte(req, pos, PngFilter::Sub) == byte
            &&& spec_encode_first_byte(req, pos, PngFilter::Up) == (byte - up + 256) % 256
            &&& spec_encode_first_byte(req, pos, PngFilter::Average) == (byte - up / 2 + 256) % 256
            &&& spec_encode_first_byte(req, pos, PngFilter::Paeth) == (byte - spec_paeth(0, up, 0) + 256) % 256
        }),
{
    let bpp = spec_enc_bpp(req);
    let byte = req.data@[pos];
    let left = req.data@[pos - bpp];
    let up = req.data@[spec_above(req, pos)];
    let up_left = req.data@[spec_above(req, pos) - bpp];
    lemma_wrapping_sub_mod(byte, left);
    lemma_wrapping_sub_mod(byte, up);
    lemma_wrapping_sub_mod(byte, ((left as int + up as int) / 2) as u8);
    lemma_wrapping_sub_mod(byte, spec_paeth(left, up, up_left));
    lemma_wrapping_sub_mod(byte, (left / 2) as u8);
    lemma_wrapping_sub_mod(byte, spec_paeth(left, 0, 0));
    lemma_wrapping_sub_mod(byte, (up / 2) as u8);
    lemma_wrapping_sub_mod(byte, spec_paeth(0, up, 0));
    assert(((left as int + up as int) / 2) as u8 == (left + up) / 2);
}

} // verus!
