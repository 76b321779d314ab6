use vstd::prelude::*;
use crate::qoi::{
    Channels, QoiRbga, spec_color_hash, spec_diff, spec_end_marker, spec_from_diff, spec_from_luma,
    spec_pixel_bytes, spec_start_pixel,
};
use crate::qoi_read::{
    QoiDecOutcome, QoiDecState, spec_dec_loop, spec_dec_start, spec_op_len, spec_op_pixel, spec_repeat,
};
use crate::qoi_tags::{QoiTags, spec_tag_kind};
use crate::qoi_write::{
    QoiEncState, QoiEncodingRequest, spec_color_op, spec_enc_pixels, spec_enc_start, spec_enc_step, spec_input_channels,
    spec_input_pixel, spec_output_channels, spec_qoi_header, spec_qoi_len_overflows, spec_qoi_stream,
};
use crate::qoi_read::{DecodedQoi, spec_qoi_decode_from, spec_qoi_decoded, spec_qoi_expected, spec_qoi_header_of, spec_qoi_header_ok};
use crate::bytes::{lemma_read_be32_at, spec_be32};
use crate::color_type::BitDepth;
use crate::error::PictorResult;

verus! {

/// The pixel before pixel `k`: the start pixel for the first one.
pub open spec fn spec_prev_input(data: Seq<u8>, ic: int, k: int) -> QoiRbga {
    if k == 0 { spec_start_pixel() } else { spec_input_pixel(data, k - 1, ic) }
}

/// Every pixel the encoder saw is in the decoder's table where the encoder's table has it.
pub open spec fn spec_cache_compat(enc: Seq<Option<QoiRbga>>, dec: Seq<Option<QoiRbga>>) -> bool {
    &&& enc.len() == 64
    &&& dec.len() == 64
    &&& forall|h: int| 0 <= h < 64 && (#[trigger] enc[h]) is Some ==> dec[h] == enc[h]
}

proof fn lemma_enc_prev(data: Seq<u8>, ic: int, count: int, n: nat)
    ensures
        spec_enc_pixels(data, ic, count, n).prev == spec_prev_input(data, ic, n as int),
        spec_enc_pixels(data, ic, count, n).cache.len() == 64,
    decreases n,
{
    if n > 0 {
        lemma_enc_prev(data, ic, count, (n - 1) as nat);
    }
}

proof fn lemma_enc_prefix(data: Seq<u8>, ic: int, count: int, n: nat, m: nat)
    requires
        n <= m,
    ensures
        spec_enc_pixels(data, ic, count, n).out.len() <= spec_enc_pixels(data, ic, count, m).out.len(),
        spec_enc_pixels(data, ic, count, m).out.subrange(0, spec_enc_pixels(data, ic, count, n).out.len() as int)
            == spec_enc_pixels(data, ic, count, n).out,
    decreases m,
{
    if n < m {
        lemma_enc_prefix(data, ic, count, n, (m - 1) as nat);
        let a = spec_enc_pixels(data, ic, count, n).out;
        let b = spec_enc_pixels(data, ic, count, (m - 1) as nat).out;
        let c = spec_enc_pixels(data, ic, count, m).out;
        assert(c.subrange(0, b.len() as int) == b);
        assert(c.subrange(0, a.len() as int) =~= b.subrange(0, a.len() as int));
    } else {
        let a = spec_enc_pixels(data, ic, count, n).out;
        assert(a.subrange(0, a.len() as int) =~= a);
    }
}

proof fn lemma_diff_byte(cur: QoiRbga, prev: QoiRbga)
    requires
        cur.a == prev.a,
        spec_diff(cur, prev).spec_fits_diff(),
    ensures
        spec_tag_kind(spec_diff(cur, prev).spec_diff_byte()) is Diff,
        spec_from_diff(prev, spec_diff(cur, prev).spec_diff_byte()) == cur,
{
    let d = spec_diff(cur, prev);
    let x = (d.dr + 2) as u8;
    let y = (d.dg + 2) as u8;
    let z = (d.db + 2) as u8;
    let b = d.spec_diff_byte();
    assert(b == 0x40u8 | ((x << 4u8) | ((y << 2u8) | z)));
    assert((b / 16) % 4 == x && (b / 4) % 4 == y && b % 4 == z && 0x40 <= b && b < 0x80) by (bit_vector)
        requires x < 4, y < 4, z < 4, b == 0x40u8 | ((x << 4u8) | ((y << 2u8) | z));
}

proof fn lemma_luma_bytes(cur: QoiRbga, prev: QoiRbga)
    requires
        cur.a == prev.a,
        spec_diff(cur, prev).spec_fits_luma(),
    ensures
        spec_tag_kind(spec_diff(cur, prev).spec_luma_bytes()[0]) is Luma,
        spec_from_luma(prev, spec_diff(cur, prev).spec_luma_bytes()[0], spec_diff(cur, prev).spec_luma_bytes()[1])
            == cur,
{
    let d = spec_diff(cur, prev);
    let g = (d.dg + 32) as u8;
    let hi = (d.dr_dg + 8) as u8;
    let lo = (d.db_dg + 8) as u8;
    let b0 = d.spec_luma_bytes()[0];
    let b1 = d.spec_luma_bytes()[1];
    assert(b0 == 0x80u8 | g);
    assert(b1 == (hi << 4u8) | lo);
    assert(b0 % 64 == g && 0x80 <= b0 && b0 < 0xC0) by (bit_vector) requires g < 64, b0 == 0x80u8 | g;
    assert(b1 / 16 == hi && b1 % 16 == lo) by (bit_vector) requires hi < 16, lo < 16, b1 == (hi << 4u8) | lo;
}


/// The byte of a `QOI_OP_DIFF`, as the QOI format lays it out, for a pixel
/// whose red, green and blue differences from the previous one are `dr`,
/// `dg` and `db` (each from -2 to 1): the tag bits `01`, then `dr + 2`,
/// `dg + 2` and `db + 2` in two bits each, red highest; and decoding that
/// byte against the previous pixel gives the pixel.
pub proof fn lemma_diff_op_layout(cur: QoiRbga, prev: QoiRbga)
    requires
        cur.a == prev.a,
        -2 <= cur.r - prev.r <= 1,
        -2 <= cur.g - prev.g <= 1,
        -2 <= cur.b - prev.b <= 1,
    ensures
        ({
            let b = (0x40 + (cur.r - prev.r + 2) * 16 + (cur.g - prev.g + 2) * 4 + (cur.b - prev.b + 2)) as u8;
            &&& spec_diff(cur, prev).spec_diff_byte() == b
            &&& spec_from_diff(prev, b) == cur
        }),
{
    let d = spec_diff(cur, prev);
    let x = (cur.r - prev.r + 2) as u8;
    let y = (cur.g - prev.g + 2) as u8;
    let z = (cur.b - prev.b + 2) as u8;
    assert(d.dr + 2 == x && d.dg + 2 == y && d.db + 2 == z);
    assert((0x40u8 | ((x << 4u8) | ((y << 2u8) | z))) == 0x40 + x * 16 + y * 4 + z) by (bit_vector)
        requires x < 4, y < 4, z < 4;
    lemma_diff_byte(cur, prev);
}

/// The operations that carry a color outright: `QOI_OP_RGB` is the tag
/// `0xFE` and the red, green and blue bytes, used where alpha is unchanged;
/// `QOI_OP_RGBA` is the tag `0xFF` and the four bytes; the decoder reads
/// red, green and blue from the three bytes after the tag (and alpha from
/// the fourth, or from the previous pixel for `QOI_OP_RGB`).
pub proof fn lemma_color_ops_layout(cur: QoiRbga, prev: QoiRbga, data: Seq<u8>, pos: int, st: QoiDecState)
    requires
        0 <= pos,
        pos + 4 < data.len(),
    ensures
        cur.a == prev.a && !spec_diff(cur, prev).spec_fits_diff() && !spec_diff(cur, prev).spec_fits_luma()
            ==> spec_color_op(cur, prev) == seq![0xFEu8, cur.r, cur.g, cur.b],
        cur.a != prev.a ==> spec_color_op(cur, prev) == seq![0xFFu8, cur.r, cur.g, cur.b, cur.a],
        data[pos] == 0xFE ==> spec_op_pixel(data, pos, st) == (QoiRbga {
            r: data[pos + 1],
            g: data[pos + 2],
            b: data[pos + 3],
            a: st.prev.a,
        }),
        data[pos] == 0xFF ==> spec_op_pixel(data, pos, st) == (QoiRbga {
            r: data[pos + 1],
            g: data[pos + 2],
            b: data[pos + 3],
            a: data[pos + 4],
        }),
{
}

/// The two bytes of a `QOI_OP_LUMA`, as the QOI format lays them out, for a
/// pixel whose green difference from the previous one is `dg`, and red and
/// blue differences are `dr` and `db`: the tag bits `10` with `dg + 32`, then
/// `dr - dg + 8` in the high four bits and `db - dg + 8` in the low four;
/// and decoding those two bytes against the previous pixel gives the pixel.
pub proof fn lemma_luma_op_layout(cur: QoiRbga, prev: QoiRbga)
    requires
        cur.a == prev.a,
        -32 <= cur.g - prev.g <= 31,
        -8 <= (cur.r - prev.r) - (cur.g - prev.g) <= 7,
        -8 <= (cur.b - prev.b) - (cur.g - prev.g) <= 7,
    ensures
        ({
            let dr = cur.r - prev.r;
            let dg = cur.g - prev.g;
            let db = cur.b - prev.b;
            let b0 = (0x80 + dg + 32) as u8;
            let b1 = ((dr - dg + 8) * 16 + (db - dg + 8)) as u8;
            &&& spec_diff(cur, prev).spec_luma_bytes() == seq![b0, b1]
            &&& spec_from_luma(prev, b0, b1) == cur
        }),
{
    let dr = cur.r - prev.r;
    let dg = cur.g - prev.g;
    let db = cur.b - prev.b;
    let d = spec_diff(cur, prev);
    assert(d.dr == dr && d.dg == dg && d.db == db && d.dr_dg == dr - dg && d.db_dg == db - dg);
    let g = (dg + 32) as u8;
    let hi = (dr - dg + 8) as u8;
    let lo = (db - dg + 8) as u8;
    assert((0x80u8 | g) == 0x80 + g && ((hi << 4u8) | lo) == hi * 16 + lo) by (bit_vector)
        requires g < 64, hi < 16, lo < 16;
    assert(d.spec_luma_bytes() =~= seq![(0x80 + dg + 32) as u8, ((dr - dg + 8) * 16 + (db - dg + 8)) as u8]);
    lemma_luma_bytes(cur, prev);
}

/// Decoding with the channels given by the caller yields an image with
/// those channels, whatever channels the header declares.
pub proof fn lemma_requested_channels(data: Seq<u8>, c: Channels, r: PictorResult<DecodedQoi>)
    requires
        spec_qoi_decode_from(data, Some(c), r),
    ensures
        r matches Ok(img) ==> img.channels == c,
        data.len() >= 14 ==> spec_qoi_header_of(data.subrange(0, 14), Some(c)).channels == c,
{
}

/// One operation of the decoder that is not a run.
proof fn lemma_dec_step(s: Seq<u8>, pos: int, ps: int, exp: int, st: QoiDecState)
    requires
        0 <= pos < s.len(),
        pos + spec_op_len(s[pos]) <= s.len(),
        st.out.len() < exp,
        3 <= ps <= 4,
        !(spec_tag_kind(s[pos]) is Index && st.cache[(s[pos] % 64) as int] is None),
        !(spec_tag_kind(s[pos]) is Run),
    ensures
        ({
            let cur = spec_op_pixel(s, pos, st);
            spec_dec_loop(s, pos, ps, exp, st) == spec_dec_loop(
                s,
                pos + spec_op_len(s[pos]),
                ps,
                exp,
                QoiDecState {
                    prev: cur,
                    cache: st.cache.update(spec_color_hash(cur), Some(cur)),
                    out: st.out + spec_pixel_bytes(cur).subrange(0, ps),
                },
            )
        }),
{
}

/// The first `k` pixels of the input, `ic` bytes each, written as the
/// decoder writes pixels: `ps` bytes each, gray expanded to RGB.
pub open spec fn spec_expanded(data: Seq<u8>, ic: int, ps: int, k: int) -> Seq<u8> {
    Seq::new((k * ps) as nat, |j: int| spec_pixel_bytes(spec_input_pixel(data, j / ps, ic))[j % ps])
}

/// The bytes of pixel `k` extend the first `k` pixels by one.
proof fn lemma_input_bytes(data: Seq<u8>, ic: int, ps: int, k: int)
    requires
        3 <= ps <= 4,
        0 <= k,
    ensures
        spec_expanded(data, ic, ps, k) + spec_pixel_bytes(spec_input_pixel(data, k, ic)).subrange(0, ps)
            == spec_expanded(data, ic, ps, k + 1),
{
    assert((k + 1) * ps == k * ps + ps) by (nonlinear_arith);
    assert(k * ps >= 0) by (nonlinear_arith) requires k >= 0, ps >= 3;
    let e = spec_expanded(data, ic, ps, k);
    let a = e + spec_pixel_bytes(spec_input_pixel(data, k, ic)).subrange(0, ps);
    let b = spec_expanded(data, ic, ps, k + 1);
    assert forall|j: int| 0 <= j < b.len() implies a[j] == b[j] by {
        if j < k * ps {
            assert(e[j] == b[j]);
        } else {
            let t = j - k * ps;
            assert(j / ps == k && j % ps == t) by (nonlinear_arith)
                requires j == k * ps + t, 0 <= t < ps, ps >= 3;
        }
    }
    assert(a =~= b);
}

/// For RGB or RGBA input the pixels as the decoder writes them are the input
/// bytes themselves.
proof fn lemma_expanded_same(data: Seq<u8>, ps: int, k: int)
    requires
        3 <= ps <= 4,
        0 <= k,
        k * ps <= data.len(),
    ensures
        spec_expanded(data, ps, ps, k) == data.subrange(0, k * ps),
{
    let e = spec_expanded(data, ps, ps, k);
    assert forall|j: int| 0 <= j < k * ps implies e[j] == data[j] by {
        let q = j / ps;
        let t = j % ps;
        assert(j == q * ps + t && 0 <= t < ps) by (nonlinear_arith) requires q == j / ps, t == j % ps, ps >= 3, j >= 0;
    }
    assert(e =~= data.subrange(0, k * ps));
}

/// The decoder, started on stream `s`, reaches position `pos` with
/// previous pixel `prev`, table `c` and the first `k` pixels of `data` written.
#[verifier::opaque]
spec fn spec_reaches(s: Seq<u8>, data: Seq<u8>, ic: int, ps: int, count: int, pos: int, prev: QoiRbga, c: Seq<Option<QoiRbga>>, k: int) -> bool {
    spec_dec_loop(s, 14, ps, count * ps, spec_dec_start()) == spec_dec_loop(
        s,
        pos,
        ps,
        count * ps,
        QoiDecState { prev, cache: c, out: spec_expanded(data, ic, ps, k) },
    )
}

/// An operation at `pos` that decodes to pixel `k` moves the decoder on by one pixel.
proof fn lemma_advance(s: Seq<u8>, data: Seq<u8>, ic: int, ps: int, count: int, pos: int, prev: QoiRbga, c: Seq<Option<QoiRbga>>, k: int)
    requires
        spec_reaches(s, data, ic, ps, count, pos, prev, c, k),
        3 <= ps <= 4,
        0 <= k < count,
        0 <= pos < s.len(),
        pos + spec_op_len(s[pos]) <= s.len(),
        !(spec_tag_kind(s[pos]) is Index && c[(s[pos] % 64) as int] is None),
        !(spec_tag_kind(s[pos]) is Run),
        spec_op_pixel(s, pos, QoiDecState { prev, cache: c, out: spec_expanded(data, ic, ps, k) })
            == spec_input_pixel(data, k, ic),
    ensures
        ({
            let cur = spec_input_pixel(data, k, ic);
            spec_reaches(
                s,
                data,
                ic,
                ps,
                count,
                pos + spec_op_len(s[pos]),
                cur,
                c.update(spec_color_hash(cur), Some(cur)),
                k + 1,
            )
        }),
{
    reveal(spec_reaches);
    assert(k * ps < count * ps) by (nonlinear_arith) requires 0 <= k < count, ps >= 3;
    assert((k + 1) * ps <= count * ps) by (nonlinear_arith) requires 0 <= k < count, ps >= 3;
    assert(k * ps >= 0) by (nonlinear_arith) requires 0 <= k, ps >= 3;
    let st = QoiDecState { prev, cache: c, out: spec_expanded(data, ic, ps, k) };
    lemma_dec_step(s, pos, ps, count * ps, st);
    lemma_input_bytes(data, ic, ps, k);
}

/// A run operation of the decoder: the previous pixel, `(tag % 64) + 1` times.
proof fn lemma_dec_run(s: Seq<u8>, pos: int, ps: int, exp: int, st: QoiDecState)
    requires
        0 <= pos < s.len(),
        st.out.len() < exp,
        3 <= ps <= 4,
        spec_tag_kind(s[pos]) is Run,
    ensures
        spec_dec_loop(s, pos, ps, exp, st) == spec_dec_loop(
            s,
            pos + 1,
            ps,
            exp,
            QoiDecState {
                prev: st.prev,
                cache: st.cache.update(spec_color_hash(st.prev), Some(st.prev)),
                out: st.out + spec_repeat(spec_pixel_bytes(st.prev).subrange(0, ps), (s[pos] % 64 + 1) as nat),
            },
        ),
{
}

/// `r` copies of pixel `p` extend the first `k` pixels to the first
/// `k + r` when those pixels are all `p`.
proof fn lemma_repeat_pixels(data: Seq<u8>, ic: int, ps: int, k: int, r: nat, p: QoiRbga)
    requires
        3 <= ps <= 4,
        0 <= k,
        forall|j: int| k <= j < k + r ==> #[trigger] spec_input_pixel(data, j, ic) == p,
    ensures
        spec_expanded(data, ic, ps, k) + spec_repeat(spec_pixel_bytes(p).subrange(0, ps), r) == spec_expanded(
            data,
            ic,
            ps,
            k + r,
        ),
    decreases r,
{
    let b = spec_pixel_bytes(p).subrange(0, ps);
    let head = spec_expanded(data, ic, ps, k);
    if r == 0 {
        assert(head + spec_repeat(b, 0) =~= head);
    } else {
        let q = (r - 1) as nat;
        lemma_repeat_pixels(data, ic, ps, k, q, p);
        assert(spec_input_pixel(data, k + q, ic) == p);
        lemma_input_bytes(data, ic, ps, k + q);
        assert(spec_repeat(b, r) == spec_repeat(b, q) + b);
        assert(head + spec_repeat(b, r) =~= (head + spec_repeat(b, q)) + b);
    }
}

/// The encoder's run byte for `r` pixels is a run operation of `r` pixels.
proof fn lemma_run_byte(r: int)
    requires
        1 <= r <= 62,
    ensures
        spec_tag_kind((0xC0 + r - 1) as u8) is Run,
        ((0xC0 + r - 1) as u8) % 64 + 1 == r,
{
    assert(((0xC0 + r - 1) as u8) == 0xC0 + r - 1);
}

/// A run operation at `pos` of `r` pixels, all equal to the previous one,
/// moves the decoder on by `r` pixels.
proof fn lemma_advance_run(
    s: Seq<u8>,
    data: Seq<u8>,
    ic: int,
    ps: int,
    count: int,
    pos: int,
    prev: QoiRbga,
    c: Seq<Option<QoiRbga>>,
    k: int,
    r: int,
)
    requires
        spec_reaches(s, data, ic, ps, count, pos, prev, c, k),
        3 <= ps <= 4,
        0 <= k,
        1 <= r,
        k + r <= count,
        0 <= pos < s.len(),
        spec_tag_kind(s[pos]) is Run,
        s[pos] % 64 + 1 == r,
        forall|j: int| k <= j < k + r ==> #[trigger] spec_input_pixel(data, j, ic) == prev,
    ensures
        spec_reaches(s, data, ic, ps, count, pos + 1, prev, c.update(spec_color_hash(prev), Some(prev)), k + r),
{
    reveal(spec_reaches);
    assert(k * ps < count * ps) by (nonlinear_arith) requires 0 <= k, k + r <= count, r >= 1, ps >= 3;
    assert((k + r) * ps <= count * ps) by (nonlinear_arith) requires k + r <= count, ps >= 3;
    assert(k * ps >= 0) by (nonlinear_arith) requires 0 <= k, ps >= 3;
    let st = QoiDecState { prev, cache: c, out: spec_expanded(data, ic, ps, k) };
    lemma_dec_run(s, pos, ps, count * ps, st);
    lemma_repeat_pixels(data, ic, ps, k, r as nat, prev);
}

/// The operation the encoder writes for a new color decodes to that color.
proof fn lemma_color_op_decodes(s: Seq<u8>, pos: int, st: QoiDecState, cur: QoiRbga)
    requires
        0 <= pos,
        pos + spec_color_op(cur, st.prev).len() <= s.len(),
        s.subrange(pos, pos + spec_color_op(cur, st.prev).len()) == spec_color_op(cur, st.prev),
    ensures
        spec_op_len(s[pos]) == spec_color_op(cur, st.prev).len(),
        !(spec_tag_kind(s[pos]) is Index),
        !(spec_tag_kind(s[pos]) is Run),
        spec_op_pixel(s, pos, st) == cur,
{
    let op = spec_color_op(cur, st.prev);
    assert forall|i: int| 0 <= i < op.len() implies s[pos + i] == op[i] by {
        assert(s.subrange(pos, pos + op.len())[i] == s[pos + i]);
    }
    let d = spec_diff(cur, st.prev);
    if cur.a != st.prev.a {
        assert(s[pos] == op[0]);
        assert(s[pos + 1] == op[1]);
        assert(s[pos + 2] == op[2]);
        assert(s[pos + 3] == op[3]);
        assert(s[pos + 4] == op[4]);
    } else if d.spec_fits_diff() {
        lemma_diff_byte(cur, st.prev);
        assert(s[pos] == op[0]);
    } else if d.spec_fits_luma() {
        lemma_luma_bytes(cur, st.prev);
        assert(s[pos] == op[0]);
        assert(s[pos + 1] == op[1]);
    } else {
        assert(s[pos] == op[0]);
        assert(s[pos + 1] == op[1]);
        assert(s[pos + 2] == op[2]);
        assert(s[pos + 3] == op[3]);
    }
}

/// The invariant of `lemma_sync` at the encoder state `e` after `n` pixels:
/// the last `e.run` pixels repeat the encoder's previous pixel, and the
/// decoder has written every pixel before them.
spec fn spec_sync_inv(s: Seq<u8>, data: Seq<u8>, ic: int, ps: int, count: int, n: int, e: QoiEncState, c: Seq<Option<QoiRbga>>) -> bool {
    &&& 0 <= e.run < 62
    &&& e.run <= n
    &&& forall|j: int| n - e.run <= j < n ==> #[trigger] spec_input_pixel(data, j, ic) == e.prev
    &&& e.cache[spec_color_hash(e.prev)] is Some ==> e.cache[spec_color_hash(e.prev)] == Some(e.prev)
    &&& spec_cache_compat(e.cache, c)
    &&& spec_reaches(s, data, ic, ps, count, 14 + e.out.len() as int, e.prev, c, n - e.run)
}

/// The conditions under which the decoder keeps in step with the encoder.
spec fn spec_sync_pre(s: Seq<u8>, data: Seq<u8>, ic: int, ps: int, count: int) -> bool {
    let full = spec_enc_pixels(data, ic, count, count as nat).out;
    &&& 3 <= ps <= 4
    &&& 1 <= count
    &&& s.len() >= 14 + full.len()
    &&& s.subrange(14, 14 + full.len() as int) == full
}

/// The bytes the encoder has written after `n` pixels stand in the stream after the header.
proof fn lemma_out_in_stream(s: Seq<u8>, data: Seq<u8>, ic: int, ps: int, count: int, n: nat)
    requires
        spec_sync_pre(s, data, ic, ps, count),
        n <= count,
    ensures
        s.len() >= 14 + spec_enc_pixels(data, ic, count, n).out.len(),
        forall|i: int|
            0 <= i < spec_enc_pixels(data, ic, count, n).out.len() ==> s[14 + i]
                == #[trigger] spec_enc_pixels(data, ic, count, n).out[i],
{
    let full = spec_enc_pixels(data, ic, count, count as nat).out;
    let e = spec_enc_pixels(data, ic, count, n).out;
    lemma_enc_prefix(data, ic, count, n, count as nat);
    assert forall|i: int| 0 <= i < e.len() implies s[14 + i] == #[trigger] e[i] by {
        assert(s.subrange(14, 14 + full.len() as int)[i] == full[i]);
        assert(full.subrange(0, e.len() as int)[i] == full[i]);
    }
}

/// The encoder's state after `n` pixels and a decoder table, such that the
/// decoder, started on the stream, is in step with the encoder: it has
/// produced every pixel but a pending run, and stands where the encoder's
/// output so far ends.
proof fn lemma_sync(s: Seq<u8>, data: Seq<u8>, ic: int, ps: int, count: int, n: nat) -> (c: Seq<Option<QoiRbga>>)
    requires
        spec_sync_pre(s, data, ic, ps, count),
        n <= count,
    ensures
        spec_sync_inv(s, data, ic, ps, count, n as int, spec_enc_pixels(data, ic, count, n), c),
    decreases n,
{
    if n == 0 {
        let c = spec_dec_start().cache;
        assert(spec_expanded(data, ic, ps, 0) =~= Seq::<u8>::empty());
        let st = QoiDecState { prev: spec_start_pixel(), cache: c, out: spec_expanded(data, ic, ps, 0) };
        assert(st == spec_dec_start());
        reveal(spec_reaches);
        c
    } else {
        let m = (n - 1) as nat;
        let c0 = lemma_sync(s, data, ic, ps, count, m);
        lemma_sync_step(s, data, ic, ps, count, m, c0)
    }
}

/// One more pixel keeps the decoder in step with the encoder.
#[verifier::rlimit(60)]
proof fn lemma_sync_step(s: Seq<u8>, data: Seq<u8>, ic: int, ps: int, count: int, m: nat, c0: Seq<Option<QoiRbga>>) -> (c1: Seq<Option<QoiRbga>>)
    requires
        spec_sync_pre(s, data, ic, ps, count),
        m < count,
        spec_sync_inv(s, data, ic, ps, count, m as int, spec_enc_pixels(data, ic, count, m), c0),
    ensures
        spec_sync_inv(s, data, ic, ps, count, m + 1 as int, spec_enc_pixels(data, ic, count, (m + 1) as nat), c1),
{
    let n = (m + 1) as nat;
    let e0 = spec_enc_pixels(data, ic, count, m);
    let e1 = spec_enc_pixels(data, ic, count, n);
    let cur = spec_input_pixel(data, m as int, ic);
    lemma_enc_prev(data, ic, count, m);
    lemma_enc_prev(data, ic, count, n);
    lemma_out_in_stream(s, data, ic, ps, count, n);
    lemma_enc_prefix(data, ic, count, m, n);
    assert(e1 == spec_enc_step(e0, cur, m == count - 1));
    let p0 = 14 + e0.out.len() as int;
    let k0 = m - e0.run;
    if cur == e0.prev {
        let run = e0.run + 1;
        assert forall|j: int| k0 <= j < k0 + run implies #[trigger] spec_input_pixel(data, j, ic) == e0.prev by {
            if j < m {
                assert(m - e0.run <= j < m);
            }
        }
        if run == 62 || m == count - 1 {
            // the run is written out
            assert(e1.out == e0.out.push((0xC0 + run - 1) as u8));
            assert(s[p0] == e1.out[e0.out.len() as int]);
            lemma_run_byte(run);
            lemma_advance_run(s, data, ic, ps, count, p0, e0.prev, c0, k0, run);
            c0.update(spec_color_hash(e0.prev), Some(e0.prev))
        } else {
            c0
        }
    } else {
        // a pending run is written first
        let out1 = if e0.run > 0 { e0.out.push((0xC0 + e0.run - 1) as u8) } else { e0.out };
        let c_mid = if e0.run > 0 { c0.update(spec_color_hash(e0.prev), Some(e0.prev)) } else { c0 };
        let p1 = 14 + out1.len() as int;
        if e0.run > 0 {
            assert(e1.out.subrange(0, out1.len() as int) == out1);
            assert(s[p0] == e1.out[e0.out.len() as int]);
            assert(e1.out[e0.out.len() as int] == out1[e0.out.len() as int]);
            lemma_run_byte(e0.run);
            assert forall|j: int| k0 <= j < k0 + e0.run implies #[trigger] spec_input_pixel(data, j, ic) == e0.prev by {
                assert(m - e0.run <= j < m);
            }
            lemma_advance_run(s, data, ic, ps, count, p0, e0.prev, c0, k0, e0.run);
        }
        assert(spec_reaches(s, data, ic, ps, count, p1, e0.prev, c_mid, m as int));
        assert(spec_cache_compat(e0.cache, c_mid));
        let h = spec_color_hash(cur);
        let st1 = QoiDecState { prev: e0.prev, cache: c_mid, out: spec_expanded(data, ic, ps, m as int) };
        if e0.cache[h] == Some(cur) {
            assert(e1.out == out1.push(h as u8));
            assert(s[p1] == e1.out[out1.len() as int]);
            assert(spec_tag_kind(h as u8) is Index);
            assert((h as u8) % 64 == h);
            lemma_advance(s, data, ic, ps, count, p1, e0.prev, c_mid, m as int);
            c_mid.update(h, Some(cur))
        } else {
            let op = spec_color_op(cur, e0.prev);
            assert(e1.out == out1 + op);
            assert(s.subrange(p1, p1 + op.len()) =~= op) by {
                assert forall|i: int| 0 <= i < op.len() implies s.subrange(p1, p1 + op.len())[i] == op[i] by {
                    assert(s[p1 + i] == e1.out[out1.len() + i]);
                }
            }
            lemma_color_op_decodes(s, p1, st1, cur);
            lemma_advance(s, data, ic, ps, count, p1, e0.prev, c_mid, m as int);
            c_mid.update(h, Some(cur))
        }
    }
}

/// The encoder's state after the last pixel has no pending run.
proof fn lemma_enc_done(data: Seq<u8>, ic: int, count: int)
    requires
        count >= 1,
    ensures
        spec_enc_pixels(data, ic, count, count as nat).run == 0,
{
    let m = (count - 1) as nat;
    assert(spec_enc_pixels(data, ic, count, count as nat) == spec_enc_step(
        spec_enc_pixels(data, ic, count, m),
        spec_input_pixel(data, m as int, ic),
        true,
    ));
}

/// The operations of the encoder's stream decode to the first `count`
/// pixels of `data`, and end where the encoder's operations end.
proof fn lemma_ops_roundtrip(s: Seq<u8>, data: Seq<u8>, ic: int, ps: int, count: int)
    requires
        spec_sync_pre(s, data, ic, ps, count),
    ensures
        spec_dec_loop(s, 14, ps, count * ps, spec_dec_start()) == (QoiDecOutcome::Done {
            out: spec_expanded(data, ic, ps, count),
            pos: 14 + spec_enc_pixels(data, ic, count, count as nat).out.len() as int,
        }),
{
    let e = spec_enc_pixels(data, ic, count, count as nat);
    let c = lemma_sync(s, data, ic, ps, count, count as nat);
    lemma_enc_done(data, ic, count);
    reveal(spec_reaches);
    let st = QoiDecState { prev: e.prev, cache: c, out: spec_expanded(data, ic, ps, count) };
    assert(st.out.len() == count * ps);
}

/// The requests whose streams decode back to their images: the channels
/// written in the header are the request's, and the sizes of input and
/// output fit `usize`.
pub open spec fn spec_qoi_roundtrip_ok(req: &QoiEncodingRequest) -> bool {
    &&& spec_output_channels(req) == req.channels.spec_pixel_size()
    &&& !spec_qoi_len_overflows(req)
    &&& req.width * req.height * req.channels.spec_pixel_size() <= usize::MAX
}

/// The pixels of a request as the decoder gives them back: the input's
/// pixels, gray expanded to RGB and gray with alpha to RGBA.
pub open spec fn spec_qoi_pixels(req: &QoiEncodingRequest) -> Seq<u8> {
    spec_expanded(
        req.data@,
        spec_input_channels(req),
        req.channels.spec_pixel_size() as int,
        req.width * req.height,
    )
}

/// Whatever the decoder returns for the stream that the encoder produced
/// is, by the decoder's contract, the encoded image: same size, channels and
/// color space, 8-bit samples, and the pixels of the input (for gray input,
/// expanded to RGB or RGBA); for RGB or RGBA input, the input bytes
/// themselves.
pub proof fn lemma_qoi_roundtrip(req: &QoiEncodingRequest, r: PictorResult<DecodedQoi>)
    requires
        spec_qoi_roundtrip_ok(req),
        spec_qoi_decode_from(spec_qoi_stream(req), None, r),
    ensures
        r matches Ok(img) && img.width == req.width && img.height == req.height && img.channels == req.channels
            && img.color_space == req.color_space && img.bit_depth == BitDepth::U8 && img.data@
            == spec_qoi_pixels(req),
        req.native_channels is None && req.data@.len() >= req.width * req.height * req.channels.spec_pixel_size()
            ==> spec_qoi_pixels(req) == req.data@.subrange(0, req.width * req.height * req.channels.spec_pixel_size()),
{
    let ic = spec_input_channels(req);
    let ps = req.channels.spec_pixel_size() as int;
    let count = req.width * req.height;
    let data = req.data@;
    let e = spec_enc_pixels(data, ic, count, count as nat);
    let header = spec_qoi_header(req.width, req.height, spec_output_channels(req), req.color_space.spec_id());
    let s = spec_qoi_stream(req);
    assert(count >= 0) by (nonlinear_arith) requires count == req.width * req.height;
    assert(header.len() == 14);
    assert(s == header + e.out + spec_end_marker());
    assert(s.subrange(14, 14 + e.out.len() as int) =~= e.out);
    if count >= 1 {
        lemma_ops_roundtrip(s, data, ic, ps, count);
    } else {
        assert(e == spec_enc_start());
        assert(spec_expanded(data, ic, ps, count) =~= Seq::<u8>::empty());
        assert(spec_dec_loop(s, 14, ps, count * ps, spec_dec_start()) == (QoiDecOutcome::Done {
            out: spec_expanded(data, ic, ps, count),
            pos: 14 + e.out.len() as int,
        }));
    }
    if req.native_channels is None && data.len() >= count * ps {
        lemma_expanded_same(data, ps, count);
    }

    // the header reads back
    let b = s.subrange(0, 14);
    assert(b =~= header);
    assert(b.subrange(0, 4) =~= seq![0x71u8, 0x6fu8, 0x69u8, 0x66u8]);
    assert(b.subrange(4, 8) =~= spec_be32(req.width));
    assert(b.subrange(8, 12) =~= spec_be32(req.height));
    lemma_read_be32_at(b, 4, req.width);
    lemma_read_be32_at(b, 8, req.height);
    assert(b[12] == ps);
    assert(b[13] == req.color_space.spec_id());
    assert(spec_qoi_header_ok(b, None));
    let hdr = spec_qoi_header_of(b, None);
    assert(hdr.width == req.width);
    assert(hdr.height == req.height);
    assert(hdr.channels == req.channels);
    assert(hdr.color_space == req.color_space);
    assert(spec_qoi_expected(&hdr) == count * ps);

    // the end marker follows the operations
    let end = 14 + e.out.len() as int;
    assert(s.subrange(end, end + 8) =~= spec_end_marker());
}

} // verus!
