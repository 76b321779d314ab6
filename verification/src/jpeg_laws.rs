use vstd::prelude::*;
use crate::bytes::{lemma_be16_roundtrip, lemma_holds_at, lemma_nibbles, lemma_read_be16_value, spec_be16, spec_read_be16};
use crate::color_type::ColorType;
use crate::jpeg_read::{
    HuffModel, JpegComponent, JpegHeader, JpegScanComponent, JpegSeg, spec_dht, spec_dht_tables, spec_dqt,
    spec_dqt_tables, spec_dqt_values, spec_empty_header, spec_header_valid, spec_jpeg_header, spec_place,
    spec_segments, spec_sof0, spec_sof0_comps, spec_sos, spec_sos_comps, spec_sum,
};
use crate::jpeg_write::{
    spec_ac_chromin_nrcodes, spec_ac_chromin_values, spec_ac_lumin_nrcodes, spec_ac_lumin_values,
    spec_dc_chromin_nrcodes, spec_dc_chromin_values, spec_dc_lumin_nrcodes, spec_dc_lumin_values,
    spec_frame_and_tables, spec_scan_header, spec_soi_and_tables, spec_soi_app0, spec_zigzag,
};
use crate::jpeg_read::spec_unzigzag;

verus! {

/// A table of 8-bit quantization values widened to 16 bits.
pub open spec fn spec_widen(t: Seq<u8>) -> Seq<u16> {
    Seq::new(t.len(), |i: int| t[i] as u16)
}

/// The header after the two quantization tables of the encoder.
pub open spec fn spec_header_after_dqt(luma: Seq<u8>, chroma: Seq<u8>) -> JpegHeader {
    let e = spec_empty_header();
    JpegHeader {
        quant: e.quant.update(0, Some(spec_place(spec_widen(luma), 64))).update(
            1,
            Some(spec_place(spec_widen(chroma), 64)),
        ),
        ..e
    }
}

proof fn lemma_step_app0(d: Seq<u8>)
    requires
        d.len() >= 607,
        d.subrange(0, 20) == spec_soi_app0(),
    ensures
        spec_jpeg_header(d, 0) == spec_segments(d, 20, spec_empty_header()),
{
    lemma_holds_at(d, 0, spec_soi_app0());
    lemma_read_be16_value(d, 4);
    assert(d[0] == 0xFF && d[1] == 0xD8 && d[2] == 0xFF && d[3] == 0xE0 && d[4] == 0 && d[5] == 0x10);
}

proof fn lemma_step_dqt(d: Seq<u8>, luma: Seq<u8>, chroma: Seq<u8>)
    requires
        d.len() >= 607,
        luma.len() == 64,
        chroma.len() == 64,
        d.subrange(20, 154) == seq![0xFFu8, 0xDB, 0x00, 0x84, 0x00] + luma + seq![0x01u8] + chroma,
    ensures
        spec_segments(d, 20, spec_empty_header()) == spec_segments(d, 154, spec_header_after_dqt(luma, chroma)),
{
    let seg = seq![0xFFu8, 0xDB, 0x00, 0x84, 0x00] + luma + seq![0x01u8] + chroma;
    lemma_holds_at(d, 20, seg);
    lemma_read_be16_value(d, 22);
    assert(d[20] == 0xFF && d[21] == 0xDB && d[22] == 0 && d[23] == 0x84 && d[24] == 0 && d[89] == 1);
    lemma_nibbles(d[24]);
    lemma_nibbles(d[89]);
    let e = spec_empty_header();
    assert(spec_dqt_values(d, 25, 0) =~= spec_widen(luma)) by {
        assert forall|i: int| 0 <= i < 64 implies spec_dqt_values(d, 25, 0)[i] == spec_widen(luma)[i] by {
            assert(d[25 + i] == seg[25 + i - 20]);
        }
    }
    assert(spec_dqt_values(d, 90, 0) =~= spec_widen(chroma)) by {
        assert forall|i: int| 0 <= i < 64 implies spec_dqt_values(d, 90, 0)[i] == spec_widen(chroma)[i] by {
            assert(d[90 + i] == seg[90 + i - 20]);
        }
    }
    let h1 = JpegHeader { quant: e.quant.update(0, Some(spec_place(spec_widen(luma), 64))), ..e };
    let h2 = spec_header_after_dqt(luma, chroma);
    assert(spec_dqt_tables(d, 154, 0, h2) == JpegSeg::Read { hdr: h2, pos: 154 });
    assert(spec_dqt_tables(d, 89, 65, h1) == JpegSeg::Read { hdr: h2, pos: 154 });
    assert(spec_dqt_tables(d, 24, 130, e) == JpegSeg::Read { hdr: h2, pos: 154 });
    assert(spec_dqt(d, 22, e) == JpegSeg::Read { hdr: h2, pos: 154 });
}


/// The first component of the encoder's frame: full resolution, or two by
/// two when the chroma is subsampled.
pub open spec fn spec_luma_component(subsample: bool) -> JpegComponent {
    let f: u8 = if subsample { 2 } else { 1 };
    JpegComponent { id: 1, horizontal_sampling: f, vertical_sampling: f, quantization_table_id: 0 }
}

/// A chroma component of the encoder's frame.
pub open spec fn spec_chroma_component(id: u8) -> JpegComponent {
    JpegComponent { id, horizontal_sampling: 1, vertical_sampling: 1, quantization_table_id: 1 }
}

/// The header after the encoder's frame header.
pub open spec fn spec_header_after_sof(luma: Seq<u8>, chroma: Seq<u8>, width: u16, height: u16, subsample: bool) -> JpegHeader {
    JpegHeader {
        width,
        height,
        color_type: ColorType::Rgb,
        components: seq![spec_luma_component(subsample), spec_chroma_component(2), spec_chroma_component(3)],
        ..spec_header_after_dqt(luma, chroma)
    }
}

/// The frame header bytes of the encoder.
pub open spec fn spec_sof_bytes(width: u16, height: u16, subsample: bool) -> Seq<u8> {
    spec_frame_and_tables(width, height, subsample).subrange(0, 19)
}

proof fn lemma_step_sof(d: Seq<u8>, luma: Seq<u8>, chroma: Seq<u8>, width: u16, height: u16, subsample: bool)
    requires
        d.len() >= 607,
        width >= 1,
        height >= 1,
        d.subrange(154, 173) == spec_sof_bytes(width, height, subsample),
    ensures
        spec_segments(d, 154, spec_header_after_dqt(luma, chroma)) == spec_segments(
            d,
            173,
            spec_header_after_sof(luma, chroma, width, height, subsample),
        ),
{
    let seg = spec_sof_bytes(width, height, subsample);
    assert(seg.len() == 19);
    lemma_holds_at(d, 154, seg);
    let xy: u8 = if subsample { 0x22 } else { 0x11 };
    assert(d[154] == 0xFF && d[155] == 0xC0 && d[156] == 0 && d[157] == 0x11 && d[158] == 8 && d[163] == 3);
    assert(d[159] == (height >> 8u16) as u8 && d[160] == height as u8);
    assert(d[161] == (width >> 8u16) as u8 && d[162] == width as u8);
    assert(d[164] == 1 && d[165] == xy && d[166] == 0 && d[167] == 2 && d[168] == 0x11 && d[169] == 1);
    assert(d[170] == 3 && d[171] == 0x11 && d[172] == 1);
    lemma_read_be16_value(d, 156);
    lemma_be16_roundtrip(width);
    lemma_be16_roundtrip(height);
    assert(spec_read_be16(d, 159) == spec_read_be16(spec_be16(height), 0));
    assert(spec_read_be16(d, 161) == spec_read_be16(spec_be16(width), 0));
    lemma_nibbles(d[165]);
    lemma_nibbles(d[168]);
    lemma_nibbles(d[171]);
    let h0 = spec_header_after_dqt(luma, chroma);
    let h1 = JpegHeader { width, height, color_type: ColorType::Rgb, ..h0 };
    let c1 = spec_luma_component(subsample);
    let c2 = spec_chroma_component(2);
    let c3 = spec_chroma_component(3);
    let ha = JpegHeader { components: h1.components.push(c1), ..h1 };
    let hb = JpegHeader { components: ha.components.push(c2), ..ha };
    let hc = JpegHeader { components: hb.components.push(c3), ..hb };
    assert(hc.components =~= seq![c1, c2, c3]);
    assert(hc == spec_header_after_sof(luma, chroma, width, height, subsample));
    assert(spec_sof0_comps(d, 173, 3, 3, hc) == JpegSeg::Read { hdr: hc, pos: 173 });
    assert(spec_sof0_comps(d, 170, 3, 2, hb) == JpegSeg::Read { hdr: hc, pos: 173 });
    assert(spec_sof0_comps(d, 167, 3, 1, ha) == JpegSeg::Read { hdr: hc, pos: 173 });
    assert(spec_sof0_comps(d, 164, 3, 0, h1) == JpegSeg::Read { hdr: hc, pos: 173 });
    assert(spec_sof0(d, 156, h0) == JpegSeg::Read { hdr: hc, pos: 173 });
}


proof fn lemma_sum16(s: Seq<u8>)
    requires
        s.len() == 16,
    ensures
        spec_sum(s) == s[0] + s[1] + s[2] + s[3] + s[4] + s[5] + s[6] + s[7] + s[8] + s[9] + s[10] + s[11] + s[12]
            + s[13] + s[14] + s[15],
{
    assert(s.subrange(0, 0) =~= Seq::<u8>::empty());
    assert(s.subrange(0, 1).drop_last() =~= s.subrange(0, 0));
    assert(spec_sum(s.subrange(0, 1)) == spec_sum(s.subrange(0, 0)) + s[0]);
    assert(s.subrange(0, 2).drop_last() =~= s.subrange(0, 1));
    assert(spec_sum(s.subrange(0, 2)) == spec_sum(s.subrange(0, 1)) + s[1]);
    assert(s.subrange(0, 3).drop_last() =~= s.subrange(0, 2));
    assert(spec_sum(s.subrange(0, 3)) == spec_sum(s.subrange(0, 2)) + s[2]);
    assert(s.subrange(0, 4).drop_last() =~= s.subrange(0, 3));
    assert(spec_sum(s.subrange(0, 4)) == spec_sum(s.subrange(0, 3)) + s[3]);
    assert(s.subrange(0, 5).drop_last() =~= s.subrange(0, 4));
    assert(spec_sum(s.subrange(0, 5)) == spec_sum(s.subrange(0, 4)) + s[4]);
    assert(s.subrange(0, 6).drop_last() =~= s.subrange(0, 5));
    assert(spec_sum(s.subrange(0, 6)) == spec_sum(s.subrange(0, 5)) + s[5]);
    assert(s.subrange(0, 7).drop_last() =~= s.subrange(0, 6));
    assert(spec_sum(s.subrange(0, 7)) == spec_sum(s.subrange(0, 6)) + s[6]);
    assert(s.subrange(0, 8).drop_last() =~= s.subrange(0, 7));
    assert(spec_sum(s.subrange(0, 8)) == spec_sum(s.subrange(0, 7)) + s[7]);
    assert(s.subrange(0, 9).drop_last() =~= s.subrange(0, 8));
    assert(spec_sum(s.subrange(0, 9)) == spec_sum(s.subrange(0, 8)) + s[8]);
    assert(s.subrange(0, 10).drop_last() =~= s.subrange(0, 9));
    assert(spec_sum(s.subrange(0, 10)) == spec_sum(s.subrange(0, 9)) + s[9]);
    assert(s.subrange(0, 11).drop_last() =~= s.subrange(0, 10));
    assert(spec_sum(s.subrange(0, 11)) == spec_sum(s.subrange(0, 10)) + s[10]);
    assert(s.subrange(0, 12).drop_last() =~= s.subrange(0, 11));
    assert(spec_sum(s.subrange(0, 12)) == spec_sum(s.subrange(0, 11)) + s[11]);
    assert(s.subrange(0, 13).drop_last() =~= s.subrange(0, 12));
    assert(spec_sum(s.subrange(0, 13)) == spec_sum(s.subrange(0, 12)) + s[12]);
    assert(s.subrange(0, 14).drop_last() =~= s.subrange(0, 13));
    assert(spec_sum(s.subrange(0, 14)) == spec_sum(s.subrange(0, 13)) + s[13]);
    assert(s.subrange(0, 15).drop_last() =~= s.subrange(0, 14));
    assert(spec_sum(s.subrange(0, 15)) == spec_sum(s.subrange(0, 14)) + s[14]);
    assert(s.subrange(0, 16).drop_last() =~= s.subrange(0, 15));
    assert(spec_sum(s.subrange(0, 16)) == spec_sum(s.subrange(0, 15)) + s[15]);
    assert(s.subrange(0, 16) =~= s);
}


/// The header after a DHT table of class `tc / 16` and slot `tc % 16`.
pub open spec fn spec_with_table(h: JpegHeader, tc: u8, counts: Seq<u8>, symbols: Seq<u8>) -> JpegHeader {
    let t = HuffModel { counts, symbols };
    if tc / 16 == 0 {
        JpegHeader { dc: h.dc.update((tc % 16) as int, Some(t)), ..h }
    } else {
        JpegHeader { ac: h.ac.update((tc % 16) as int, Some(t)), ..h }
    }
}

proof fn lemma_dht_table(d: Seq<u8>, q: int, rem: int, h: JpegHeader, tc: u8, counts: Seq<u8>, vals: Seq<u8>)
    requires
        0 <= q,
        q + 17 + vals.len() <= d.len(),
        counts.len() == 16,
        d.subrange(q, q + 17 + vals.len()) == seq![tc] + counts + vals,
        spec_sum(counts) == vals.len(),
        vals.len() <= 256,
        rem >= 17 + vals.len(),
        tc / 16 <= 1,
        tc % 16 < 4,
        h.dc.len() == 4,
        h.ac.len() == 4,
        tc / 16 == 0 ==> h.dc[(tc % 16) as int] is None,
        tc / 16 == 1 ==> h.ac[(tc % 16) as int] is None,
    ensures
        spec_dht_tables(d, q, rem, h) == spec_dht_tables(
            d,
            q + 17 + vals.len(),
            rem - 17 - vals.len(),
            spec_with_table(h, tc, counts, vals),
        ),
{
    let seg = seq![tc] + counts + vals;
    lemma_holds_at(d, q, seg);
    assert(d[q] == tc);
    lemma_nibbles(tc);
    assert(d.subrange(q + 1, q + 17) =~= counts) by {
        assert forall|i: int| 0 <= i < 16 implies d.subrange(q + 1, q + 17)[i] == counts[i] by {
            assert(d[q + 1 + i] == seg[1 + i]);
        }
    }
    assert(d.subrange(q + 17, q + 17 + vals.len()) =~= vals) by {
        assert forall|i: int| 0 <= i < vals.len() implies d.subrange(q + 17, q + 17 + vals.len())[i] == vals[i] by {
            assert(d[q + 17 + i] == seg[17 + i]);
        }
    }
}


/// One DHT table as the encoder writes it: class and slot, the counts of
/// codes of lengths 1 to 16, and the symbols.
pub open spec fn spec_dht_entry(tc: u8, nrcodes: Seq<u8>, values: Seq<u8>) -> Seq<u8> {
    seq![tc] + nrcodes.subrange(1, 17) + values
}

/// The DHT segment of the encoder.
pub open spec fn spec_dht_bytes() -> Seq<u8> {
    seq![0xFFu8, 0xC4, 0x01, 0xA2] + spec_dht_entry(0x00, spec_dc_lumin_nrcodes(), spec_dc_lumin_values())
        + spec_dht_entry(0x10, spec_ac_lumin_nrcodes(), spec_ac_lumin_values()) + spec_dht_entry(
        0x01,
        spec_dc_chromin_nrcodes(),
        spec_dc_chromin_values(),
    ) + spec_dht_entry(0x11, spec_ac_chromin_nrcodes(), spec_ac_chromin_values())
}

/// The header after the encoder's four Huffman tables.
pub open spec fn spec_header_after_dht(luma: Seq<u8>, chroma: Seq<u8>, width: u16, height: u16, subsample: bool) -> JpegHeader {
    let h = spec_header_after_sof(luma, chroma, width, height, subsample);
    let h1 = spec_with_table(h, 0x00, spec_dc_lumin_nrcodes().subrange(1, 17), spec_dc_lumin_values());
    let h2 = spec_with_table(h1, 0x10, spec_ac_lumin_nrcodes().subrange(1, 17), spec_ac_lumin_values());
    let h3 = spec_with_table(h2, 0x01, spec_dc_chromin_nrcodes().subrange(1, 17), spec_dc_chromin_values());
    spec_with_table(h3, 0x11, spec_ac_chromin_nrcodes().subrange(1, 17), spec_ac_chromin_values())
}

proof fn lemma_entry_at(d: Seq<u8>, a: int, q: int, tc: u8, nr: Seq<u8>, vals: Seq<u8>)
    requires
        0 <= a <= q,
        nr.len() == 17,
        q + 17 + vals.len() <= d.len(),
        forall|j: int| q <= j < q + 17 + vals.len() ==> #[trigger] d[j] == spec_dht_entry(tc, nr, vals)[j - q],
    ensures
        d.subrange(q, q + 17 + vals.len()) == seq![tc] + nr.subrange(1, 17) + vals,
{
    assert(d.subrange(q, q + 17 + vals.len()) =~= seq![tc] + nr.subrange(1, 17) + vals) by {
        assert forall|i: int| 0 <= i < 17 + vals.len() implies d.subrange(q, q + 17 + vals.len())[i] == (seq![tc]
            + nr.subrange(1, 17) + vals)[i] by {
            assert(d[q + i] == spec_dht_entry(tc, nr, vals)[i]);
        }
    }
}

proof fn lemma_step_dht(d: Seq<u8>, luma: Seq<u8>, chroma: Seq<u8>, width: u16, height: u16, subsample: bool)
    requires
        d.len() >= 607,
        d.subrange(173, 593) == spec_dht_bytes(),
    ensures
        spec_segments(d, 173, spec_header_after_sof(luma, chroma, width, height, subsample)) == spec_segments(
            d,
            593,
            spec_header_after_dht(luma, chroma, width, height, subsample),
        ),
{
    let seg = spec_dht_bytes();
    let e0 = spec_dht_entry(0x00, spec_dc_lumin_nrcodes(), spec_dc_lumin_values());
    let e1 = spec_dht_entry(0x10, spec_ac_lumin_nrcodes(), spec_ac_lumin_values());
    let e2 = spec_dht_entry(0x01, spec_dc_chromin_nrcodes(), spec_dc_chromin_values());
    let e3 = spec_dht_entry(0x11, spec_ac_chromin_nrcodes(), spec_ac_chromin_values());
    assert(e0.len() == 29 && e1.len() == 179 && e2.len() == 29 && e3.len() == 179);
    assert(seg.len() == 420);
    lemma_holds_at(d, 173, seg);
    assert(d[173] == 0xFF && d[174] == 0xC4 && d[175] == 0x01 && d[176] == 0xA2);
    lemma_read_be16_value(d, 175);
    assert(forall|j: int| 177 <= j < 206 ==> #[trigger] d[j] == e0[j - 177]);
    assert(forall|j: int| 206 <= j < 385 ==> #[trigger] d[j] == e1[j - 206]);
    assert(forall|j: int| 385 <= j < 414 ==> #[trigger] d[j] == e2[j - 385]);
    assert(forall|j: int| 414 <= j < 593 ==> #[trigger] d[j] == e3[j - 414]);
    lemma_entry_at(d, 173, 177, 0x00, spec_dc_lumin_nrcodes(), spec_dc_lumin_values());
    lemma_entry_at(d, 173, 206, 0x10, spec_ac_lumin_nrcodes(), spec_ac_lumin_values());
    lemma_entry_at(d, 173, 385, 0x01, spec_dc_chromin_nrcodes(), spec_dc_chromin_values());
    lemma_entry_at(d, 173, 414, 0x11, spec_ac_chromin_nrcodes(), spec_ac_chromin_values());
    lemma_sum16(spec_dc_lumin_nrcodes().subrange(1, 17));
    lemma_sum16(spec_ac_lumin_nrcodes().subrange(1, 17));
    lemma_sum16(spec_dc_chromin_nrcodes().subrange(1, 17));
    lemma_sum16(spec_ac_chromin_nrcodes().subrange(1, 17));
    let h = spec_header_after_sof(luma, chroma, width, height, subsample);
    let h1 = spec_with_table(h, 0x00, spec_dc_lumin_nrcodes().subrange(1, 17), spec_dc_lumin_values());
    let h2 = spec_with_table(h1, 0x10, spec_ac_lumin_nrcodes().subrange(1, 17), spec_ac_lumin_values());
    let h3 = spec_with_table(h2, 0x01, spec_dc_chromin_nrcodes().subrange(1, 17), spec_dc_chromin_values());
    let h4 = spec_with_table(h3, 0x11, spec_ac_chromin_nrcodes().subrange(1, 17), spec_ac_chromin_values());
    lemma_dht_table(d, 177, 416, h, 0x00, spec_dc_lumin_nrcodes().subrange(1, 17), spec_dc_lumin_values());
    lemma_dht_table(d, 206, 387, h1, 0x10, spec_ac_lumin_nrcodes().subrange(1, 17), spec_ac_lumin_values());
    lemma_dht_table(d, 385, 208, h2, 0x01, spec_dc_chromin_nrcodes().subrange(1, 17), spec_dc_chromin_values());
    lemma_dht_table(d, 414, 179, h3, 0x11, spec_ac_chromin_nrcodes().subrange(1, 17), spec_ac_chromin_values());
    assert(spec_dht_tables(d, 593, 0, h4) == JpegSeg::Read { hdr: h4, pos: 593 });
    assert(spec_dht(d, 175, h) == JpegSeg::Read { hdr: h4, pos: 593 });
}


/// The scan of the encoder: luma with the first tables, both chroma
/// components with the second.
pub open spec fn spec_encoder_scan() -> Seq<JpegScanComponent> {
    seq![
        JpegScanComponent { component_id: 1, dc_table_id: 0, ac_table_id: 0 },
        JpegScanComponent { component_id: 2, dc_table_id: 1, ac_table_id: 1 },
        JpegScanComponent { component_id: 3, dc_table_id: 1, ac_table_id: 1 },
    ]
}

/// The header that the decoder reads from the header segments of the
/// encoder, for quantization tables `luma` and `chroma` in zigzag order.
pub open spec fn spec_encoder_header(luma: Seq<u8>, chroma: Seq<u8>, width: u16, height: u16, subsample: bool) -> JpegHeader {
    JpegHeader { scan: spec_encoder_scan(), ..spec_header_after_dht(luma, chroma, width, height, subsample) }
}

proof fn lemma_step_sos(d: Seq<u8>, luma: Seq<u8>, chroma: Seq<u8>, width: u16, height: u16, subsample: bool)
    requires
        d.len() >= 607,
        d.subrange(593, 607) == spec_scan_header(),
    ensures
        spec_segments(d, 593, spec_header_after_dht(luma, chroma, width, height, subsample)) == (JpegSeg::Read {
            hdr: spec_encoder_header(luma, chroma, width, height, subsample),
            pos: 607,
        }),
{
    let seg = spec_scan_header();
    lemma_holds_at(d, 593, seg);
    assert(d[593] == 0xFF && d[594] == 0xDA && d[595] == 0 && d[596] == 12 && d[597] == 3);
    assert(d[598] == 1 && d[599] == 0 && d[600] == 2 && d[601] == 0x11 && d[602] == 3 && d[603] == 0x11);
    assert(d[604] == 0 && d[605] == 63 && d[606] == 0);
    lemma_read_be16_value(d, 595);
    lemma_nibbles(d[599]);
    lemma_nibbles(d[601]);
    lemma_nibbles(d[603]);
    let h = spec_header_after_dht(luma, chroma, width, height, subsample);
    let sc = spec_encoder_scan();
    let h0 = JpegHeader { scan: Seq::empty(), ..h };
    let h1 = JpegHeader { scan: h0.scan.push(sc[0]), ..h0 };
    let h2 = JpegHeader { scan: h1.scan.push(sc[1]), ..h1 };
    let h3 = JpegHeader { scan: h2.scan.push(sc[2]), ..h2 };
    assert(h3.scan =~= sc);
    assert(h3 == spec_encoder_header(luma, chroma, width, height, subsample));
    assert(h.components[0].id == 1 && h.components[1].id == 2 && h.components[2].id == 3);
    assert(h1.scan[0].component_id == 1);
    assert(h2.scan[1].component_id == 2);
    assert(spec_sos_comps(d, 604, 3, 3, h3) == JpegSeg::Read { hdr: h3, pos: 607 });
    assert(spec_sos_comps(d, 602, 3, 2, h2) == JpegSeg::Read { hdr: h3, pos: 607 });
    assert(spec_sos_comps(d, 600, 3, 1, h1) == JpegSeg::Read { hdr: h3, pos: 607 });
    assert(spec_sos_comps(d, 598, 3, 0, h0) == JpegSeg::Read { hdr: h3, pos: 607 });
    assert(spec_sos(d, 595, h) == JpegSeg::Read { hdr: h3, pos: 607 });
    assert(spec_header_valid(h3));
}


/// Reading the header that the encoder writes (start of image, JFIF
/// segment, quantization tables, frame header, Huffman tables and scan
/// header) gives back its dimensions, components, tables and scan, for
/// any bytes after it and any image at least one pixel wide and high.
pub proof fn lemma_jpeg_header_roundtrip(
    luma: Seq<u8>,
    chroma: Seq<u8>,
    width: u16,
    height: u16,
    subsample: bool,
    rest: Seq<u8>,
)
    requires
        luma.len() == 64,
        chroma.len() == 64,
        width >= 1,
        height >= 1,
    ensures
        spec_jpeg_header(
            spec_soi_and_tables(luma, chroma) + spec_frame_and_tables(width, height, subsample) + spec_scan_header()
                + rest,
            0,
        ) == (JpegSeg::Read { hdr: spec_encoder_header(luma, chroma, width, height, subsample), pos: 607 }),
{
    let a = spec_soi_and_tables(luma, chroma);
    let f = spec_frame_and_tables(width, height, subsample);
    let sc = spec_scan_header();
    let d = a + f + sc + rest;
    assert(a.len() == 154);
    assert(f.len() == 439);
    assert(sc.len() == 14);
    assert(d.subrange(0, 20) =~= spec_soi_app0());
    assert(d.subrange(20, 154) =~= seq![0xFFu8, 0xDB, 0x00, 0x84, 0x00] + luma + seq![0x01u8] + chroma);
    assert(d.subrange(154, 173) =~= spec_sof_bytes(width, height, subsample));
    assert(d.subrange(173, 593) =~= spec_dht_bytes());
    assert(d.subrange(593, 607) =~= spec_scan_header());
    lemma_step_app0(d);
    lemma_step_dqt(d, luma, chroma);
    lemma_step_sof(d, luma, chroma, width, height, subsample);
    lemma_step_dht(d, luma, chroma, width, height, subsample);
    lemma_step_sos(d, luma, chroma, width, height, subsample);
}


/// The unzigzag table of the decoder and the zigzag table of the encoder
/// are inverse permutations of the 64 positions of a block.
proof fn lemma_zigzag_both_ways()
    ensures
        forall|k: int| 0 <= k < 64 ==> #[trigger] spec_unzigzag()[spec_zigzag()[k] as int] == k,
        forall|k: int| 0 <= k < 64 ==> #[trigger] spec_zigzag()[spec_unzigzag()[k] as int] == k,
        forall|k: int| 0 <= k < 64 ==> #[trigger] spec_zigzag()[k] < 64,
        forall|k: int| 0 <= k < 64 ==> #[trigger] spec_unzigzag()[k] < 64,
{
    crate::jpeg_write::lemma_zigzag_inverse();
    crate::jpeg_entropy_laws::lemma_unzigzag_inverse();
}

proof fn lemma_place_prefix(v: Seq<u16>, n: int)
    requires
        v.len() == 64,
        0 <= n <= 64,
    ensures
        spec_place(v, n).len() == 64,
        forall|x: int| 0 <= x < 64 ==> #[trigger] spec_place(v, n)[x] == if (spec_zigzag()[x] as int) < n {
            v[spec_zigzag()[x] as int]
        } else {
            0u16
        },
    decreases n,
{
    lemma_zigzag_both_ways();
    if n > 0 {
        lemma_place_prefix(v, n - 1);
        let u = spec_unzigzag()[n - 1] as int;
        assert forall|x: int| 0 <= x < 64 implies #[trigger] spec_place(v, n)[x] == if (spec_zigzag()[x] as int) < n {
            v[spec_zigzag()[x] as int]
        } else {
            0u16
        } by {
            if x == u {
                assert(spec_zigzag()[x] == n - 1);
            } else {
                let zx = spec_zigzag()[x] as int;
                assert(spec_unzigzag()[zx] == x);
                assert(zx != n - 1);
            }
        }
    }
}

/// The quantization table that the decoder reads from the encoder's DQT
/// segment, whose values are in zigzag order, holds at each natural
/// position the value of that position: the table the encoder built.
pub proof fn lemma_quant_table_natural(t: Seq<u8>)
    requires
        t.len() == 64,
    ensures
        spec_place(spec_widen(t), 64).len() == 64,
        forall|x: int| 0 <= x < 64 ==> #[trigger] spec_place(spec_widen(t), 64)[x] == t[spec_zigzag()[x] as int] as u16,
{
    lemma_zigzag_both_ways();
    lemma_place_prefix(spec_widen(t), 64);
}

} // verus!
