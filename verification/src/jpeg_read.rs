use vstd::prelude::*;
use crate::bytes::{ByteCursor, spec_read_be16};
use crate::color_type::{BitDepth, ColorType};
use crate::error::{PictorError, PictorResult};
use crate::samples::SampleStorage;

verus! {

/// Maps a position in zigzag order to its position in the natural
/// row-major order of an 8x8 block.
pub open spec fn spec_unzigzag() -> Seq<usize> {
    seq![
        0usize, 1, 8, 16, 9, 2, 3, 10, 17, 24, 32, 25, 18, 11, 4, 5, 12, 19, 26, 33, 40, 48, 41, 34, 27, 20,
        13, 6, 7, 14, 21, 28, 35, 42, 49, 56, 57, 50, 43, 36, 29, 22, 15, 23, 30, 37, 44, 51, 58, 59,
        52, 45, 38, 31, 39, 46, 53, 60, 61, 54, 47, 55, 62, 63,
    ]
}

/// The zigzag-to-natural table of the decoder.
pub fn unzigzag_table() -> (r: [usize; 64])
    ensures
        r@ == spec_unzigzag(),
        forall|i: int| 0 <= i < 64 ==> #[trigger] r@[i] < 64,
{
    let r = [
        0, 1, 8, 16, 9, 2, 3, 10, 17, 24, 32, 25, 18, 11, 4, 5, 12, 19, 26, 33, 40, 48, 41, 34, 27, 20,
        13, 6, 7, 14, 21, 28, 35, 42, 49, 56, 57, 50, 43, 36, 29, 22, 15, 23, 30, 37, 44, 51, 58, 59,
        52, 45, 38, 31, 39, 46, 53, 60, 61, 54, 47, 55, 62, 63,
    ];
    assert(r@ =~= spec_unzigzag());
    r
}

/// A component of the frame: Y, Cb or Cr.
#[derive(Clone, Copy, Debug, PartialEq, Eq, Structural)]
pub struct JpegComponent {
    pub id: u8,
    pub horizontal_sampling: u8,
    pub vertical_sampling: u8,
    pub quantization_table_id: u8,
}

/// A Huffman table as a DHT segment stores it.
pub struct JpegHuffmanTable {
    /// Number of codes of each length from 1 to 16.
    pub code_counts: [u8; 16],
    /// Symbols by increasing code length.
    pub symbols: Vec<u8>,
}

/// The contents of a Huffman table.
pub struct HuffModel {
    pub counts: Seq<u8>,
    pub symbols: Seq<u8>,
}

impl JpegHuffmanTable {
    pub open spec fn model(&self) -> HuffModel {
        HuffModel { counts: self.code_counts@, symbols: self.symbols@ }
    }
}

/// A component of a scan and the Huffman tables it is coded with.
#[derive(Clone, Copy, Debug, PartialEq, Eq, Structural)]
pub struct JpegScanComponent {
    pub component_id: u8,
    pub dc_table_id: u8,
    pub ac_table_id: u8,
}

/// The header of a baseline JPEG stream.
pub struct JpegDecodeRequest {
    pub width: u16,
    pub height: u16,
    pub color_type: ColorType,
    pub components: Vec<JpegComponent>,
    /// Four slots of quantization tables, in natural order.
    pub quantization_tables: Vec<Option<[u16; 64]>>,
    /// Four slots of DC Huffman tables.
    pub dc_huffman_tables: Vec<Option<JpegHuffmanTable>>,
    /// Four slots of AC Huffman tables.
    pub ac_huffman_tables: Vec<Option<JpegHuffmanTable>>,
    pub scan_components: Vec<JpegScanComponent>,
}

/// What a JPEG header holds, as values.
pub struct JpegHeader {
    pub width: u16,
    pub height: u16,
    pub color_type: ColorType,
    pub components: Seq<JpegComponent>,
    pub quant: Seq<Option<Seq<u16>>>,
    pub dc: Seq<Option<HuffModel>>,
    pub ac: Seq<Option<HuffModel>>,
    pub scan: Seq<JpegScanComponent>,
}

pub open spec fn spec_quant_opt(t: Option<[u16; 64]>) -> Option<Seq<u16>> {
    match t {
        Some(q) => Some(q@),
        None => None,
    }
}

pub open spec fn spec_huff_opt(t: Option<JpegHuffmanTable>) -> Option<HuffModel> {
    match t {
        Some(h) => Some(h.model()),
        None => None,
    }
}

/// The header before any segment is read.
pub open spec fn spec_empty_header() -> JpegHeader {
    JpegHeader {
        width: 0,
        height: 0,
        color_type: ColorType::L,
        components: Seq::empty(),
        quant: Seq::new(4, |i: int| None::<Seq<u16>>),
        dc: Seq::new(4, |i: int| None::<HuffModel>),
        ac: Seq::new(4, |i: int| None::<HuffModel>),
        scan: Seq::empty(),
    }
}

impl JpegDecodeRequest {
    /// The header this request holds.
    pub open spec fn model(&self) -> JpegHeader {
        JpegHeader {
            width: self.width,
            height: self.height,
            color_type: self.color_type,
            components: self.components@,
            quant: self.quantization_tables@.map_values(|t: Option<[u16; 64]>| spec_quant_opt(t)),
            dc: self.dc_huffman_tables@.map_values(|t: Option<JpegHuffmanTable>| spec_huff_opt(t)),
            ac: self.ac_huffman_tables@.map_values(|t: Option<JpegHuffmanTable>| spec_huff_opt(t)),
            scan: self.scan_components@,
        }
    }

    /// Four table slots of each kind, and sampling factors of at least one.
    pub open spec fn wf(&self) -> bool {
        &&& self.quantization_tables@.len() == 4
        &&& self.dc_huffman_tables@.len() == 4
        &&& self.ac_huffman_tables@.len() == 4
        &&& forall|i: int|
            0 <= i < self.components@.len() ==> (#[trigger] self.components@[i]).horizontal_sampling >= 1
                && self.components@[i].vertical_sampling >= 1
    }

    #[inline]
    pub fn width(&self) -> (r: u16)
        ensures
            r == self.width,
    {
        self.width
    }

    #[inline]
    pub fn height(&self) -> (r: u16)
        ensures
            r == self.height,
    {
        self.height
    }

    #[inline]
    pub fn color_type(&self) -> (r: ColorType)
        ensures
            r == self.color_type,
    {
        self.color_type
    }
}

impl Default for JpegDecodeRequest {
    fn default() -> (r: JpegDecodeRequest)
        ensures
            r.model() == spec_empty_header(),
            r.wf(),
    {
        let mut quantization_tables: Vec<Option<[u16; 64]>> = Vec::new();
        let mut dc_huffman_tables: Vec<Option<JpegHuffmanTable>> = Vec::new();
        let mut ac_huffman_tables: Vec<Option<JpegHuffmanTable>> = Vec::new();
        let mut i: usize = 0;
        while i < 4
            invariant
                i <= 4,
                quantization_tables@.len() == i,
                dc_huffman_tables@.len() == i,
                ac_huffman_tables@.len() == i,
                forall|k: int| 0 <= k < i ==> quantization_tables@[k] is None,
                forall|k: int| 0 <= k < i ==> dc_huffman_tables@[k] is None,
                forall|k: int| 0 <= k < i ==> ac_huffman_tables@[k] is None,
            decreases 4 - i,
        {
            quantization_tables.push(None);
            dc_huffman_tables.push(None);
            ac_huffman_tables.push(None);
            i = i + 1;
        }
        let r = JpegDecodeRequest {
            width: 0,
            height: 0,
            color_type: ColorType::default(),
            components: Vec::new(),
            quantization_tables,
            dc_huffman_tables,
            ac_huffman_tables,
            scan_components: Vec::new(),
        };
        assert(r.model().quant =~= spec_empty_header().quant);
        assert(r.model().dc =~= spec_empty_header().dc);
        assert(r.model().ac =~= spec_empty_header().ac);
        r
    }
}

/// The second byte of a JPEG marker.
#[derive(Clone, Copy, Debug, PartialEq, Eq, Structural)]
pub struct Marker(pub u8);

impl Marker {
    /// Start of image.
    pub fn soi() -> (r: Marker)
        ensures
            r.0 == 0xD8,
    {
        Marker(0xD8)
    }

    /// Comment.
    pub fn com() -> (r: Marker)
        ensures
            r.0 == 0xFE,
    {
        Marker(0xFE)
    }

    pub fn from_byte(byte: u8) -> (r: Marker)
        ensures
            r.0 == byte,
    {
        Marker(byte)
    }

    pub open spec fn spec_is_sof(self) -> bool {
        (0xC0 <= self.0 <= 0xC3) || (0xC5 <= self.0 <= 0xC7) || (0xC9 <= self.0 <= 0xCB) || (0xCD <= self.0
            <= 0xCF)
    }

    pub open spec fn spec_is_app(self) -> bool {
        0xE0 <= self.0 <= 0xEF
    }

    pub open spec fn spec_is_skippable_segment(self) -> bool {
        self.spec_is_app() || self.0 == 0xFE
    }

    /// A start-of-frame marker of any coding process.
    pub fn is_sof(self) -> (r: bool)
        ensures
            r == self.spec_is_sof(),
    {
        (0xC0 <= self.0 && self.0 <= 0xC3) || (0xC5 <= self.0 && self.0 <= 0xC7) || (0xC9 <= self.0 && self.0
            <= 0xCB) || (0xCD <= self.0 && self.0 <= 0xCF)
    }

    /// An application segment marker.
    pub fn is_app(self) -> (r: bool)
        ensures
            r == self.spec_is_app(),
    {
        0xE0 <= self.0 && self.0 <= 0xEF
    }

    /// A segment the decoder skips: application data or a comment.
    pub fn is_skippable_segment(self) -> (r: bool)
        ensures
            r == self.spec_is_skippable_segment(),
    {
        self.is_app() || self == Marker::com()
    }
}

/// How reading a part of a JPEG header ends.
pub enum JpegSeg {
    /// The part was read; the header becomes `hdr` and reading goes on at `pos`.
    Read { hdr: JpegHeader, pos: int },
    /// The input ended first.
    Eof,
    /// The input is not a baseline JPEG header.
    Bad,
}

/// `r` and the reader and header after the call agree with outcome `o`.
pub open spec fn spec_seg_result(o: JpegSeg, r: PictorResult<()>, hdr: JpegHeader, pos: int) -> bool {
    match o {
        JpegSeg::Read { hdr: h, pos: p } => r is Ok && hdr == h && pos == p,
        JpegSeg::Eof => r matches Err(PictorError::IoError { .. }),
        JpegSeg::Bad => r matches Err(PictorError::InvalidFormat { .. }),
    }
}

/// Reading a marker at `pos`: `Some(byte)` is its second byte.
pub open spec fn spec_marker(d: Seq<u8>, pos: int) -> JpegSeg {
    if pos >= d.len() {
        JpegSeg::Eof
    } else if d[pos] != 0xFF {
        JpegSeg::Bad
    } else if pos + 1 >= d.len() {
        JpegSeg::Eof
    } else if d[pos + 1] == 0xFF {
        JpegSeg::Bad
    } else {
        JpegSeg::Read { hdr: spec_empty_header(), pos: pos + 2 }
    }
}

/// Skipping a segment whose length field is at `pos`.
pub open spec fn spec_skip(d: Seq<u8>, pos: int, h: JpegHeader) -> JpegSeg {
    if pos + 2 > d.len() {
        JpegSeg::Eof
    } else if spec_read_be16(d, pos) < 2 {
        JpegSeg::Bad
    } else if pos + spec_read_be16(d, pos) > d.len() {
        JpegSeg::Eof
    } else {
        JpegSeg::Read { hdr: h, pos: pos + spec_read_be16(d, pos) }
    }
}

/// The checks made once the scan header is read: some component, and a
/// quantization table for each.
pub open spec fn spec_header_valid(h: JpegHeader) -> bool {
    &&& h.components.len() > 0
    &&& forall|i: int|
        0 <= i < h.components.len() ==> (#[trigger] h.components[i]).quantization_table_id < 4
            && h.quant[h.components[i].quantization_table_id as int] is Some
}

/// The components of a frame header, from the `i`-th of `n`, whose
/// three-byte entries start at `q`.
pub open spec fn spec_sof0_comps(d: Seq<u8>, q: int, n: int, i: int, h: JpegHeader) -> JpegSeg
    decreases n - i,
{
    if i >= n {
        JpegSeg::Read { hdr: h, pos: q }
    } else if q + 3 > d.len() {
        JpegSeg::Eof
    } else if d[q + 1] >> 4u8 == 0 || d[q + 1] & 0x0Fu8 == 0 {
        JpegSeg::Bad
    } else {
        let c = JpegComponent {
            id: d[q],
            horizontal_sampling: d[q + 1] >> 4u8,
            vertical_sampling: d[q + 1] & 0x0Fu8,
            quantization_table_id: d[q + 2],
        };
        spec_sof0_comps(d, q + 3, n, i + 1, JpegHeader { components: h.components.push(c), ..h })
    }
}

/// Reading a baseline frame header (SOF0) whose length field is at `p`.
pub open spec fn spec_sof0(d: Seq<u8>, p: int, h: JpegHeader) -> JpegSeg {
    if p + 2 > d.len() {
        JpegSeg::Eof
    } else if spec_read_be16(d, p) < 8 {
        JpegSeg::Bad
    } else if p + 3 > d.len() {
        JpegSeg::Eof
    } else if d[p + 2] != 8 {
        JpegSeg::Bad
    } else if p + 7 > d.len() {
        JpegSeg::Eof
    } else if spec_read_be16(d, p + 5) == 0 || spec_read_be16(d, p + 3) == 0 {
        JpegSeg::Bad
    } else if p + 8 > d.len() {
        JpegSeg::Eof
    } else if spec_read_be16(d, p) != 8 + 3 * d[p + 7] {
        JpegSeg::Bad
    } else if d[p + 7] != 1 && d[p + 7] != 3 {
        JpegSeg::Bad
    } else {
        let h1 = JpegHeader {
            width: spec_read_be16(d, p + 5),
            height: spec_read_be16(d, p + 3),
            color_type: if d[p + 7] == 1 { ColorType::L } else { ColorType::Rgb },
            ..h
        };
        spec_sof0_comps(d, p + 8, d[p + 7] as int, 0, h1)
    }
}

/// The first `n` values of a zigzag-ordered table placed at their natural positions.
pub open spec fn spec_place(v: Seq<u16>, n: int) -> Seq<u16>
    decreases n,
{
    if n <= 0 {
        Seq::new(64, |k: int| 0u16)
    } else {
        spec_place(v, n - 1).update(spec_unzigzag()[n - 1] as int, v[n - 1])
    }
}

/// The 64 values of a quantization table stored at `q`, one or two bytes each.
pub open spec fn spec_dqt_values(d: Seq<u8>, q: int, precision: u8) -> Seq<u16> {
    Seq::new(64, |i: int| if precision == 0 { d[q + i] as u16 } else { spec_read_be16(d, q + 2 * i) })
}

/// Quantization tables at `q`, with `rem` bytes of the segment left.
pub open spec fn spec_dqt_tables(d: Seq<u8>, q: int, rem: int, h: JpegHeader) -> JpegSeg
    decreases rem,
{
    if rem <= 0 {
        JpegSeg::Read { hdr: h, pos: q }
    } else if q >= d.len() {
        JpegSeg::Eof
    } else if d[q] >> 4u8 > 1 {
        JpegSeg::Bad
    } else if d[q] & 0x0Fu8 >= 4 {
        JpegSeg::Bad
    } else {
        let precision = d[q] >> 4u8;
        let size: int = if precision == 0 { 64 } else { 128 };
        if rem - 1 < size {
            JpegSeg::Bad
        } else if q + 1 + size > d.len() {
            JpegSeg::Eof
        } else {
            let table = spec_place(spec_dqt_values(d, q + 1, precision), 64);
            let id = (d[q] & 0x0Fu8) as int;
            spec_dqt_tables(d, q + 1 + size, rem - 1 - size, JpegHeader { quant: h.quant.update(id, Some(table)), ..h })
        }
    }
}

/// Reading a DQT segment whose length field is at `p`.
pub open spec fn spec_dqt(d: Seq<u8>, p: int, h: JpegHeader) -> JpegSeg {
    if p + 2 > d.len() {
        JpegSeg::Eof
    } else if spec_read_be16(d, p) < 2 {
        JpegSeg::Bad
    } else {
        spec_dqt_tables(d, p + 2, spec_read_be16(d, p) - 2, h)
    }
}

/// The sum of a sequence of bytes.
pub open spec fn spec_sum(s: Seq<u8>) -> int
    decreases s.len(),
{
    if s.len() == 0 {
        0
    } else {
        spec_sum(s.drop_last()) + s.last()
    }
}

/// A sum of bytes is at least zero and at most 255 per byte.
pub proof fn lemma_sum_bounds(s: Seq<u8>)
    ensures
        0 <= spec_sum(s) <= 255 * s.len(),
    decreases s.len(),
{
    if s.len() > 0 {
        lemma_sum_bounds(s.drop_last());
    }
}

/// Huffman tables at `q`, with `rem` bytes of the segment left.
pub open spec fn spec_dht_tables(d: Seq<u8>, q: int, rem: int, h: JpegHeader) -> JpegSeg
    decreases rem,
{
    if rem <= 0 {
        JpegSeg::Read { hdr: h, pos: q }
    } else if rem < 17 {
        JpegSeg::Bad
    } else if q >= d.len() {
        JpegSeg::Eof
    } else if d[q] >> 4u8 > 1 {
        JpegSeg::Bad
    } else if d[q] & 0x0Fu8 >= 4 {
        JpegSeg::Bad
    } else if q + 17 > d.len() {
        JpegSeg::Eof
    } else {
        let counts = d.subrange(q + 1, q + 17);
        let n = spec_sum(counts);
        let id = (d[q] & 0x0Fu8) as int;
        let table = HuffModel { counts, symbols: d.subrange(q + 17, q + 17 + n) };
        proof {
            lemma_sum_bounds(counts);
        }
        if n > 256 {
            JpegSeg::Bad
        } else if rem - 17 < n {
            JpegSeg::Bad
        } else if q + 17 + n > d.len() {
            JpegSeg::Eof
        } else if d[q] >> 4u8 == 0 {
            if h.dc[id] is Some {
                JpegSeg::Bad
            } else {
                spec_dht_tables(d, q + 17 + n, rem - 17 - n, JpegHeader { dc: h.dc.update(id, Some(table)), ..h })
            }
        } else {
            if h.ac[id] is Some {
                JpegSeg::Bad
            } else {
                spec_dht_tables(d, q + 17 + n, rem - 17 - n, JpegHeader { ac: h.ac.update(id, Some(table)), ..h })
            }
        }
    }
}

/// Reading a DHT segment whose length field is at `p`.
pub open spec fn spec_dht(d: Seq<u8>, p: int, h: JpegHeader) -> JpegSeg {
    if p + 2 > d.len() {
        JpegSeg::Eof
    } else if spec_read_be16(d, p) < 2 {
        JpegSeg::Bad
    } else {
        spec_dht_tables(d, p + 2, spec_read_be16(d, p) - 2, h)
    }
}

/// Some component of the frame has identifier `id`.
pub open spec fn spec_has_component(h: JpegHeader, id: u8) -> bool {
    exists|j: int| 0 <= j < h.components.len() && (#[trigger] h.components[j]).id == id
}

/// Some component of the scan so far has identifier `id`.
pub open spec fn spec_has_scan_component(h: JpegHeader, id: u8) -> bool {
    exists|j: int| 0 <= j < h.scan.len() && (#[trigger] h.scan[j]).component_id == id
}

/// The components of a scan header, from the `i`-th of `n`, whose two-byte
/// entries start at `q`, then the three bytes of spectral selection and
/// successive approximation.
pub open spec fn spec_sos_comps(d: Seq<u8>, q: int, n: int, i: int, h: JpegHeader) -> JpegSeg
    decreases n - i,
{
    if i >= n {
        if q + 3 > d.len() {
            JpegSeg::Eof
        } else if d[q] != 0 || d[q + 1] != 63 || d[q + 2] != 0 {
            JpegSeg::Bad
        } else {
            JpegSeg::Read { hdr: h, pos: q + 3 }
        }
    } else if q + 2 > d.len() {
        JpegSeg::Eof
    } else {
        let id = d[q];
        let dc = d[q + 1] >> 4u8;
        let ac = d[q + 1] & 0x0Fu8;
        if dc >= 4 || ac >= 4 {
            JpegSeg::Bad
        } else if !spec_has_component(h, id) {
            JpegSeg::Bad
        } else if spec_has_scan_component(h, id) {
            JpegSeg::Bad
        } else if h.dc[dc as int] is None {
            JpegSeg::Bad
        } else if h.ac[ac as int] is None {
            JpegSeg::Bad
        } else {
            let c = JpegScanComponent { component_id: id, dc_table_id: dc, ac_table_id: ac };
            spec_sos_comps(d, q + 2, n, i + 1, JpegHeader { scan: h.scan.push(c), ..h })
        }
    }
}

/// Reading a scan header (SOS) whose length field is at `p`.
pub open spec fn spec_sos(d: Seq<u8>, p: int, h: JpegHeader) -> JpegSeg {
    if p + 2 > d.len() {
        JpegSeg::Eof
    } else if spec_read_be16(d, p) < 6 {
        JpegSeg::Bad
    } else if p + 3 > d.len() {
        JpegSeg::Eof
    } else if d[p + 2] == 0 {
        JpegSeg::Bad
    } else if spec_read_be16(d, p) != 6 + 2 * d[p + 2] {
        JpegSeg::Bad
    } else if d[p + 2] != h.components.len() {
        JpegSeg::Bad
    } else {
        spec_sos_comps(d, p + 3, d[p + 2] as int, 0, JpegHeader { scan: Seq::empty(), ..h })
    }
}

/// Reading segments from the marker at `pos` until the scan header, with
/// header `h` read so far.
pub open spec fn spec_segments(d: Seq<u8>, pos: int, h: JpegHeader) -> JpegSeg
    decreases d.len() - pos,
{
    match spec_marker(d, pos) {
        JpegSeg::Eof => JpegSeg::Eof,
        JpegSeg::Bad => JpegSeg::Bad,
        JpegSeg::Read { pos: q, .. } => {
            let m = Marker(d[pos + 1]);
            let seg = if m.0 == 0xDB {
                spec_dqt(d, q, h)
            } else if m.0 == 0xC0 {
                spec_sof0(d, q, h)
            } else if m.0 == 0xC4 {
                spec_dht(d, q, h)
            } else if m.0 == 0xDA {
                spec_sos(d, q, h)
            } else if m.spec_is_skippable_segment() {
                spec_skip(d, q, h)
            } else {
                JpegSeg::Bad
            };
            match seg {
                JpegSeg::Read { hdr, pos: r } => if m.0 == 0xDA {
                    if spec_header_valid(hdr) {
                        JpegSeg::Read { hdr, pos: r }
                    } else {
                        JpegSeg::Bad
                    }
                } else if pos < r <= d.len() {
                    spec_segments(d, r, hdr)
                } else {
                    JpegSeg::Bad
                },
                other => other,
            }
        },
    }
}

/// Reading a JPEG header at `pos`: the start-of-image marker, then segments
/// up to and including the scan header.
pub open spec fn spec_jpeg_header(d: Seq<u8>, pos: int) -> JpegSeg {
    if pos >= d.len() {
        JpegSeg::Eof
    } else if d[pos] != 0xFF {
        JpegSeg::Bad
    } else if pos + 1 >= d.len() {
        JpegSeg::Eof
    } else if d[pos + 1] != 0xD8 {
        JpegSeg::Bad
    } else {
        spec_segments(d, pos + 2, spec_empty_header())
    }
}

/// Some component in `v` has identifier `id`.
fn any_component(v: &Vec<JpegComponent>, id: u8) -> (r: bool)
    ensures
        r == exists|j: int| 0 <= j < v@.len() && (#[trigger] v@[j]).id == id,
{
    let mut i: usize = 0;
    while i < v.len()
        invariant
            i <= v@.len(),
            forall|j: int| 0 <= j < i ==> (#[trigger] v@[j]).id != id,
        decreases v@.len() - i,
    {
        if v[i].id == id {
            return true;
        }
        i = i + 1;
    }
    false
}

/// Some scan component in `v` has identifier `id`.
fn any_scan_component(v: &Vec<JpegScanComponent>, id: u8) -> (r: bool)
    ensures
        r == exists|j: int| 0 <= j < v@.len() && (#[trigger] v@[j]).component_id == id,
{
    let mut i: usize = 0;
    while i < v.len()
        invariant
            i <= v@.len(),
            forall|j: int| 0 <= j < i ==> (#[trigger] v@[j]).component_id != id,
        decreases v@.len() - i,
    {
        if v[i].component_id == id {
            return true;
        }
        i = i + 1;
    }
    false
}

/// A reader of JPEG header segments.
pub struct JpegReader<'a> {
    pub reader: ByteCursor<'a>,
}

impl<'a> JpegReader<'a> {
    /// A reader that starts where `reader` stands.
    pub fn new(reader: &ByteCursor<'a>) -> (r: JpegReader<'a>)
        ensures
            r.reader == *reader,
    {
        JpegReader { reader: ByteCursor { data: reader.data, pos: reader.pos } }
    }

    pub fn read_u8(&mut self) -> (r: PictorResult<u8>)
        requires
            old(self).reader.pos <= old(self).reader.data@.len(),
        ensures
            final(self).reader.data == old(self).reader.data,
            final(self).reader.pos <= final(self).reader.data@.len(),
            old(self).reader.pos < old(self).reader.data@.len() <==> r is Ok,
            r matches Ok(b) ==> b == old(self).reader.data@[old(self).reader.pos as int] && final(self).reader.pos
                == old(self).reader.pos + 1,
            r matches Err(e) ==> e is IoError,
    {
        self.reader.read_u8()
    }

    pub fn read_u16_be(&mut self) -> (r: PictorResult<u16>)
        requires
            old(self).reader.pos <= old(self).reader.data@.len(),
        ensures
            final(self).reader.data == old(self).reader.data,
            final(self).reader.pos <= final(self).reader.data@.len(),
            old(self).reader.pos + 2 <= old(self).reader.data@.len() <==> r is Ok,
            r matches Ok(v) ==> v == spec_read_be16(old(self).reader.data@, old(self).reader.pos as int)
                && final(self).reader.pos == old(self).reader.pos + 2,
            r matches Err(e) ==> e is IoError,
    {
        self.reader.read_u16_be()
    }

    /// Reads `FF` and a marker byte other than `FF`.
    pub fn read_marker(&mut self) -> (r: PictorResult<Marker>)
        requires
            old(self).reader.pos <= old(self).reader.data@.len(),
        ensures
            final(self).reader.data == old(self).reader.data,
            final(self).reader.pos <= final(self).reader.data@.len(),
            ({
                let d = old(self).reader.data@;
                let p = old(self).reader.pos as int;
                match spec_marker(d, p) {
                    JpegSeg::Read { pos, .. } => r == Ok::<Marker, PictorError>(Marker(d[p + 1]))
                        && final(self).reader.pos == pos,
                    JpegSeg::Eof => r matches Err(PictorError::IoError { .. }),
                    JpegSeg::Bad => r matches Err(PictorError::InvalidFormat { .. }),
                }
            }),
    {
        let marker = self.read_u8()?;
        if marker != 0xFF {
            return Err(PictorError::invalid_format("Unexpected JPEG marker"));
        }
        let byte = self.read_u8()?;
        if byte == 0xFF {
            return Err(PictorError::invalid_format("Unexpected JPEG marker"));
        }
        Ok(Marker::from_byte(byte))
    }

    /// Reads `FF` and the marker byte `expected`.
    pub fn expect_marker(&mut self, expected: Marker) -> (r: PictorResult<()>)
        requires
            old(self).reader.pos <= old(self).reader.data@.len(),
        ensures
            final(self).reader.data == old(self).reader.data,
            final(self).reader.pos <= final(self).reader.data@.len(),
            ({
                let d = old(self).reader.data@;
                let p = old(self).reader.pos as int;
                if p >= d.len() {
                    r matches Err(PictorError::IoError { .. })
                } else if d[p] != 0xFF {
                    r matches Err(PictorError::InvalidFormat { .. })
                } else if p + 1 >= d.len() {
                    r matches Err(PictorError::IoError { .. })
                } else if d[p + 1] != expected.0 {
                    r matches Err(PictorError::InvalidFormat { .. })
                } else {
                    r is Ok && final(self).reader.pos == p + 2
                }
            }),
    {
        let prefix = self.read_u8()?;
        if prefix != 0xFF {
            return Err(PictorError::invalid_format("Expected JPEG marker"));
        }
        let marker = Marker::from_byte(self.read_u8()?);
        if marker != expected {
            return Err(PictorError::invalid_format("Expected JPEG marker"));
        }
        Ok(())
    }

    /// Skips a segment: its length field, then the rest of it.
    pub fn skip_segment(&mut self) -> (r: PictorResult<()>)
        requires
            old(self).reader.pos <= old(self).reader.data@.len(),
        ensures
            final(self).reader.data == old(self).reader.data,
            final(self).reader.pos <= final(self).reader.data@.len(),
            ({
                let d = old(self).reader.data@;
                let p = old(self).reader.pos as int;
                match spec_skip(d, p, spec_empty_header()) {
                    JpegSeg::Read { pos, .. } => r is Ok && final(self).reader.pos == pos,
                    JpegSeg::Eof => r matches Err(PictorError::IoError { .. }),
                    JpegSeg::Bad => r matches Err(PictorError::InvalidFormat { .. }),
                }
            }),
    {
        let ghost d = self.reader.data@;
        let ghost p = self.reader.pos as int;
        let length = self.read_u16_be()?;
        if length < 2 {
            return Err(PictorError::invalid_format("Invalid JPEG segment length"));
        }
        let mut remaining: usize = (length - 2) as usize;
        while remaining > 0
            invariant
                self.reader.data == old(self).reader.data,
                d == old(self).reader.data@,
                p == old(self).reader.pos,
                self.reader.pos <= d.len(),
                self.reader.pos + remaining == p + 2 + (length - 2),
                length == spec_read_be16(d, p),
                length >= 2,
                p + 2 <= d.len(),
            decreases remaining,
        {
            let chunk_size = if remaining < 256 { remaining } else { 256 };
            self.reader.read_exact(chunk_size)?;
            remaining = remaining - chunk_size;
        }
        Ok(())
    }

    /// Checks that the frame has components and that each names a
    /// quantization table that was defined.
    pub fn validate(&self, request: &JpegDecodeRequest) -> (r: PictorResult<()>)
        requires
            request.wf(),
        ensures
            spec_header_valid(request.model()) <==> r is Ok,
            r matches Err(e) ==> e is InvalidFormat,
    {
        if request.components.len() == 0 {
            return Err(PictorError::invalid_format("JPEG SOF0 contains no components"));
        }
        let mut i: usize = 0;
        while i < request.components.len()
            invariant
                request.wf(),
                i <= request.components@.len(),
                forall|k: int|
                    0 <= k < i ==> (#[trigger] request.components@[k]).quantization_table_id < 4
                        && request.model().quant[request.components@[k].quantization_table_id as int] is Some,
            decreases request.components@.len() - i,
        {
            let table_id = request.components[i].quantization_table_id as usize;
            if table_id >= request.quantization_tables.len() {
                return Err(PictorError::invalid_format("JPEG component references an invalid quantization table"));
            }
            if request.quantization_tables[table_id].is_none() {
                return Err(PictorError::invalid_format("JPEG component references a missing quantization table"));
            }
            i = i + 1;
        }
        Ok(())
    }

    /// Reads a baseline frame header: size, component count and the
    /// components with their sampling factors and quantization tables.
    pub fn read_sof0(&mut self, request: &mut JpegDecodeRequest) -> (r: PictorResult<()>)
        requires
            old(self).reader.pos <= old(self).reader.data@.len(),
            old(request).wf(),
        ensures
            final(self).reader.data == old(self).reader.data,
            final(self).reader.pos <= final(self).reader.data@.len(),
            final(request).wf(),
            spec_seg_result(
                spec_sof0(old(self).reader.data@, old(self).reader.pos as int, old(request).model()),
                r,
                final(request).model(),
                final(self).reader.pos as int,
            ),
            r is Ok ==> final(self).reader.pos >= old(self).reader.pos + 2,
    {
        let ghost d = self.reader.data@;
        let ghost p = self.reader.pos as int;
        let length = self.read_u16_be()?;
        if length < 8 {
            return Err(PictorError::invalid_format("Invalid JPEG SOF0 segment length"));
        }
        let precision = self.read_u8()?;
        if precision != 8 {
            return Err(PictorError::invalid_format("Only 8-bit baseline JPEG images are supported"));
        }
        let height = self.read_u16_be()?;
        let width = self.read_u16_be()?;
        if width == 0 || height == 0 {
            return Err(PictorError::invalid_format("JPEG image dimensions must be non-zero"));
        }
        request.width = width;
        request.height = height;
        let component_count = self.read_u8()?;
        let expected_length: u16 = 8 + (component_count as u16) * 3;
        if length != expected_length {
            return Err(PictorError::invalid_format("JPEG SOF0 segment length does not match its component count"));
        }
        let color_type = match component_count {
            1 => ColorType::L,
            3 => ColorType::Rgb,
            _ => {
                return Err(PictorError::invalid_format("Baseline JPEG must have one or three components"));
            },
        };
        request.color_type = color_type;
        let ghost h1 = request.model();
        assert(h1 == JpegHeader {
            width: spec_read_be16(d, p + 5),
            height: spec_read_be16(d, p + 3),
            color_type: if d[p + 7] == 1 { ColorType::L } else { ColorType::Rgb },
            ..old(request).model()
        });
        let ghost target = spec_sof0(d, p, old(request).model());
        let mut i: u8 = 0;
        while i < component_count
            invariant
                self.reader.data == old(self).reader.data,
                d == old(self).reader.data@,
                self.reader.pos <= d.len(),
                self.reader.pos == p + 8 + 3 * i,
                i <= component_count,
                request.wf(),
                p == old(self).reader.pos,
                target == spec_sof0(d, p, old(request).model()),
                target == spec_sof0_comps(d, self.reader.pos as int, component_count as int, i as int, request.model()),
            decreases component_count - i,
        {
            let ghost q = self.reader.pos as int;
            let ghost h = request.model();
            let component_id = self.read_u8()?;
            let sampling_factors = self.read_u8()?;
            let quantization_table_id = self.read_u8()?;
            let horizontal = sampling_factors >> 4;
            let vertical = sampling_factors & 0x0F;
            if horizontal == 0 || vertical == 0 {
                return Err(PictorError::invalid_format("Invalid JPEG component sampling factors"));
            }
            request.components.push(JpegComponent {
                id: component_id,
                horizontal_sampling: horizontal,
                vertical_sampling: vertical,
                quantization_table_id,
            });
            assert(request.model().components == h.components.push(JpegComponent {
                id: d[q],
                horizontal_sampling: d[q + 1] >> 4u8,
                vertical_sampling: d[q + 1] & 0x0Fu8,
                quantization_table_id: d[q + 2],
            }));
            i = i + 1;
        }
        Ok(())
    }

    /// Reads the quantization tables of a DQT segment, storing each in
    /// natural order in its slot.
    pub fn read_dqt(&mut self, request: &mut JpegDecodeRequest) -> (r: PictorResult<()>)
        requires
            old(self).reader.pos <= old(self).reader.data@.len(),
            old(request).wf(),
        ensures
            final(self).reader.data == old(self).reader.data,
            final(self).reader.pos <= final(self).reader.data@.len(),
            final(request).wf(),
            spec_seg_result(
                spec_dqt(old(self).reader.data@, old(self).reader.pos as int, old(request).model()),
                r,
                final(request).model(),
                final(self).reader.pos as int,
            ),
            r is Ok ==> final(self).reader.pos >= old(self).reader.pos + 2,
    {
        let ghost d = self.reader.data@;
        let ghost p = self.reader.pos as int;
        let segment_length = self.read_u16_be()?;
        if segment_length < 2 {
            return Err(PictorError::invalid_format("Invalid JPEG DQT segment length"));
        }
        let mut remaining: usize = (segment_length - 2) as usize;
        let ghost target = spec_dqt(d, p, old(request).model());
        let unzigzag = unzigzag_table();
        while remaining > 0
            invariant
                self.reader.data == old(self).reader.data,
                d == old(self).reader.data@,
                self.reader.pos <= d.len(),
                self.reader.pos >= p + 2,
                request.wf(),
                unzigzag@ == spec_unzigzag(),
                forall|i: int| 0 <= i < 64 ==> #[trigger] unzigzag@[i] < 64,
                p == old(self).reader.pos,
                target == spec_dqt(d, p, old(request).model()),
                target == spec_dqt_tables(d, self.reader.pos as int, remaining as int, request.model()),
            decreases remaining,
        {
            let ghost q = self.reader.pos as int;
            let ghost rem0 = remaining as int;
            let table_info = self.read_u8()?;
            remaining = remaining - 1;
            let precision = table_info >> 4;
            let table_id = (table_info & 0x0F) as usize;
            if precision > 1 {
                return Err(PictorError::invalid_format("Invalid JPEG quantization-table precision"));
            }
            if table_id >= 4 {
                return Err(PictorError::invalid_format("Invalid JPEG quantization-table identifier"));
            }
            let bytes_per_value: usize = if precision == 0 { 1 } else { 2 };
            let table_size = 64 * bytes_per_value;
            if remaining < table_size {
                return Err(PictorError::invalid_format("Truncated JPEG quantization table"));
            }
            let ghost vals = spec_dqt_values(d, q + 1, precision);
            let mut zigzag_table = [0u16; 64];
            let mut k: usize = 0;
            while k < 64
                invariant
                    self.reader.data == old(self).reader.data,
                    d == old(self).reader.data@,
                    self.reader.pos <= d.len(),
                    k <= 64,
                    self.reader.pos == q + 1 + k * bytes_per_value,
                    bytes_per_value == (if precision == 0 { 1usize } else { 2usize }),
                    precision <= 1,
                    vals == spec_dqt_values(d, q + 1, precision),
                    forall|i: int| 0 <= i < k ==> zigzag_table@[i] == vals[i],
                    request.wf(),
                    p == old(self).reader.pos,
                    target == spec_dqt(d, p, old(request).model()),
                    target == spec_dqt_tables(d, q, rem0, request.model()),
                    0 <= q < d.len(),
                    d[q] == table_info,
                    precision == table_info >> 4u8,
                    table_id == (table_info & 0x0Fu8),
                    table_id < 4,
                    rem0 - 1 >= 64 * bytes_per_value,
                decreases 64 - k,
            {
                let v = if precision == 0 {
                    let b = self.read_u8()?;
                    b as u16
                } else {
                    self.read_u16_be()?
                };
                zigzag_table[k] = v;
                k = k + 1;
            }
            remaining = remaining - table_size;
            let mut natural_table = [0u16; 64];
            let mut z: usize = 0;
            while z < 64
                invariant
                    z <= 64,
                    unzigzag@ == spec_unzigzag(),
                    forall|i: int| 0 <= i < 64 ==> #[trigger] unzigzag@[i] < 64,
                    natural_table@ == spec_place(zigzag_table@, z as int),
                decreases 64 - z,
            {
                natural_table[unzigzag[z]] = zigzag_table[z];
                z = z + 1;
            }
            assert(zigzag_table@ =~= vals);
            let ghost h = request.model();
            request.quantization_tables.set(table_id, Some(natural_table));
            assert(request.model().quant =~= h.quant.update(table_id as int, Some(spec_place(vals, 64))));
        }
        Ok(())
    }

    /// Reads the Huffman tables of a DHT segment into their slots; a slot
    /// may be filled once.
    pub fn read_dht(&mut self, request: &mut JpegDecodeRequest) -> (r: PictorResult<()>)
        requires
            old(self).reader.pos <= old(self).reader.data@.len(),
            old(request).wf(),
        ensures
            final(self).reader.data == old(self).reader.data,
            final(self).reader.pos <= final(self).reader.data@.len(),
            final(request).wf(),
            spec_seg_result(
                spec_dht(old(self).reader.data@, old(self).reader.pos as int, old(request).model()),
                r,
                final(request).model(),
                final(self).reader.pos as int,
            ),
            r is Ok ==> final(self).reader.pos >= old(self).reader.pos + 2,
    {
        let ghost d = self.reader.data@;
        let ghost p = self.reader.pos as int;
        let segment_length = self.read_u16_be()?;
        if segment_length < 2 {
            return Err(PictorError::invalid_format("Invalid JPEG DHT segment length"));
        }
        let mut remaining: usize = (segment_length - 2) as usize;
        let ghost target = spec_dht(d, p, old(request).model());
        while remaining > 0
            invariant
                self.reader.data == old(self).reader.data,
                d == old(self).reader.data@,
                self.reader.pos <= d.len(),
                self.reader.pos >= p + 2,
                request.wf(),
                p == old(self).reader.pos,
                target == spec_dht(d, p, old(request).model()),
                target == spec_dht_tables(d, self.reader.pos as int, remaining as int, request.model()),
            decreases remaining,
        {
            let ghost q = self.reader.pos as int;
            let ghost rem0 = remaining as int;
            if remaining < 17 {
                return Err(PictorError::invalid_format("Truncated JPEG Huffman table"));
            }
            let table_info = self.read_u8()?;
            remaining = remaining - 1;
            let table_class = table_info >> 4;
            let table_id = (table_info & 0x0F) as usize;
            if table_class > 1 {
                return Err(PictorError::invalid_format("Invalid JPEG Huffman table class"));
            }
            if table_id >= 4 {
                return Err(PictorError::invalid_format("Invalid JPEG Huffman table identifier"));
            }
            let mut code_counts = [0u8; 16];
            let mut symbol_count: usize = 0;
            let mut k: usize = 0;
            while k < 16
                invariant
                    self.reader.data == old(self).reader.data,
                    d == old(self).reader.data@,
                    self.reader.pos <= d.len(),
                    k <= 16,
                    self.reader.pos == q + 1 + k,
                    0 <= q < d.len(),
                    forall|i: int| 0 <= i < k ==> code_counts@[i] == d[q + 1 + i],
                    symbol_count == spec_sum(d.subrange(q + 1, q + 1 + k)),
                    symbol_count <= 255 * k,
                    request.wf(),
                    p == old(self).reader.pos,
                    target == spec_dht(d, p, old(request).model()),
                    target == spec_dht_tables(d, q, rem0, request.model()),
                    rem0 >= 17,
                    d[q] == table_info,
                    table_class == table_info >> 4u8,
                    table_id == (table_info & 0x0Fu8),
                    table_class <= 1,
                    table_id < 4,
                decreases 16 - k,
            {
                let c = self.read_u8()?;
                code_counts[k] = c;
                assert(d.subrange(q + 1, q + 1 + k + 1).drop_last() =~= d.subrange(q + 1, q + 1 + k));
                symbol_count = symbol_count + c as usize;
                k = k + 1;
            }
            remaining = remaining - 16;
            assert(code_counts@ =~= d.subrange(q + 1, q + 17));
            if symbol_count > 256 {
                return Err(PictorError::invalid_format("JPEG Huffman table contains too many symbols"));
            }
            if remaining < symbol_count {
                return Err(PictorError::invalid_format("Truncated JPEG Huffman table symbols"));
            }
            let mut symbols: Vec<u8> = Vec::new();
            let mut j: usize = 0;
            while j < symbol_count
                invariant
                    self.reader.data == old(self).reader.data,
                    d == old(self).reader.data@,
                    self.reader.pos <= d.len(),
                    j <= symbol_count,
                    self.reader.pos == q + 17 + j,
                    symbols@ == d.subrange(q + 17, q + 17 + j),
                    0 <= q,
                    q + 17 <= d.len(),
                    request.wf(),
                    p == old(self).reader.pos,
                    target == spec_dht(d, p, old(request).model()),
                    target == spec_dht_tables(d, q, rem0, request.model()),
                    symbol_count == spec_sum(d.subrange(q + 1, q + 17)),
                    symbol_count <= 256,
                    rem0 - 17 >= symbol_count,
                    d[q] == table_info,
                    table_class == table_info >> 4u8,
                    table_id == (table_info & 0x0Fu8),
                    table_class <= 1,
                    table_id < 4,
                decreases symbol_count - j,
            {
                let b = self.read_u8()?;
                symbols.push(b);
                assert(symbols@ =~= d.subrange(q + 17, q + 17 + j + 1));
                j = j + 1;
            }
            remaining = remaining - symbol_count;
            let table = JpegHuffmanTable { code_counts, symbols };
            let ghost h = request.model();
            let ghost tm = table.model();
            if table_class == 0 {
                if request.dc_huffman_tables[table_id].is_some() {
                    return Err(PictorError::invalid_format("Duplicate JPEG Huffman table"));
                }
                request.dc_huffman_tables.set(table_id, Some(table));
                assert(request.model().dc =~= h.dc.update(table_id as int, Some(tm)));
            } else {
                if request.ac_huffman_tables[table_id].is_some() {
                    return Err(PictorError::invalid_format("Duplicate JPEG Huffman table"));
                }
                request.ac_huffman_tables.set(table_id, Some(table));
                assert(request.model().ac =~= h.ac.update(table_id as int, Some(tm)));
            }
        }
        Ok(())
    }

    /// Reads a scan header: one entry per frame component, each naming
    /// its DC and AC Huffman tables, then the baseline spectral selection.
    pub fn read_sos(&mut self, request: &mut JpegDecodeRequest) -> (r: PictorResult<()>)
        requires
            old(self).reader.pos <= old(self).reader.data@.len(),
            old(request).wf(),
        ensures
            final(self).reader.data == old(self).reader.data,
            final(self).reader.pos <= final(self).reader.data@.len(),
            final(request).wf(),
            spec_seg_result(
                spec_sos(old(self).reader.data@, old(self).reader.pos as int, old(request).model()),
                r,
                final(request).model(),
                final(self).reader.pos as int,
            ),
            r is Ok ==> final(self).reader.pos >= old(self).reader.pos + 2,
    {
        let ghost d = self.reader.data@;
        let ghost p = self.reader.pos as int;
        let segment_length = self.read_u16_be()?;
        if segment_length < 6 {
            return Err(PictorError::invalid_format("Invalid JPEG SOS segment length"));
        }
        let scan_component_count = self.read_u8()?;
        if scan_component_count == 0 {
            return Err(PictorError::invalid_format("JPEG SOS must contain at least one component"));
        }
        let expected_length: u16 = 6 + (scan_component_count as u16) * 2;
        if segment_length != expected_length {
            return Err(PictorError::invalid_format("JPEG SOS segment length does not match its component count"));
        }
        if scan_component_count as usize != request.components.len() {
            return Err(PictorError::invalid_format("Only non-interleaved scans matching all SOF0 components are supported"));
        }
        request.scan_components.clear();
        let ghost target = spec_sos(d, p, old(request).model());
        assert(request.model() == JpegHeader { scan: Seq::empty(), ..old(request).model() });
        let mut i: u8 = 0;
        while i < scan_component_count
            invariant
                self.reader.data == old(self).reader.data,
                d == old(self).reader.data@,
                self.reader.pos <= d.len(),
                self.reader.pos == p + 3 + 2 * i,
                i <= scan_component_count,
                request.wf(),
                p == old(self).reader.pos,
                target == spec_sos(d, p, old(request).model()),
                target == spec_sos_comps(d, self.reader.pos as int, scan_component_count as int, i as int, request.model()),
            decreases scan_component_count - i,
        {
            let ghost q = self.reader.pos as int;
            let ghost h = request.model();
            let component_id = self.read_u8()?;
            let table_selectors = self.read_u8()?;
            let dc_table_id = table_selectors >> 4;
            let ac_table_id = table_selectors & 0x0F;
            if dc_table_id >= 4 || ac_table_id >= 4 {
                return Err(PictorError::invalid_format("Invalid JPEG Huffman table identifier in SOS"));
            }
            if !any_component(&request.components, component_id) {
                return Err(PictorError::invalid_format("SOS references an unknown JPEG component"));
            }
            if any_scan_component(&request.scan_components, component_id) {
                return Err(PictorError::invalid_format("JPEG SOS contains a duplicate component"));
            }
            if request.dc_huffman_tables[dc_table_id as usize].is_none() {
                return Err(PictorError::invalid_format("SOS references a missing DC Huffman table"));
            }
            if request.ac_huffman_tables[ac_table_id as usize].is_none() {
                return Err(PictorError::invalid_format("SOS references a missing AC Huffman table"));
            }
            request.scan_components.push(JpegScanComponent { component_id, dc_table_id, ac_table_id });
            assert(request.model() == JpegHeader {
                scan: h.scan.push(JpegScanComponent { component_id: d[q], dc_table_id: d[q + 1] >> 4u8, ac_table_id: d[q + 1] & 0x0Fu8 }),
                ..h
            });
            i = i + 1;
        }
        let spectral_start = self.read_u8()?;
        let spectral_end = self.read_u8()?;
        let successive = self.read_u8()?;
        if spectral_start != 0 || spectral_end != 63 || successive != 0 {
            return Err(PictorError::invalid_format("Only baseline sequential JPEG scans are supported"));
        }
        Ok(())
    }
}

} // verus!

verus! {

impl JpegDecodeRequest {
    /// Reads a JPEG header: the start-of-image marker, then quantization
    /// tables, the frame header, Huffman tables and skipped segments in any
    /// order, up to the scan header, after which the header is checked.
    pub fn read_header(reader: &mut ByteCursor) -> (r: PictorResult<JpegDecodeRequest>)
        requires
            old(reader).pos <= old(reader).data@.len(),
        ensures
            final(reader).data == old(reader).data,
            final(reader).pos <= final(reader).data@.len(),
            match spec_jpeg_header(old(reader).data@, old(reader).pos as int) {
                JpegSeg::Read { hdr, pos } => r matches Ok(req) && req.model() == hdr && req.wf()
                    && final(reader).pos == pos,
                JpegSeg::Eof => r matches Err(PictorError::IoError { .. }),
                JpegSeg::Bad => r matches Err(PictorError::InvalidFormat { .. }),
            },
    {
        let mut decoder = JpegReader::new(reader);
        let ghost d = reader.data@;
        let res = decoder.expect_marker(Marker::soi());
        reader.pos = decoder.reader.pos;
        res?;
        let mut request = JpegDecodeRequest::default();
        let ghost target = spec_jpeg_header(d, old(reader).pos as int);
        loop
            invariant
                decoder.reader.data == old(reader).data,
                reader.data == old(reader).data,
                d == old(reader).data@,
                reader.pos == decoder.reader.pos,
                decoder.reader.pos <= d.len(),
                request.wf(),
                target == spec_jpeg_header(d, old(reader).pos as int),
                target == spec_segments(d, decoder.reader.pos as int, request.model()),
            decreases d.len() - decoder.reader.pos,
        {
            let ghost pos = decoder.reader.pos as int;
            let ghost h = request.model();
            let res = decoder.read_marker();
            reader.pos = decoder.reader.pos;
            let marker = res?;
            let ghost q = decoder.reader.pos as int;
            if marker.0 == 0xDB {
                let res = decoder.read_dqt(&mut request);
                reader.pos = decoder.reader.pos;
                res?;
            } else if marker.0 == 0xC0 {
                let res = decoder.read_sof0(&mut request);
                reader.pos = decoder.reader.pos;
                res?;
            } else if marker.0 == 0xC4 {
                let res = decoder.read_dht(&mut request);
                reader.pos = decoder.reader.pos;
                res?;
            } else if marker.0 == 0xDA {
                let res = decoder.read_sos(&mut request);
                reader.pos = decoder.reader.pos;
                res?;
                decoder.validate(&request)?;
                return Ok(request);
            } else if marker.is_skippable_segment() {
                let res = decoder.skip_segment();
                reader.pos = decoder.reader.pos;
                res?;
            } else if marker.is_sof() {
                return Err(PictorError::invalid_format("Unsupported JPEG frame marker"));
            } else {
                return Err(PictorError::invalid_format("Unexpected JPEG marker"));
            }
        }
    }
}

} // verus!
