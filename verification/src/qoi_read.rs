use vstd::prelude::*;
use crate::bytes::{ByteCursor, read_be32, spec_read_be32};
use crate::color_type::{BitDepth, ColorType};
use crate::error::{PictorError, PictorResult};
use crate::qoi::{
    Channels, ColorSpace, QoiRbga, end_marker, idx_color_hash, spec_color_hash, spec_end_marker, spec_from_diff,
    spec_from_luma, spec_pixel_bytes, spec_start_pixel,
};
use crate::qoi_tags::{QoiTags, spec_tag_kind};
use crate::samples::SampleStorage;

verus! {

/// The state of the QOI decoder between two operations.
pub struct QoiDecState {
    pub prev: QoiRbga,
    pub cache: Seq<Option<QoiRbga>>,
    pub out: Seq<u8>,
}

/// What the operation loop of the decoder ends with.
pub enum QoiDecOutcome {
    /// Enough pixels were decoded; the operations end at `pos`.
    Done { out: Seq<u8>, pos: int },
    /// The input ended inside an operation.
    Truncated,
    /// An index operation named an empty table entry.
    BadIndex,
}

/// The decoder's state before the first operation.
pub open spec fn spec_dec_start() -> QoiDecState {
    QoiDecState { prev: spec_start_pixel(), cache: Seq::new(64, |i: int| None::<QoiRbga>), out: Seq::empty() }
}

/// `n` copies of `s`, one after the other.
pub open spec fn spec_repeat(s: Seq<u8>, n: nat) -> Seq<u8>
    decreases n,
{
    if n == 0 {
        Seq::empty()
    } else {
        spec_repeat(s, (n - 1) as nat) + s
    }
}

/// Repeating a sequence `n` times multiplies its length by `n`.
pub proof fn lemma_repeat_len(s: Seq<u8>, n: nat)
    ensures
        spec_repeat(s, n).len() == n * s.len(),
    decreases n,
{
    if n > 0 {
        let p = (n - 1) as nat;
        lemma_repeat_len(s, p);
        assert(spec_repeat(s, n) == spec_repeat(s, p) + s);
        assert(spec_repeat(s, n).len() == spec_repeat(s, p).len() + s.len());
        assert(spec_repeat(s, p).len() == p * s.len());
        assert(p * s.len() + s.len() == n * s.len()) by (nonlinear_arith) requires p + 1 == n;
    } else {
        assert(n * s.len() == 0) by (nonlinear_arith) requires n == 0;
    }
}

/// Number of bytes of the operation that starts with `tag`.
pub open spec fn spec_op_len(tag: u8) -> int {
    match spec_tag_kind(tag) {
        QoiTags::Luma => 2,
        QoiTags::Rgb => 4,
        QoiTags::Rgba => 5,
        _ => 1,
    }
}

/// The pixel of the operation at `pos`, decoded against state `st`; an RGB
/// operation keeps the alpha of the previous pixel.
pub open spec fn spec_op_pixel(data: Seq<u8>, pos: int, st: QoiDecState) -> QoiRbga {
    let tag = data[pos];
    match spec_tag_kind(tag) {
        QoiTags::Index => st.cache[(tag % 64) as int]->0,
        QoiTags::Diff => spec_from_diff(st.prev, tag),
        QoiTags::Luma => spec_from_luma(st.prev, tag, data[pos + 1]),
        QoiTags::Rgb => QoiRbga { r: data[pos + 1], g: data[pos + 2], b: data[pos + 3], a: st.prev.a },
        QoiTags::Rgba => QoiRbga { r: data[pos + 1], g: data[pos + 2], b: data[pos + 3], a: data[pos + 4] },
        _ => st.prev,
    }
}

/// Bytes still missing: `expected - have`, or zero.
pub open spec fn spec_gap(expected: int, have: int) -> int {
    if have < expected { expected - have } else { 0 }
}

/// The decoder's operation loop from `pos`, writing `ps` bytes per pixel
/// until at least `expected` bytes are written; a run operation writes the
/// previous pixel `(tag % 64) + 1` times.
pub open spec fn spec_dec_loop(data: Seq<u8>, pos: int, ps: int, expected: int, st: QoiDecState) -> QoiDecOutcome
    decreases spec_gap(expected, st.out.len() as int),
{
    if st.out.len() >= expected || ps <= 0 || ps > 4 {
        QoiDecOutcome::Done { out: st.out, pos }
    } else if pos < 0 || pos >= data.len() {
        QoiDecOutcome::Truncated
    } else {
        let tag = data[pos];
        let kind = spec_tag_kind(tag);
        if kind is Index && st.cache[(tag % 64) as int] is None {
            QoiDecOutcome::BadIndex
        } else if pos + spec_op_len(tag) > data.len() {
            QoiDecOutcome::Truncated
        } else {
            let cur = spec_op_pixel(data, pos, st);
            let run = if kind is Run { tag % 64 + 1 } else { 0 };
            let bytes = spec_pixel_bytes(cur).subrange(0, ps);
            let out = if run > 0 { st.out + spec_repeat(bytes, run as nat) } else { st.out + bytes };
            proof {
                assert(bytes.len() == ps);
                lemma_repeat_len(bytes, run as nat);
                if run > 0 {
                    assert(run as nat * bytes.len() >= bytes.len()) by (nonlinear_arith) requires run >= 1;
                }
                assert(out.len() > st.out.len());
            }
            spec_dec_loop(
                data,
                pos + spec_op_len(tag),
                ps,
                expected,
                QoiDecState { prev: cur, cache: st.cache.update(spec_color_hash(cur), Some(cur)), out },
            )
        }
    }
}

/// The header of a QOI stream.
pub struct QoiDecodeRequest {
    pub width: u32,
    pub height: u32,
    pub channels: Channels,
    pub color_space: ColorSpace,
}

/// A decoded QOI image: 8-bit samples, 3 or 4 per pixel.
pub struct DecodedQoi<'a> {
    pub width: u32,
    pub height: u32,
    pub channels: Channels,
    pub color_space: ColorSpace,
    pub bit_depth: BitDepth,
    pub data: SampleStorage<'a, u8>,
}

/// The 14 header bytes are a valid QOI header.
pub open spec fn spec_qoi_header_ok(b: Seq<u8>, channels: Option<Channels>) -> bool {
    &&& b.subrange(0, 4) == seq![0x71u8, 0x6fu8, 0x69u8, 0x66u8]
    &&& Channels::spec_from_byte(b[12]) is Some
    &&& ColorSpace::spec_from_byte(b[13]) is Some
}

/// The header that valid header bytes describe; `channels` overrides the
/// channels of the stream.
pub open spec fn spec_qoi_header_of(b: Seq<u8>, channels: Option<Channels>) -> QoiDecodeRequest {
    QoiDecodeRequest {
        width: spec_read_be32(b, 4),
        height: spec_read_be32(b, 8),
        channels: match channels {
            Some(c) => c,
            None => Channels::spec_from_byte(b[12])->0,
        },
        color_space: ColorSpace::spec_from_byte(b[13])->0,
    }
}

/// Bytes the decoder expects for a header.
pub open spec fn spec_qoi_expected(req: &QoiDecodeRequest) -> int {
    req.width * req.height * req.channels.spec_pixel_size()
}

/// What the decoder yields, from position `pos` of `data`, for a header.
pub open spec fn spec_qoi_decoded(req: &QoiDecodeRequest, data: Seq<u8>, pos: int, r: PictorResult<DecodedQoi>) -> bool {
    if spec_qoi_expected(req) > usize::MAX || req.width * req.height > usize::MAX {
        r matches Err(PictorError::MulOverflow { .. })
    } else {
        match spec_dec_loop(data, pos, req.channels.spec_pixel_size() as int, spec_qoi_expected(req), spec_dec_start()) {
            QoiDecOutcome::Truncated => r matches Err(PictorError::IoError { .. }),
            QoiDecOutcome::BadIndex => r matches Err(PictorError::InvalidArgument { .. }),
            QoiDecOutcome::Done { out, pos: end } => if end + 8 > data.len() {
                r matches Err(PictorError::IoError { .. })
            } else if data.subrange(end, end + 8) != spec_end_marker() {
                r matches Err(PictorError::InvalidArgument { .. })
            } else {
                r matches Ok(img) && img.width == req.width && img.height == req.height && img.channels
                    == req.channels && img.color_space == req.color_space && img.bit_depth == BitDepth::U8
                    && img.data@ == out
            },
        }
    }
}

impl QoiDecodeRequest {
    #[inline]
    pub fn width(&self) -> (r: u32)
        ensures
            r == self.width,
    {
        self.width
    }

    #[inline]
    pub fn height(&self) -> (r: u32)
        ensures
            r == self.height,
    {
        self.height
    }

    #[inline]
    pub fn channels(&self) -> (r: Channels)
        ensures
            r == self.channels,
    {
        self.channels
    }

    #[inline]
    pub fn color_space(&self) -> (r: ColorSpace)
        ensures
            r == self.color_space,
    {
        self.color_space
    }

    /// Decodes the operations after the header, then checks the end marker.
    pub fn decode_internal<'a>(&self, reader: &mut ByteCursor) -> (r: PictorResult<DecodedQoi<'a>>)
        requires
            old(reader).pos <= old(reader).data@.len(),
        ensures
            spec_qoi_decoded(self, old(reader).data@, old(reader).pos as int, r),
    {
        let ps = self.channels.pixel_size();
        let expected_len = match (self.width as usize).checked_mul(self.height as usize) {
            Some(c) => match c.checked_mul(ps as usize) {
                Some(l) => l,
                None => {
                    return Err(PictorError::MulOverflow { op: "Total length of file excedes usize." });
                },
            },
            None => {
                return Err(PictorError::MulOverflow { op: "Total length of file excedes usize." });
            },
        };

        let ghost d = reader.data@;
        let ghost p0 = reader.pos as int;
        let mut prev = QoiRbga::default();
        let mut cur = QoiRbga::default();
        let mut pixel_cache: Vec<Option<QoiRbga>> = Vec::new();
        let mut k: usize = 0;
        while k < 64
            invariant
                k <= 64,
                pixel_cache@.len() == k,
                forall|i: int| 0 <= i < k ==> pixel_cache@[i] == None::<QoiRbga>,
            decreases 64 - k,
        {
            pixel_cache.push(None);
            k = k + 1;
        }
        assert(pixel_cache@ =~= spec_dec_start().cache);
        let mut output: Vec<u8> = Vec::new();
        let ghost target = spec_dec_loop(d, p0, ps as int, expected_len as int, spec_dec_start());

        while output.len() < expected_len
            invariant
                reader.data@ == d,
                d == old(reader).data@,
                p0 == old(reader).pos,
                reader.pos <= d.len(),
                !(spec_qoi_expected(self) > usize::MAX || self.width * self.height > usize::MAX),
                expected_len == spec_qoi_expected(self),
                target == spec_dec_loop(d, p0, ps as int, expected_len as int, spec_dec_start()),
                ps == self.channels.spec_pixel_size(),
                3 <= ps <= 4,
                pixel_cache@.len() == 64,
                target == spec_dec_loop(
                    d,
                    reader.pos as int,
                    ps as int,
                    expected_len as int,
                    QoiDecState { prev, cache: pixel_cache@, out: output@ },
                ),
            decreases spec_gap(expected_len as int, output@.len() as int),
        {
            let ghost pos = reader.pos as int;
            let ghost st = QoiDecState { prev, cache: pixel_cache@, out: output@ };
            let mut run: usize = 0;
            let tag = match reader.read_u8() {
                Ok(t) => t,
                Err(e) => {
                    return Err(e);
                },
            };
            match QoiTags::from_byte(tag) {
                QoiTags::Index => {
                    match pixel_cache[QoiTags::get_index(tag)] {
                        Some(px) => {
                            cur = px;
                        },
                        None => {
                            return Err(PictorError::InvalidArgument { msg: "Invalid index tag" });
                        },
                    }
                },
                QoiTags::Diff => {
                    cur = QoiRbga::from_diff(prev, tag);
                },
                QoiTags::Luma => {
                    let byte_2 = reader.read_u8()?;
                    cur = QoiRbga::from_luma(prev, [tag, byte_2]);
                },
                QoiTags::Run => {
                    run = (tag & 0x3f) as usize + 1;
                    assert(tag & 0x3f == tag % 64) by (bit_vector);
                    cur = prev;
                },
                QoiTags::Rgb => {
                    let rgb = reader.read_exact(3)?;
                    let mut px = QoiRbga::from_rbg_tag([rgb[0], rgb[1], rgb[2]]);
                    px.a = prev.a;
                    cur = px;
                },
                QoiTags::Rgba => {
                    let rgba = reader.read_exact(4)?;
                    cur = QoiRbga::from_rbga_tag([rgba[0], rgba[1], rgba[2], rgba[3]]);
                },
                QoiTags::Other => {},
            };
            assert(cur == spec_op_pixel(d, pos, st));
            assert(reader.pos == pos + spec_op_len(tag));

            let cache_pos = idx_color_hash(cur);
            pixel_cache.set(cache_pos, Some(cur));

            let ghost bytes = spec_pixel_bytes(cur).subrange(0, ps as int);
            if run > 0 {
                let ghost out0 = output@;
                let ghost total = run;
                while run > 0
                    invariant
                        run <= total,
                        output@ == out0 + spec_repeat(bytes, (total - run) as nat),
                        bytes == spec_pixel_bytes(cur).subrange(0, self.channels.spec_pixel_size() as int),
                    decreases run,
                {
                    cur.write_bytes(self.channels, &mut output);
                    proof {
                        assert(spec_repeat(bytes, (total - run + 1) as nat) == spec_repeat(bytes, (total - run) as nat) + bytes);
                    }
                    run = run - 1;
                }
                proof {
                    lemma_repeat_len(bytes, total as nat);
                    assert(total as nat * bytes.len() >= bytes.len()) by (nonlinear_arith) requires total >= 1;
                }
            } else {
                cur.write_bytes(self.channels, &mut output);
                prev = cur;
            }
            proof {
                if spec_tag_kind(tag) is Run {
                    assert(cur == st.prev);
                }
            }
            prev = cur;
        }

        let end = reader.read_exact(8)?;
        let marker = end_marker();
        let mut same = true;
        let mut i: usize = 0;
        while i < 8
            invariant
                i <= 8,
                end@.len() == 8,
                marker@ == spec_end_marker(),
                same == (forall|k: int| 0 <= k < i ==> end@[k] == marker@[k]),
            decreases 8 - i,
        {
            if end[i] != marker[i] {
                same = false;
            }
            i = i + 1;
        }
        if !same {
            assert(end@ != spec_end_marker());
            return Err(PictorError::InvalidArgument { msg: "Invalid file length / end marker." });
        }
        assert(end@ =~= spec_end_marker());

        Ok(DecodedQoi {
            width: self.width,
            height: self.height,
            channels: self.channels,
            color_space: self.color_space,
            bit_depth: BitDepth::U8,
            data: SampleStorage::Owned { data: output },
        })
    }
}

/// What decoding the QOI stream `data` yields: an I/O error for a stream
/// shorter than its header, an invalid argument for a bad header, and
/// otherwise what the operations after the header decode to.
pub open spec fn spec_qoi_decode_from(data: Seq<u8>, channels: Option<Channels>, r: PictorResult<DecodedQoi>) -> bool {
    if data.len() < 14 {
        r matches Err(PictorError::IoError { .. })
    } else if !spec_qoi_header_ok(data.subrange(0, 14), channels) {
        r matches Err(PictorError::InvalidArgument { .. })
    } else {
        spec_qoi_decoded(&spec_qoi_header_of(data.subrange(0, 14), channels), data, 14, r)
    }
}

impl QoiDecodeRequest {
    /// Reads and checks the 14-byte header; `channels` overrides the
    /// channels the stream declares (which must still be valid).
    pub fn read_header(reader: &mut ByteCursor, channels: Option<Channels>) -> (r: PictorResult<QoiDecodeRequest>)
        requires
            old(reader).pos <= old(reader).data@.len(),
        ensures
            final(reader).data == old(reader).data,
            final(reader).pos <= final(reader).data@.len(),
            old(reader).data@.len() - old(reader).pos < 14 <==> (r matches Err(PictorError::IoError { .. })),
            old(reader).data@.len() - old(reader).pos >= 14 && !spec_qoi_header_ok(old(reader).ahead(14), channels)
                <==> (r matches Err(PictorError::InvalidArgument { .. })),
            r matches Ok(req) ==> req == spec_qoi_header_of(old(reader).ahead(14), channels) && final(reader).pos
                == old(reader).pos + 14,
            r is Ok || (r matches Err(PictorError::IoError { .. })) || (r matches Err(PictorError::InvalidArgument { .. })),
    {
        let tmp = reader.read_exact(14)?;

        if !(tmp[0] == 0x71 && tmp[1] == 0x6f && tmp[2] == 0x69 && tmp[3] == 0x66) {
            assert(tmp@.subrange(0, 4)[0] == tmp@[0]);
            assert(tmp@.subrange(0, 4)[1] == tmp@[1]);
            assert(tmp@.subrange(0, 4)[2] == tmp@[2]);
            assert(tmp@.subrange(0, 4)[3] == tmp@[3]);
            return Err(PictorError::InvalidArgument { msg: "Invalid header magic" });
        }
        assert(tmp@.subrange(0, 4) =~= seq![0x71u8, 0x6fu8, 0x69u8, 0x66u8]);

        let width = read_be32(tmp, 4);
        let height = read_be32(tmp, 8);

        let declared = Channels::try_from(tmp[12])?;
        let channels = match channels {
            Some(c) => c,
            None => declared,
        };
        let color_space = ColorSpace::try_from(tmp[13])?;

        Ok(QoiDecodeRequest { width, height, channels, color_space })
    }

    /// Decodes a whole QOI stream held in memory.
    pub fn decode_bytes<'a>(data: &[u8], channels: Option<Channels>) -> (r: PictorResult<DecodedQoi<'a>>)
        ensures
            spec_qoi_decode_from(data@, channels, r),
    {
        let mut reader = ByteCursor::new(data);
        let request = Self::read_header(&mut reader, channels)?;
        request.decode_internal(&mut reader)
    }
}

impl<'a> DecodedQoi<'a> {
    #[inline]
    pub fn width(&self) -> (r: u32)
        ensures
            r == self.width,
    {
        self.width
    }

    #[inline]
    pub fn height(&self) -> (r: u32)
        ensures
            r == self.height,
    {
        self.height
    }

    #[inline]
    pub fn channels(&self) -> (r: Channels)
        ensures
            r == self.channels,
    {
        self.channels
    }

    #[inline]
    pub fn color_space(&self) -> (r: ColorSpace)
        ensures
            r == self.color_space,
    {
        self.color_space
    }

    #[inline]
    pub fn color_type(&self) -> (r: ColorType)
        ensures
            r == (match self.channels {
                Channels::Rbg => ColorType::Rgb,
                Channels::Srbg => ColorType::Rgba,
            }),
    {
        ColorType::from(self.channels)
    }

    #[inline]
    pub fn bit_depth(&self) -> (r: BitDepth)
        ensures
            r == self.bit_depth,
    {
        self.bit_depth
    }
}

} // verus!
