use vstd::prelude::*;
use crate::bytes::{spec_be32, write_be32};
use crate::color_type::ColorType;
use crate::error::{PictorError, PictorResult};
use crate::qoi::{
    Channels, ColorSpace, QOI_MAX_PIXELS, QoiOperation, QoiRbga, end_marker, idx_color_hash, spec_color_hash,
    spec_diff, spec_end_marker, spec_pixel_bytes, spec_start_pixel,
};
use crate::qoi_tags::QoiTags;
use crate::samples::SampleStorage;

verus! {

/// The `QOI_OP_INDEX` byte for a table position.
#[inline]
fn op_index(index: usize) -> (r: u8)
    requires
        index < 64,
    ensures
        r == index,
{
    let v = index as u8;
    assert(0u8 | v == v) by (bit_vector);
    QoiTags::QOI_OP_INDEX | v
}

/// The `QOI_OP_RUN` byte for a run of `run` pixels (stored minus one).
#[inline]
fn op_run(run: u8) -> (r: u8)
    requires
        1 <= run <= 62,
    ensures
        r == 0xC0 + run - 1,
{
    let v = run - 1;
    assert(0xC0u8 | v == 0xC0 + v) by (bit_vector) requires v < 62;
    QoiTags::QOI_OP_RUN | v
}

/// The state of the QOI encoder between two pixels.
pub struct QoiEncState {
    pub prev: QoiRbga,
    pub run: int,
    pub cache: Seq<Option<QoiRbga>>,
    pub out: Seq<u8>,
}

/// The encoder's state before the first pixel.
pub open spec fn spec_enc_start() -> QoiEncState {
    QoiEncState { prev: spec_start_pixel(), run: 0, cache: Seq::new(64, |i: int| None::<QoiRbga>), out: Seq::empty() }
}

/// The bytes that encode a pixel that differs from the previous one and is
/// not in the table.
pub open spec fn spec_color_op(cur: QoiRbga, prev: QoiRbga) -> Seq<u8> {
    if cur.a == prev.a {
        let d = spec_diff(cur, prev);
        if d.spec_fits_diff() {
            seq![d.spec_diff_byte()]
        } else if d.spec_fits_luma() {
            d.spec_luma_bytes()
        } else {
            seq![0xFEu8, cur.r, cur.g, cur.b]
        }
    } else {
        seq![0xFFu8, cur.r, cur.g, cur.b, cur.a]
    }
}

/// The encoder's state after one more pixel `cur`; `is_last` marks the last pixel.
pub open spec fn spec_enc_step(s: QoiEncState, cur: QoiRbga, is_last: bool) -> QoiEncState {
    if cur == s.prev {
        let run = s.run + 1;
        if run == 62 || is_last {
            QoiEncState { prev: cur, run: 0, cache: s.cache, out: s.out.push((0xC0 + run - 1) as u8) }
        } else {
            QoiEncState { prev: cur, run, cache: s.cache, out: s.out }
        }
    } else {
        let out1 = if s.run > 0 { s.out.push((0xC0 + s.run - 1) as u8) } else { s.out };
        let h = spec_color_hash(cur);
        if s.cache[h] == Some(cur) {
            QoiEncState { prev: cur, run: 0, cache: s.cache, out: out1.push(h as u8) }
        } else {
            QoiEncState {
                prev: cur,
                run: 0,
                cache: s.cache.update(h, Some(cur)),
                out: out1 + spec_color_op(cur, s.prev),
            }
        }
    }
}

/// Pixel `k` of the input, whose pixels take `ic` bytes: gray, gray and
/// alpha, RGB or RGBA.
pub open spec fn spec_input_pixel(data: Seq<u8>, k: int, ic: int) -> QoiRbga {
    let at = k * ic;
    if ic == 1 {
        QoiRbga { r: data[at], g: data[at], b: data[at], a: 255 }
    } else if ic == 2 {
        QoiRbga { r: data[at], g: data[at], b: data[at], a: data[at + 1] }
    } else if ic == 3 {
        QoiRbga { r: data[at], g: data[at + 1], b: data[at + 2], a: 255 }
    } else {
        QoiRbga { r: data[at], g: data[at + 1], b: data[at + 2], a: data[at + 3] }
    }
}

/// The encoder's state after the first `n` of `count` pixels.
pub open spec fn spec_enc_pixels(data: Seq<u8>, ic: int, count: int, n: nat) -> QoiEncState
    decreases n,
{
    if n == 0 {
        spec_enc_start()
    } else {
        spec_enc_step(
            spec_enc_pixels(data, ic, count, (n - 1) as nat),
            spec_input_pixel(data, n - 1, ic),
            n - 1 == count - 1,
        )
    }
}

/// The 14-byte QOI header.
pub open spec fn spec_qoi_header(width: u32, height: u32, channels: u8, color_space: u8) -> Seq<u8> {
    seq![0x71u8, 0x6fu8, 0x69u8, 0x66u8] + spec_be32(width) + spec_be32(height) + seq![channels, color_space]
}

/// A QOI encoding job.
pub struct QoiEncodingRequest<'a> {
    pub width: u32,
    pub height: u32,
    /// The color type of the input when it is not RGB or RGBA.
    pub native_channels: Option<ColorType>,
    pub channels: Channels,
    pub color_space: ColorSpace,
    pub data: SampleStorage<'a, u8>,
}

/// Bytes per input pixel of a request.
pub open spec fn spec_input_channels(req: &QoiEncodingRequest) -> int {
    match req.native_channels {
        Some(n) => n.spec_comp_per_pix() as int,
        None => req.channels.spec_pixel_size() as int,
    }
}

/// Channels written in the header of a request's stream.
pub open spec fn spec_output_channels(req: &QoiEncodingRequest) -> u8 {
    match req.native_channels {
        Some(n) => if n.spec_comp_per_pix() == 1 || n.spec_comp_per_pix() == 3 { 3u8 } else { 4u8 },
        None => req.channels.spec_pixel_size(),
    }
}

/// Number of pixels of a request times bytes per input pixel overflows `usize`.
pub open spec fn spec_qoi_len_overflows(req: &QoiEncodingRequest) -> bool {
    req.width * req.height > usize::MAX || req.width * req.height * spec_input_channels(req) > usize::MAX
}

/// The QOI stream the encoder writes for a request.
pub open spec fn spec_qoi_stream(req: &QoiEncodingRequest) -> Seq<u8> {
    let ic = spec_input_channels(req);
    let count = req.width * req.height;
    spec_qoi_header(req.width, req.height, spec_output_channels(req), req.color_space.spec_id())
        + spec_enc_pixels(req.data@, ic, count, count as nat).out + spec_end_marker()
}

/// Reads pixel `n` of the input.
fn load_pixel(input_channels: u8, data: &[u8], at: usize, Ghost(n): Ghost<int>) -> (r: QoiRbga)
    requires
        1 <= input_channels <= 4,
        at == n * input_channels,
        at + input_channels <= data@.len(),
    ensures
        r == spec_input_pixel(data@, n, input_channels as int),
{
    let _len = data.len();
    let mut cur = QoiRbga::zeroed();
    if input_channels == 3 {
        cur.set_values(Channels::Rbg, &data[at..at + 3]);
    } else if input_channels == 4 {
        cur.set_values(Channels::Srbg, &data[at..at + 4]);
    } else if input_channels == 1 {
        cur = QoiRbga { r: data[at], g: data[at], b: data[at], a: 255 };
    } else {
        cur = QoiRbga { r: data[at], g: data[at], b: data[at], a: data[at + 1] };
    }
    cur
}

impl<'a> QoiEncodingRequest<'a> {
    /// Encodes the image as a QOI stream.
    pub fn encode(&self) -> (r: PictorResult<Vec<u8>>)
        requires
            self.width >= 1,
            self.height >= 1,
            !spec_qoi_len_overflows(self) ==> self.data@.len() >= self.width * self.height * spec_input_channels(self),
        ensures
            spec_qoi_len_overflows(self) <==> (r matches Err(PictorError::MulOverflow { .. })),
            r matches Ok(v) ==> v@ == spec_qoi_stream(self),
            r is Ok || (r matches Err(PictorError::MulOverflow { .. })),
    {
        // Differences in channels come from format conversions.
        let (input_channels, output_channels) = match self.native_channels {
            None => (self.channels.pixel_size(), self.channels.pixel_size()),
            Some(n) => {
                let px_size = n.comp_per_pix();
                if px_size == 1 || px_size == 3 {
                    (px_size, 3u8)
                } else {
                    (px_size, 4u8)
                }
            },
        };

        let mut out: Vec<u8> = Vec::new();
        // QOI magic
        out.push(0x71);
        out.push(0x6f);
        out.push(0x69);
        out.push(0x66);
        write_be32(&mut out, self.width);
        write_be32(&mut out, self.height);
        out.push(output_channels);
        out.push(self.color_space.id());
        let ghost header = spec_qoi_header(self.width, self.height, output_channels, self.color_space.spec_id());
        assert(out@ =~= header);

        let count = match (self.width as usize).checked_mul(self.height as usize) {
            Some(c) => c,
            None => {
                return Err(PictorError::MulOverflow { op: "Total length of file exceedes usize." });
            },
        };
        let len = match count.checked_mul(input_channels as usize) {
            Some(l) => l,
            None => {
                return Err(PictorError::MulOverflow { op: "Total length of file exceedes usize." });
            },
        };
        let ic = input_channels as usize;
        proof {
            assert(count >= 1) by (nonlinear_arith) requires count == self.width * self.height, self.width >= 1, self.height >= 1;
            assert(len >= ic) by (nonlinear_arith) requires len == count * ic, count >= 1;
        }
        let last_pixel = len - ic;
        let data = self.data.get_data();

        let mut prev = QoiRbga::default();
        let mut pixel_cache: Vec<Option<QoiRbga>> = Vec::new();
        let mut k: usize = 0;
        while k < 64
            invariant
                k <= 64,
                pixel_cache@.len() == k,
                forall|i: int| 0 <= i < k ==> pixel_cache@[i] == None::<QoiRbga>,
            decreases 64 - k,
        {
            pixel_cache.push(None);
            k = k + 1;
        }
        let mut pixel: usize = 0;
        let mut n: usize = 0;
        let mut run: u8 = 0;
        assert(pixel_cache@ =~= spec_enc_start().cache);
        proof {
            assert(count * ic == (count - 1) * ic + ic) by (nonlinear_arith);
        }
        while pixel < len
            invariant
                1 <= ic <= 4,
                ic == input_channels as usize,
                ic == spec_input_channels(self),
                count == self.width * self.height,
                count >= 1,
                len == count * ic,
                last_pixel == (count - 1) * ic,
                data@ == self.data@,
                data@.len() >= len,
                n <= count,
                pixel == n * ic,
                ({
                    let s = spec_enc_pixels(self.data@, ic as int, count as int, n as nat);
                    &&& s.prev == prev
                    &&& s.run == run as int
                    &&& s.cache == pixel_cache@
                    &&& out@ == header + s.out
                }),
                0 <= run < 62,
                pixel_cache@.len() == 64,
            decreases len - pixel,
        {
            proof {
                assert(n < count) by (nonlinear_arith) requires pixel == n * ic, pixel < len, len == count * ic, ic >= 1;
                assert(pixel + ic <= len) by (nonlinear_arith) requires pixel == n * ic, n + 1 <= count, len == count * ic;
                assert((pixel == last_pixel) == (n == count - 1)) by (nonlinear_arith)
                    requires pixel == n * ic, last_pixel == (count - 1) * ic, ic >= 1;
            }
            let cur = load_pixel(input_channels, data, pixel, Ghost(n as int));
            let ghost s0 = spec_enc_pixels(self.data@, ic as int, count as int, n as nat);

            if cur == prev {
                run = run + 1;
                if run == 62 || pixel == last_pixel {
                    out.push(op_run(run));
                    run = 0;
                }
            } else {
                if run > 0 {
                    out.push(op_run(run));
                    run = 0;
                }

                let index_pos = idx_color_hash(cur);

                if pixel_cache[index_pos] == Some(cur) {
                    out.push(op_index(index_pos));
                } else {
                    pixel_cache.set(index_pos, Some(cur));

                    if cur.alpha_eq(prev) {
                        let diff = cur.diff_from(prev);
                        match diff.check_op() {
                            QoiOperation::FitsDiff => out.extend_from_slice(&diff.create_diff_tag()),
                            QoiOperation::FitsLuma => out.extend_from_slice(&diff.create_luma_tag()),
                            QoiOperation::Rgb => out.extend_from_slice(&cur.create_rbg_tag()),
                        };
                    } else {
                        out.extend_from_slice(&cur.create_rbga_tag());
                    }
                }
            }

            proof {
                let s1 = spec_enc_pixels(self.data@, ic as int, count as int, (n + 1) as nat);
                assert(s1 == spec_enc_step(s0, cur, n == count - 1));
                assert(out@ =~= header + s1.out);
                assert(pixel + ic == (n + 1) * ic) by (nonlinear_arith) requires pixel == n * ic;
            }
            prev = cur;
            pixel = pixel + ic;
            n = n + 1;
        }

        proof {
            assert(n == count) by (nonlinear_arith) requires pixel == n * ic, pixel >= len, n <= count, len == count * ic, ic >= 1;
        }
        let marker = end_marker();
        out.extend_from_slice(&marker);
        assert(out@ =~= spec_qoi_stream(self));
        Ok(out)
    }
}

impl<'a> QoiEncodingRequest<'a> {
    #[inline]
    pub fn width(&self) -> (r: u32)
        ensures
            r == self.width,
    {
        self.width
    }

    #[inline]
    pub fn height(&self) -> (r: u32)
        ensures
            r == self.height,
    {
        self.height
    }

    #[inline]
    pub fn channels(&self) -> (r: Channels)
        ensures
            r == self.channels,
    {
        self.channels
    }

    #[inline]
    pub fn color_space(&self) -> (r: ColorSpace)
        ensures
            r == self.color_space,
    {
        self.color_space
    }

    #[inline]
    pub fn data(&self) -> (r: &[u8])
        ensures
            r@ == self.data@,
    {
        self.data.get_data()
    }

    /// A request for samples of color type `color_type`: gray input is
    /// written as RGB and gray with alpha as RGBA; the color space is sRGB
    /// unless given.
    pub fn new(
        width: u32,
        height: u32,
        color_type: ColorType,
        color_space: Option<ColorSpace>,
        data: SampleStorage<'a, u8>,
    ) -> (r: QoiEncodingRequest<'a>)
        ensures
            r.width == width,
            r.height == height,
            r.native_channels == (match color_type {
                ColorType::L => Some(ColorType::L),
                ColorType::La => Some(ColorType::La),
                _ => None::<ColorType>,
            }),
            r.channels == (match color_type {
                ColorType::L | ColorType::Rgb => Channels::Rbg,
                _ => Channels::Srbg,
            }),
            r.color_space == (match color_space {
                Some(c) => c,
                None => ColorSpace::Srbg,
            }),
            r.data@ == data@,
    {
        let (native_channels, channels) = match color_type {
            ColorType::L => (Some(ColorType::L), Channels::Rbg),
            ColorType::La => (Some(ColorType::La), Channels::Srbg),
            ColorType::Rgb => (None, Channels::Rbg),
            ColorType::Rgba => (None, Channels::Srbg),
        };
        let color_space = match color_space {
            Some(c) => c,
            None => ColorSpace::Srbg,
        };
        QoiEncodingRequest { width, height, native_channels, channels, color_space, data }
    }
}

/// Settings of the QOI encoder.
pub struct QoiBuilder {
    pub width: u32,
    pub height: u32,
    pub channels: Channels,
    pub color_space: ColorSpace,
}

impl QoiBuilder {
    /// An sRGB image.
    pub fn new(width: u32, height: u32, channels: Channels) -> (r: QoiBuilder)
        ensures
            r == (QoiBuilder { width, height, channels, color_space: ColorSpace::Srbg }),
    {
        QoiBuilder { width, height, channels, color_space: ColorSpace::Srbg }
    }

    /// A request over `data`; refused when the image has too many pixels.
    pub fn create_request<'a>(&self, data: &'a [u8]) -> (r: PictorResult<QoiEncodingRequest<'a>>)
        requires
            self.width >= 1,
        ensures
            (self.height >= (QOI_MAX_PIXELS as int) / (self.width as int)) <==> (r matches Err(PictorError::FileSizeExceeded)),
            r matches Ok(req) ==> req.width == self.width && req.height == self.height && req.native_channels is None
                && req.channels == self.channels && req.color_space == self.color_space && req.data@ == data@,
            r is Ok || (r matches Err(PictorError::FileSizeExceeded)),
    {
        if self.height as usize >= QOI_MAX_PIXELS / self.width as usize {
            return Err(PictorError::FileSizeExceeded);
        }
        Ok(QoiEncodingRequest {
            width: self.width,
            height: self.height,
            native_channels: None,
            channels: self.channels,
            color_space: self.color_space,
            data: SampleStorage::Borrow { data },
        })
    }

    pub fn color_space(&mut self, color_space: ColorSpace) -> (r: &mut Self)
        ensures
            *r == (QoiBuilder { color_space, ..*old(self) }),
            *final(self) == *final(r),
    {
        self.color_space = color_space;
        self
    }

    /// Encodes `data` as a QOI stream.
    pub fn encode_with(&self, data: &[u8]) -> (r: PictorResult<Vec<u8>>)
        requires
            self.width >= 1,
            self.height < (QOI_MAX_PIXELS as int) / (self.width as int) ==> self.height >= 1 && data@.len() >= self.width
                * self.height * self.channels.spec_pixel_size(),
        ensures
            (self.height >= (QOI_MAX_PIXELS as int) / (self.width as int)) <==> (r matches Err(PictorError::FileSizeExceeded)),
            r matches Ok(v) ==> exists|req: QoiEncodingRequest| #[trigger] spec_qoi_stream(&req) == v@ && req.width
                == self.width && req.height == self.height && req.native_channels is None && req.channels
                == self.channels && req.color_space == self.color_space && req.data@ == data@,
            r is Ok || (r matches Err(PictorError::FileSizeExceeded)),
    {
        let request = self.create_request(data)?;
        proof {
            assert(self.width * self.height < QOI_MAX_PIXELS) by (nonlinear_arith)
                requires self.height < (QOI_MAX_PIXELS as int) / (self.width as int), self.width >= 1;
            assert(self.width * self.height * 4 < 4 * QOI_MAX_PIXELS) by (nonlinear_arith)
                requires self.width * self.height < QOI_MAX_PIXELS;
            assert(self.width * self.height * self.channels.spec_pixel_size() <= self.width * self.height * 4)
                by (nonlinear_arith) requires self.channels.spec_pixel_size() <= 4;
        }
        let v = request.encode()?;
        assert(spec_qoi_stream(&request) == v@);
        Ok(v)
    }
}

} // verus!
