use vstd::prelude::*;
use crate::color_type::{BitDepth, ColorType};
use crate::error::{PictorError, PictorResult};
use crate::png_deflate::CompressionLevel;
use crate::png_filter::PngFilter;
use crate::samples::{Sample, SampleStorage};
use crate::png_filter::spec_filter_map;
use crate::bytes::{spec_be32, write_be32};
use crate::crc::{generate_crc, png_sig, spec_crc32, spec_png_sig};
use crate::png_deflate::{DeflatedPng, spec_zlib_stream};
use crate::png_write_filter::{
    FilteredPng, spec_filtered_rows, spec_filtered_line, spec_row_start, spec_line_readable, spec_row_map, spec_row_len,
    spec_enc_bpp,
};

verus! {

/// A PNG encoding job: the image geometry, the encoder's settings and the
/// samples as big-endian bytes.
pub struct PngEncodingRequest<'a> {
    pub width: u32,
    pub height: u32,
    pub stride: usize,
    pub color_type: ColorType,
    pub bit_depth: BitDepth,
    pub compression_level: CompressionLevel,
    pub filter: Option<PngFilter>,
    pub vertical_flip: bool,
    pub data: SampleStorage<'a, u8>,
}

} // verus!

verus! {

/// Size of the filtered image: one filter type byte and one row of samples per row.
pub open spec fn spec_filtered_size(req: &PngEncodingRequest) -> int {
    (req.width * req.color_type.spec_comp_per_pix() * req.bit_depth.spec_bytes_per_comp() + 1) * req.height
}

/// The filtered image: the filtered rows, one after the other.
pub open spec fn spec_filtered(req: &PngEncodingRequest) -> Seq<u8> {
    spec_filtered_rows(req, req.height as nat)
}

/// The requests that the encoder filters without a panic: the samples hold
/// `height` rows of `stride` bytes, each an image row possibly followed by
/// padding, the sizes fit in `usize`, and the size estimate of a row fits in
/// `i32`.
pub open spec fn spec_filterable(req: &PngEncodingRequest) -> bool {
    spec_png_params_ok(
        req.width,
        req.height,
        req.stride,
        req.color_type,
        req.bit_depth,
        req.filter,
        req.data@.len() as int,
    )
}

/// The settings and sample count with which the encoder filters without a
/// panic (see `spec_filterable`).
pub open spec fn spec_png_params_ok(
    width: u32,
    height: u32,
    stride: usize,
    color_type: ColorType,
    bit_depth: BitDepth,
    filter: Option<PngFilter>,
    len: int,
) -> bool {
    let row = width * color_type.spec_comp_per_pix() * bit_depth.spec_bytes_per_comp();
    &&& stride * height <= len
    &&& stride + 1 <= usize::MAX
    &&& row + 1 <= usize::MAX
    &&& (row + 1) * height <= usize::MAX
    &&& row <= stride
    &&& filter is None ==> row * 128 <= i32::MAX
}

/// The row length is the width times the components times their bytes.
pub(crate) proof fn lemma_row_len(req: &PngEncodingRequest)
    ensures
        spec_row_len(req) == req.width * req.color_type.spec_comp_per_pix() * req.bit_depth.spec_bytes_per_comp(),
        spec_row_len(req) >= 0,
{
    let w = req.width as int;
    let c = req.color_type.spec_comp_per_pix() as int;
    let b = req.bit_depth.spec_bytes_per_comp() as int;
    assert(w * (c * b) == w * c * b && w * (c * b) >= 0) by (nonlinear_arith) requires w >= 0, c >= 0, b >= 0;
}

pub(crate) proof fn lemma_filtered_rows_len(req: &PngEncodingRequest, n: nat)
    ensures
        spec_filtered_rows(req, n).len() == n * (spec_row_len(req) + 1),
    decreases n,
{
    lemma_row_len(req);
    let r = spec_row_len(req);
    if n > 0 {
        lemma_filtered_rows_len(req, (n - 1) as nat);
        assert(spec_filtered_line(req, n - 1).len() == r + 1);
        assert((n - 1) * (r + 1) + (r + 1) == n * (r + 1)) by (nonlinear_arith);
    } else {
        assert(n * (r + 1) == 0) by (nonlinear_arith) requires n == 0;
    }
}

proof fn lemma_row_readable(req: &PngEncodingRequest, s: int, first: bool)
    requires
        first == (s == 0),
        spec_filterable(req),
        0 <= s < req.height,
    ensures
        0 <= spec_row_start(req, s),
        spec_row_start(req, s) + req.stride <= req.data@.len(),
        forall|k: int| 0 <= k < 5 ==> spec_line_readable(req, spec_row_start(req, s), #[trigger] spec_filter_map(first, k)),
{
    lemma_row_len(req);
    let y = if req.vertical_flip { req.height - 1 - s } else { s };
    let st = req.stride as int;
    let h = req.height as int;
    assert(0 <= st * y) by (nonlinear_arith) requires 0 <= st, 0 <= y;
    assert(st * y + st <= st * h) by (nonlinear_arith) requires 0 <= st, 0 <= y, y + 1 <= h;
    if s > 0 {
        if req.vertical_flip {
            assert(st * y + 2 * st <= st * h) by (nonlinear_arith) requires 0 <= st, 0 <= y, y + 2 <= h;
        } else {
            assert(st * y >= st) by (nonlinear_arith) requires 0 <= st, y >= 1;
        }
    }
}

impl<'a> PngEncodingRequest<'a> {
    #[inline]
    pub fn width(&self) -> (r: u32)
        ensures
            r == self.width,
    {
        self.width
    }

    #[inline]
    pub fn height(&self) -> (r: u32)
        ensures
            r == self.height,
    {
        self.height
    }

    #[inline]
    pub fn stride(&self) -> (r: usize)
        ensures
            r == self.stride,
    {
        self.stride
    }

    #[inline]
    pub fn color_type(&self) -> (r: ColorType)
        ensures
            r == self.color_type,
    {
        self.color_type
    }

    #[inline]
    pub fn compression_level(&self) -> (r: CompressionLevel)
        ensures
            r == self.compression_level,
    {
        self.compression_level
    }

    #[inline]
    pub fn filter(&self) -> (r: Option<PngFilter>)
        ensures
            r == self.filter,
    {
        self.filter
    }

    #[inline]
    pub fn vertical_flip(&self) -> (r: bool)
        ensures
            r == self.vertical_flip,
    {
        self.vertical_flip
    }

    /// A request over the big-endian bytes of `data`.
    pub fn new<S: Sample>(
        width: u32,
        height: u32,
        stride: usize,
        color_type: ColorType,
        bit_depth: BitDepth,
        compression_level: CompressionLevel,
        filter: Option<PngFilter>,
        vertical_flip: bool,
        data: SampleStorage<'a, S>,
    ) -> (r: PngEncodingRequest<'a>)
        requires
            data@.len() * S::spec_bytes_per_sample() <= usize::MAX,
        ensures
            r.width == width,
            r.height == height,
            r.stride == stride,
            r.color_type == color_type,
            r.bit_depth == bit_depth,
            r.compression_level == compression_level,
            r.filter == filter,
            r.vertical_flip == vertical_flip,
            r.data@ == S::spec_be_bytes(data@),
            r.data@.len() == data@.len() * S::spec_bytes_per_sample(),
            S::spec_bytes_per_sample() == 1 ==> (r.data is Borrow <==> data is Borrow),
            S::spec_bytes_per_sample() == 2 ==> r.data is Owned,
    {
        let data = S::into_be_bytes(data);
        PngEncodingRequest {
            width,
            height,
            stride,
            color_type,
            bit_depth,
            compression_level,
            filter,
            vertical_flip,
            data,
        }
    }

    /// Total size of the filtered image.
    fn filtered_size(&self) -> (r: usize)
        requires
            spec_filterable(self),
        ensures
            r == spec_filtered_size(self),
    {
        (self.width as usize * (self.color_type.comp_per_pix() as usize)
            * self.bit_depth.bytes_per_comp() as usize + 1) * self.height as usize
    }

    /// Start of the input row that becomes output row `scanline`.
    fn current_row_adjusted(&self, scanline: u32) -> (r: usize)
        requires
            scanline < self.height,
            self.stride * self.height <= usize::MAX,
        ensures
            r == spec_row_start(self, scanline as int),
    {
        let scanline = scanline as usize;
        let height = self.height as usize;

        let y = if self.vertical_flip {
            height - 1 - scanline
        } else {
            scanline
        };
        assert(self.stride * y <= self.stride * height) by (nonlinear_arith)
            requires y <= height;
        self.stride * y
    }

    /// Filters every row of the image.
    pub fn filter_scanlines(&self) -> (r: PictorResult<FilteredPng>)
        requires
            spec_filterable(self),
        ensures
            r matches Ok(f) && f.width == self.width && f.height == self.height && f.color_type
                == self.color_type && f.bit_depth == self.bit_depth && f.compression
                == self.compression_level && f.data@ == spec_filtered(self),
    {
        let mut out_line_start: usize = 0;
        proof {
            lemma_row_len(self);
        }
        let row = FilteredPng::row_len(self);
        let filtered_stride = row + 1;
        let size = self.filtered_size();
        let mut out = vec![0u8; size];
        let mut scratch = vec![0u8; row];
        let mut scanline: u32 = 0;
        let data_len = self.data.len();
        proof {
            lemma_filtered_rows_len(self, 0);
            assert(out@ =~= spec_filtered_rows(self, 0) + Seq::new((size - 0) as nat, |i: int| 0u8));
        }
        while scanline < self.height
            invariant
                spec_filterable(self),
                scanline <= self.height,
                row == spec_row_len(self),
                filtered_stride == row + 1,
                size == spec_filtered_size(self),
                size == (row + 1) * self.height,
                data_len == self.data@.len(),
                out@.len() == size,
                scratch@.len() == row,
                out_line_start == spec_filtered_rows(self, scanline as nat).len(),
                out@ == spec_filtered_rows(self, scanline as nat) + Seq::new(
                    (size - out_line_start) as nat,
                    |i: int| 0u8,
                ),
            decreases self.height - scanline,
        {
            proof {
                lemma_filtered_rows_len(self, scanline as nat);
                lemma_filtered_rows_len(self, (scanline + 1) as nat);
                lemma_row_readable(self, scanline as int, scanline == 0);
                lemma_row_len(self);
                assert((scanline + 1) * (row + 1) <= (row + 1) * self.height) by (nonlinear_arith)
                    requires scanline + 1 <= self.height;
                assert(self.stride * self.height <= usize::MAX);
            }
            let in_line_start = self.current_row_adjusted(scanline);
            let map = if scanline == 0 {
                PngFilter::mapping_first_row()
            } else {
                PngFilter::mapping()
            };
            assert(map@ =~= spec_row_map(scanline == 0));
            let out_line_end = out_line_start + filtered_stride;
            let ghost old_out = out@;
            let ghost old_rows = spec_filtered_rows(self, scanline as nat);

            match self.filter {
                Some(force_filter) => {
                    FilteredPng::filter_fast_path(self, in_line_start, force_filter, map, &mut out, out_line_start);
                },
                None => {
                    FilteredPng::filter_slow_path(self, in_line_start, map, &mut out, out_line_start, &mut scratch);
                },
            }
            proof {
                let line = spec_filtered_line(self, scanline as int);
                let new_rows = spec_filtered_rows(self, (scanline + 1) as nat);
                assert(new_rows == old_rows + line);
                assert(out@.subrange(out_line_start as int, out_line_end as int) == line);
                let zeros = Seq::new((size - out_line_end) as nat, |i: int| 0u8);
                assert forall|k: int| 0 <= k < out@.len() implies out@[k] == (new_rows + zeros)[k] by {
                    if k < out_line_start {
                        assert(old_out[k] == old_rows[k]);
                    } else if k < out_line_end {
                        assert(out@[k] == out@.subrange(out_line_start as int, out_line_end as int)[k - out_line_start]);
                    } else {
                        assert(old_out[k] == 0u8);
                    }
                }
                assert(out@ =~= new_rows + zeros);
            }
            out_line_start = out_line_end;
            scanline = scanline + 1;
        }
        proof {
            lemma_filtered_rows_len(self, self.height as nat);
            assert((self.height as int) * (row + 1) == (row + 1) * self.height) by (nonlinear_arith);
            assert(out@ =~= spec_filtered(self));
        }
        FilteredPng::new(self, out)
    }
}

} // verus!

verus! {

impl<'a> PngEncodingRequest<'a> {
    /// Output row `scanline`: its filter type byte, then the filtered
    /// samples of the input row it comes from. `scratch` holds one row.
    pub fn filter_row(&self, scanline: u32, scratch: &mut Vec<u8>) -> (r: Vec<u8>)
        requires
            spec_filterable(self),
            scanline < self.height,
            old(scratch)@.len() == self.stride,
        ensures
            r@ == spec_filtered_line(self, scanline as int),
            final(scratch)@.len() == self.stride,
    {
        let _len = self.data.len();
        proof {
            lemma_row_readable(self, scanline as int, scanline == 0);
        }
        let in_line_start = self.current_row_adjusted(scanline);
        let map = if scanline == 0 {
            PngFilter::mapping_first_row()
        } else {
            PngFilter::mapping()
        };
        assert(map@ =~= spec_row_map(scanline == 0));
        proof {
            lemma_row_len(self);
        }
        let row = FilteredPng::row_len(self);
        let mut out = vec![0u8; row + 1];
        match self.filter {
            Some(force_filter) => {
                FilteredPng::filter_fast_path(self, in_line_start, force_filter, map, &mut out, 0);
            },
            None => {
                FilteredPng::filter_slow_path(self, in_line_start, map, &mut out, 0, scratch);
            },
        }
        assert(out@ =~= out@.subrange(0, row + 1));
        out
    }
}

/// Chunk type `IHDR`, as a big-endian value.
pub const TAG_IHDR: u32 = 0x4948_4452;

/// Chunk type `IDAT`, as a big-endian value.
pub const TAG_IDAT: u32 = 0x4944_4154;

/// Chunk type `IEND`, as a big-endian value.
pub const TAG_IEND: u32 = 0x4945_4E44;

/// A PNG chunk: payload length, type, payload, and the CRC-32 of type and payload.
pub open spec fn spec_chunk(tag: u32, payload: Seq<u8>) -> Seq<u8> {
    spec_be32(payload.len() as u32) + spec_be32(tag) + payload + spec_be32(spec_crc32(spec_be32(tag) + payload))
}

/// The payload of an `IHDR` chunk: width, height, bit depth, color type, and
/// zero for compression, filter and interlace methods.
pub open spec fn spec_ihdr(width: u32, height: u32, bits: u8, color: u8) -> Seq<u8> {
    spec_be32(width) + spec_be32(height) + seq![bits, color, 0u8, 0u8, 0u8]
}

/// A PNG file with one `IDAT` chunk holding `zlib`.
pub open spec fn spec_png_file(width: u32, height: u32, bits: u8, color: u8, zlib: Seq<u8>) -> Seq<u8> {
    spec_png_sig() + spec_chunk(TAG_IHDR, spec_ihdr(width, height, bits, color)) + spec_chunk(TAG_IDAT, zlib)
        + spec_chunk(TAG_IEND, Seq::empty())
}

/// The bytes of an encoded PNG file.
pub struct EncodedPng(pub Vec<u8>);

impl EncodedPng {
    /// The PNG file of a compressed payload: signature, `IHDR`, one `IDAT`
    /// holding the payload, and `IEND`.
    pub(crate) fn encode_in_memory(deflated: &DeflatedPng) -> (r: PictorResult<Vec<u8>>)
        ensures
            r matches Ok(v) && v@ == spec_png_file(
                deflated.width,
                deflated.height,
                deflated.bit_depth.spec_bits_per_comp(),
                deflated.color_type.spec_id(),
                deflated.data@,
            ),
    {
        let zlib = &deflated.data;
        let mut out: Vec<u8> = Vec::new();

        // PNG signature
        let sig = png_sig();
        out.extend_from_slice(&sig);
        assert(out@ =~= spec_png_sig());

        // IHDR chunk
        let ghost before_ihdr = out@;
        let ihdr_chunk_len: u32 = 13;
        Self::write_be_bytes(&mut out, ihdr_chunk_len);
        Self::write_be_bytes(&mut out, TAG_IHDR);
        Self::write_be_bytes(&mut out, deflated.width);
        Self::write_be_bytes(&mut out, deflated.height);
        out.push(deflated.bit_depth.bits_per_comp());
        out.push(deflated.color_type.id());
        // compression, filter and interlace methods
        out.push(0);
        out.push(0);
        out.push(0);
        let ghost ihdr = spec_ihdr(
            deflated.width,
            deflated.height,
            deflated.bit_depth.spec_bits_per_comp(),
            deflated.color_type.spec_id(),
        );
        assert(out@ =~= before_ihdr + spec_be32(13) + spec_be32(TAG_IHDR) + ihdr);
        assert(out@.subrange(out@.len() - 13 - 4, out@.len() as int) =~= spec_be32(TAG_IHDR) + ihdr);
        let crc = generate_crc(out.as_slice(), ihdr_chunk_len as usize);
        Self::write_be_bytes(&mut out, crc);
        assert(out@ =~= before_ihdr + spec_chunk(TAG_IHDR, ihdr));

        // IDAT chunk
        let ghost before_idat = out@;
        let idat_chunk_len = zlib.len();
        Self::write_be_bytes(&mut out, idat_chunk_len as u32);
        Self::write_be_bytes(&mut out, TAG_IDAT);
        out.extend_from_slice(zlib.as_slice());
        assert(out@.subrange(out@.len() - idat_chunk_len - 4, out@.len() as int) =~= spec_be32(TAG_IDAT) + zlib@);
        let crc = generate_crc(out.as_slice(), idat_chunk_len);
        Self::write_be_bytes(&mut out, crc);
        assert(out@ =~= before_idat + spec_chunk(TAG_IDAT, zlib@));

        // IEND chunk
        let ghost before_iend = out@;
        Self::write_be_bytes(&mut out, 0);
        Self::write_be_bytes(&mut out, TAG_IEND);
        assert(out@.subrange(out@.len() - 0 - 4, out@.len() as int) =~= spec_be32(TAG_IEND) + Seq::<u8>::empty());
        let crc = generate_crc(out.as_slice(), 0);
        Self::write_be_bytes(&mut out, crc);
        assert(out@ =~= before_iend + spec_chunk(TAG_IEND, Seq::empty()));

        Ok(out)
    }

    fn write_be_bytes(out: &mut Vec<u8>, val: u32)
        ensures
            final(out)@ == old(out)@ + spec_be32(val),
    {
        write_be32(out, val);
    }
}

impl DeflatedPng {
    pub fn encode_in_memory_internal(&self) -> (r: PictorResult<EncodedPng>)
        ensures
            r matches Ok(e) && e.0@ == spec_png_file(
                self.width,
                self.height,
                self.bit_depth.spec_bits_per_comp(),
                self.color_type.spec_id(),
                self.data@,
            ),
    {
        let zlib = EncodedPng::encode_in_memory(self)?;
        Ok(EncodedPng(zlib))
    }
}

/// The PNG file that the encoder produces for a request, given the zlib
/// stream of its filtered image.
pub open spec fn spec_encoded_png(req: &PngEncodingRequest) -> Seq<u8> {
    spec_png_file(
        req.width,
        req.height,
        req.bit_depth.spec_bits_per_comp(),
        req.color_type.spec_id(),
        spec_zlib_stream(req.compression_level.spec_id() as u32, spec_filtered(req)),
    )
}

impl<'a> PngEncodingRequest<'a> {
    /// Filters, compresses and frames the image as a PNG file.
    pub fn encode(&self) -> (r: PictorResult<EncodedPng>)
        requires
            spec_filterable(self),
        ensures
            r matches Ok(e) && e.0@ == spec_encoded_png(self),
    {
        let filtered = self.filter_scanlines()?;
        let zlib = filtered.compress()?;
        let encoded = zlib.encode_in_memory_internal()?;
        Ok(encoded)
    }
}

/// Settings of the PNG encoder.
pub struct PngBuilder {
    pub width: u32,
    pub height: u32,
    pub stride: Option<usize>,
    pub compression: CompressionLevel,
    pub color_type: ColorType,
    pub bit_depth: BitDepth,
    pub vertical_flip: bool,
    pub filter: Option<PngFilter>,
}

/// The row size the builder uses: the one it was given, or the width times
/// the bytes per pixel.
pub open spec fn spec_builder_stride<S: Sample>(b: &PngBuilder) -> int {
    match b.stride {
        Some(s) => s as int,
        None => b.width * b.color_type.spec_comp_per_pix() * S::spec_bytes_per_sample(),
    }
}

/// The bit depth of a sample type.
pub open spec fn spec_sample_depth<S: Sample>() -> BitDepth {
    if S::spec_bytes_per_sample() == 1 { BitDepth::U8 } else { BitDepth::U16 }
}

/// `req` is the request the builder makes for samples `data`.
pub open spec fn spec_from_builder<S: Sample>(req: &PngEncodingRequest, b: &PngBuilder, data: Seq<S>) -> bool {
    &&& req.width == b.width
    &&& req.height == b.height
    &&& req.stride == spec_builder_stride::<S>(b)
    &&& req.color_type == b.color_type
    &&& req.bit_depth == spec_sample_depth::<S>()
    &&& req.compression_level == b.compression
    &&& req.filter == b.filter
    &&& req.vertical_flip == b.vertical_flip
    &&& req.data@ == S::spec_be_bytes(data)
}

impl PngBuilder {
    /// Default compression, no forced filter, not flipped, rows of
    /// `width` pixels.
    pub fn new(width: u32, height: u32, color_type: ColorType) -> (r: PngBuilder)
        ensures
            r == (PngBuilder {
                width,
                height,
                stride: None,
                compression: CompressionLevel::Default,
                color_type,
                bit_depth: BitDepth::U8,
                vertical_flip: false,
                filter: None,
            }),
    {
        PngBuilder {
            width,
            height,
            stride: None,
            compression: CompressionLevel::Default,
            color_type,
            bit_depth: BitDepth::U8,
            vertical_flip: false,
            filter: None,
        }
    }

    /// Sets the number of bytes from one row of the input to the next.
    pub fn stride(&mut self, stride: usize) -> (r: &mut Self)
        ensures
            *r == (PngBuilder { stride: Some(stride), ..*old(self) }),
            *final(self) == *final(r),
    {
        self.stride = Some(stride);
        self
    }

    pub fn compression(&mut self, compression: CompressionLevel) -> (r: &mut Self)
        ensures
            *r == (PngBuilder { compression, ..*old(self) }),
            *final(self) == *final(r),
    {
        self.compression = compression;
        self
    }

    /// Uses `filter` for every row.
    pub fn force_filter(&mut self, filter: PngFilter) -> (r: &mut Self)
        ensures
            *r == (PngBuilder { filter: Some(filter), ..*old(self) }),
            *final(self) == *final(r),
    {
        self.filter = Some(filter);
        self
    }

    /// Stores the rows bottom-up.
    pub fn vertical_flip(&mut self, yes: bool) -> (r: &mut Self)
        ensures
            *r == (PngBuilder { vertical_flip: yes, ..*old(self) }),
            *final(self) == *final(r),
    {
        self.vertical_flip = yes;
        self
    }

    /// A request over the samples, with the bit depth of the sample type.
    fn new_png_request<'a, S: Sample>(&self, data: SampleStorage<'a, S>) -> (r: PictorResult<PngEncodingRequest<'a>>)
        requires
            self.stride is None ==> self.width * self.color_type.spec_comp_per_pix() * S::spec_bytes_per_sample()
                <= u32::MAX,
            data@.len() * S::spec_bytes_per_sample() <= usize::MAX,
        ensures
            r matches Ok(req) && req.width == self.width && req.height == self.height && req.stride
                == spec_builder_stride::<S>(self) && req.color_type == self.color_type && req.bit_depth
                == spec_sample_depth::<S>() && req.compression_level == self.compression && req.filter == self.filter
                && req.vertical_flip == self.vertical_flip && req.data@ == S::spec_be_bytes(data@) && req.data@.len()
                == data@.len() * S::spec_bytes_per_sample(),
    {
        let stride = match self.stride {
            Some(s) => s,
            None => {
                let comp = self.color_type.comp_per_pix() as u32;
                let bytes = S::bytes_per_sample() as u32;
                assert(self.width * comp <= self.width * comp * bytes) by (nonlinear_arith) requires bytes >= 1;
                (self.width * comp * bytes) as usize
            },
        };
        let bit_depth = if S::bytes_per_sample() == 1 { BitDepth::U8 } else { BitDepth::U16 };
        let data = S::into_be_bytes(data);
        Ok(PngEncodingRequest {
            width: self.width,
            height: self.height,
            stride,
            color_type: self.color_type,
            bit_depth,
            compression_level: self.compression,
            filter: self.filter,
            vertical_flip: self.vertical_flip,
            data,
        })
    }

    /// Encodes the samples as a PNG file.
    pub fn encode_with<S: Sample>(&self, data: &[S]) -> (r: PictorResult<EncodedPng>)
        requires
            self.stride is None ==> self.width * self.color_type.spec_comp_per_pix() * S::spec_bytes_per_sample()
                <= u32::MAX,
            data@.len() * S::spec_bytes_per_sample() <= usize::MAX,
            spec_builder_stride::<S>(self) <= usize::MAX,
            spec_png_params_ok(
                self.width,
                self.height,
                spec_builder_stride::<S>(self) as usize,
                self.color_type,
                spec_sample_depth::<S>(),
                self.filter,
                data@.len() * S::spec_bytes_per_sample(),
            ),
        ensures
            r matches Ok(e) && exists|req: PngEncodingRequest| #[trigger] spec_from_builder(&req, self, data@)
                && e.0@ == spec_encoded_png(&req),
    {
        let png_req = self.new_png_request(SampleStorage::Borrow { data })?;
        let filtered = png_req.filter_scanlines()?;
        let zlib = filtered.compress()?;
        let encoded = zlib.encode_in_memory_internal()?;
        assert(spec_from_builder(&png_req, self, data@));
        Ok(encoded)
    }
}

} // verus!
