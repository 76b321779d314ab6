use vstd::prelude::*;
use vstd::wrapping::u8_specs::wrapping_sub;
use crate::color_type::{BitDepth, ColorType};
use crate::error::PictorResult;
use crate::png_deflate::{CompressionLevel, DeflatedPng, spec_zlib_stream};
use crate::png_filter::{PngFilter, spec_filter_id, spec_filter_map, spec_paeth, spec_reads_row_above};
use crate::png_write::PngEncodingRequest;

verus! {

/// Bytes per pixel of the samples the encoder filters: components times
/// bytes per component, the distance to the byte of the pixel to the left.
pub open spec fn spec_enc_bpp(req: &PngEncodingRequest) -> int {
    req.color_type.spec_comp_per_pix() * req.bit_depth.spec_bytes_per_comp()
}

/// Position of the byte in the row that precedes `pos` in output order:
/// the row below when the image is flipped, the row above otherwise.
pub open spec fn spec_above(req: &PngEncodingRequest, pos: int) -> int {
    if req.vertical_flip {
        pos + req.stride
    } else {
        pos - req.stride
    }
}

/// Filtered value of the byte at `pos`, for the first pixel of a row.
pub open spec fn spec_encode_first_byte(req: &PngEncodingRequest, pos: int, f: PngFilter) -> u8 {
    let px = req.data@;
    let byte = px[pos];
    let up = px[spec_above(req, pos)];
    match f {
        PngFilter::Up => wrapping_sub(byte, up),
        PngFilter::Average => wrapping_sub(byte, (up / 2) as u8),
        PngFilter::Paeth => wrapping_sub(byte, spec_paeth(0, up, 0)),
        _ => byte,
    }
}

/// Filtered value of the byte at `pos`, for a byte past the first pixel of a row.
pub open spec fn spec_encode_byte(req: &PngEncodingRequest, pos: int, f: PngFilter) -> u8 {
    let px = req.data@;
    let comp = spec_enc_bpp(req);
    let byte = px[pos];
    let left = px[pos - comp];
    let up = px[spec_above(req, pos)];
    let up_left = px[spec_above(req, pos) - comp];
    match f {
        PngFilter::NoFilter => byte,
        PngFilter::Sub => wrapping_sub(byte, left),
        PngFilter::Up => wrapping_sub(byte, up),
        PngFilter::Average => wrapping_sub(byte, ((left as int + up as int) / 2) as u8),
        PngFilter::Paeth => wrapping_sub(byte, spec_paeth(left, up, up_left)),
        PngFilter::AverageFirstRow => wrapping_sub(byte, (left / 2) as u8),
        PngFilter::PaethFirstRow => wrapping_sub(byte, spec_paeth(left, 0, 0)),
    }
}

/// Bytes of one image row: width times bytes per pixel. A row of the input
/// may be followed by padding up to the stride.
pub open spec fn spec_row_len(req: &PngEncodingRequest) -> int {
    req.width * spec_enc_bpp(req)
}

/// The row of samples starting at `line_start`, filtered with `f`.
pub open spec fn spec_encode_line(req: &PngEncodingRequest, line_start: int, f: PngFilter) -> Seq<u8> {
    let comp = spec_enc_bpp(req);
    Seq::new(
        spec_row_len(req) as nat,
        |i: int|
            if i < comp {
                spec_encode_first_byte(req, line_start + i, f)
            } else {
                spec_encode_byte(req, line_start + i, f)
            },
    )
}

/// The row starting at `line_start` and, when `f` reads it, the preceding
/// row lie inside the samples.
pub open spec fn spec_line_readable(req: &PngEncodingRequest, line_start: int, f: PngFilter) -> bool {
    &&& 0 <= line_start
    &&& line_start + spec_row_len(req) <= req.data@.len()
    &&& spec_reads_row_above(f) ==> if req.vertical_flip {
        line_start + req.stride + spec_row_len(req) <= req.data@.len()
    } else {
        line_start >= req.stride
    }
}

/// The size estimate of a filtered byte: its magnitude as a signed byte.
pub open spec fn spec_byte_cost(b: u8) -> int {
    if b < 128 { b as int } else { 256 - b }
}

/// The size estimate of a filtered row.
pub open spec fn spec_cost(s: Seq<u8>) -> int
    decreases s.len(),
{
    if s.len() == 0 {
        0
    } else {
        spec_cost(s.drop_last()) + spec_byte_cost(s.last())
    }
}

/// The filter chosen among the first `n` filters of `map` and its estimate:
/// the first one of smallest estimate below `i32::MAX`.
pub open spec fn spec_best(req: &PngEncodingRequest, line_start: int, map: Seq<PngFilter>, n: nat) -> (PngFilter, int)
    decreases n,
{
    if n == 0 {
        (PngFilter::NoFilter, i32::MAX as int)
    } else {
        let (bf, bv) = spec_best(req, line_start, map, (n - 1) as nat);
        let c = spec_cost(spec_encode_line(req, line_start, map[n - 1]));
        if c < bv {
            (map[n - 1], c)
        } else {
            (bf, bv)
        }
    }
}

/// The filter map of a row.
pub open spec fn spec_row_map(first_row: bool) -> Seq<PngFilter> {
    Seq::new(5, |k: int| spec_filter_map(first_row, k))
}

/// Start of the input row that becomes output row `scanline`.
pub open spec fn spec_row_start(req: &PngEncodingRequest, scanline: int) -> int {
    req.stride * (if req.vertical_flip { req.height - 1 - scanline } else { scanline })
}

/// A row filtered with a forced filter `f`, prefixed by `f`'s type byte.
pub open spec fn spec_fast_line(req: &PngEncodingRequest, ls: int, f: PngFilter, map: Seq<PngFilter>) -> Seq<u8> {
    if f is NoFilter {
        seq![0u8] + Seq::new(spec_row_len(req) as nat, |i: int| req.data@[ls + i])
    } else {
        seq![spec_filter_id(f)] + spec_encode_line(req, ls, map[spec_filter_id(f) as int])
    }
}

/// A row filtered with the filter of `map` that has the smallest estimate,
/// prefixed by that filter's type byte.
pub open spec fn spec_slow_line(req: &PngEncodingRequest, ls: int, map: Seq<PngFilter>) -> Seq<u8> {
    let best = spec_best(req, ls, map, 5).0;
    seq![spec_filter_id(best)] + spec_encode_line(req, ls, best)
}

/// Output row `scanline` of the filtered image: the filter type byte, then
/// the filtered bytes of the row.
pub open spec fn spec_filtered_line(req: &PngEncodingRequest, scanline: int) -> Seq<u8> {
    let map = spec_row_map(scanline == 0);
    let ls = spec_row_start(req, scanline);
    match req.filter {
        Some(f) => spec_fast_line(req, ls, f, map),
        None => spec_slow_line(req, ls, map),
    }
}

/// The first `n` output rows of the filtered image, one after the other.
pub open spec fn spec_filtered_rows(req: &PngEncodingRequest, n: nat) -> Seq<u8>
    decreases n,
{
    if n == 0 {
        Seq::empty()
    } else {
        spec_filtered_rows(req, (n - 1) as nat) + spec_filtered_line(req, n - 1)
    }
}

/// The filtered image: rows of the input, each filtered, prefixed by its filter type byte.
pub struct FilteredPng {
    pub width: u32,
    pub height: u32,
    pub color_type: ColorType,
    pub bit_depth: BitDepth,
    pub compression: CompressionLevel,
    pub data: Vec<u8>,
}

impl FilteredPng {
    pub fn new(png: &PngEncodingRequest<'_>, payload: Vec<u8>) -> (r: PictorResult<FilteredPng>)
        ensures
            r matches Ok(f) && f.width == png.width && f.height == png.height && f.color_type
                == png.color_type && f.bit_depth == png.bit_depth && f.compression == png.compression_level
                && f.data@ == payload@,
    {
        Ok(FilteredPng {
            width: png.width,
            height: png.height,
            color_type: png.color_type,
            bit_depth: png.bit_depth,
            compression: png.compression_level,
            data: payload,
        })
    }

    /// Compresses the filtered payload with zlib at the request's compression level.
    pub fn compress(&self) -> (r: PictorResult<DeflatedPng>)
        ensures
            r matches Ok(d) && d.width == self.width && d.height == self.height && d.color_type
                == self.color_type && d.bit_depth == self.bit_depth && d.data@ == spec_zlib_stream(
                self.compression.spec_id() as u32,
                self.data@,
            ),
    {
        let zlib = DeflatedPng::compress(self.compression.id(), self.data.as_slice())?;
        Ok(DeflatedPng::new(self, zlib))
    }

    fn encode_first_byte(png: &PngEncodingRequest<'_>, pos: usize, filter: PngFilter) -> (r: u8)
        requires
            pos < png.data@.len(),
            spec_reads_row_above(filter) ==> if png.vertical_flip {
                pos + png.stride < png.data@.len()
            } else {
                pos >= png.stride
            },
        ensures
            r == spec_encode_first_byte(png, pos as int, filter),
    {
        let pixels = png.data.get_data();
        let byte = pixels[pos];
        let stride = png.stride;
        match filter {
            PngFilter::NoFilter => byte,
            PngFilter::Sub => byte,
            PngFilter::Up => {
                if png.vertical_flip {
                    byte.wrapping_sub(pixels[pos + stride])
                } else {
                    byte.wrapping_sub(pixels[pos - stride])
                }
            },
            PngFilter::Average => {
                if png.vertical_flip {
                    byte.wrapping_sub(pixels[pos + stride] / 2)
                } else {
                    byte.wrapping_sub(pixels[pos - stride] / 2)
                }
            },
            PngFilter::Paeth => {
                if png.vertical_flip {
                    byte.wrapping_sub(Self::paeth_encoding(0, pixels[pos + stride], 0))
                } else {
                    byte.wrapping_sub(Self::paeth_encoding(0, pixels[pos - stride], 0))
                }
            },
            PngFilter::AverageFirstRow => byte,
            PngFilter::PaethFirstRow => byte,
        }
    }

    fn encode_byte(png: &PngEncodingRequest<'_>, pos: usize, filter: PngFilter) -> (r: u8)
        requires
            pos < png.data@.len(),
            pos >= spec_enc_bpp(png),
            spec_reads_row_above(filter) ==> if png.vertical_flip {
                pos + png.stride < png.data@.len()
            } else {
                pos >= png.stride + spec_enc_bpp(png)
            },
        ensures
            r == spec_encode_byte(png, pos as int, filter),
    {
        let pixels = png.data.get_data();
        let byte = pixels[pos];
        let stride = png.stride;
        let comp = Self::bytes_per_pixel(png);
        let left = pixels[pos - comp];
        match filter {
            PngFilter::NoFilter => byte,
            PngFilter::Sub => byte.wrapping_sub(left),
            PngFilter::Up => {
                if png.vertical_flip {
                    byte.wrapping_sub(pixels[pos + stride])
                } else {
                    byte.wrapping_sub(pixels[pos - stride])
                }
            },
            PngFilter::Average => {
                let avg = if png.vertical_flip {
                    ((left as u16 + pixels[pos + stride] as u16) / 2) as u8
                } else {
                    ((left as u16 + pixels[pos - stride] as u16) / 2) as u8
                };
                byte.wrapping_sub(avg)
            },
            PngFilter::Paeth => {
                if png.vertical_flip {
                    byte.wrapping_sub(
                        Self::paeth_encoding(left, pixels[pos + stride], pixels[pos + stride - comp]),
                    )
                } else {
                    byte.wrapping_sub(
                        Self::paeth_encoding(left, pixels[pos - stride], pixels[pos - stride - comp]),
                    )
                }
            },
            PngFilter::AverageFirstRow => byte.wrapping_sub(left / 2),
            PngFilter::PaethFirstRow => byte.wrapping_sub(Self::paeth_encoding(left, 0, 0)),
        }
    }

    /// The Paeth predictor of the PNG specification: `a` is the byte to the
    /// left, `b` the byte above, `c` the byte above and left.
    pub(crate) fn paeth_encoding(a: u8, b: u8, c: u8) -> (r: u8)
        ensures
            r == spec_paeth(a, b, c),
    {
        PngFilter::paeth_predictor(a, b, c)
    }

    /// Bytes per pixel of the samples: components times bytes per component.
    fn bytes_per_pixel(png: &PngEncodingRequest<'_>) -> (r: usize)
        ensures
            r == spec_enc_bpp(png),
            1 <= r <= 8,
    {
        let comp = png.color_type.comp_per_pix() as usize;
        match png.bit_depth {
            BitDepth::U8 => comp,
            BitDepth::U16 => comp * 2,
        }
    }

    /// Bytes of one image row.
    pub(crate) fn row_len(png: &PngEncodingRequest<'_>) -> (r: usize)
        requires
            spec_row_len(png) <= usize::MAX,
        ensures
            r == spec_row_len(png),
    {
        let bpp = Self::bytes_per_pixel(png);
        assert(png.width * bpp <= spec_row_len(png));
        png.width as usize * bpp
    }

    /// Writes the row starting at `line_start`, filtered with `filter`, into
    /// `out[out_start..out_start + row]`.
    fn encode_line(
        png: &PngEncodingRequest<'_>,
        line_start: usize,
        out: &mut Vec<u8>,
        out_start: usize,
        filter: PngFilter,
    )
        requires
            spec_line_readable(png, line_start as int, filter),
            out_start + spec_row_len(png) <= old(out)@.len(),
        ensures
            final(out)@.len() == old(out)@.len(),
            forall|k: int|
                0 <= k < spec_row_len(png) ==> final(out)@[out_start + k] == #[trigger] spec_encode_line(
                    png,
                    line_start as int,
                    filter,
                )[k],
            forall|k: int|
                0 <= k < old(out)@.len() && !(out_start <= k < out_start + spec_row_len(png))
                    ==> #[trigger] final(out)@[k] == old(out)@[k],
    {
        let comp = Self::bytes_per_pixel(png);
        let data_len = png.data.len();
        let row = Self::row_len(png);
        let ghost line = spec_encode_line(png, line_start as int, filter);
        let len = png.data.len();
        let out_len = out.len();
        let mut i: usize = 0;
        while i < row && i < comp
            invariant
                i <= row,
                comp == spec_enc_bpp(png),
                row == spec_row_len(png),
                len == png.data@.len(),
                out_len == old(out)@.len(),
                line == spec_encode_line(png, line_start as int, filter),
                spec_line_readable(png, line_start as int, filter),
                out_start + row <= out@.len(),
                out@.len() == old(out)@.len(),
                forall|k: int| 0 <= k < i ==> out@[out_start + k] == line[k],
                forall|k: int|
                    0 <= k < old(out)@.len() && !(out_start <= k < out_start + spec_row_len(png))
                        ==> out@[k] == old(out)@[k],
            decreases row - i,
        {
            let b = Self::encode_first_byte(png, line_start + i, filter);
            out.set(out_start + i, b);
            i = i + 1;
        }
        while i < row
            invariant
                i <= row,
                i >= comp || i == row,
                comp == spec_enc_bpp(png),
                row == spec_row_len(png),
                len == png.data@.len(),
                out_len == old(out)@.len(),
                line == spec_encode_line(png, line_start as int, filter),
                spec_line_readable(png, line_start as int, filter),
                out_start + row <= out@.len(),
                out@.len() == old(out)@.len(),
                forall|k: int| 0 <= k < i ==> out@[out_start + k] == line[k],
                forall|k: int|
                    0 <= k < old(out)@.len() && !(out_start <= k < out_start + spec_row_len(png))
                        ==> out@[k] == old(out)@[k],
            decreases row - i,
        {
            let b = Self::encode_byte(png, line_start + i, filter);
            out.set(out_start + i, b);
            i = i + 1;
        }
    }

    /// Filters one row with a forced filter, writing the filter type byte and
    /// the filtered row to `out[out_line_start..=out_line_start + row]`.
    pub(crate) fn filter_fast_path(
        png: &PngEncodingRequest<'_>,
        line_start: usize,
        force_filter: PngFilter,
        filter_map: [PngFilter; 5],
        out: &mut Vec<u8>,
        out_line_start: usize,
    )
        requires
            line_start + spec_row_len(png) <= png.data@.len(),
            forall|k: int| 0 <= k < 5 ==> spec_line_readable(png, line_start as int, #[trigger] filter_map@[k]),
            out_line_start + spec_row_len(png) + 1 <= old(out)@.len(),
        ensures
            final(out)@.len() == old(out)@.len(),
            final(out)@.subrange(out_line_start as int, out_line_start + spec_row_len(png) + 1)
                == spec_fast_line(png, line_start as int, force_filter, filter_map@),
            forall|k: int|
                0 <= k < old(out)@.len() && !(out_line_start <= k <= out_line_start + spec_row_len(png))
                    ==> #[trigger] final(out)@[k] == old(out)@[k],
    {
        let data_len = png.data.len();
        let row = Self::row_len(png);
        let ghost old_out = out@;
        let out_len = out.len();
        match force_filter {
            PngFilter::NoFilter => {
                let pixels = png.data.get_data();
                let n = pixels.len();
                let mut i: usize = 0;
                while i < row
                    invariant
                        i <= row,
                        row == spec_row_len(png),
                        pixels@ == png.data@,
                        n == pixels@.len(),
                        out_len == old_out.len(),
                        line_start + row <= pixels@.len(),
                        out_line_start + row + 1 <= out@.len(),
                        out@.len() == old_out.len(),
                        forall|k: int| out_line_start + 1 <= k < out_line_start + 1 + i ==> #[trigger] out@[k] == pixels@[line_start + k - out_line_start - 1],
                        forall|k: int|
                            0 <= k < old_out.len() && !(out_line_start + 1 <= k < out_line_start + 1 + i)
                                ==> out@[k] == old_out[k],
                    decreases row - i,
                {
                    out.set(out_line_start + 1 + i, pixels[line_start + i]);
                    i = i + 1;
                }
            },
            _ => {
                let encoded_filter = filter_map[force_filter.id() as usize];
                Self::encode_line(png, line_start, out, out_line_start + 1, encoded_filter);
            },
        }
        out.set(out_line_start, force_filter.id());
        assert(out@.subrange(out_line_start as int, out_line_start + row + 1)
            =~= spec_fast_line(png, line_start as int, force_filter, filter_map@));
    }

    /// Filters one row with each filter of `filter_map` in turn, keeps the
    /// first one of smallest estimate, and writes its type byte and the row
    /// filtered with it to `out[out_line_start..=out_line_start + row]`.
    pub(crate) fn filter_slow_path(
        png: &PngEncodingRequest<'_>,
        line_start: usize,
        filter_map: [PngFilter; 5],
        out: &mut Vec<u8>,
        out_line_start: usize,
        scratch: &mut Vec<u8>,
    )
        requires
            line_start + spec_row_len(png) <= png.data@.len(),
            forall|k: int| 0 <= k < 5 ==> spec_line_readable(png, line_start as int, #[trigger] filter_map@[k]),
            out_line_start + spec_row_len(png) + 1 <= old(out)@.len(),
            old(scratch)@.len() >= spec_row_len(png),
            spec_row_len(png) * 128 <= i32::MAX,
        ensures
            final(out)@.len() == old(out)@.len(),
            final(scratch)@.len() == old(scratch)@.len(),
            final(out)@.subrange(out_line_start as int, out_line_start + spec_row_len(png) + 1)
                == spec_slow_line(png, line_start as int, filter_map@),
            forall|k: int|
                0 <= k < old(out)@.len() && !(out_line_start <= k <= out_line_start + spec_row_len(png))
                    ==> #[trigger] final(out)@[k] == old(out)@[k],
    {
        let data_len = png.data.len();
        let row = Self::row_len(png);
        let out_len = out.len();
        let ghost scratch_len = scratch@.len();
        let mut best_filter = PngFilter::NoFilter;
        let mut best_filter_value: i32 = i32::MAX;
        let mut f: usize = 0;
        while f < 5
            invariant
                f <= 5,
                row == spec_row_len(png),
                row * 128 <= i32::MAX,
                scratch@.len() == scratch_len,
                scratch_len >= row,
                scratch_len == old(scratch)@.len(),
                forall|k: int| 0 <= k < 5 ==> spec_line_readable(png, line_start as int, #[trigger] filter_map@[k]),
                spec_line_readable(png, line_start as int, best_filter),
                (best_filter, best_filter_value as int) == spec_best(png, line_start as int, filter_map@, f as nat),
            decreases 5 - f,
        {
            let filter = filter_map[f];
            Self::encode_line(png, line_start, scratch, 0, filter);
            let ghost line = spec_encode_line(png, line_start as int, filter);
            assert(scratch@.subrange(0, row as int) =~= line);
            let mut est: i32 = 0;
            let mut j: usize = 0;
            while j < row
                invariant
                    j <= row,
                    row == spec_row_len(png),
                    row * 128 <= i32::MAX,
                    scratch@.len() == scratch_len,
                    scratch_len >= row,
                    0 <= est <= 128 * j,
                    est as int == spec_cost(scratch@.subrange(0, j as int)),
                decreases row - j,
            {
                let b = scratch[j];
                proof {
                    assert(scratch@.subrange(0, j + 1).drop_last() =~= scratch@.subrange(0, j as int));
                    assert(128 * j + 128 <= row * 128) by (nonlinear_arith)
                        requires j < row;
                }
                est = est + if b < 128 { b as i32 } else { 256 - b as i32 };
                j = j + 1;
            }
            assert(scratch@.subrange(0, row as int) =~= line);
            if est < best_filter_value {
                best_filter = filter;
                best_filter_value = est;
            }
            f = f + 1;
        }
        Self::encode_line(png, line_start, out, out_line_start + 1, best_filter);
        out.set(out_line_start, best_filter.id());
        assert(out@.subrange(out_line_start as int, out_line_start + row + 1)
            =~= spec_slow_line(png, line_start as int, filter_map@));
    }
}

} // verus!
