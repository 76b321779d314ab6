use vstd::prelude::*;
use crate::color_type::{BitDepth, ColorType};
use crate::error::{PictorError, PictorResult};
use crate::jpeg_planes::DecodedJpeg;
use crate::jpeg_write::{EncodingRequest, spec_quality_factor};
use crate::png_deflate::CompressionLevel;
use crate::png_filter::PngFilter;
use crate::png_read::DecodedPng;
use crate::png_write::{EncodedPng, PngEncodingRequest, spec_encoded_png, spec_png_params_ok};
use crate::qoi::{Channels, ColorSpace, spec_end_marker};
use crate::qoi_read::DecodedQoi;
use crate::qoi_write::{
    QoiEncodingRequest, spec_enc_pixels, spec_input_channels, spec_qoi_header, spec_qoi_len_overflows, spec_qoi_stream,
};
use crate::samples::{Sample, SampleStorage};

verus! {

/// A decoded image in a format-independent form.
pub struct DecodedImage<'a, S: Sample> {
    pub width: u32,
    pub height: u32,
    pub color_type: ColorType,
    pub bit_depth: BitDepth,
    pub data: SampleStorage<'a, S>,
}

/// Turns a decoded image of one format into a [`DecodedImage`].
pub trait Convert<'a> {
    type Sample: Sample;

    fn convert(self) -> DecodedImage<'a, Self::Sample>;
}

impl<'a> Convert<'a> for DecodedQoi<'a> {
    type Sample = u8;

    fn convert(self) -> (r: DecodedImage<'a, u8>)
        ensures
            r.width == self.width,
            r.height == self.height,
            r.color_type == (match self.channels {
                Channels::Rbg => ColorType::Rgb,
                Channels::Srbg => ColorType::Rgba,
            }),
            r.bit_depth == self.bit_depth,
            r.data@ == self.data@,
    {
        DecodedImage {
            width: self.width,
            height: self.height,
            color_type: ColorType::from(self.channels),
            bit_depth: self.bit_depth,
            data: self.data,
        }
    }
}

impl<'a> Convert<'a> for DecodedJpeg<'a> {
    type Sample = u8;

    fn convert(self) -> (r: DecodedImage<'a, u8>)
        ensures
            r.width == self.width,
            r.height == self.height,
            r.color_type == self.color_type,
            r.bit_depth == self.bit_depth,
            r.data@ == self.data@,
    {
        DecodedImage {
            width: self.width,
            height: self.height,
            color_type: self.color_type,
            bit_depth: self.bit_depth,
            data: self.data,
        }
    }
}

impl<'a> Convert<'a> for DecodedPng<'a> {
    type Sample = u8;

    fn convert(self) -> (r: DecodedImage<'a, u8>)
        ensures
            r.width == self.width,
            r.height == self.height,
            r.color_type == self.color_type,
            r.bit_depth == self.bit_depth,
            r.data@ == self.data@,
    {
        DecodedImage {
            width: self.width,
            height: self.height,
            color_type: self.color_type,
            bit_depth: self.bit_depth,
            data: self.data,
        }
    }
}

/// JPEG encoding of a decoded image.
pub struct JpegBuilderBorrowed<'a> {
    pub width: u32,
    pub height: u32,
    pub color_type: ColorType,
    pub quality: u32,
    pub data: SampleStorage<'a, u8>,
}

/// QOI encoding of a decoded image.
pub struct QoiBuilderBorrowed<'a> {
    pub width: u32,
    pub height: u32,
    pub native_channels: ColorType,
    pub data: SampleStorage<'a, u8>,
}

/// PNG encoding of a decoded image.
pub struct PngBuilderBorrowed<'a, S: Sample> {
    pub width: u32,
    pub height: u32,
    pub stride: Option<usize>,
    pub compression: CompressionLevel,
    pub color_type: ColorType,
    pub bit_depth: BitDepth,
    pub filter: Option<PngFilter>,
    pub data: SampleStorage<'a, S>,
}

impl<'a, S: Sample> DecodedImage<'a, S> {
    /// A JPEG encoder at quality 90 over the image's samples brought to 8 bits.
    pub fn jpeg(self) -> (r: JpegBuilderBorrowed<'a>)
        ensures
            r.width == self.width,
            r.height == self.height,
            r.color_type == self.color_type,
            r.quality == 90,
            r.data@.len() == self.data@.len(),
            forall|i: int| 0 <= i < self.data@.len() ==> r.data@[i] == #[trigger] S::spec_to_u8(self.data@[i]),
    {
        JpegBuilderBorrowed {
            width: self.width,
            height: self.height,
            color_type: self.color_type,
            quality: 90,
            data: S::downsample_to_u8_samples(self.data),
        }
    }

    /// A QOI encoder over the image's samples brought to 8 bits.
    pub fn qoi(self) -> (r: QoiBuilderBorrowed<'a>)
        ensures
            r.width == self.width,
            r.height == self.height,
            r.native_channels == self.color_type,
            r.data@.len() == self.data@.len(),
            forall|i: int| 0 <= i < self.data@.len() ==> r.data@[i] == #[trigger] S::spec_to_u8(self.data@[i]),
    {
        QoiBuilderBorrowed {
            width: self.width,
            height: self.height,
            native_channels: self.color_type,
            data: S::downsample_to_u8_samples(self.data),
        }
    }

    /// A PNG encoder over the image's samples as they are.
    pub fn png(self) -> (r: PngBuilderBorrowed<'a, S>)
        ensures
            r.width == self.width,
            r.height == self.height,
            r.stride is None,
            r.compression == CompressionLevel::Default,
            r.color_type == self.color_type,
            r.bit_depth == self.bit_depth,
            r.filter is None,
            r.data == self.data,
    {
        PngBuilderBorrowed {
            width: self.width,
            height: self.height,
            stride: None,
            compression: CompressionLevel::Default,
            color_type: self.color_type,
            bit_depth: self.bit_depth,
            filter: None,
            data: self.data,
        }
    }
}

impl<'a> JpegBuilderBorrowed<'a> {
    /// Sets the quality, kept in 1..=100.
    pub fn quality(&mut self, quality: u32) -> (r: &mut Self)
        ensures
            r.width == old(self).width,
            r.height == old(self).height,
            r.color_type == old(self).color_type,
            r.data == old(self).data,
            r.quality == if quality < 1 { 1 } else if quality > 100 { 100 } else { quality },
            *final(self) == *final(r),
    {
        self.quality = if quality < 1 { 1 } else if quality > 100 { 100 } else { quality };
        self
    }

    /// The JPEG request for the image: the size must fit in 16 bits; chroma
    /// is subsampled at quality 90 and below.
    pub fn create_request(&self) -> (r: PictorResult<EncodingRequest<'_>>)
        requires
            1 <= self.quality <= 100,
        ensures
            (self.width > u16::MAX || self.height > u16::MAX) <==> (r matches Err(PictorError::IntegerError { .. })),
            r is Ok || (r matches Err(PictorError::IntegerError { .. })),
            r matches Ok(req) ==> req.width == self.width && req.height == self.height && req.color_type
                == self.color_type && req.subsample == (self.quality <= 90) && req.quality_factor
                == spec_quality_factor(self.quality) && !req.vertical_flip && req.data@ == self.data@,
    {
        let width = match u16::try_from(self.width) {
            Ok(w) => w,
            Err(err) => {
                return Err(PictorError::IntegerError { err });
            },
        };
        let height = match u16::try_from(self.height) {
            Ok(h) => h,
            Err(err) => {
                return Err(PictorError::IntegerError { err });
            },
        };
        let quality_factor = if self.quality < 50 { 5000 / self.quality } else { 200 - self.quality * 2 };
        let subsample = self.quality <= 90;
        Ok(EncodingRequest::new(width, height, self.color_type, subsample, quality_factor, self.data.get_data()))
    }
}

/// The QOI stream of an image: its size, 3 channels for gray or RGB input
/// and 4 for gray with alpha or RGBA, the sRGB color space, then the
/// operations for its pixels and the end marker.
pub open spec fn spec_borrowed_qoi_stream(b: &QoiBuilderBorrowed) -> Seq<u8> {
    let ic = b.native_channels.spec_comp_per_pix() as int;
    let count = b.width * b.height;
    spec_qoi_header(b.width, b.height, if ic == 1 || ic == 3 { 3u8 } else { 4u8 }, ColorSpace::Srbg.spec_id())
        + spec_enc_pixels(b.data@, ic, count, count as nat).out + spec_end_marker()
}

/// The number of pixels, or of input bytes, of an image does not fit `usize`.
pub open spec fn spec_borrowed_qoi_overflows(b: &QoiBuilderBorrowed) -> bool {
    let ic = b.native_channels.spec_comp_per_pix() as int;
    b.width * b.height > usize::MAX || b.width * b.height * ic > usize::MAX
}

impl<'a> QoiBuilderBorrowed<'a> {
    /// Encodes the image as a QOI stream: gray as RGB, gray with alpha as RGBA.
    pub fn encode_with(&self) -> (r: PictorResult<Vec<u8>>)
        requires
            self.width >= 1,
            self.height >= 1,
            !spec_borrowed_qoi_overflows(self) ==> self.data@.len() >= self.width * self.height
                * self.native_channels.spec_comp_per_pix(),
        ensures
            spec_borrowed_qoi_overflows(self) <==> (r matches Err(PictorError::MulOverflow { .. })),
            r is Ok || (r matches Err(PictorError::MulOverflow { .. })),
            r matches Ok(v) ==> v@ == spec_borrowed_qoi_stream(self),
    {
        let req = QoiEncodingRequest::new(self.width, self.height, self.native_channels, None, self.data.as_borrowed());
        assert(spec_input_channels(&req) == self.native_channels.spec_comp_per_pix());
        let v = req.encode()?;
        assert(spec_qoi_stream(&req) == v@);
        Ok(v)
    }
}

impl<'a, S: Sample> PngBuilderBorrowed<'a, S> {
    pub fn compression(&mut self, compression: CompressionLevel) -> (r: &mut Self)
        ensures
            r.width == old(self).width,
            r.height == old(self).height,
            r.stride == old(self).stride,
            r.compression == compression,
            r.color_type == old(self).color_type,
            r.bit_depth == old(self).bit_depth,
            r.filter == old(self).filter,
            r.data == old(self).data,
            *final(self) == *final(r),
    {
        self.compression = compression;
        self
    }

    /// Uses `filter` for every row.
    pub fn force_filter(&mut self, filter: PngFilter) -> (r: &mut Self)
        ensures
            r.width == old(self).width,
            r.height == old(self).height,
            r.stride == old(self).stride,
            r.compression == old(self).compression,
            r.color_type == old(self).color_type,
            r.bit_depth == old(self).bit_depth,
            r.filter == Some(filter),
            r.data == old(self).data,
            *final(self) == *final(r),
    {
        self.filter = Some(filter);
        self
    }

    /// Encodes the image as a PNG file; rows are `width` pixels of one
    /// sample per component unless a stride was set.
    pub fn encode_with(&self) -> (r: PictorResult<EncodedPng>)
        requires
            self.stride is None ==> self.width * self.color_type.spec_comp_per_pix() <= u32::MAX,
            self.data@.len() * S::spec_bytes_per_sample() <= usize::MAX,
            spec_png_params_ok(
                self.width,
                self.height,
                match self.stride {
                    Some(s) => s,
                    None => (self.width * self.color_type.spec_comp_per_pix()) as usize,
                },
                self.color_type,
                self.bit_depth,
                self.filter,
                self.data@.len() * S::spec_bytes_per_sample(),
            ),
        ensures
            r matches Ok(e) && exists|req: PngEncodingRequest| #[trigger] spec_encoded_png(&req) == e.0@ && req.width
                == self.width && req.height == self.height && req.stride == (match self.stride {
                Some(s) => s,
                None => (self.width * self.color_type.spec_comp_per_pix()) as usize,
            }) && req.color_type == self.color_type && req.bit_depth == self.bit_depth && req.filter == self.filter
                && !req.vertical_flip && req.compression_level == self.compression && req.data@ == S::spec_be_bytes(
                self.data@,
            ),
    {
        let stride = match self.stride {
            Some(s) => s,
            None => (self.width * self.color_type.comp_per_pix() as u32) as usize,
        };
        let req = PngEncodingRequest::new(
            self.width,
            self.height,
            stride,
            self.color_type,
            self.bit_depth,
            self.compression,
            self.filter,
            false,
            self.data.as_borrowed(),
        );
        let e = req.encode()?;
        assert(spec_encoded_png(&req) == e.0@);
        Ok(e)
    }
}

} // verus!
