use vstd::prelude::*;
use crate::color_type::ColorType;
use crate::error::PictorError;
use crate::qoi_tags::QoiTags;

verus! {

/// Upper bound on the number of pixels of an image the QOI encoder accepts.
pub const QOI_MAX_PIXELS: usize = 400_000_000;

/// The eight bytes that end a QOI stream.
pub open spec fn spec_end_marker() -> Seq<u8> {
    seq![0u8, 0u8, 0u8, 0u8, 0u8, 0u8, 0u8, 1u8]
}

/// The eight bytes that end a QOI stream.
pub fn end_marker() -> (r: [u8; 8])
    ensures
        r@ == spec_end_marker(),
{
    [0, 0, 0, 0, 0, 0, 0, 1]
}

/// Channels of a QOI image: RGB or RGBA.
#[derive(Clone, Copy, Debug, PartialEq, Eq, Structural)]
pub enum Channels {
    Rbg,
    Srbg,
}

impl Channels {
    pub open spec fn spec_pixel_size(self) -> u8 {
        match self {
            Channels::Rbg => 3,
            Channels::Srbg => 4,
        }
    }

    /// Bytes per pixel: 3 or 4.
    pub fn pixel_size(&self) -> (r: u8)
        ensures
            r == self.spec_pixel_size(),
    {
        match self {
            Channels::Rbg => 3,
            Channels::Srbg => 4,
        }
    }

    pub open spec fn spec_from_byte(value: u8) -> Option<Channels> {
        if value == 3 {
            Some(Channels::Rbg)
        } else if value == 4 {
            Some(Channels::Srbg)
        } else {
            None
        }
    }
}

impl TryFrom<u8> for Channels {
    type Error = PictorError;

    fn try_from(value: u8) -> (r: Result<Channels, PictorError>)
        ensures
            match Channels::spec_from_byte(value) {
                Some(c) => r == Ok::<Channels, PictorError>(c),
                None => r matches Err(PictorError::InvalidArgument { .. }),
            },
    {
        match value {
            3 => Ok(Channels::Rbg),
            4 => Ok(Channels::Srbg),
            _ => Err(PictorError::InvalidArgument { msg: "Invalid channels" }),
        }
    }
}

impl vstd::std_specs::convert::TryFromSpecImpl<u8> for Channels {
    open spec fn obeys_try_from_spec() -> bool {
        false
    }

    open spec fn try_from_spec(v: u8) -> Result<Channels, PictorError> {
        arbitrary()
    }
}

/// Color space of a QOI image.
#[derive(Clone, Copy, Debug, PartialEq, Eq, Structural)]
pub enum ColorSpace {
    /// sRGB color, linear alpha.
    Srbg,
    Linear,
}

impl ColorSpace {
    pub open spec fn spec_id(self) -> u8 {
        match self {
            ColorSpace::Srbg => 0,
            ColorSpace::Linear => 1,
        }
    }

    pub fn id(&self) -> (r: u8)
        ensures
            r == self.spec_id(),
    {
        match self {
            ColorSpace::Srbg => 0,
            ColorSpace::Linear => 1,
        }
    }

    pub open spec fn spec_from_byte(value: u8) -> Option<ColorSpace> {
        if value == 0 {
            Some(ColorSpace::Srbg)
        } else if value == 1 {
            Some(ColorSpace::Linear)
        } else {
            None
        }
    }
}

impl TryFrom<u8> for ColorSpace {
    type Error = PictorError;

    fn try_from(value: u8) -> (r: Result<ColorSpace, PictorError>)
        ensures
            match ColorSpace::spec_from_byte(value) {
                Some(c) => r == Ok::<ColorSpace, PictorError>(c),
                None => r matches Err(PictorError::InvalidArgument { .. }),
            },
    {
        match value {
            0 => Ok(ColorSpace::Srbg),
            1 => Ok(ColorSpace::Linear),
            _ => Err(PictorError::InvalidArgument { msg: "Invalid color space" }),
        }
    }
}

impl vstd::std_specs::convert::TryFromSpecImpl<u8> for ColorSpace {
    open spec fn obeys_try_from_spec() -> bool {
        false
    }

    open spec fn try_from_spec(v: u8) -> Result<ColorSpace, PictorError> {
        arbitrary()
    }
}

impl From<Channels> for ColorType {
    fn from(value: Channels) -> (r: ColorType)
        ensures
            r == (match value {
                Channels::Rbg => ColorType::Rgb,
                Channels::Srbg => ColorType::Rgba,
            }),
    {
        match value {
            Channels::Rbg => ColorType::Rgb,
            Channels::Srbg => ColorType::Rgba,
        }
    }
}

impl vstd::std_specs::convert::FromSpecImpl<Channels> for ColorType {
    open spec fn obeys_from_spec() -> bool {
        true
    }

    open spec fn from_spec(v: Channels) -> ColorType {
        match v {
            Channels::Rbg => ColorType::Rgb,
            Channels::Srbg => ColorType::Rgba,
        }
    }
}

/// A pixel as the QOI codec sees it.
#[derive(Debug, Clone, Copy, PartialEq, Eq, Structural)]
pub struct QoiRbga {
    pub r: u8,
    pub g: u8,
    pub b: u8,
    pub a: u8,
}

/// The pixel that precedes the first pixel of a QOI stream.
pub open spec fn spec_start_pixel() -> QoiRbga {
    QoiRbga { r: 0, g: 0, b: 0, a: 255 }
}

impl Default for QoiRbga {
    fn default() -> (r: QoiRbga)
        ensures
            r == spec_start_pixel(),
    {
        QoiRbga { r: 0, g: 0, b: 0, a: 255 }
    }
}

/// The bytes of a pixel: red, green, blue, then alpha.
pub open spec fn spec_pixel_bytes(p: QoiRbga) -> Seq<u8> {
    seq![p.r, p.g, p.b, p.a]
}

/// Index of a pixel in the table of previously seen pixels.
pub open spec fn spec_color_hash(p: QoiRbga) -> int {
    (p.r * 3 + p.g * 5 + p.b * 7 + p.a * 11) % 64
}

/// Differences from a previous pixel; `dr_dg` and `db_dg` are the red and
/// blue differences relative to the green one.
#[derive(Debug, Clone, Copy, PartialEq, Eq, Structural)]
pub struct PixelDiff {
    pub dr: i16,
    pub dg: i16,
    pub db: i16,
    pub dr_dg: i16,
    pub db_dg: i16,
}

/// The QOI operation that encodes a change of color with equal alpha.
pub enum QoiOperation {
    FitsDiff,
    FitsLuma,
    Rgb,
}

/// The differences between two pixels.
pub open spec fn spec_diff(cur: QoiRbga, prev: QoiRbga) -> PixelDiff {
    let dr = cur.r - prev.r;
    let dg = cur.g - prev.g;
    let db = cur.b - prev.b;
    PixelDiff { dr: dr as i16, dg: dg as i16, db: db as i16, dr_dg: (dr - dg) as i16, db_dg: (db - dg) as i16 }
}

impl PixelDiff {
    /// The differences lie in the range that two pixels' differences take,
    /// and the relative ones are the red and blue differences minus the
    /// green one.
    pub open spec fn wf(self) -> bool {
        &&& -255 <= self.dr <= 255
        &&& -255 <= self.dg <= 255
        &&& -255 <= self.db <= 255
        &&& self.dr_dg == self.dr - self.dg
        &&& self.db_dg == self.db - self.dg
    }

    pub open spec fn spec_fits_diff(self) -> bool {
        -2 <= self.dr <= 1 && -2 <= self.dg <= 1 && -2 <= self.db <= 1
    }

    pub open spec fn spec_fits_luma(self) -> bool {
        -8 <= self.dr_dg <= 7 && -32 <= self.dg <= 31 && -8 <= self.db_dg <= 7
    }

    /// The single byte of a `QOI_OP_DIFF`.
    pub open spec fn spec_diff_byte(self) -> u8 {
        0x40u8 | ((((self.dr + 2) as u8) << 4u8) | ((((self.dg + 2) as u8) << 2u8) | ((self.db + 2) as u8)))
    }

    /// The two bytes of a `QOI_OP_LUMA`.
    pub open spec fn spec_luma_bytes(self) -> Seq<u8> {
        seq![0x80u8 | ((self.dg + 32) as u8), (((self.dr_dg + 8) as u8) << 4u8) | ((self.db_dg + 8) as u8)]
    }

    /// The operation chosen for these differences.
    pub fn check_op(&self) -> (r: QoiOperation)
        ensures
            self.spec_fits_diff() ==> r is FitsDiff,
            !self.spec_fits_diff() && self.spec_fits_luma() ==> r is FitsLuma,
            !self.spec_fits_diff() && !self.spec_fits_luma() ==> r is Rgb,
    {
        if self.fits_qoi_diff() {
            QoiOperation::FitsDiff
        } else if self.fits_qoi_luma() {
            QoiOperation::FitsLuma
        } else {
            QoiOperation::Rgb
        }
    }

    #[inline]
    pub fn fits_qoi_diff(&self) -> (r: bool)
        ensures
            r == self.spec_fits_diff(),
    {
        -2 <= self.dr && self.dr <= 1 && -2 <= self.dg && self.dg <= 1 && -2 <= self.db && self.db <= 1
    }

    #[inline]
    pub fn fits_qoi_luma(&self) -> (r: bool)
        ensures
            r == self.spec_fits_luma(),
    {
        -8 <= self.dr_dg && self.dr_dg <= 7 && -32 <= self.dg && self.dg <= 31 && -8 <= self.db_dg
            && self.db_dg <= 7
    }

    #[inline]
    pub fn create_diff_tag(&self) -> (r: [u8; 1])
        requires
            self.wf(),
        ensures
            r@ == seq![self.spec_diff_byte()],
    {
        [QoiTags::QOI_OP_DIFF | (((self.dr + 2) as u8) << 4 | (((self.dg + 2) as u8) << 2 | (self.db + 2) as u8))]
    }

    #[inline]
    pub fn create_luma_tag(&self) -> (r: [u8; 2])
        requires
            self.wf(),
        ensures
            r@ == self.spec_luma_bytes(),
    {
        let bit_1 = QoiTags::QOI_OP_LUMA | ((self.dg + 32) as u8);
        let bit_0: u8 = ((self.dr_dg + 8) as u8) << 4 | (self.db_dg + 8) as u8;
        [bit_1, bit_0]
    }
}

/// Differences small enough for a `QOI_OP_DIFF` are small enough for a
/// `QOI_OP_LUMA` too.
pub proof fn lemma_diff_fits_luma(d: PixelDiff)
    requires
        d.wf(),
        d.spec_fits_diff(),
    ensures
        d.spec_fits_luma(),
{
}

/// The pixel of a `QOI_OP_DIFF` byte applied to `prev`.
pub open spec fn spec_from_diff(prev: QoiRbga, tag: u8) -> QoiRbga {
    QoiRbga {
        r: ((prev.r + (tag / 16) % 4 - 2 + 256) % 256) as u8,
        g: ((prev.g + (tag / 4) % 4 - 2 + 256) % 256) as u8,
        b: ((prev.b + tag % 4 - 2 + 256) % 256) as u8,
        a: prev.a,
    }
}

/// The pixel of a `QOI_OP_LUMA` pair of bytes applied to `prev`.
pub open spec fn spec_from_luma(prev: QoiRbga, b0: u8, b1: u8) -> QoiRbga {
    let dg = b0 % 64 - 32;
    let dr_dg = b1 / 16 - 8;
    let db_dg = b1 % 16 - 8;
    QoiRbga {
        r: ((prev.r + dg + dr_dg + 512) % 256) as u8,
        g: ((prev.g + dg + 256) % 256) as u8,
        b: ((prev.b + dg + db_dg + 512) % 256) as u8,
        a: prev.a,
    }
}

impl QoiRbga {
    pub fn zeroed() -> (r: QoiRbga)
        ensures
            r == (QoiRbga { r: 0, g: 0, b: 0, a: 0 }),
    {
        QoiRbga { r: 0, g: 0, b: 0, a: 0 }
    }

    /// Takes red, green and blue from `data`, and alpha from `data[3]` for
    /// 4-channel pixels or 255 for 3-channel pixels.
    pub fn set_values(&mut self, channels: Channels, data: &[u8])
        requires
            data@.len() >= channels.spec_pixel_size(),
        ensures
            final(self).r == data@[0],
            final(self).g == data@[1],
            final(self).b == data@[2],
            final(self).a == if channels.spec_pixel_size() == 4 { data@[3] } else { 255u8 },
    {
        self.r = data[0];
        self.g = data[1];
        self.b = data[2];
        if channels.pixel_size() == 4 {
            self.a = data[3];
        } else {
            self.a = 255;
        }
    }

    #[inline]
    pub fn alpha_eq(&self, other: QoiRbga) -> (r: bool)
        ensures
            r == (self.a == other.a),
    {
        self.a == other.a
    }

    /// Appends the pixel's bytes: three for 3-channel output, four otherwise.
    #[inline]
    pub fn write_bytes(&self, channels: Channels, out: &mut Vec<u8>)
        ensures
            final(out)@ == old(out)@ + spec_pixel_bytes(*self).subrange(0, channels.spec_pixel_size() as int),
    {
        let bytes = self.to_bytes();
        if channels.pixel_size() == 3 {
            out.extend_from_slice(&bytes[0..3]);
        } else {
            out.extend_from_slice(&bytes);
        }
        assert(out@ =~= old(out)@ + spec_pixel_bytes(*self).subrange(0, channels.spec_pixel_size() as int));
    }

    #[inline]
    pub fn to_bytes(&self) -> (r: [u8; 4])
        ensures
            r@ == spec_pixel_bytes(*self),
    {
        let r = [self.r, self.g, self.b, self.a];
        assert(r@ =~= spec_pixel_bytes(*self));
        r
    }

    /// The differences in red, green and blue from the previous pixel.
    #[inline]
    pub fn diff_from(&self, other: QoiRbga) -> (r: PixelDiff)
        ensures
            r == spec_diff(*self, other),
            r.wf(),
    {
        let dr = self.r as i16 - other.r as i16;
        let dg = self.g as i16 - other.g as i16;
        let db = self.b as i16 - other.b as i16;
        PixelDiff { dr, dg, db, dr_dg: dr - dg, db_dg: db - dg }
    }

    #[inline]
    pub fn create_rbg_tag(&self) -> (r: [u8; 4])
        ensures
            r@ == seq![0xFEu8, self.r, self.g, self.b],
    {
        let r = [QoiTags::QOI_OP_RGB, self.r, self.g, self.b];
        assert(r@ =~= seq![0xFEu8, self.r, self.g, self.b]);
        r
    }

    #[inline]
    pub fn create_rbga_tag(&self) -> (r: [u8; 5])
        ensures
            r@ == seq![0xFFu8, self.r, self.g, self.b, self.a],
    {
        let r = [QoiTags::QOI_OP_RGBA, self.r, self.g, self.b, self.a];
        assert(r@ =~= seq![0xFFu8, self.r, self.g, self.b, self.a]);
        r
    }

    /// The pixel of a `QOI_OP_RGB`: the three bytes and full alpha.
    #[inline]
    pub fn from_rbg_tag(bits: [u8; 3]) -> (r: QoiRbga)
        ensures
            r == (QoiRbga { r: bits@[0], g: bits@[1], b: bits@[2], a: 255 }),
    {
        QoiRbga { r: bits[0], g: bits[1], b: bits[2], a: 255 }
    }

    /// The pixel of a `QOI_OP_RGBA`: the four bytes.
    #[inline]
    pub fn from_rbga_tag(bits: [u8; 4]) -> (r: QoiRbga)
        ensures
            r == (QoiRbga { r: bits@[0], g: bits@[1], b: bits@[2], a: bits@[3] }),
    {
        QoiRbga { r: bits[0], g: bits[1], b: bits[2], a: bits[3] }
    }

    /// The pixel of a `QOI_OP_DIFF` byte applied to `prev`.
    #[inline]
    pub fn from_diff(prev: QoiRbga, tag: u8) -> (r: QoiRbga)
        ensures
            r == spec_from_diff(prev, tag),
    {
        let rd = (tag & 0x30) >> 4;
        let gd = (tag & 0x0F) >> 2;
        let bd = tag & 0x03;
        assert(rd == (tag / 16) % 4 && gd == (tag / 4) % 4 && bd == tag % 4) by (bit_vector)
            requires rd == (tag & 0x30) >> 4, gd == (tag & 0x0F) >> 2, bd == tag & 0x03;
        let r_dif = rd as i8 - 2;
        let g_dif = gd as i8 - 2;
        let b_dif = bd as i8 - 2;
        let r = prev.r.wrapping_add_signed(r_dif);
        let g = prev.g.wrapping_add_signed(g_dif);
        let b = prev.b.wrapping_add_signed(b_dif);
        QoiRbga { r, g, b, a: prev.a }
    }

    /// The pixel of a `QOI_OP_LUMA` pair of bytes applied to `prev`.
    #[inline]
    #[verifier::rlimit(40)]
    pub fn from_luma(prev: QoiRbga, bits: [u8; 2]) -> (r: QoiRbga)
        ensures
            r == spec_from_luma(prev, bits@[0], bits@[1]),
    {
        let b0 = bits[0];
        let b1 = bits[1];
        let g6 = b0 & 0x3F;
        let hi = (b1 >> 4) & 0x0F;
        let lo = b1 & 0x0F;
        assert(g6 == b0 % 64 && hi == b1 / 16 && lo == b1 % 16) by (bit_vector)
            requires g6 == b0 & 0x3F, hi == (b1 >> 4) & 0x0F, lo == b1 & 0x0F;
        let dg = g6 as i8 - 32;
        let dr_dg = hi as i8 - 8;
        let db_dg = lo as i8 - 8;
        let r = prev.r.wrapping_add_signed(dg + dr_dg);
        let g = prev.g.wrapping_add_signed(dg);
        let b = prev.b.wrapping_add_signed(dg + db_dg);
        assert(r == ((prev.r + dg + dr_dg + 512) % 256) as u8);
        assert(g == ((prev.g + dg + 256) % 256) as u8);
        assert(b == ((prev.b + dg + db_dg + 512) % 256) as u8);
        QoiRbga { r, g, b, a: prev.a }
    }
}

/// Index of a pixel in the 64-entry table of previously seen pixels.
#[inline]
pub fn idx_color_hash(rgba: QoiRbga) -> (r: usize)
    ensures
        r == spec_color_hash(rgba),
        r < 64,
{
    let sum = rgba.r as usize * 3 + rgba.g as usize * 5 + rgba.b as usize * 7 + rgba.a as usize * 11;
    assert(sum & 63 == sum % 64) by (bit_vector);
    sum & (64 - 1)
}

} // verus!
