use vstd::prelude::*;
use crate::error::PictorError;

verus! {

/// Number of bits per sample.
#[derive(Clone, Copy, Debug, PartialEq, Eq, Structural)]
pub enum BitDepth {
    U8,
    U16,
}

impl BitDepth {
    pub open spec fn spec_bytes_per_comp(self) -> u8 {
        match self {
            BitDepth::U8 => 1,
            BitDepth::U16 => 2,
        }
    }

    pub open spec fn spec_bits_per_comp(self) -> u8 {
        match self {
            BitDepth::U8 => 8,
            BitDepth::U16 => 16,
        }
    }

    pub fn bytes_per_comp(&self) -> (r: u8)
        ensures
            r == self.spec_bytes_per_comp(),
    {
        match self {
            BitDepth::U8 => 1,
            BitDepth::U16 => 2,
        }
    }

    pub fn bits_per_comp(&self) -> (r: u8)
        ensures
            r == self.spec_bits_per_comp(),
    {
        match self {
            BitDepth::U8 => 8,
            BitDepth::U16 => 16,
        }
    }

    /// The bit depth whose number of bits is `value` (8 or 16).
    pub open spec fn spec_from_bits(value: u8) -> Option<BitDepth> {
        if value == 8 {
            Some(BitDepth::U8)
        } else if value == 16 {
            Some(BitDepth::U16)
        } else {
            None
        }
    }
}

/// Color layout of a pixel.
#[derive(Clone, Copy, Debug, PartialEq, Eq, Structural)]
pub enum ColorType {
    L,
    La,
    Rgb,
    Rgba,
}

impl Default for ColorType {
    fn default() -> (r: ColorType)
        ensures
            r == ColorType::L,
    {
        ColorType::L
    }
}

impl ColorType {
    pub open spec fn spec_comp_per_pix(self) -> u8 {
        match self {
            ColorType::L => 1,
            ColorType::La => 2,
            ColorType::Rgb => 3,
            ColorType::Rgba => 4,
        }
    }

    pub open spec fn spec_id(self) -> u8 {
        match self {
            ColorType::L => 0,
            ColorType::La => 4,
            ColorType::Rgb => 2,
            ColorType::Rgba => 6,
        }
    }

    /// Number of components in one pixel.
    pub fn comp_per_pix(&self) -> (r: u8)
        ensures
            r == self.spec_comp_per_pix(),
            1 <= r <= 4,
    {
        match self {
            ColorType::L => 1,
            ColorType::La => 2,
            ColorType::Rgb => 3,
            ColorType::Rgba => 4,
        }
    }

    /// The PNG color type byte.
    pub fn id(&self) -> (r: u8)
        ensures
            r == self.spec_id(),
    {
        match self {
            ColorType::L => 0,
            ColorType::La => 4,
            ColorType::Rgb => 2,
            ColorType::Rgba => 6,
        }
    }

    /// The color type whose PNG color type byte is `value`.
    pub open spec fn spec_from_id(value: u8) -> Option<ColorType> {
        if value == 0 {
            Some(ColorType::L)
        } else if value == 4 {
            Some(ColorType::La)
        } else if value == 2 {
            Some(ColorType::Rgb)
        } else if value == 6 {
            Some(ColorType::Rgba)
        } else {
            None
        }
    }
}

impl TryFrom<u8> for BitDepth {
    type Error = PictorError;

    fn try_from(value: u8) -> (r: Result<BitDepth, PictorError>)
        ensures
            match BitDepth::spec_from_bits(value) {
                Some(b) => r == Ok::<BitDepth, PictorError>(b),
                None => r matches Err(PictorError::InvalidFormat { .. }),
            },
    {
        match value {
            8 => Ok(BitDepth::U8),
            16 => Ok(BitDepth::U16),
            _ => Err(PictorError::invalid_format("Unknown bit depth")),
        }
    }
}

impl vstd::std_specs::convert::TryFromSpecImpl<u8> for BitDepth {
    open spec fn obeys_try_from_spec() -> bool {
        false
    }

    open spec fn try_from_spec(v: u8) -> Result<BitDepth, PictorError> {
        arbitrary()
    }
}

impl TryFrom<u8> for ColorType {
    type Error = PictorError;

    fn try_from(value: u8) -> (r: Result<ColorType, PictorError>)
        ensures
            match ColorType::spec_from_id(value) {
                Some(c) => r == Ok::<ColorType, PictorError>(c),
                None => r matches Err(PictorError::InvalidFormat { .. }),
            },
    {
        match value {
            0 => Ok(ColorType::L),
            4 => Ok(ColorType::La),
            2 => Ok(ColorType::Rgb),
            6 => Ok(ColorType::Rgba),
            _ => Err(PictorError::invalid_format("Invalid ColorType")),
        }
    }
}

impl vstd::std_specs::convert::TryFromSpecImpl<u8> for ColorType {
    open spec fn obeys_try_from_spec() -> bool {
        false
    }

    open spec fn try_from_spec(v: u8) -> Result<ColorType, PictorError> {
        arbitrary()
    }
}

/// Reading the PNG color type byte of a color type gives that color type back.
pub proof fn lemma_color_type_id_roundtrip(c: ColorType)
    ensures
        ColorType::spec_from_id(c.spec_id()) == Some(c),
{
}

/// Reading the bit count of a bit depth gives that bit depth back.
pub proof fn lemma_bit_depth_roundtrip(b: BitDepth)
    ensures
        BitDepth::spec_from_bits(b.spec_bits_per_comp()) == Some(b),
{
}

} // verus!
