use vstd::prelude::*;

verus! {

/// The kinds of QOI operations, told apart by their first byte.
#[derive(Debug, Clone, Copy, PartialEq, Eq, Structural)]
pub enum QoiTags {
    Index,
    Diff,
    Luma,
    Run,
    Rgb,
    Rgba,
    Other,
}

/// The kind of operation a first byte introduces.
pub open spec fn spec_tag_kind(byte: u8) -> QoiTags {
    if byte == 0xFE {
        QoiTags::Rgb
    } else if byte == 0xFF {
        QoiTags::Rgba
    } else if byte < 0x40 {
        QoiTags::Index
    } else if byte < 0x80 {
        QoiTags::Diff
    } else if byte < 0xC0 {
        QoiTags::Luma
    } else {
        QoiTags::Run
    }
}

impl QoiTags {
    /// `00xxxxxx`: an index into the table of previously seen pixels, which
    /// encoder and decoder both keep; a pixel goes in at its hash.
    pub const QOI_OP_INDEX: u8 = 0x00;

    /// `01xxxxxx`: red, green and blue differences from the previous pixel,
    /// two bits each with a bias of 2; alpha unchanged.
    pub const QOI_OP_DIFF: u8 = 0x40;

    /// `10xxxxxx`: a green difference (6 bits, bias 32) in the first byte,
    /// then red and blue differences relative to it (4 bits each, bias 8).
    pub const QOI_OP_LUMA: u8 = 0x80;

    /// `11xxxxxx`: a run of the previous pixel, its length stored minus one.
    pub const QOI_OP_RUN: u8 = 0xC0;

    /// `11111110`, then red, green and blue.
    pub const QOI_OP_RGB: u8 = 0xFE;

    /// `11111111`, then red, green, blue and alpha.
    pub const QOI_OP_RGBA: u8 = 0xFF;

    pub fn from_byte(byte: u8) -> (r: QoiTags)
        ensures
            r == spec_tag_kind(byte),
    {
        let masked = byte & 0xC0;
        assert((masked == 0) == (byte < 0x40) && (masked == 0x40) == (0x40 <= byte < 0x80) && (masked == 0x80) == (
        0x80 <= byte < 0xC0) && (masked == 0xC0) == (byte >= 0xC0)) by (bit_vector)
            requires masked == byte & 0xC0;
        if byte == Self::QOI_OP_RGB {
            QoiTags::Rgb
        } else if byte == Self::QOI_OP_RGBA {
            QoiTags::Rgba
        } else if masked == Self::QOI_OP_INDEX {
            QoiTags::Index
        } else if masked == Self::QOI_OP_DIFF {
            QoiTags::Diff
        } else if masked == Self::QOI_OP_LUMA {
            QoiTags::Luma
        } else if masked == Self::QOI_OP_RUN {
            QoiTags::Run
        } else {
            QoiTags::Other
        }
    }

    /// The low six bits of an operation byte.
    pub fn get_index(byte: u8) -> (r: usize)
        ensures
            r == byte % 64,
    {
        let v = byte & 0x3F;
        assert(v == byte % 64) by (bit_vector) requires v == byte & 0x3F;
        v as usize
    }
}

} // verus!
