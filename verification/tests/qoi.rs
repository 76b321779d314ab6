use pictor::color_type::{BitDepth, ColorType};
use pictor::error::PictorError;
use pictor::qoi::{idx_color_hash, Channels, ColorSpace, QoiRbga};
use pictor::qoi_read::QoiDecodeRequest;
use pictor::qoi_tags::QoiTags;
use pictor::qoi_write::{QoiBuilder, QoiEncodingRequest};
use pictor::samples::SampleStorage;

fn encode(width: u32, height: u32, channels: Channels, data: &[u8]) -> Vec<u8> {
    let b = QoiBuilder::new(width, height, channels);
    match b.encode_with(data) {
        Ok(v) => v,
        Err(_) => panic!("encoding failed"),
    }
}

#[test]
fn qoi_header_and_end_marker() {
    let data = [10u8, 20, 30, 200, 100, 50];
    let stream = encode(2, 1, Channels::Rbg, &data);
    assert_eq!(&stream[0..4], b"qoif");
    assert_eq!(&stream[4..8], &[0, 0, 0, 2]);
    assert_eq!(&stream[8..12], &[0, 0, 0, 1]);
    assert_eq!(stream[12], 3);
    assert_eq!(stream[13], 0);
    assert_eq!(&stream[stream.len() - 8..], &[0, 0, 0, 0, 0, 0, 0, 1]);
}

#[test]
fn qoi_first_pixel_uses_rgb_op() {
    let data = [10u8, 20, 30];
    let stream = encode(1, 1, Channels::Rbg, &data);
    assert_eq!(&stream[14..18], &[0xFE, 10, 20, 30]);
}

#[test]
fn qoi_small_difference_uses_diff_op() {
    // (1, 1, 1) after the start pixel (0, 0, 0, 255): differences of one.
    let data = [1u8, 1, 1];
    let stream = encode(1, 1, Channels::Rbg, &data);
    assert_eq!(stream[14], 0x40 | (3 << 4) | (3 << 2) | 3);
}

#[test]
fn qoi_repeated_pixel_uses_run_op() {
    let data = [9u8, 9, 9, 9, 9, 9];
    let stream = encode(2, 1, Channels::Rbg, &data);
    // Green up by 9 and red and blue alike: a luma operation, then a run of one.
    assert_eq!(&stream[14..16], &[0x80 | (9 + 32), (8 << 4) | 8]);
    assert_eq!(stream[16], 0xC0);
}

#[test]
fn qoi_seen_pixel_uses_index_op() {
    let data = [200u8, 10, 10, 0, 250, 0, 200, 10, 10];
    let stream = encode(3, 1, Channels::Rbg, &data);
    let hash = idx_color_hash(QoiRbga { r: 200, g: 10, b: 10, a: 255 });
    assert_eq!(stream[stream.len() - 9], hash as u8);
}

#[test]
fn qoi_roundtrip_opaque_rgb() {
    let data: Vec<u8> = (0..4 * 3 * 3).map(|i| ((i * 53) % 256) as u8).collect();
    let stream = encode(4, 3, Channels::Rbg, &data);
    let img = match QoiDecodeRequest::decode_bytes(&stream, None) {
        Ok(img) => img,
        Err(_) => panic!("decoding failed"),
    };
    assert_eq!(img.width(), 4);
    assert_eq!(img.height(), 3);
    assert_eq!(img.channels(), Channels::Rbg);
    assert_eq!(img.color_space(), ColorSpace::Srbg);
    assert_eq!(img.color_type(), ColorType::Rgb);
    assert_eq!(img.bit_depth(), BitDepth::U8);
    assert_eq!(img.data.get_data(), &data[..]);
}

#[test]
fn qoi_roundtrip_opaque_rgba_with_single_repeats() {
    let data = [
        1u8, 2, 3, 255, 1, 2, 3, 255, 40, 50, 60, 255, 41, 49, 62, 255, 1, 2, 3, 255, 90, 91, 92, 255,
    ];
    let stream = encode(3, 2, Channels::Srbg, &data);
    let img = match QoiDecodeRequest::decode_bytes(&stream, None) {
        Ok(img) => img,
        Err(_) => panic!("decoding failed"),
    };
    assert_eq!(img.channels(), Channels::Srbg);
    assert_eq!(img.data.get_data(), &data[..]);
}

#[test]
fn qoi_decode_short_input_is_io_error() {
    let r = QoiDecodeRequest::decode_bytes(b"qoif", None);
    assert!(matches!(r, Err(PictorError::IoError { .. })));
}

#[test]
fn qoi_decode_bad_magic_is_invalid_argument() {
    let mut stream = encode(1, 1, Channels::Rbg, &[1, 2, 3]);
    stream[0] = b'x';
    let r = QoiDecodeRequest::decode_bytes(&stream, None);
    assert!(matches!(r, Err(PictorError::InvalidArgument { .. })));
}

#[test]
fn qoi_decode_bad_channels_is_invalid_argument() {
    let mut stream = encode(1, 1, Channels::Rbg, &[1, 2, 3]);
    stream[12] = 5;
    let r = QoiDecodeRequest::decode_bytes(&stream, None);
    assert!(matches!(r, Err(PictorError::InvalidArgument { .. })));
}

#[test]
fn qoi_decode_missing_end_marker() {
    let stream = encode(1, 1, Channels::Rbg, &[1, 2, 3]);
    let r = QoiDecodeRequest::decode_bytes(&stream[..stream.len() - 3], None);
    assert!(matches!(r, Err(PictorError::IoError { .. })));
    let mut bad = stream.clone();
    let n = bad.len();
    bad[n - 1] = 2;
    let r = QoiDecodeRequest::decode_bytes(&bad, None);
    assert!(matches!(r, Err(PictorError::InvalidArgument { .. })));
}

#[test]
fn qoi_decode_index_to_empty_slot_is_invalid_argument() {
    let mut stream = encode(1, 1, Channels::Rbg, &[1, 2, 3]);
    // Replace the first operation by an index into an empty slot.
    stream[14] = 0x05;
    let r = QoiDecodeRequest::decode_bytes(&stream, None);
    assert!(matches!(r, Err(PictorError::InvalidArgument { .. })));
}

#[test]
fn qoi_builder_refuses_too_many_pixels() {
    let b = QoiBuilder::new(100_000, 100_000, Channels::Rbg);
    assert!(matches!(b.create_request(&[]), Err(PictorError::FileSizeExceeded)));
    let mut b = QoiBuilder::new(2, 2, Channels::Srbg);
    b.color_space(ColorSpace::Linear);
    let data = [0u8; 16];
    let req = match b.create_request(&data) {
        Ok(r) => r,
        Err(_) => panic!("request refused"),
    };
    assert_eq!(req.color_space(), ColorSpace::Linear);
    assert_eq!(req.channels(), Channels::Srbg);
    assert_eq!(req.width(), 2);
    assert_eq!(req.height(), 2);
    assert_eq!(req.data().len(), 16);
}

#[test]
fn qoi_gray_input_becomes_rgb() {
    let data = [7u8, 200];
    let req = QoiEncodingRequest::new(2, 1, ColorType::L, None, SampleStorage::Borrow { data: &data });
    assert_eq!(req.channels(), Channels::Rbg);
    let stream = match req.encode() {
        Ok(v) => v,
        Err(_) => panic!("encoding failed"),
    };
    assert_eq!(stream[12], 3);
    let img = match QoiDecodeRequest::decode_bytes(&stream, None) {
        Ok(img) => img,
        Err(_) => panic!("decoding failed"),
    };
    assert_eq!(img.data.get_data(), &[7, 7, 7, 200, 200, 200]);
}

#[test]
fn qoi_tags_by_first_byte() {
    assert_eq!(QoiTags::from_byte(0x00), QoiTags::Index);
    assert_eq!(QoiTags::from_byte(0x7F), QoiTags::Diff);
    assert_eq!(QoiTags::from_byte(0x80), QoiTags::Luma);
    assert_eq!(QoiTags::from_byte(0xC1), QoiTags::Run);
    assert_eq!(QoiTags::from_byte(0xFE), QoiTags::Rgb);
    assert_eq!(QoiTags::from_byte(0xFF), QoiTags::Rgba);
    assert_eq!(QoiTags::get_index(0xC5), 5);
}

#[test]
fn qoi_color_hash_formula() {
    let p = QoiRbga { r: 1, g: 2, b: 3, a: 4 };
    assert_eq!(idx_color_hash(p), (3 + 10 + 21 + 44) % 64);
}

#[test]
fn qoi_luma_tag_roundtrip() {
    let prev = QoiRbga { r: 100, g: 100, b: 100, a: 255 };
    let cur = QoiRbga { r: 110, g: 105, b: 98, a: 255 };
    let d = cur.diff_from(prev);
    assert!(!d.fits_qoi_diff());
    assert!(d.fits_qoi_luma());
    let tag = d.create_luma_tag();
    assert_eq!(QoiRbga::from_luma(prev, tag), cur);
}

#[test]
fn qoi_roundtrip_empty_image() {
    let data: [u8; 0] = [];
    let req = QoiEncodingRequest::new(4, 0, ColorType::Rgba, None, SampleStorage::Borrow { data: &data });
    let stream = match req.encode() {
        Ok(v) => v,
        Err(_) => panic!("encoding failed"),
    };
    assert_eq!(stream.len(), 14 + 8);
    let img = match QoiDecodeRequest::decode_bytes(&stream, None) {
        Ok(img) => img,
        Err(_) => panic!("decoding failed"),
    };
    assert_eq!(img.width, 4);
    assert_eq!(img.height, 0);
    assert!(img.data.get_data().is_empty());
}

fn qoi_stream(width: u8, channels: u8, ops: &[u8]) -> Vec<u8> {
    let mut s = vec![b'q', b'o', b'i', b'f', 0, 0, 0, width, 0, 0, 0, 1, channels, 0];
    s.extend_from_slice(ops);
    s.extend_from_slice(&[0, 0, 0, 0, 0, 0, 0, 1]);
    s
}

#[test]
fn qoi_decode_run_length_is_stored_minus_one() {
    let stream = qoi_stream(3, 3, &[0xFE, 10, 20, 30, 0xC1]);
    let img = match QoiDecodeRequest::decode_bytes(&stream, None) {
        Ok(img) => img,
        Err(_) => panic!("decoding failed"),
    };
    assert_eq!(img.data.get_data(), &[10, 20, 30, 10, 20, 30, 10, 20, 30]);
}

#[test]
fn qoi_rgb_op_keeps_previous_alpha() {
    let stream = qoi_stream(2, 4, &[0xFF, 1, 2, 3, 100, 0xFE, 4, 5, 6]);
    let img = match QoiDecodeRequest::decode_bytes(&stream, None) {
        Ok(img) => img,
        Err(_) => panic!("decoding failed"),
    };
    assert_eq!(img.data.get_data(), &[1, 2, 3, 100, 4, 5, 6, 100]);
}

#[test]
fn qoi_roundtrip_long_runs_and_alpha() {
    let mut data: Vec<u8> = Vec::new();
    for _ in 0..70 {
        data.extend_from_slice(&[7, 8, 9, 40]);
    }
    for i in 0..30u8 {
        data.extend_from_slice(&[i.wrapping_mul(31), 200, i, 40]);
        data.extend_from_slice(&[i.wrapping_mul(31), 200, i, 40]);
        data.extend_from_slice(&[3, 4, 5, 255 - i]);
    }
    for _ in 0..5 {
        data.extend_from_slice(&[0, 0, 0, 255]);
    }
    let pixels = (data.len() / 4) as u32;
    let stream = encode(pixels, 1, Channels::Srbg, &data);
    let img = match QoiDecodeRequest::decode_bytes(&stream, None) {
        Ok(img) => img,
        Err(_) => panic!("decoding failed"),
    };
    assert_eq!(img.data.get_data(), &data[..]);
}

#[test]
fn qoi_roundtrip_start_pixel_run() {
    let data = [0u8, 0, 0, 0, 0, 0, 5, 5, 5, 0, 0, 0];
    let stream = encode(4, 1, Channels::Rbg, &data);
    assert_eq!(stream[14], 0xC1);
    let img = match QoiDecodeRequest::decode_bytes(&stream, None) {
        Ok(img) => img,
        Err(_) => panic!("decoding failed"),
    };
    assert_eq!(img.data.get_data(), &data[..]);
}

#[test]
fn qoi_diff_fits_luma_too() {
    let d = QoiRbga { r: 11, g: 10, b: 9, a: 255 }.diff_from(QoiRbga { r: 10, g: 10, b: 10, a: 255 });
    assert!(d.fits_qoi_diff());
    assert!(d.fits_qoi_luma());
    assert_eq!(d.dr_dg, 1);
    assert_eq!(d.db_dg, -1);
}
