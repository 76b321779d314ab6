use pictor::color_type::{BitDepth, ColorType};
use pictor::crc::generate_crc;
use pictor::error::PictorError;
use pictor::png_deflate::CompressionLevel;
use pictor::png_filter::PngFilter;
use pictor::png_read::PngDecodeRequest;
use pictor::png_write::{PngBuilder, PngEncodingRequest};
use pictor::samples::SampleStorage;

fn gradient(width: usize, height: usize, comp: usize) -> Vec<u8> {
    (0..width * height * comp).map(|i| ((i * 37 + i / 7) % 251) as u8).collect()
}

fn encode(width: u32, height: u32, color_type: ColorType, filter: Option<PngFilter>, flip: bool, data: &[u8]) -> Vec<u8> {
    let comp = color_type.comp_per_pix() as usize;
    let req = PngEncodingRequest::new::<u8>(
        width,
        height,
        width as usize * comp,
        color_type,
        BitDepth::U8,
        CompressionLevel::Default,
        filter,
        flip,
        SampleStorage::Borrow { data },
    );
    match req.encode() {
        Ok(e) => e.0,
        Err(_) => panic!("encoding failed"),
    }
}

#[test]
fn crc_of_iend_chunk_type() {
    assert_eq!(generate_crc(b"IEND", 0), 0xAE42_6082);
}

#[test]
fn crc_of_empty_idat_tag() {
    // The CRC of the chunk type "IDAT" alone.
    assert_eq!(generate_crc(b"IDAT", 0), 0x35AF_061E);
}

#[test]
fn paeth_predictor_picks_nearest() {
    assert_eq!(PngFilter::paeth_predictor(10, 20, 10), 20);
    assert_eq!(PngFilter::paeth_predictor(20, 10, 10), 20);
    assert_eq!(PngFilter::paeth_predictor(0, 0, 0), 0);
    assert_eq!(PngFilter::paeth_predictor(100, 50, 60), 100);
}

#[test]
fn filter_ids_follow_the_format() {
    assert_eq!(PngFilter::NoFilter.id(), 0);
    assert_eq!(PngFilter::Sub.id(), 1);
    assert_eq!(PngFilter::Up.id(), 2);
    assert_eq!(PngFilter::Average.id(), 3);
    assert_eq!(PngFilter::Paeth.id(), 4);
}

#[test]
fn png_file_starts_with_signature_and_ihdr() {
    let data = gradient(3, 2, 3);
    let file = encode(3, 2, ColorType::Rgb, Some(PngFilter::Sub), false, &data);
    assert_eq!(&file[0..8], &[0x89, b'P', b'N', b'G', 0x0D, 0x0A, 0x1A, 0x0A]);
    assert_eq!(&file[8..16], &[0, 0, 0, 13, b'I', b'H', b'D', b'R']);
    assert_eq!(&file[16..20], &[0, 0, 0, 3]);
    assert_eq!(&file[20..24], &[0, 0, 0, 2]);
    assert_eq!(file[24], 8);
    assert_eq!(file[25], 2);
    assert_eq!(&file[file.len() - 12..], &[0, 0, 0, 0, b'I', b'E', b'N', b'D', 0xAE, 0x42, 0x60, 0x82]);
}

#[test]
fn png_roundtrip_each_forced_filter() {
    let data = gradient(5, 4, 4);
    for filter in [PngFilter::NoFilter, PngFilter::Sub, PngFilter::Up, PngFilter::Average] {
        let file = encode(5, 4, ColorType::Rgba, Some(filter), false, &data);
        let img = match PngDecodeRequest::decode_bytes(&file) {
            Ok(img) => img,
            Err(_) => panic!("decoding failed"),
        };
        assert_eq!(img.width(), 5);
        assert_eq!(img.height(), 4);
        assert_eq!(img.color_type(), ColorType::Rgba);
        assert_eq!(img.bit_depth(), BitDepth::U8);
        assert_eq!(img.data.get_data(), &data[..]);
    }
}

#[test]
fn png_roundtrip_adaptive_filters_gray() {
    let data = gradient(7, 6, 1);
    let file = encode(7, 6, ColorType::L, None, false, &data);
    let img = match PngDecodeRequest::decode_bytes(&file) {
        Ok(img) => img,
        Err(_) => panic!("decoding failed"),
    };
    assert_eq!(img.data.get_data(), &data[..]);
}

#[test]
fn png_vertical_flip_reverses_rows() {
    let data = gradient(2, 3, 1);
    let file = encode(2, 3, ColorType::L, Some(PngFilter::NoFilter), true, &data);
    let img = match PngDecodeRequest::decode_bytes(&file) {
        Ok(img) => img,
        Err(_) => panic!("decoding failed"),
    };
    let out = img.data.get_data();
    assert_eq!(&out[0..2], &data[4..6]);
    assert_eq!(&out[2..4], &data[2..4]);
    assert_eq!(&out[4..6], &data[0..2]);
}

#[test]
fn png_flipped_rows_come_back_bottom_up_with_each_filter() {
    let (w, h) = (5usize, 4usize);
    let data = gradient(w, h, 3);
    for filter in [PngFilter::Sub, PngFilter::Up, PngFilter::Average] {
        let file = encode(w as u32, h as u32, ColorType::Rgb, Some(filter), true, &data);
        let img = match PngDecodeRequest::decode_bytes(&file) {
            Ok(img) => img,
            Err(_) => panic!("decoding failed"),
        };
        let out = img.data.get_data();
        let row = w * 3;
        for s in 0..h {
            assert_eq!(&out[s * row..(s + 1) * row], &data[(h - 1 - s) * row..(h - s) * row]);
        }
    }
}

#[test]
fn png_decode_short_input_is_io_error() {
    let r = PngDecodeRequest::decode_bytes(&[0x89, b'P', b'N']);
    assert!(matches!(r, Err(PictorError::IoError { .. })));
}

#[test]
fn png_decode_bad_signature_is_invalid_format() {
    let data = gradient(3, 2, 3);
    let mut file = encode(3, 2, ColorType::Rgb, Some(PngFilter::Up), false, &data);
    file[1] = b'X';
    let r = PngDecodeRequest::decode_bytes(&file);
    assert!(matches!(r, Err(PictorError::InvalidFormat { .. })));
}

#[test]
fn png_decode_bad_header_crc_is_invalid_format() {
    let data = gradient(3, 2, 3);
    let mut file = encode(3, 2, ColorType::Rgb, Some(PngFilter::Up), false, &data);
    file[29] ^= 0xFF;
    let r = PngDecodeRequest::decode_bytes(&file);
    assert!(matches!(r, Err(PictorError::InvalidFormat { .. })));
}

#[test]
fn png_decode_truncated_after_header_is_io_error() {
    let data = gradient(3, 2, 3);
    let file = encode(3, 2, ColorType::Rgb, Some(PngFilter::Up), false, &data);
    let r = PngDecodeRequest::decode_bytes(&file[..40]);
    assert!(matches!(r, Err(PictorError::IoError { .. })));
}

#[test]
fn png_builder_sets_fields() {
    let mut b = PngBuilder::new(4, 3, ColorType::Rgb);
    b.stride(12).compression(CompressionLevel::Level8).force_filter(PngFilter::Sub).vertical_flip(true);
    assert_eq!(b.stride, Some(12));
    assert_eq!(b.compression, CompressionLevel::Level8);
    assert_eq!(b.filter, Some(PngFilter::Sub));
    assert!(b.vertical_flip);
    assert_eq!(CompressionLevel::Default.id(), 5);
    assert_eq!(CompressionLevel::Level1.id(), 1);
}

#[test]
fn png_builder_encodes_u16_samples() {
    let samples: Vec<u16> = (0..12u16).map(|v| v * 4000 + 17).collect();
    let mut b = PngBuilder::new(2, 2, ColorType::Rgb);
    b.force_filter(PngFilter::Up);
    let file = match b.encode_with(&samples) {
        Ok(e) => e.0,
        Err(_) => panic!("encoding failed"),
    };
    let img = match PngDecodeRequest::decode_bytes(&file) {
        Ok(img) => img,
        Err(_) => panic!("decoding failed"),
    };
    assert_eq!(img.bit_depth(), BitDepth::U16);
    let expected: Vec<u8> = samples.iter().flat_map(|v| v.to_be_bytes()).collect();
    assert_eq!(img.data.get_data(), &expected[..]);
}

#[test]
fn filter_row_matches_whole_image() {
    let data = gradient(4, 3, 3);
    let req = PngEncodingRequest::new::<u8>(
        4,
        3,
        12,
        ColorType::Rgb,
        BitDepth::U8,
        CompressionLevel::Default,
        None,
        false,
        SampleStorage::Borrow { data: &data },
    );
    let whole = match req.filter_scanlines() {
        Ok(f) => f.data,
        Err(_) => panic!("filtering failed"),
    };
    let mut scratch = vec![0u8; 12];
    for row in 0..3u32 {
        let line = req.filter_row(row, &mut scratch);
        let start = row as usize * 13;
        assert_eq!(&whole[start..start + 13], &line[..]);
    }
}

#[test]
fn png_roundtrip_standard_paeth() {
    // Left 200, up 200, upper-left 100: the Paeth predictor is 200.
    let data = [100u8, 200, 200, 50];
    for filter in [Some(PngFilter::Paeth), None] {
        let file = encode(2, 2, ColorType::L, filter, false, &data);
        let img = match PngDecodeRequest::decode_bytes(&file) {
            Ok(img) => img,
            Err(_) => panic!("decoding failed"),
        };
        assert_eq!(img.data.get_data(), &data[..]);
    }
    let data = gradient(6, 5, 4);
    let file = encode(6, 5, ColorType::Rgba, Some(PngFilter::Paeth), true, &data);
    let img = match PngDecodeRequest::decode_bytes(&file) {
        Ok(img) => img,
        Err(_) => panic!("decoding failed"),
    };
    let out = img.data.get_data();
    let row = 6 * 4;
    for s in 0..5 {
        assert_eq!(&out[s * row..(s + 1) * row], &data[(4 - s) * row..(5 - s) * row]);
    }
}

#[test]
fn png_roundtrip_adaptive_filters_rgb() {
    let data: Vec<u8> = (0..9 * 7 * 3).map(|i| ((i * i * 13 + i / 5) % 256) as u8).collect();
    let file = encode(9, 7, ColorType::Rgb, None, false, &data);
    let img = match PngDecodeRequest::decode_bytes(&file) {
        Ok(img) => img,
        Err(_) => panic!("decoding failed"),
    };
    assert_eq!(img.data.get_data(), &data[..]);
}

#[test]
fn png_u16_samples_roundtrip_every_filter() {
    let samples: Vec<u16> = (0..5 * 4 * 2u32).map(|v| ((v * 7919 + v * v * 31) % 65536) as u16).collect();
    let expected: Vec<u8> = samples.iter().flat_map(|v| v.to_be_bytes()).collect();
    let filters = [
        Some(PngFilter::NoFilter),
        Some(PngFilter::Sub),
        Some(PngFilter::Up),
        Some(PngFilter::Average),
        Some(PngFilter::Paeth),
        None,
    ];
    for filter in filters {
        let mut b = PngBuilder::new(5, 4, ColorType::La);
        if let Some(f) = filter {
            b.force_filter(f);
        }
        let file = match b.encode_with(&samples) {
            Ok(e) => e.0,
            Err(_) => panic!("encoding failed"),
        };
        let img = match PngDecodeRequest::decode_bytes(&file) {
            Ok(img) => img,
            Err(_) => panic!("decoding failed"),
        };
        assert_eq!(img.bit_depth(), BitDepth::U16);
        assert_eq!(img.data.get_data(), &expected[..]);
    }
}

#[test]
fn png_u16_sub_filter_uses_pixel_distance() {
    // One row of two gray 16-bit pixels: the second pixel's bytes are
    // filtered against the first pixel's, two bytes back.
    let samples = [0x0102u16, 0x0304];
    let req = PngEncodingRequest::new::<u16>(
        2,
        1,
        4,
        ColorType::L,
        BitDepth::U16,
        CompressionLevel::Default,
        Some(PngFilter::Sub),
        false,
        SampleStorage::Borrow { data: &samples },
    );
    let f = match req.filter_scanlines() {
        Ok(f) => f.data,
        Err(_) => panic!("filtering failed"),
    };
    assert_eq!(f, vec![1, 1, 2, 2, 2]);
}

#[test]
fn png_trns_chunk_before_image_data_is_skipped() {
    let data = gradient(3, 2, 3);
    let file = encode(3, 2, ColorType::Rgb, Some(PngFilter::Up), false, &data);
    let mut chunk: Vec<u8> = vec![0, 0, 0, 6];
    chunk.extend_from_slice(b"tRNS");
    chunk.extend_from_slice(&[0, 1, 0, 2, 0, 3]);
    let crc = generate_crc(&chunk[4..], 6);
    chunk.extend_from_slice(&crc.to_be_bytes());
    let mut with_trns = file[..33].to_vec();
    with_trns.extend_from_slice(&chunk);
    with_trns.extend_from_slice(&file[33..]);
    let img = match PngDecodeRequest::decode_bytes(&with_trns) {
        Ok(img) => img,
        Err(_) => panic!("decoding failed"),
    };
    assert_eq!(img.data.get_data(), &data[..]);
}

#[test]
fn png_request_storage_follows_sample_type() {
    let bytes = [1u8, 2, 3];
    let req = PngEncodingRequest::new::<u8>(
        3,
        1,
        3,
        ColorType::L,
        BitDepth::U8,
        CompressionLevel::Default,
        None,
        false,
        SampleStorage::Borrow { data: &bytes },
    );
    assert!(!req.data.is_owned());
    let words = [0x0102u16];
    let req = PngEncodingRequest::new::<u16>(
        1,
        1,
        2,
        ColorType::L,
        BitDepth::U16,
        CompressionLevel::Default,
        None,
        false,
        SampleStorage::Borrow { data: &words },
    );
    assert!(req.data.is_owned());
    assert_eq!(req.data.get_data(), &[1, 2]);
}

#[test]
fn png_stride_padding_is_skipped() {
    let (w, h, s) = (3usize, 4usize, 11usize);
    let padded: Vec<u8> = (0..h * s).map(|i| ((i * 29 + 7) % 256) as u8).collect();
    let mut rows: Vec<u8> = Vec::new();
    for y in 0..h {
        rows.extend_from_slice(&padded[y * s..y * s + w * 3]);
    }
    for filter in [None, Some(PngFilter::Sub), Some(PngFilter::Up), Some(PngFilter::Paeth)] {
        let mut with_stride = PngBuilder::new(w as u32, h as u32, ColorType::Rgb);
        with_stride.stride(s);
        let mut compact = PngBuilder::new(w as u32, h as u32, ColorType::Rgb);
        if let Some(f) = filter {
            with_stride.force_filter(f);
            compact.force_filter(f);
        }
        let a = match with_stride.encode_with(&padded) {
            Ok(e) => e.0,
            Err(_) => panic!("encoding failed"),
        };
        let b = match compact.encode_with(&rows) {
            Ok(e) => e.0,
            Err(_) => panic!("encoding failed"),
        };
        assert_eq!(a, b);
        let img = match PngDecodeRequest::decode_bytes(&a) {
            Ok(img) => img,
            Err(_) => panic!("decoding failed"),
        };
        assert_eq!(img.data.get_data(), &rows[..]);
    }
}

fn with_idat(file: &[u8], idat: &[u8]) -> Vec<u8> {
    let mut out = file[..33].to_vec();
    let mut chunk: Vec<u8> = (idat.len() as u32).to_be_bytes().to_vec();
    chunk.extend_from_slice(b"IDAT");
    chunk.extend_from_slice(idat);
    let crc = generate_crc(&chunk[4..], idat.len());
    chunk.extend_from_slice(&crc.to_be_bytes());
    out.extend_from_slice(&chunk);
    out.extend_from_slice(&[0, 0, 0, 0]);
    out.extend_from_slice(b"IEND");
    out.extend_from_slice(&generate_crc(b"IEND", 0).to_be_bytes());
    out
}

#[test]
fn png_idat_that_does_not_inflate_is_io_error() {
    let data = gradient(2, 2, 1);
    let file = encode(2, 2, ColorType::L, Some(PngFilter::NoFilter), false, &data);
    let bad = with_idat(&file, &[0x78, 0x9C, 0xFF, 0xFF, 0xFF]);
    assert!(matches!(PngDecodeRequest::decode_bytes(&bad), Err(PictorError::IoError { .. })));
}

#[test]
fn png_idat_shorter_than_header_is_invalid_format() {
    // A valid zlib stream of two bytes, for an image that needs six.
    let short = [0x78u8, 0x01, 0x01, 0x02, 0x00, 0xFD, 0xFF, 0x00, 0x00, 0x00, 0x02, 0x00, 0x01];
    let data = gradient(2, 2, 1);
    let file = encode(2, 2, ColorType::L, Some(PngFilter::NoFilter), false, &data);
    let bad = with_idat(&file, &short);
    assert!(matches!(PngDecodeRequest::decode_bytes(&bad), Err(PictorError::InvalidFormat { .. })));
}
