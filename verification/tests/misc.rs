use pictor::color_type::{BitDepth, ColorType};
use pictor::error::PictorError;
use pictor::image::{Convert, DecodedImage};
use pictor::load::{decode_png_payload, try_load_internal, DecodedRequest};
use pictor::png_deflate::CompressionLevel;
use pictor::png_filter::PngFilter;
use pictor::png_write::PngEncodingRequest;
use pictor::qoi::Channels;
use pictor::qoi_read::QoiDecodeRequest;
use pictor::qoi_write::QoiBuilder;
use pictor::samples::{Sample, SampleStorage};

#[test]
fn bit_depths_and_color_types() {
    assert_eq!(BitDepth::U8.bytes_per_comp(), 1);
    assert_eq!(BitDepth::U16.bits_per_comp(), 16);
    assert_eq!(ColorType::L.comp_per_pix(), 1);
    assert_eq!(ColorType::La.comp_per_pix(), 2);
    assert_eq!(ColorType::Rgb.comp_per_pix(), 3);
    assert_eq!(ColorType::Rgba.comp_per_pix(), 4);
    assert_eq!(ColorType::Rgb.id(), 2);
    assert_eq!(ColorType::Rgba.id(), 6);
    assert!(matches!(BitDepth::try_from(8u8), Ok(BitDepth::U8)));
    assert!(matches!(BitDepth::try_from(3u8), Err(PictorError::InvalidFormat { .. })));
    assert!(matches!(ColorType::try_from(4u8), Ok(ColorType::La)));
    assert!(matches!(ColorType::try_from(5u8), Err(PictorError::InvalidFormat { .. })));
    assert!(matches!(Channels::try_from(4u8), Ok(Channels::Srbg)));
    assert!(matches!(Channels::try_from(2u8), Err(PictorError::InvalidArgument { .. })));
    assert_eq!(ColorType::default(), ColorType::L);
}

#[test]
fn u16_samples_to_big_endian_and_back() {
    let samples = [0x1234u16, 0xABCD];
    let bytes = <u16 as Sample>::into_be_bytes(SampleStorage::Borrow { data: &samples });
    assert_eq!(bytes.get_data(), &[0x12, 0x34, 0xAB, 0xCD]);
    let back = <u16 as Sample>::from_be_bytes(&[0x12, 0x34, 0xAB, 0xCD]);
    assert_eq!(back.get_data(), &samples);
    assert_eq!(<u16 as Sample>::downsample_u16_to_u8(0xFFFF), 255);
    assert_eq!(<u16 as Sample>::downsample_u16_to_u8(0), 0);
    assert_eq!(<u16 as Sample>::downsample_u16_to_u8(0x8080), 128);
}

#[test]
fn sample_storage_views() {
    let data = [1u8, 2, 3];
    let s = SampleStorage::Borrow { data: &data };
    assert!(s.is_borrowed());
    assert!(!s.is_owned());
    assert_eq!(s.len(), 3);
    assert!(!s.is_empty());
    assert!(s.try_into_vec().is_none());
    let o: SampleStorage<'_, u8> = SampleStorage::Owned { data: vec![4, 5] };
    assert_eq!(o.as_borrowed().get_data(), &[4, 5]);
    assert_eq!(o.into_vec(), vec![4, 5]);
}

#[test]
fn load_recognizes_each_format() {
    let data = [10u8, 20, 30, 40, 50, 60];
    let png = PngEncodingRequest::new::<u8>(
        2,
        1,
        6,
        ColorType::Rgb,
        BitDepth::U8,
        CompressionLevel::Level3,
        Some(PngFilter::Sub),
        false,
        SampleStorage::Borrow { data: &data },
    );
    let file = match png.encode() {
        Ok(e) => e.0,
        Err(_) => panic!("encoding failed"),
    };
    match try_load_internal(file.clone()) {
        Ok(DecodedRequest::Png { request, payload }) => {
            assert_eq!(request.width(), 2);
            assert_eq!(payload.len(), file.len() - 33);
        }
        _ => panic!("not recognized as PNG"),
    }
    let qoi = match QoiBuilder::new(2, 1, Channels::Rbg).encode_with(&data) {
        Ok(v) => v,
        Err(_) => panic!("encoding failed"),
    };
    match try_load_internal(qoi.clone()) {
        Ok(DecodedRequest::Qoi { request, payload }) => {
            assert_eq!(request.height(), 1);
            assert_eq!(payload, qoi[14..].to_vec());
        }
        _ => panic!("not recognized as QOI"),
    }
    assert!(matches!(try_load_internal(vec![1, 2, 3]), Err(PictorError::InvalidFormat { .. })));
}

#[test]
fn decoded_qoi_converts_to_image() {
    let data = [1u8, 2, 3, 4, 5, 6];
    let qoi = match QoiBuilder::new(2, 1, Channels::Rbg).encode_with(&data) {
        Ok(v) => v,
        Err(_) => panic!("encoding failed"),
    };
    let decoded = match QoiDecodeRequest::decode_bytes(&qoi, None) {
        Ok(d) => d,
        Err(_) => panic!("decoding failed"),
    };
    let image: DecodedImage<'_, u8> = decoded.convert();
    assert_eq!(image.width, 2);
    assert_eq!(image.color_type, ColorType::Rgb);
    assert_eq!(image.data.get_data(), &data);
    let png = image.png();
    assert_eq!(png.compression, CompressionLevel::Default);
    let encoded = match png.encode_with() {
        Ok(e) => e,
        Err(_) => panic!("encoding failed"),
    };
    assert_eq!(&encoded.0[1..4], b"PNG");
}

#[test]
fn image_to_qoi_and_jpeg_builders() {
    let samples = [0u16, 0xFFFF, 0x8080];
    let image = DecodedImage {
        width: 1,
        height: 1,
        color_type: ColorType::Rgb,
        bit_depth: BitDepth::U16,
        data: SampleStorage::Borrow { data: &samples },
    };
    let q = image.qoi();
    assert_eq!(q.data.get_data(), &[0, 255, 128]);
    let stream = match q.encode_with() {
        Ok(v) => v,
        Err(_) => panic!("encoding failed"),
    };
    assert_eq!(&stream[0..4], b"qoif");

    let image = DecodedImage {
        width: 70_000,
        height: 1,
        color_type: ColorType::L,
        bit_depth: BitDepth::U8,
        data: SampleStorage::Borrow { data: &[0u8; 1] },
    };
    let mut j = image.jpeg();
    assert_eq!(j.quality, 90);
    j.quality(20);
    assert!(matches!(j.create_request(), Err(PictorError::IntegerError { .. })));
}

#[test]
fn image_gray_to_qoi_header_is_rgb_srgb() {
    let samples = [10u8, 10, 10, 200];
    let image = DecodedImage {
        width: 4,
        height: 1,
        color_type: ColorType::L,
        bit_depth: BitDepth::U8,
        data: SampleStorage::Borrow { data: &samples },
    };
    let stream = match image.qoi().encode_with() {
        Ok(v) => v,
        Err(_) => panic!("encoding failed"),
    };
    assert_eq!(stream[12], 3);
    assert_eq!(stream[13], 0);
    let img = match QoiDecodeRequest::decode_bytes(&stream, None) {
        Ok(img) => img,
        Err(_) => panic!("decoding failed"),
    };
    assert_eq!(img.data.get_data(), &[10, 10, 10, 10, 10, 10, 10, 10, 10, 200, 200, 200]);
}

#[test]
fn png_payload_after_header_decodes() {
    let data = [1u8, 2, 3, 4, 5, 6];
    let req = PngEncodingRequest::new::<u8>(
        3,
        2,
        3,
        ColorType::L,
        BitDepth::U8,
        CompressionLevel::Default,
        Some(PngFilter::Sub),
        false,
        SampleStorage::Borrow { data: &data },
    );
    let file = match req.encode() {
        Ok(e) => e.0,
        Err(_) => panic!("encoding failed"),
    };
    let (request, payload) = match try_load_internal(file) {
        Ok(DecodedRequest::Png { request, payload }) => (request, payload),
        _ => panic!("not recognized as PNG"),
    };
    let img = match decode_png_payload(&request, &payload) {
        Ok(img) => img,
        Err(_) => panic!("decoding failed"),
    };
    assert_eq!(img.data.get_data(), &data[..]);
    let mut wrong = request;
    wrong.stride = 5;
    assert!(matches!(decode_png_payload(&wrong, &payload), Err(PictorError::InvalidFormat { .. })));
}
