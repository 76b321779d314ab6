use pictor::bytes::ByteCursor;
use pictor::color_type::ColorType;
use pictor::error::PictorError;
use pictor::jpeg_entropy::JpegBitReader;
use pictor::jpeg_read::{unzigzag_table, JpegDecodeRequest, JpegHuffmanTable, Marker};
use pictor::jpeg_write::{
    ac_chromin_nrcodes, ac_chromin_values, ac_lumin_nrcodes, ac_lumin_values, calc_bits, dc_chromin_nrcodes,
    dc_chromin_values, dc_lumin_nrcodes, dc_lumin_values, huffman_code_table, write_data_unit, zigzag_table,
    EncodingRequest, JpegBitWriter, JpegBuilder,
};

/// A one-component 8x8 baseline JPEG whose Huffman tables each hold one
/// one-bit code, followed by the entropy-coded byte `scan`.
fn tiny_jpeg(dc_symbol: u8, scan: u8) -> Vec<u8> {
    let mut v = vec![0xFF, 0xD8];
    v.extend_from_slice(&[0xFF, 0xDB, 0x00, 0x43, 0x00]);
    v.extend_from_slice(&[1u8; 64]);
    v.extend_from_slice(&[0xFF, 0xC0, 0x00, 0x0B, 0x08, 0x00, 0x08, 0x00, 0x08, 0x01, 0x01, 0x11, 0x00]);
    v.extend_from_slice(&[0xFF, 0xC4, 0x00, 0x26, 0x00, 1]);
    v.extend_from_slice(&[0u8; 15]);
    v.push(dc_symbol);
    v.extend_from_slice(&[0x10, 1]);
    v.extend_from_slice(&[0u8; 15]);
    v.push(0);
    v.extend_from_slice(&[0xFF, 0xDA, 0x00, 0x08, 0x01, 0x01, 0x00, 0x00, 0x3F, 0x00]);
    v.push(scan);
    v.extend_from_slice(&[0xFF, 0xD9]);
    v
}

#[test]
fn jpeg_header_of_tiny_image() {
    let data = tiny_jpeg(0, 0x3F);
    let mut reader = ByteCursor::new(&data);
    let req = match JpegDecodeRequest::read_header(&mut reader) {
        Ok(r) => r,
        Err(_) => panic!("header refused"),
    };
    assert_eq!(req.width(), 8);
    assert_eq!(req.height(), 8);
    assert_eq!(req.color_type(), ColorType::L);
    assert_eq!(req.components.len(), 1);
    assert_eq!(req.scan_components.len(), 1);
    assert_eq!(reader.position(), data.len() - 3);
    let table = match &req.quantization_tables[0] {
        Some(t) => *t,
        None => panic!("no quantization table"),
    };
    assert_eq!(table, [1u16; 64]);
}

#[test]
fn jpeg_decodes_zero_block() {
    let data = tiny_jpeg(0, 0x3F);
    let mut reader = ByteCursor::new(&data);
    let req = match JpegDecodeRequest::read_header(&mut reader) {
        Ok(r) => r,
        Err(_) => panic!("header refused"),
    };
    let (planes, blocks) = match req.decode_blocks(&reader) {
        Ok(x) => x,
        Err(_) => panic!("scan refused"),
    };
    assert_eq!(planes.mcu_columns, 1);
    assert_eq!(planes.mcu_rows, 1);
    assert_eq!(blocks.len(), 1);
    assert_eq!(blocks[0], [0i32; 64]);
}

#[test]
fn jpeg_decodes_dc_value() {
    // DC code 0 (size 2), bits 11 (3), AC code 0 (end of block), padding.
    let data = tiny_jpeg(2, 0b0110_1111);
    let mut reader = ByteCursor::new(&data);
    let req = match JpegDecodeRequest::read_header(&mut reader) {
        Ok(r) => r,
        Err(_) => panic!("header refused"),
    };
    let (_, blocks) = match req.decode_blocks(&reader) {
        Ok(x) => x,
        Err(_) => panic!("scan refused"),
    };
    let mut expected = [0i32; 64];
    expected[0] = 3;
    assert_eq!(blocks[0], expected);
}

#[test]
fn jpeg_header_errors() {
    let mut reader = ByteCursor::new(&[0xFF]);
    assert!(matches!(JpegDecodeRequest::read_header(&mut reader), Err(PictorError::IoError { .. })));
    let mut reader = ByteCursor::new(&[0x00, 0xD8]);
    assert!(matches!(JpegDecodeRequest::read_header(&mut reader), Err(PictorError::InvalidFormat { .. })));
    // A progressive frame is not supported.
    let data = [0xFF, 0xD8, 0xFF, 0xC2, 0x00, 0x02];
    let mut reader = ByteCursor::new(&data);
    assert!(matches!(JpegDecodeRequest::read_header(&mut reader), Err(PictorError::InvalidFormat { .. })));
    // A skipped comment, then the input ends.
    let data = [0xFF, 0xD8, 0xFF, 0xFE, 0x00, 0x04, 0x41, 0x42];
    let mut reader = ByteCursor::new(&data);
    assert!(matches!(JpegDecodeRequest::read_header(&mut reader), Err(PictorError::IoError { .. })));
}

#[test]
fn jpeg_scan_ending_early_is_unexpected_eoi() {
    // The scan holds no byte before the end-of-image marker.
    let mut data = tiny_jpeg(0, 0x3F);
    let n = data.len();
    data.remove(n - 3);
    let mut reader = ByteCursor::new(&data);
    let req = match JpegDecodeRequest::read_header(&mut reader) {
        Ok(r) => r,
        Err(_) => panic!("header refused"),
    };
    assert!(matches!(req.decode_blocks(&reader), Err(PictorError::InvalidArgument { .. })));
}

#[test]
fn markers_by_kind() {
    assert!(Marker::from_byte(0xC0).is_sof());
    assert!(Marker::from_byte(0xC2).is_sof());
    assert!(!Marker::from_byte(0xC4).is_sof());
    assert!(Marker::from_byte(0xE1).is_app());
    assert!(Marker::from_byte(0xFE).is_skippable_segment());
    assert!(!Marker::from_byte(0xDB).is_skippable_segment());
}

#[test]
fn bit_reader_unstuffs_and_extends() {
    let data = [0xFF, 0x00, 0b0100_0000];
    let mut r = JpegBitReader::new(&data, 0);
    assert!(matches!(r.read_bits(8), Ok(0xFF)));
    assert!(matches!(r.receive_extend(2), Ok(-2)));
    let data = [0xFF, 0xD9];
    let mut r = JpegBitReader::new(&data, 0);
    assert!(matches!(r.read_bit(), Err(PictorError::InvalidArgument { .. })));
    let data = [0xFF, 0xD0];
    let mut r = JpegBitReader::new(&data, 0);
    assert!(matches!(r.read_bit(), Err(PictorError::InvalidFormat { .. })));
}

#[test]
fn first_codes_are_canonical() {
    let mut counts = [0u8; 16];
    counts[1] = 1;
    counts[2] = 5;
    assert_eq!(JpegBitReader::first_code_for_length(&counts, 2), 0);
    assert_eq!(JpegBitReader::first_code_for_length(&counts, 3), 2);
    assert_eq!(JpegBitReader::first_code_for_length(&counts, 4), 14);
    let table = JpegHuffmanTable { code_counts: counts, symbols: vec![0, 1, 2, 3, 4, 5] };
    // Code 010 is the first three-bit code: symbol 1.
    let data = [0b0100_0000];
    let mut r = JpegBitReader::new(&data, 0);
    assert!(matches!(r.decode_huffman_symbol(&table), Ok(1)));
}

#[test]
fn calc_bits_categories() {
    assert_eq!(calc_bits(0), [0, 1]);
    assert_eq!(calc_bits(1), [1, 1]);
    assert_eq!(calc_bits(-1), [0, 1]);
    assert_eq!(calc_bits(5), [5, 3]);
    assert_eq!(calc_bits(-5), [2, 3]);
    assert_eq!(calc_bits(1023), [1023, 10]);
}

#[test]
fn bit_writer_packs_and_stuffs() {
    let mut w = JpegBitWriter::new();
    w.write_bits([0b101, 3]);
    w.write_bits([0b11111, 5]);
    w.write_bits([0xFF, 8]);
    w.write_bits([0b1, 1]);
    w.finish_entropy_bits();
    assert_eq!(w.into_inner(), vec![0b1011_1111, 0xFF, 0x00, 0xFF, 0x00]);
}

#[test]
fn standard_dc_luminance_codes() {
    let t = huffman_code_table(&dc_lumin_nrcodes(), &dc_lumin_values(), 12);
    let expected = [
        [0, 2], [2, 3], [3, 3], [4, 3], [5, 3], [6, 3], [14, 4], [30, 5], [62, 6], [126, 7], [254, 8], [510, 9],
    ];
    assert_eq!(t, expected.to_vec());
    let t = huffman_code_table(&dc_chromin_nrcodes(), &dc_chromin_values(), 12);
    assert_eq!(t[0], [0, 2]);
    assert_eq!(t[11], [2046, 11]);
    let t = huffman_code_table(&ac_lumin_nrcodes(), &ac_lumin_values(), 256);
    assert_eq!(t[0x00], [10, 4]);
    assert_eq!(t[0x01], [0, 2]);
    assert_eq!(t[0xF0], [2041, 11]);
}

#[test]
fn zigzag_tables_are_inverse() {
    let zz = zigzag_table();
    let un = unzigzag_table();
    for k in 0..64 {
        assert_eq!(un[zz[k]], k);
    }
}

#[test]
fn quant_tables_scale_and_clamp() {
    let data = [0u8; 3];
    let req = EncodingRequest::new(1, 1, ColorType::Rgb, false, 50, &data);
    let q = req.build_quant_tables();
    assert_eq!(q.luma_quant[0], 8);
    assert_eq!(q.chroma_quant[0], 9);
    let req = EncodingRequest::new(1, 1, ColorType::Rgb, false, 5000, &data);
    let q = req.build_quant_tables();
    assert_eq!(q.luma_quant[63], 255);
}

#[test]
fn jpeg_builder_quality_factor() {
    let mut b = JpegBuilder::new(16, 8, ColorType::Rgb);
    let data = [0u8; 16 * 8 * 3];
    let r = b.create_request(&data);
    assert_eq!(r.quality_factor, 20);
    assert!(r.subsample);
    b.quality(0);
    assert_eq!(b.quality, 1);
    assert_eq!(b.create_request(&data).quality_factor, 5000);
    b.quality(250).vertical_flip(true);
    assert_eq!(b.quality, 100);
    let r = b.create_request(&data);
    assert_eq!(r.quality_factor, 0);
    assert!(!r.subsample);
    assert!(r.vertical_flip);
}

#[test]
fn pixel_index_clamps_and_flips() {
    let data = [0u8; 2 * 3 * 3];
    let mut req = EncodingRequest::new(2, 3, ColorType::Rgb, false, 50, &data);
    assert_eq!(req.pixel_index(0, 0), 0);
    assert_eq!(req.pixel_index(1, 1), 9);
    assert_eq!(req.pixel_index(7, 5), 15);
    req.vertical_flip = true;
    assert_eq!(req.pixel_index(0, 0), 12);
}

#[test]
fn header_segments_have_their_lengths() {
    let data = [0u8; 3];
    let req = EncodingRequest::new(1, 1, ColorType::Rgb, true, 50, &data);
    let q = req.build_quant_tables();
    let head = req.init_soi_and_tables(&q);
    assert_eq!(head.len(), 154);
    assert_eq!(&head[0..4], &[0xFF, 0xD8, 0xFF, 0xE0]);
    let frame = req.write_dct_huffman_tables();
    assert_eq!(frame.len(), 439);
    assert_eq!(frame[11], 0x22);
    let scan = req.finish_header();
    assert_eq!(scan, vec![0xFF, 0xDA, 0x00, 0x0C, 0x03, 0x01, 0x00, 0x02, 0x11, 0x03, 0x11, 0x00, 0x3F, 0x00]);
}

#[test]
fn entropy_coded_blocks_decode_back() {
    // Quantization values of one, three components without subsampling.
    let pixels = [0u8; 8 * 8 * 3];
    let req = EncodingRequest::new(8, 8, ColorType::Rgb, false, 0, &pixels);
    let q = req.build_quant_tables();
    let mut file = req.init_soi_and_tables(&q);
    file.extend_from_slice(&req.write_dct_huffman_tables());
    file.extend_from_slice(&req.finish_header());

    let ydc: [[u16; 2]; 12] = huffman_code_table(&dc_lumin_nrcodes(), &dc_lumin_values(), 12).try_into().unwrap();
    let yac: [[u16; 2]; 256] = huffman_code_table(&ac_lumin_nrcodes(), &ac_lumin_values(), 256).try_into().unwrap();
    let uvdc: [[u16; 2]; 12] = huffman_code_table(&dc_chromin_nrcodes(), &dc_chromin_values(), 12).try_into().unwrap();
    let uvac: [[u16; 2]; 256] =
        huffman_code_table(&ac_chromin_nrcodes(), &ac_chromin_values(), 256).try_into().unwrap();

    let mut du_y = [0i32; 64];
    du_y[0] = -300;
    du_y[1] = 17;
    du_y[5] = -1;
    du_y[40] = 2;
    let mut du_u = [0i32; 64];
    du_u[0] = 12;
    du_u[63] = -3;
    let mut du_v = [0i32; 64];
    du_v[0] = 5;
    du_v[20] = 900;

    let mut w = JpegBitWriter::new();
    let (mut dc_y, mut dc_u, mut dc_v) = (0i32, 0i32, 0i32);
    write_data_unit(&mut w, &du_y, &mut dc_y, &ydc, &yac);
    write_data_unit(&mut w, &du_u, &mut dc_u, &uvdc, &uvac);
    write_data_unit(&mut w, &du_v, &mut dc_v, &uvdc, &uvac);
    w.finish_entropy_bits();
    file.extend_from_slice(&w.into_inner());
    file.extend_from_slice(&[0xFF, 0xD9]);

    let mut reader = ByteCursor::new(&file);
    let header = match JpegDecodeRequest::read_header(&mut reader) {
        Ok(r) => r,
        Err(_) => panic!("header refused"),
    };
    assert_eq!(header.color_type(), ColorType::Rgb);
    let (_, blocks) = match header.decode_blocks(&reader) {
        Ok(x) => x,
        Err(_) => panic!("scan refused"),
    };
    assert_eq!(blocks.len(), 3);
    let zz = zigzag_table();
    for (block, du) in blocks.iter().zip([du_y, du_u, du_v].iter()) {
        for n in 0..64 {
            assert_eq!(block[n], du[zz[n]]);
        }
    }
}

#[test]
fn encoder_header_reads_back() {
    let data = [0u8; 300 * 200 * 3];
    let req = EncodingRequest::new(300, 200, ColorType::Rgb, true, 75, &data);
    let q = req.build_quant_tables();
    let mut bytes = req.init_soi_and_tables(&q);
    bytes.extend(req.write_dct_huffman_tables());
    bytes.extend(req.finish_header());
    bytes.extend_from_slice(&[0x12, 0x34]);
    let mut cursor = ByteCursor::new(&bytes);
    let hdr = JpegDecodeRequest::read_header(&mut cursor).expect("header");
    assert_eq!(cursor.pos, 607);
    assert_eq!(hdr.width, 300);
    assert_eq!(hdr.height, 200);
    assert_eq!(hdr.color_type, ColorType::Rgb);
    assert_eq!(hdr.components.len(), 3);
    assert_eq!(hdr.components[0].horizontal_sampling, 2);
    assert_eq!(hdr.components[0].vertical_sampling, 2);
    assert_eq!(hdr.components[1].quantization_table_id, 1);
    let unzig = unzigzag_table();
    let luma = hdr.quantization_tables[0].expect("luma table");
    for k in 0..64 {
        assert_eq!(luma[unzig[k]], q.luma_quant[k] as u16);
    }
    assert_eq!(hdr.scan_components.len(), 3);
    assert_eq!(hdr.scan_components[2].dc_table_id, 1);
    assert!(hdr.dc_huffman_tables[1].is_some() && hdr.ac_huffman_tables[1].is_some());
    assert!(hdr.dc_huffman_tables[2].is_none());
}

#[test]
fn jpeg_header_runs_from_soi_to_scan_header() {
    let data = [0u8; 3];
    let req = EncodingRequest::new(300, 2, ColorType::Rgb, true, 50, &data);
    let q = req.build_quant_tables();
    let h = req.write_header(&q);
    assert_eq!(h.len(), 154 + 439 + 14);
    assert_eq!(&h[0..4], &[0xFF, 0xD8, 0xFF, 0xE0]);
    assert_eq!(&h[154..163], &[0xFF, 0xC0, 0x00, 0x11, 0x08, 0x00, 0x02, 0x01, 0x2C]);
    assert_eq!(h[165], 0x22);
    assert_eq!(&h[593..597], &[0xFF, 0xDA, 0x00, 0x0C]);
}
