use std::io::Read;

use flate2::read::ZlibDecoder;
use pictor::fixed_deflate::{compress_fixed, zhash, zlib_bitrev, zlib_count_match};

fn inflate(stream: &[u8]) -> Vec<u8> {
    let mut out = Vec::new();
    ZlibDecoder::new(stream).read_to_end(&mut out).expect("valid zlib stream");
    out
}

#[test]
fn fixed_stream_round_trips_repetitive_data() {
    let data: Vec<u8> = (0..5000).map(|i| (i % 13) as u8).collect();
    let out = compress_fixed(5, &data);
    assert_eq!(&out[..2], &[0x78, 0x5e]);
    assert!(out.len() < data.len() / 4);
    assert_eq!(inflate(&out), data);
}

#[test]
fn fixed_stream_round_trips_long_runs_and_high_bytes() {
    let mut data = vec![200u8; 40000];
    data.extend((0..3000).map(|i| ((i * 7919) % 256) as u8));
    data.extend(vec![0u8; 1000]);
    for quality in [1u8, 3, 8] {
        let out = compress_fixed(quality, &data);
        assert_eq!(inflate(&out), data);
    }
}

#[test]
fn incompressible_data_falls_back_to_stored_blocks() {
    let mut x: u32 = 12345;
    let data: Vec<u8> = (0..70000)
        .map(|_| {
            x = x.wrapping_mul(1103515245).wrapping_add(12345);
            (x >> 16) as u8
        })
        .collect();
    let out = compress_fixed(5, &data);
    // header, three stored blocks of 5 header bytes each, the data, the checksum
    assert_eq!(out.len(), 2 + 3 * 5 + data.len() + 4);
    assert_eq!(&out[2..7], &[0, 0xff, 0x7f, 0x00, 0x80]);
    assert_eq!(out[2 + 2 * (5 + 32767)], 1);
    assert_eq!(inflate(&out), data);
}

#[test]
fn checksum_is_adler32() {
    let out = compress_fixed(5, b"Wikipedia");
    assert_eq!(&out[out.len() - 4..], &[0x11, 0xe6, 0x03, 0x98]);
    assert_eq!(inflate(&out), b"Wikipedia");
}

#[test]
fn three_byte_input_is_all_literals() {
    let out = compress_fixed(1, &[1, 2, 3]);
    assert_eq!(inflate(&out), vec![1, 2, 3]);
}

#[test]
fn bit_reversal_and_match_counting() {
    assert_eq!(zlib_bitrev(0b00110, 5), 0b01100);
    assert_eq!(zlib_bitrev(1, 7), 0b1000000);
    assert_eq!(zlib_bitrev(0x30, 8), 0x0c);
    assert_eq!(zlib_count_match(&[1, 2, 3, 4], &[1, 2, 9], 10), 2);
    assert_eq!(zlib_count_match(&[5; 300], &[5; 300], 1000), 258);
    assert_eq!(zlib_count_match(&[5; 10], &[5; 10], 4), 4);
}

#[test]
fn hash_depends_on_all_three_bytes() {
    let a = zhash(&[1, 2, 3]);
    assert_ne!(a, zhash(&[1, 2, 4]));
    assert_ne!(a, zhash(&[0, 2, 3]));
    assert_eq!(a, zhash(&[1, 2, 3, 99]));
}

#[test]
fn fixed_stream_takes_the_match_the_finder_finds() {
    // Literals 1, 2, 3, a match of 4 bytes at distance 3, end of block.
    let out = compress_fixed(5, &[1u8, 2, 3, 1, 2, 3, 1]);
    assert_eq!(out, vec![0x78, 0x5E, 0x63, 0x64, 0x62, 0x06, 0x21, 0x00, 0x00, 0x3A, 0x00, 0x0E]);
}
