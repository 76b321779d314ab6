# pictor

Encoding and decoding of PNG, QOI and baseline JPEG images, with the
byte-level codecs verified in Verus.

## Layout

- `src/` — the verified library.
  - PNG: `png_write`, `png_write_filter`, `png_filter`, `png_deflate`
    (zlib through `flate2`), `png_read`, `png_read_filter`, `crc`;
    `fixed_deflate` is a self-contained zlib writer with one fixed-Huffman
    block.
  - QOI: `qoi`, `qoi_tags`, `qoi_write`, `qoi_read`.
  - JPEG: `jpeg_read` (header segments), `jpeg_entropy` (bit reader and
    block decoding), `jpeg_planes` (component planes and sampling),
    `jpeg_write` (quantization tables, Huffman tables, bit writer, headers).
  - Shared: `bytes`, `color_type`, `samples`, `error`, `load`, `image`.
  - Laws: `png_filter_laws`, `png_laws`, `qoi_laws`, `jpeg_laws`,
    `jpeg_entropy_laws`.
- `app/` — I/O, threads, and the floating-point parts of JPEG (DCT,
  inverse DCT, color conversion), which call into the library.
- `tests/` — tests of the library on concrete images and streams.

## What is proved

Each public function states its result over specifications written on
`Seq<u8>` and other mathematical values. Beyond the single functions:

- PNG: the decoder reads back the encoder's file (header, chunk framing,
  and the rows after unfiltering, bottom-up when flipped) for every forced
  filter and for the filter the encoder picks per row, at 8 and 16 bits;
  padding after each input row (a stride longer than the row) is skipped.
  The decoder's chunk rules (order of `IDAT`, `PLTE`, `tRNS`, `IEND`, and
  CRCs) are stated, and its result is fixed for every stream, given what
  the zlib decoder yields for the image data.
- QOI: the decoder reads back the encoder's stream for every image, runs
  and alpha included: RGB and RGBA input byte for byte, gray input
  expanded to RGB and gray with alpha to RGBA.
- JPEG: the decoder reads back the header segments the encoder writes, and
  decodes the entropy-coded bits of every block back to its coefficients
  for Huffman tables that fit, such as the standard ones.
- Fixed-Huffman zlib: the bytes written are fixed by a specification of
  the match finder (hash chains trimmed by the quality setting, one byte of
  lazy look-ahead), and the tokens expand exactly to the input.
