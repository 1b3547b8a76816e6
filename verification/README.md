# bmp

A BMP parser, validator, decoder and encoder with an image transform
library, written in Verus: the format logic carries machine-checked
contracts.

## Layout

- `src/raw` — file and DIB headers (CORE, INFO, V4, V5), color masks,
  color tables, a bounded byte stream, structural parsing from bytes,
  validation against the specification, and serialization.
  `raw::roundtrip` proves that a valid BMP, written out, reads back as
  itself, for color tables of at most 65536 entries and, in V5 bitmaps,
  an ICC profile that does not overlap pixel bytes that differ from it.
- `src/runtime` — decoding to RGBA (uncompressed, bitfields, RLE4/RLE8),
  encoding in every supported pixel format and header version, Wu color
  quantization, and the proofs about them: every encoded bitmap validates
  (`conformance`), 24/32-bit formats decode back to the image made opaque
  (`lossless`), palette and RLE formats decode to the image's
  quantization (`indexed`, `rle`). The quantization is a function of the
  pixels' colors, and keeps pixels of different bins apart whenever the
  occupied bins fit the palette.
- `src/runtime/transform` — quarter turns, mirrors, crop, translate,
  invert, brightness, convolution (exact 2-D and separable two-pass),
  LSB steganography, the transform model and pipeline, the replay
  checkpoint policy and cache, and the operations' display labels.
- `app` — ordinary Rust around the library: error types with messages,
  the floating-point transforms (arbitrary rotation, resize, skew,
  grayscale, sepia, contrast), floating-point views of the fixed-point
  header fields, row-parallel execution with rayon, pipeline replay, and
  file input and output.
- `tests` — tests of the library on concrete values.

Little-endian field access goes through the `byteorder` crate behind
small wrappers in `raw::le`, whose contracts are the only trusted items.
