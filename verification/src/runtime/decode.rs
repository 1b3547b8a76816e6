//! Decoding of parsed BMP images into packed RGBA pixels.
use vstd::prelude::*;
use vstd::std_specs::bits::axiom_u32_trailing_zeros;
use crate::raw::bmp::Bmp;
use crate::raw::headers::{spec_unsigned_abs, unsigned_abs};
use crate::raw::le::{spec_u16_at, spec_u16_from, spec_u32_at, spec_u32_from};
use vstd::arithmetic::div_mod::lemma_fundamental_div_mod_converse;
use crate::raw::masks::{RgbMasks, RgbaMasks};
use crate::raw::types::{BitsPerPixel, Compression, RgbQuad, RgbTriple};

verus! {

/// A decoded image: `width * height` pixels in row-major, top-down order,
/// four bytes (red, green, blue, alpha) per pixel.
#[derive(Debug, Clone)]
pub struct DecodedImage {
    pub width: u32,
    pub height: u32,
    pub rgba: Vec<u8>,
}

/// Reasons why a buffer cannot form an image.
#[derive(Debug, Clone, Copy, PartialEq, Eq)]
pub enum DecodedImageError {
    /// `width * height * 4` does not fit in 64 bits.
    SizeOverflow { width: u32, height: u32 },
    /// The buffer does not hold `width * height * 4` bytes.
    BufferSizeMismatch { expected: u64, actual: usize },
}

/// The decoder a compression method selects.
#[derive(Debug, Clone, Copy, PartialEq, Eq, Structural)]
pub enum CompressionDecoder {
    Rgb,
    Rle4,
    Rle8,
    BitFields,
    Other(u32),
}

/// Reasons why a parsed BMP cannot be decoded.
#[derive(Debug, Clone, Copy, PartialEq, Eq)]
pub enum DecodeError {
    /// The compression method has no decoder.
    UnsupportedCompression(CompressionDecoder),
    /// The width is not positive or the height is zero.
    InvalidDimensions { width: i32, height: i32 },
    /// The pixel data is shorter than the uncompressed layout needs.
    PixelBufferTooSmall { required: usize, actual: usize },
    /// A palette index refers past the end of the palette.
    PaletteIndexOutOfRange { x: usize, y: usize, index: usize, palette_len: usize },
    /// The RLE stream is malformed.
    InvalidRle(&'static str),
    /// An RLE operation moved outside the image.
    RleOutOfBounds,
    /// `BI_BITFIELDS` without masks at a depth that has no default masks.
    MissingBitfieldMasks,
    /// `BI_BITFIELDS` at a depth other than 16 or 32 bits.
    InvalidBitfieldsBpp(BitsPerPixel),
    /// Uncompressed pixels at an unsupported depth.
    UnsupportedBitsPerPixel(BitsPerPixel),
    /// A size computation overflowed.
    ArithmeticOverflow(&'static str),
    /// The decoded RGBA buffer would exceed the safety limit.
    DecodedImageTooLarge { decoded_size: usize, max_allowed: usize },
}

/// Largest RGBA buffer the decoder will allocate (512 MiB).
pub const MAX_DECODED_RGBA_BYTES: usize = 536870912;

impl DecodedImage {
    /// The number of bytes an image of these dimensions holds.
    pub open spec fn spec_len_for(width: u32, height: u32) -> int {
        width as int * height as int * 4
    }

    /// Whether the buffer length matches the dimensions.
    pub open spec fn spec_well_formed(&self) -> bool {
        self.rgba@.len() == Self::spec_len_for(self.width, self.height)
    }

    /// Builds an image; fails unless `rgba` holds exactly
    /// `width * height * 4` bytes.
    pub fn new(width: u32, height: u32, rgba: Vec<u8>) -> (r: Result<DecodedImage, DecodedImageError>)
        ensures
            match r {
                Ok(img) => Self::spec_len_for(width, height) == rgba@.len() && img.width == width
                    && img.height == height && img.rgba@ == rgba@,
                Err(e) => Self::spec_len_for(width, height) != rgba@.len() && match e {
                    DecodedImageError::SizeOverflow { width: w, height: h } => w == width && h == height
                        && Self::spec_len_for(width, height) > u64::MAX,
                    DecodedImageError::BufferSizeMismatch { expected, actual } => expected
                        == Self::spec_len_for(width, height) && actual == rgba@.len(),
                },
            },
    {
        let w = width as u64;
        let h = height as u64;
        assert(w * h <= 0xFFFF_FFFF * 0xFFFF_FFFFu64) by (nonlinear_arith)
            requires
                w <= 0xFFFF_FFFF,
                h <= 0xFFFF_FFFF,
        ;
        let pixels: u64 = w * h;
        let len = rgba.len();
        match pixels.checked_mul(4) {
            Some(n) => {
                if n == len as u64 {
                    assert(n == Self::spec_len_for(width, height));
                    assert(rgba@.len() == n);
                    Ok(DecodedImage { width, height, rgba })
                } else {
                    Err(DecodedImageError::BufferSizeMismatch { expected: n, actual: len })
                }
            },
            None => Err(DecodedImageError::SizeOverflow { width, height }),
        }
    }

    /// Width in pixels.
    pub fn width(&self) -> (r: u32)
        ensures
            r == self.width,
    {
        self.width
    }

    /// Height in pixels.
    pub fn height(&self) -> (r: u32)
        ensures
            r == self.height,
    {
        self.height
    }

    /// `(width, height)`.
    pub fn dimensions(&self) -> (r: (u32, u32))
        ensures
            r == (self.width, self.height),
    {
        (self.width, self.height)
    }

    /// The packed RGBA bytes.
    pub fn rgba(&self) -> (r: &[u8])
        ensures
            r@ == self.rgba@,
    {
        self.rgba.as_slice()
    }

    /// The number of complete pixels held in the buffer (for a well-formed
    /// image, `width * height`).
    pub fn pixel_count(&self) -> (r: usize)
        ensures
            r == self.rgba@.len() / 4,
            self.spec_well_formed() ==> r == self.width as int * self.height as int,
    {
        self.rgba.len() / 4
    }
}

/// The RGBA buffer size for `width * height` pixels, with its overflow
/// and size-limit checks.
pub open spec fn spec_rgba_output_len(width: usize, height: usize) -> Result<usize, DecodeError> {
    let pixels = width as int * height as int;
    if pixels > usize::MAX {
        Err(DecodeError::ArithmeticOverflow("pixel count"))
    } else if pixels * 4 > usize::MAX {
        Err(DecodeError::ArithmeticOverflow("RGBA output size"))
    } else if pixels * 4 > MAX_DECODED_RGBA_BYTES {
        Err(
            DecodeError::DecodedImageTooLarge {
                decoded_size: (pixels * 4) as usize,
                max_allowed: MAX_DECODED_RGBA_BYTES,
            },
        )
    } else {
        Ok((pixels * 4) as usize)
    }
}

/// Computes the RGBA buffer size for `width * height` pixels, refusing
/// overflow and buffers over [`MAX_DECODED_RGBA_BYTES`].
pub fn rgba_output_len(width: usize, height: usize) -> (r: Result<usize, DecodeError>)
    ensures
        r == spec_rgba_output_len(width, height),
{
    let pixels = match width.checked_mul(height) {
        Some(p) => p,
        None => {
            return Err(DecodeError::ArithmeticOverflow("pixel count"));
        },
    };
    let bytes = match pixels.checked_mul(4) {
        Some(b) => b,
        None => {
            return Err(DecodeError::ArithmeticOverflow("RGBA output size"));
        },
    };
    if bytes > MAX_DECODED_RGBA_BYTES {
        return Err(
            DecodeError::DecodedImageTooLarge { decoded_size: bytes, max_allowed: MAX_DECODED_RGBA_BYTES },
        );
    }
    Ok(bytes)
}

/// The padded row size in bytes, with its overflow checks.
pub open spec fn spec_row_stride(width: usize, bits: u16) -> Result<usize, DecodeError> {
    let bits_per_row = width as int * bits as int;
    if bits_per_row > usize::MAX {
        Err(DecodeError::ArithmeticOverflow("bits per row"))
    } else if bits_per_row + 31 > usize::MAX {
        Err(DecodeError::ArithmeticOverflow("row padding"))
    } else {
        Ok((((bits_per_row + 31) / 32) * 4) as usize)
    }
}

/// Computes the size of a row padded to a multiple of four bytes.
pub fn row_stride(width: usize, bits_per_pixel: u16) -> (r: Result<usize, DecodeError>)
    ensures
        r == spec_row_stride(width, bits_per_pixel),
{
    let bits_per_row = match width.checked_mul(bits_per_pixel as usize) {
        Some(b) => b,
        None => {
            return Err(DecodeError::ArithmeticOverflow("bits per row"));
        },
    };
    let with_padding = match bits_per_row.checked_add(31) {
        Some(b) => b,
        None => {
            return Err(DecodeError::ArithmeticOverflow("row padding"));
        },
    };
    Ok((with_padding / 32) * 4)
}

/// A 5-bit channel scaled to 8 bits.
pub open spec fn spec_scale5(v: u16) -> u8 {
    ((v & 0x1f) as int * 255 / 31) as u8
}

/// The RGBA color of an RGB555 pixel.
pub open spec fn spec_rgb555(px: u16) -> Seq<u8> {
    seq![spec_scale5(px >> 10u16), spec_scale5(px >> 5u16), spec_scale5(px), 255u8]
}

/// Expands an RGB555 pixel to opaque RGBA.
pub fn rgb555_to_rgba(px: u16) -> (r: [u8; 4])
    ensures
        r@ == spec_rgb555(px),
{
    let rv = (px >> 10) & 0x1f;
    let gv = (px >> 5) & 0x1f;
    let bv = px & 0x1f;
    assert(rv <= 31 && gv <= 31 && bv <= 31) by (bit_vector)
        requires
            rv == (px >> 10u16) & 0x1f,
            gv == (px >> 5u16) & 0x1f,
            bv == px & 0x1f,
    ;
    let r = [(rv * 255 / 31) as u8, (gv * 255 / 31) as u8, (bv * 255 / 31) as u8, 255];
    assert(r@ =~= spec_rgb555(px));
    r
}

/// Whether a channel mask can be scaled to 8 bits: zero, or a contiguous
/// run of at most 8 set bits.
pub open spec fn spec_mask_decodable(mask: u32) -> bool {
    mask == 0 || {
        let m = mask >> mask.trailing_zeros();
        m == 1 || m == 3 || m == 7 || m == 15 || m == 31 || m == 63 || m == 127 || m == 255
    }
}

/// The channel selected by `mask` in `px`, right-aligned and scaled
/// linearly to `0..=255`; zero for a zero mask.
pub open spec fn spec_scale_masked_channel(px: u32, mask: u32) -> u8 {
    if mask == 0 {
        0
    } else {
        let shift = mask.trailing_zeros();
        (((px & mask) >> shift) as int * 255 / (mask >> shift) as int) as u8
    }
}

/// Extracts the channel selected by `mask` from `px` and scales it
/// linearly to `0..=255`; returns 0 for a zero mask.
pub fn scale_masked_channel(px: u32, mask: u32) -> (r: u8)
    requires
        spec_mask_decodable(mask),
    ensures
        r == spec_scale_masked_channel(px, mask),
{
    if mask == 0 {
        return 0;
    }
    proof {
        axiom_u32_trailing_zeros(mask);
    }
    let shift = mask.trailing_zeros();
    let raw: u32 = (px & mask) >> shift;
    let max: u32 = mask >> shift;
    assert(raw <= max) by (bit_vector)
        requires
            raw == (px & mask) >> shift,
            max == mask >> shift,
    ;
    assert(raw as int * 255 / max as int <= 255) by (nonlinear_arith)
        requires
            raw <= max,
            1 <= max <= 255,
    ;
    ((raw * 255) / max) as u8
}

/// The `u16` with little-endian bytes `b0, b1`.
fn u16_from_le(b0: u8, b1: u8) -> (r: u16)
    ensures
        r == spec_u16_from(b0, b1),
{
    ((b1 as u16) << 8u16) | (b0 as u16)
}

/// The `u32` with little-endian bytes `b0, b1, b2, b3`.
fn u32_from_le(b0: u8, b1: u8, b2: u8, b3: u8) -> (r: u32)
    ensures
        r == spec_u32_from(b0, b1, b2, b3),
{
    ((b3 as u32) << 24u32) | ((b2 as u32) << 16u32) | ((b1 as u32) << 8u32) | (b0 as u32)
}

/// The source row of output row `y`: rows are stored bottom-up unless the
/// image is top-down.
pub open spec fn spec_src_row(y: int, height: int, top_down: bool) -> int {
    if top_down {
        y
    } else {
        height - 1 - y
    }
}

/// Whether `bpp` is an indexed (palette) depth.
pub open spec fn spec_is_indexed(bpp: BitsPerPixel) -> bool {
    bpp == BitsPerPixel::Bpp1 || bpp == BitsPerPixel::Bpp4 || bpp == BitsPerPixel::Bpp8
}

/// Whether `bpp` is a direct-color depth.
pub open spec fn spec_is_direct(bpp: BitsPerPixel) -> bool {
    bpp == BitsPerPixel::Bpp16 || bpp == BitsPerPixel::Bpp24 || bpp == BitsPerPixel::Bpp32
}

/// The palette index of pixel `x` of an indexed row that starts at `row`:
/// 1-bit indices are packed most significant bit first, 4-bit indices high
/// nibble first.
pub open spec fn spec_index_at(data: Seq<u8>, bpp: BitsPerPixel, row: int, x: int) -> int {
    match bpp {
        BitsPerPixel::Bpp1 => ((data[row + x / 8] >> ((7 - x % 8) as u8)) & 1u8) as int,
        BitsPerPixel::Bpp4 => if x % 2 == 0 {
            (data[row + x / 2] >> 4u8) as int
        } else {
            (data[row + x / 2] & 0x0fu8) as int
        },
        _ => data[row + x] as int,
    }
}

/// The first pixel at or after `x` of an indexed row whose index is not
/// below `pal_len`.
pub open spec fn spec_first_bad_in_row(
    data: Seq<u8>,
    bpp: BitsPerPixel,
    row: int,
    width: int,
    pal_len: int,
    x: int,
) -> Option<int>
    decreases width - x,
{
    if x >= width {
        None
    } else if spec_index_at(data, bpp, row, x) >= pal_len {
        Some(x)
    } else {
        spec_first_bad_in_row(data, bpp, row, width, pal_len, x + 1)
    }
}

/// The first pixel `(x, y)` in output scan order, from row `y` on, whose
/// palette index is out of range.
pub open spec fn spec_first_bad_index(
    data: Seq<u8>,
    bpp: BitsPerPixel,
    stride: int,
    width: int,
    height: int,
    top_down: bool,
    pal_len: int,
    y: int,
) -> Option<(int, int)>
    decreases height - y,
{
    if y >= height {
        None
    } else {
        match spec_first_bad_in_row(data, bpp, spec_src_row(y, height, top_down) * stride, width, pal_len, 0) {
            Some(x) => Some((x, y)),
            None => spec_first_bad_index(data, bpp, stride, width, height, top_down, pal_len, y + 1),
        }
    }
}

/// The RGBA color of pixel `x` of an uncompressed row starting at `row`.
pub open spec fn spec_rgb_color(data: Seq<u8>, bpp: BitsPerPixel, row: int, palette: Seq<[u8; 4]>, x: int) -> Seq<
    u8,
> {
    match bpp {
        BitsPerPixel::Bpp16 => spec_rgb555(spec_u16_at(data, row + 2 * x)),
        BitsPerPixel::Bpp24 => seq![data[row + 3 * x + 2], data[row + 3 * x + 1], data[row + 3 * x], 255u8],
        BitsPerPixel::Bpp32 => seq![data[row + 4 * x + 2], data[row + 4 * x + 1], data[row + 4 * x], 255u8],
        _ => palette[spec_index_at(data, bpp, row, x)]@,
    }
}

/// Byte `i` of a decoded uncompressed image.
pub open spec fn spec_rgb_byte(
    data: Seq<u8>,
    bpp: BitsPerPixel,
    stride: int,
    width: int,
    height: int,
    top_down: bool,
    palette: Seq<[u8; 4]>,
    i: int,
) -> u8 {
    let p = i / 4;
    spec_rgb_color(data, bpp, spec_src_row(p / width, height, top_down) * stride, palette, p % width)[i % 4]
}

/// Whether the first `n` bytes of `out` are those of the decoded image.
pub open spec fn spec_rgb_prefix(
    out: Seq<u8>,
    data: Seq<u8>,
    bpp: BitsPerPixel,
    stride: int,
    width: int,
    height: int,
    top_down: bool,
    palette: Seq<[u8; 4]>,
    n: int,
) -> bool {
    forall|i: int|
        0 <= i < n ==> #[trigger] out[i] == spec_rgb_byte(data, bpp, stride, width, height, top_down, palette, i)
}

/// The outcome of decoding uncompressed pixel data.
pub open spec fn spec_decode_rgb(
    data: Seq<u8>,
    width: usize,
    height: usize,
    top_down: bool,
    bpp: BitsPerPixel,
    palette: Seq<[u8; 4]>,
) -> Result<Seq<u8>, DecodeError> {
    match spec_row_stride(width, bpp.spec_bit_count()) {
        Err(e) => Err(e),
        Ok(stride) => {
            let required = stride as int * height as int;
            if required > usize::MAX {
                Err(DecodeError::ArithmeticOverflow("required pixel data size"))
            } else if data.len() < required {
                Err(DecodeError::PixelBufferTooSmall { required: required as usize, actual: data.len() as usize })
            } else {
                match spec_rgba_output_len(width, height) {
                    Err(e) => Err(e),
                    Ok(n) => if height > 0 && !spec_is_indexed(bpp) && !spec_is_direct(bpp) {
                        Err(DecodeError::UnsupportedBitsPerPixel(bpp))
                    } else if spec_is_indexed(bpp) && spec_first_bad_index(
                        data,
                        bpp,
                        stride as int,
                        width as int,
                        height as int,
                        top_down,
                        palette.len() as int,
                        0,
                    ) is Some {
                        let (x, y) = spec_first_bad_index(
                            data,
                            bpp,
                            stride as int,
                            width as int,
                            height as int,
                            top_down,
                            palette.len() as int,
                            0,
                        )->0;
                        Err(
                            DecodeError::PaletteIndexOutOfRange {
                                x: x as usize,
                                y: y as usize,
                                index: spec_index_at(
                                    data,
                                    bpp,
                                    spec_src_row(y, height as int, top_down) * stride,
                                    x,
                                ) as usize,
                                palette_len: palette.len() as usize,
                            },
                        )
                    } else {
                        Ok(
                            Seq::new(
                                n as nat,
                                |i: int|
                                    spec_rgb_byte(
                                        data,
                                        bpp,
                                        stride as int,
                                        width as int,
                                        height as int,
                                        top_down,
                                        palette,
                                        i,
                                    ),
                            ),
                        )
                    },
                }
            }
        },
    }
}

/// A decode result with the buffer taken by its view.
pub open spec fn spec_view_result(r: Result<Vec<u8>, DecodeError>) -> Result<Seq<u8>, DecodeError> {
    match r {
        Ok(v) => Ok(v@),
        Err(e) => Err(e),
    }
}

/// Pixel `(x, y)` of a `width * height` image lies inside it.
pub(crate) proof fn lemma_pixel_bounds(width: int, height: int, x: int, y: int)
    requires
        0 <= x < width,
        0 <= y < height,
    ensures
        0 <= y * width + x,
        y * width + x + 1 <= width * height,
        y * width + width == (y + 1) * width,
{
    assert(y * width + x + 1 <= width * height) by (nonlinear_arith)
        requires
            0 <= x < width,
            0 <= y < height,
    ;
    assert(0 <= y * width) by (nonlinear_arith)
        requires
            0 <= x < width,
            0 <= y,
    ;
    assert(y * width + width == (y + 1) * width) by (nonlinear_arith);
}

/// Row `y` of `height` rows of `stride` bytes lies inside them.
pub(crate) proof fn lemma_row_bounds(height: int, stride: int, y: int)
    requires
        0 <= y < height,
        0 <= stride,
    ensures
        0 <= y * stride,
        y * stride + stride <= height * stride,
        stride * height == height * stride,
{
    assert(stride * height == height * stride) by (nonlinear_arith);
    assert(0 <= y * stride && y * stride + stride <= height * stride) by (nonlinear_arith)
        requires
            0 <= y < height,
            0 <= stride,
    ;
}

/// The bytes of pixel `x` at depth `bits` lie inside a padded row of a
/// `width`-pixel image.
pub(crate) proof fn lemma_stride_covers(width: int, bits: int, stride: int, x: int)
    requires
        0 <= x < width,
        bits == 1 || bits == 4 || bits == 8 || bits == 16 || bits == 24 || bits == 32,
        stride == ((width * bits + 31) / 32) * 4,
    ensures
        bits == 1 ==> x / 8 < stride,
        bits == 4 ==> x / 2 < stride,
        bits == 8 ==> x < stride,
        bits == 16 ==> 2 * x + 2 <= stride,
        bits == 24 ==> 3 * x + 3 <= stride,
        bits == 32 ==> 4 * x + 4 <= stride,
{
    if bits == 1 {
        assert(x / 8 < ((width * 1 + 31) / 32) * 4);
    } else if bits == 4 {
        assert(x / 2 < ((width * 4 + 31) / 32) * 4);
    } else if bits == 8 {
        assert(x < ((width * 8 + 31) / 32) * 4);
    } else if bits == 16 {
        assert(2 * x + 2 <= ((width * 16 + 31) / 32) * 4);
    } else if bits == 24 {
        assert(3 * x + 3 <= ((width * 24 + 31) / 32) * 4);
    } else {
        assert(4 * x + 4 <= ((width * 32 + 31) / 32) * 4);
    }
}

/// Writes the four bytes of `c` at `dst`.
fn put_pixel(out: &mut Vec<u8>, dst: usize, c: [u8; 4])
    requires
        dst + 4 <= old(out)@.len(),
    ensures
        final(out)@.len() == old(out)@.len(),
        forall|i: int|
            0 <= i < old(out)@.len() ==> #[trigger] final(out)@[i] == if dst <= i < dst + 4 {
                c@[i - dst]
            } else {
                old(out)@[i]
            },
{
    let _n = out.len();
    out.set(dst, c[0]);
    out.set(dst + 1, c[1]);
    out.set(dst + 2, c[2]);
    out.set(dst + 3, c[3]);
}

/// Decodes output row `y` of an indexed image whose source row starts at
/// `row`.
fn decode_indexed_row(
    bpp: BitsPerPixel,
    data: &[u8],
    row: usize,
    stride: usize,
    y: usize,
    width: usize,
    height: usize,
    top_down: bool,
    palette: &[[u8; 4]],
    out: &mut Vec<u8>,
) -> (r: Result<(), DecodeError>)
    requires
        spec_is_indexed(bpp),
        spec_row_stride(width, bpp.spec_bit_count()) == Ok::<usize, DecodeError>(stride),
        y < height,
        row == spec_src_row(y as int, height as int, top_down) * stride,
        row + stride <= data@.len(),
        old(out)@.len() == width * height * 4,
        spec_rgb_prefix(old(out)@, data@, bpp, stride as int, width as int, height as int, top_down, palette@, y * width * 4),
    ensures
        final(out)@.len() == old(out)@.len(),
        match r {
            Ok(()) => spec_first_bad_in_row(data@, bpp, row as int, width as int, palette@.len() as int, 0) is None
                && spec_rgb_prefix(final(out)@, data@, bpp, stride as int, width as int, height as int, top_down, palette@, (y + 1) * width * 4),
            Err(e) => spec_first_bad_in_row(data@, bpp, row as int, width as int, palette@.len() as int, 0) is Some
                && e == DecodeError::PaletteIndexOutOfRange {
                    x: spec_first_bad_in_row(data@, bpp, row as int, width as int, palette@.len() as int, 0)->0 as usize,
                    y: y,
                    index: spec_index_at(data@, bpp, row as int, spec_first_bad_in_row(data@, bpp, row as int, width as int, palette@.len() as int, 0)->0) as usize,
                    palette_len: palette@.len() as usize,
                },
        },
{
    let ghost bits = bpp.spec_bit_count() as int;
    let dlen = data.len();
    let olen = out.len();
    let mut x: usize = 0;
    while x < width
        invariant
            dlen == data@.len(),
            olen == out@.len(),
            out@.len() == old(out)@.len(),
            spec_is_indexed(bpp),
            spec_row_stride(width, bpp.spec_bit_count()) == Ok::<usize, DecodeError>(stride),
            bits == bpp.spec_bit_count(),
            y < height,
            x <= width,
            row == spec_src_row(y as int, height as int, top_down) * stride,
            row + stride <= data@.len(),
            out@.len() == width * height * 4,
            spec_rgb_prefix(out@, data@, bpp, stride as int, width as int, height as int, top_down, palette@, (y * width + x) * 4),
            spec_first_bad_in_row(data@, bpp, row as int, width as int, palette@.len() as int, 0)
                == spec_first_bad_in_row(data@, bpp, row as int, width as int, palette@.len() as int, x as int),
        decreases width - x,
    {
        proof {
            lemma_stride_covers(width as int, bits, stride as int, x as int);
            lemma_pixel_bounds(width as int, height as int, x as int, y as int);
        }
        let idx: usize = match bpp {
            BitsPerPixel::Bpp1 => {
                let byte = data[row + x / 8];
                let bit = (7 - (x % 8)) as u8;
                ((byte >> bit) & 1) as usize
            },
            BitsPerPixel::Bpp4 => {
                let byte = data[row + x / 2];
                if x % 2 == 0 {
                    (byte >> 4) as usize
                } else {
                    (byte & 0x0f) as usize
                }
            },
            _ => data[row + x] as usize,
        };
        assert(idx == spec_index_at(data@, bpp, row as int, x as int));
        if idx >= palette.len() {
            return Err(
                DecodeError::PaletteIndexOutOfRange { x, y, index: idx, palette_len: palette.len() },
            );
        }
        let ghost p = y * width + x;
        let dst = (y * width + x) * 4;
        put_pixel(out, dst, palette[idx]);
        proof {
            lemma_fundamental_div_mod_converse(p, width as int, y as int, x as int);
            assert forall|i: int| 0 <= i < (p + 1) * 4 implies #[trigger] out@[i] == spec_rgb_byte(
                data@,
                bpp,
                stride as int,
                width as int,
                height as int,
                top_down,
                palette@,
                i,
            ) by {
                if i >= p * 4 {
                    assert(i / 4 == p);
                }
            }
        }
        x += 1;
    }
    assert(y * width + width == (y + 1) * width) by (nonlinear_arith);
    Ok(())
}

/// Decodes output row `y` of a direct-color image whose source row starts
/// at `row`.
fn decode_direct_row(
    bpp: BitsPerPixel,
    data: &[u8],
    row: usize,
    stride: usize,
    y: usize,
    width: usize,
    height: usize,
    top_down: bool,
    palette: &[[u8; 4]],
    out: &mut Vec<u8>,
)
    requires
        spec_is_direct(bpp),
        spec_row_stride(width, bpp.spec_bit_count()) == Ok::<usize, DecodeError>(stride),
        y < height,
        row == spec_src_row(y as int, height as int, top_down) * stride,
        row + stride <= data@.len(),
        old(out)@.len() == width * height * 4,
        spec_rgb_prefix(old(out)@, data@, bpp, stride as int, width as int, height as int, top_down, palette@, y * width * 4),
    ensures
        final(out)@.len() == old(out)@.len(),
        spec_rgb_prefix(final(out)@, data@, bpp, stride as int, width as int, height as int, top_down, palette@, (y + 1) * width * 4),
{
    let ghost bits = bpp.spec_bit_count() as int;
    let dlen = data.len();
    let olen = out.len();
    let mut x: usize = 0;
    while x < width
        invariant
            dlen == data@.len(),
            olen == out@.len(),
            spec_is_direct(bpp),
            spec_row_stride(width, bpp.spec_bit_count()) == Ok::<usize, DecodeError>(stride),
            bits == bpp.spec_bit_count(),
            y < height,
            x <= width,
            row == spec_src_row(y as int, height as int, top_down) * stride,
            row + stride <= data@.len(),
            out@.len() == width * height * 4,
            spec_rgb_prefix(out@, data@, bpp, stride as int, width as int, height as int, top_down, palette@, (y * width + x) * 4),
        decreases width - x,
    {
        proof {
            lemma_stride_covers(width as int, bits, stride as int, x as int);
            lemma_pixel_bounds(width as int, height as int, x as int, y as int);
        }
        let c: [u8; 4] = match bpp {
            BitsPerPixel::Bpp16 => {
                let i = row + x * 2;
                let px = u16_from_le(data[i], data[i + 1]);
                rgb555_to_rgba(px)
            },
            BitsPerPixel::Bpp24 => {
                let i = row + x * 3;
                [data[i + 2], data[i + 1], data[i], 255]
            },
            _ => {
                let i = row + x * 4;
                [data[i + 2], data[i + 1], data[i], 255]
            },
        };
        assert(c@ =~= spec_rgb_color(data@, bpp, row as int, palette@, x as int));
        let ghost p = y * width + x;
        let dst = (y * width + x) * 4;
        put_pixel(out, dst, c);
        proof {
            lemma_fundamental_div_mod_converse(p, width as int, y as int, x as int);
            assert forall|i: int| 0 <= i < (p + 1) * 4 implies #[trigger] out@[i] == spec_rgb_byte(
                data@,
                bpp,
                stride as int,
                width as int,
                height as int,
                top_down,
                palette@,
                i,
            ) by {
                if i >= p * 4 {
                    assert(i / 4 == p);
                }
            }
        }
        x += 1;
    }
    assert(y * width + width == (y + 1) * width) by (nonlinear_arith);
}

/// Decodes uncompressed (`BI_RGB`) pixel data at 1, 4, 8, 16, 24 or 32
/// bits per pixel into top-down RGBA.
fn decode_rgb_pixels(
    pixel_data: &[u8],
    width: usize,
    height: usize,
    top_down: bool,
    bpp: BitsPerPixel,
    palette: &[[u8; 4]],
) -> (r: Result<Vec<u8>, DecodeError>)
    ensures
        spec_view_result(r) == spec_decode_rgb(pixel_data@, width, height, top_down, bpp, palette@),
{
    let stride = match row_stride(width, bpp.bit_count()) {
        Ok(s) => s,
        Err(e) => {
            return Err(e);
        },
    };
    let required = match stride.checked_mul(height) {
        Some(r) => r,
        None => {
            return Err(DecodeError::ArithmeticOverflow("required pixel data size"));
        },
    };
    if pixel_data.len() < required {
        return Err(DecodeError::PixelBufferTooSmall { required, actual: pixel_data.len() });
    }
    let n = match rgba_output_len(width, height) {
        Ok(n) => n,
        Err(e) => {
            return Err(e);
        },
    };
    let mut out: Vec<u8> = vec![0u8; n];
    let ghost pal_len = palette@.len() as int;
    let mut y_out: usize = 0;
    while y_out < height
        invariant
            spec_row_stride(width, bpp.spec_bit_count()) == Ok::<usize, DecodeError>(stride),
            required == stride * height,
            required <= pixel_data@.len(),
            spec_rgba_output_len(width, height) == Ok::<usize, DecodeError>(n),
            n == width * height * 4,
            pal_len == palette@.len(),
            y_out <= height,
            out@.len() == n,
            spec_rgb_prefix(out@, pixel_data@, bpp, stride as int, width as int, height as int, top_down, palette@, y_out * width * 4),
            spec_is_indexed(bpp) ==> spec_first_bad_index(pixel_data@, bpp, stride as int, width as int, height as int, top_down, pal_len, 0)
                == spec_first_bad_index(pixel_data@, bpp, stride as int, width as int, height as int, top_down, pal_len, y_out as int),
            y_out > 0 ==> spec_is_indexed(bpp) || spec_is_direct(bpp),
        decreases height - y_out,
    {
        let y_src = if top_down {
            y_out
        } else {
            height - 1 - y_out
        };
        proof {
            lemma_row_bounds(height as int, stride as int, y_src as int);
        }
        let row_start = y_src * stride;
        match bpp {
            BitsPerPixel::Bpp1 | BitsPerPixel::Bpp4 | BitsPerPixel::Bpp8 => {
                match decode_indexed_row(bpp, pixel_data, row_start, stride, y_out, width, height, top_down, palette, &mut out) {
                    Ok(()) => {},
                    Err(e) => {
                        return Err(e);
                    },
                }
            },
            BitsPerPixel::Bpp16 | BitsPerPixel::Bpp24 | BitsPerPixel::Bpp32 => {
                decode_direct_row(bpp, pixel_data, row_start, stride, y_out, width, height, top_down, palette, &mut out);
            },
            _ => {
                return Err(DecodeError::UnsupportedBitsPerPixel(bpp));
            },
        }
        y_out += 1;
    }
    assert(height * width * 4 == n) by (nonlinear_arith)
        requires
            n == width * height * 4,
    ;
    assert(out@ =~= Seq::new(
        n as nat,
        |i: int|
            spec_rgb_byte(
                pixel_data@,
                bpp,
                stride as int,
                width as int,
                height as int,
                top_down,
                palette@,
                i,
            ),
    ));
    Ok(out)
}

/// Whether all four masks can be scaled to 8 bits.
pub open spec fn spec_masks_decodable(masks: RgbaMasks) -> bool {
    &&& spec_mask_decodable(masks.red_mask)
    &&& spec_mask_decodable(masks.green_mask)
    &&& spec_mask_decodable(masks.blue_mask)
    &&& spec_mask_decodable(masks.alpha_mask)
}

/// The raw value of pixel `x` of a bitfields row starting at `row`.
pub open spec fn spec_bf_pixel(data: Seq<u8>, bpp: BitsPerPixel, row: int, x: int) -> u32 {
    if bpp == BitsPerPixel::Bpp16 {
        spec_u16_at(data, row + 2 * x) as u32
    } else {
        spec_u32_at(data, row + 4 * x)
    }
}

/// The RGBA color of a bitfields pixel; opaque when there is no alpha mask.
pub open spec fn spec_bf_color(px: u32, masks: RgbaMasks) -> Seq<u8> {
    seq![
        spec_scale_masked_channel(px, masks.red_mask),
        spec_scale_masked_channel(px, masks.green_mask),
        spec_scale_masked_channel(px, masks.blue_mask),
        if masks.alpha_mask == 0 {
            255u8
        } else {
            spec_scale_masked_channel(px, masks.alpha_mask)
        },
    ]
}

/// Byte `i` of a decoded bitfields image.
pub open spec fn spec_bf_byte(
    data: Seq<u8>,
    bpp: BitsPerPixel,
    stride: int,
    width: int,
    height: int,
    top_down: bool,
    masks: RgbaMasks,
    i: int,
) -> u8 {
    let p = i / 4;
    spec_bf_color(
        spec_bf_pixel(data, bpp, spec_src_row(p / width, height, top_down) * stride, p % width),
        masks,
    )[i % 4]
}

/// Whether the first `n` bytes of `out` are those of the decoded
/// bitfields image.
pub open spec fn spec_bf_prefix(
    out: Seq<u8>,
    data: Seq<u8>,
    bpp: BitsPerPixel,
    stride: int,
    width: int,
    height: int,
    top_down: bool,
    masks: RgbaMasks,
    n: int,
) -> bool {
    forall|i: int|
        0 <= i < n ==> #[trigger] out[i] == spec_bf_byte(data, bpp, stride, width, height, top_down, masks, i)
}

/// The outcome of decoding `BI_BITFIELDS` pixel data, leaving aside the
/// conversion of the pixels.
pub open spec fn spec_bitfields_layout(data: Seq<u8>, width: usize, height: usize, bpp: BitsPerPixel) -> Result<
    (usize, usize),
    DecodeError,
> {
    if bpp != BitsPerPixel::Bpp16 && bpp != BitsPerPixel::Bpp32 {
        Err(DecodeError::InvalidBitfieldsBpp(bpp))
    } else {
        match spec_row_stride(width, bpp.spec_bit_count()) {
            Err(e) => Err(e),
            Ok(stride) => {
                let required = stride as int * height as int;
                if required > usize::MAX {
                    Err(DecodeError::ArithmeticOverflow("required pixel data size"))
                } else if data.len() < required {
                    Err(
                        DecodeError::PixelBufferTooSmall {
                            required: required as usize,
                            actual: data.len() as usize,
                        },
                    )
                } else {
                    match spec_rgba_output_len(width, height) {
                        Err(e) => Err(e),
                        Ok(n) => Ok((stride, n)),
                    }
                }
            },
        }
    }
}

/// The outcome of decoding `BI_BITFIELDS` pixel data with `masks`.
pub open spec fn spec_decode_bitfields(
    data: Seq<u8>,
    width: usize,
    height: usize,
    top_down: bool,
    bpp: BitsPerPixel,
    masks: RgbaMasks,
) -> Result<Seq<u8>, DecodeError> {
    match spec_bitfields_layout(data, width, height, bpp) {
        Err(e) => Err(e),
        Ok((stride, n)) => Ok(
            Seq::new(
                n as nat,
                |i: int| spec_bf_byte(data, bpp, stride as int, width as int, height as int, top_down, masks, i),
            ),
        ),
    }
}

/// Decodes `BI_BITFIELDS` pixel data at 16 or 32 bits per pixel into
/// top-down RGBA, scaling each masked channel to 8 bits. Every mask must be
/// decodable once there are pixels to convert.
fn decode_bitfields_pixels(
    pixel_data: &[u8],
    width: usize,
    height: usize,
    top_down: bool,
    bpp: BitsPerPixel,
    masks: RgbaMasks,
) -> (r: Result<Vec<u8>, DecodeError>)
    requires
        spec_bitfields_layout(pixel_data@, width, height, bpp) is Ok && width * height > 0
            ==> spec_masks_decodable(masks),
    ensures
        spec_view_result(r) == spec_decode_bitfields(pixel_data@, width, height, top_down, bpp, masks),
{
    match bpp {
        BitsPerPixel::Bpp16 | BitsPerPixel::Bpp32 => {},
        _ => {
            return Err(DecodeError::InvalidBitfieldsBpp(bpp));
        },
    }
    let stride = match row_stride(width, bpp.bit_count()) {
        Ok(s) => s,
        Err(e) => {
            return Err(e);
        },
    };
    let required = match stride.checked_mul(height) {
        Some(r) => r,
        None => {
            return Err(DecodeError::ArithmeticOverflow("required pixel data size"));
        },
    };
    if pixel_data.len() < required {
        return Err(DecodeError::PixelBufferTooSmall { required, actual: pixel_data.len() });
    }
    let n = match rgba_output_len(width, height) {
        Ok(n) => n,
        Err(e) => {
            return Err(e);
        },
    };
    let ghost bits = bpp.spec_bit_count() as int;
    let dlen = pixel_data.len();
    let mut out: Vec<u8> = vec![0u8; n];
    let mut y_out: usize = 0;
    while y_out < height
        invariant
            dlen == pixel_data@.len(),
            bpp == BitsPerPixel::Bpp16 || bpp == BitsPerPixel::Bpp32,
            bits == bpp.spec_bit_count(),
            spec_row_stride(width, bpp.spec_bit_count()) == Ok::<usize, DecodeError>(stride),
            required == stride * height,
            required <= pixel_data@.len(),
            n == width * height * 4,
            width * height > 0 ==> spec_masks_decodable(masks),
            y_out <= height,
            out@.len() == n,
            spec_bf_prefix(out@, pixel_data@, bpp, stride as int, width as int, height as int, top_down, masks, y_out * width * 4),
        decreases height - y_out,
    {
        let y_src = if top_down {
            y_out
        } else {
            height - 1 - y_out
        };
        proof {
            lemma_row_bounds(height as int, stride as int, y_src as int);
        }
        let row = y_src * stride;
        let mut x: usize = 0;
        while x < width
            invariant
                dlen == pixel_data@.len(),
                bpp == BitsPerPixel::Bpp16 || bpp == BitsPerPixel::Bpp32,
                bits == bpp.spec_bit_count(),
                spec_row_stride(width, bpp.spec_bit_count()) == Ok::<usize, DecodeError>(stride),
                y_out < height,
                x <= width,
                row == spec_src_row(y_out as int, height as int, top_down) * stride,
                row + stride <= pixel_data@.len(),
                n == width * height * 4,
                width * height > 0 ==> spec_masks_decodable(masks),
                out@.len() == n,
                spec_bf_prefix(out@, pixel_data@, bpp, stride as int, width as int, height as int, top_down, masks, (y_out * width + x) * 4),
            decreases width - x,
        {
            proof {
                lemma_stride_covers(width as int, bits, stride as int, x as int);
                lemma_pixel_bounds(width as int, height as int, x as int, y_out as int);
            }
            let px: u32 = match bpp {
                BitsPerPixel::Bpp16 => {
                    let i = row + x * 2;
                    u16_from_le(pixel_data[i], pixel_data[i + 1]) as u32
                },
                _ => {
                    let i = row + x * 4;
                    u32_from_le(pixel_data[i], pixel_data[i + 1], pixel_data[i + 2], pixel_data[i + 3])
                },
            };
            let r = scale_masked_channel(px, masks.red_mask);
            let g = scale_masked_channel(px, masks.green_mask);
            let b = scale_masked_channel(px, masks.blue_mask);
            let a = if masks.alpha_mask == 0 {
                255
            } else {
                scale_masked_channel(px, masks.alpha_mask)
            };
            let c = [r, g, b, a];
            assert(c@ =~= spec_bf_color(spec_bf_pixel(pixel_data@, bpp, row as int, x as int), masks));
            let ghost p = y_out * width + x;
            let dst = (y_out * width + x) * 4;
            put_pixel(&mut out, dst, c);
            proof {
                lemma_fundamental_div_mod_converse(p, width as int, y_out as int, x as int);
                assert forall|i: int| 0 <= i < (p + 1) * 4 implies #[trigger] out@[i] == spec_bf_byte(
                    pixel_data@,
                    bpp,
                    stride as int,
                    width as int,
                    height as int,
                    top_down,
                    masks,
                    i,
                ) by {
                    if i >= p * 4 {
                        assert(i / 4 == p);
                    }
                }
            }
            x += 1;
        }
        assert(y_out * width + width == (y_out + 1) * width) by (nonlinear_arith);
        y_out += 1;
    }
    assert(height * width * 4 == n) by (nonlinear_arith)
        requires
            n == width * height * 4,
    ;
    assert(out@ =~= Seq::new(
        n as nat,
        |i: int|
            spec_bf_byte(pixel_data@, bpp, stride as int, width as int, height as int, top_down, masks, i),
    ));
    Ok(out)
}

/// `out` after palette entry `idx` is written at RLE position `(x, y)`,
/// or the error the writer reports.
pub open spec fn spec_rle_put(
    out: Seq<u8>,
    width: int,
    height: int,
    top_down: bool,
    palette: Seq<[u8; 4]>,
    x: int,
    y: int,
    idx: int,
) -> Result<Seq<u8>, DecodeError> {
    if x >= width || y >= height {
        Err(DecodeError::RleOutOfBounds)
    } else if idx >= palette.len() {
        Err(
            DecodeError::PaletteIndexOutOfRange {
                x: x as usize,
                y: y as usize,
                index: idx as usize,
                palette_len: palette.len() as usize,
            },
        )
    } else {
        let dst = (spec_src_row(y, height, top_down) * width + x) * 4;
        let c = palette[idx]@;
        Ok(out.update(dst, c[0]).update(dst + 1, c[1]).update(dst + 2, c[2]).update(dst + 3, c[3]))
    }
}

/// An encoded run: pixels `k..n` of a run written from `(x, y)` on, even
/// pixels with index `hi` and odd ones with index `lo`; the buffer and the
/// column after the run.
pub open spec fn spec_rle_fill(
    out: Seq<u8>,
    width: int,
    height: int,
    top_down: bool,
    palette: Seq<[u8; 4]>,
    x: int,
    y: int,
    hi: int,
    lo: int,
    k: int,
    n: int,
) -> Result<(Seq<u8>, int), DecodeError>
    decreases n - k,
{
    if k >= n {
        Ok((out, x))
    } else {
        match spec_rle_put(out, width, height, top_down, palette, x, y, if k % 2 == 0 { hi } else { lo }) {
            Err(e) => Err(e),
            Ok(o) => spec_rle_fill(o, width, height, top_down, palette, x + 1, y, hi, lo, k + 1, n),
        }
    }
}

/// The index of pixel `p` of an absolute run whose bytes start at `start`:
/// one byte per pixel, or two 4-bit indices per byte, high nibble first.
pub open spec fn spec_abs_index(data: Seq<u8>, four: bool, start: int, p: int) -> int {
    if four {
        let b = data[start + p / 2];
        if p % 2 == 0 {
            (b >> 4u8) as int
        } else {
            (b & 0x0fu8) as int
        }
    } else {
        data[start + p] as int
    }
}

/// An absolute run: pixels `p..n` written from `(x, y)` on; the buffer and
/// the column after the run.
pub open spec fn spec_rle_abs(
    out: Seq<u8>,
    width: int,
    height: int,
    top_down: bool,
    palette: Seq<[u8; 4]>,
    data: Seq<u8>,
    four: bool,
    start: int,
    x: int,
    y: int,
    p: int,
    n: int,
) -> Result<(Seq<u8>, int), DecodeError>
    decreases n - p,
{
    if p >= n {
        Ok((out, x))
    } else {
        match spec_rle_put(out, width, height, top_down, palette, x, y, spec_abs_index(data, four, start, p)) {
            Err(e) => Err(e),
            Ok(o) => spec_rle_abs(o, width, height, top_down, palette, data, four, start, x + 1, y, p + 1, n),
        }
    }
}

/// The result of decoding an RLE stream (`four`: RLE4, else RLE8) from
/// byte `i` at position `(x, y)` with buffer `out`. Each step reads a pair
/// `(count, value)`: a positive count is an encoded run; otherwise value 0
/// ends the line, 1 ends the bitmap, 2 is a delta move, and larger values
/// start an absolute run padded to an even number of bytes. A stream that
/// ends without an end-of-bitmap marker is accepted as is.
pub open spec fn spec_rle_from(
    data: Seq<u8>,
    four: bool,
    width: int,
    height: int,
    top_down: bool,
    palette: Seq<[u8; 4]>,
    i: int,
    x: int,
    y: int,
    out: Seq<u8>,
) -> Result<Seq<u8>, DecodeError>
    decreases data.len() - i,
{
    if i < 0 || i + 1 >= data.len() {
        Ok(out)
    } else {
        let count = data[i] as int;
        let value = data[i + 1];
        let j = i + 2;
        if count > 0 {
            let hi = if four {
                (value >> 4u8) as int
            } else {
                value as int
            };
            let lo = if four {
                (value & 0x0fu8) as int
            } else {
                value as int
            };
            match spec_rle_fill(out, width, height, top_down, palette, x, y, hi, lo, 0, count) {
                Err(e) => Err(e),
                Ok((o, x2)) => spec_rle_from(data, four, width, height, top_down, palette, j, x2, y, o),
            }
        } else if value == 0 {
            if y + 1 >= height {
                Ok(out)
            } else {
                spec_rle_from(data, four, width, height, top_down, palette, j, 0, y + 1, out)
            }
        } else if value == 1 {
            Ok(out)
        } else if value == 2 {
            if j + 1 >= data.len() {
                Err(DecodeError::InvalidRle("delta escape missing dx/dy"))
            } else {
                let x2 = x + data[j];
                let y2 = y + data[j + 1];
                if x2 > width || y2 >= height {
                    Err(DecodeError::RleOutOfBounds)
                } else {
                    spec_rle_from(data, four, width, height, top_down, palette, j + 2, x2, y2, out)
                }
            }
        } else {
            let n = value as int;
            let bytes = if four {
                (n + 1) / 2
            } else {
                n
            };
            if j + bytes > data.len() {
                Err(DecodeError::InvalidRle("absolute run exceeds stream"))
            } else {
                match spec_rle_abs(out, width, height, top_down, palette, data, four, j, x, y, 0, n) {
                    Err(e) => Err(e),
                    Ok((o, x2)) => {
                        let k = j + bytes;
                        if bytes % 2 == 1 {
                            if k >= data.len() {
                                Err(DecodeError::InvalidRle("absolute run pad byte missing"))
                            } else {
                                spec_rle_from(data, four, width, height, top_down, palette, k + 1, x2, y, o)
                            }
                        } else {
                            spec_rle_from(data, four, width, height, top_down, palette, k, x2, y, o)
                        }
                    },
                }
            }
        }
    }
}

/// The outcome of decoding an RLE stream into a zero-filled buffer: pixels
/// that no operation writes stay transparent black.
pub open spec fn spec_decode_rle(
    data: Seq<u8>,
    four: bool,
    width: usize,
    height: usize,
    top_down: bool,
    palette: Seq<[u8; 4]>,
) -> Result<Seq<u8>, DecodeError> {
    match spec_rgba_output_len(width, height) {
        Err(e) => Err(e),
        Ok(n) => spec_rle_from(
            data,
            four,
            width as int,
            height as int,
            top_down,
            palette,
            0,
            0,
            0,
            Seq::new(n as nat, |k: int| 0u8),
        ),
    }
}

/// Writes palette colors at RLE positions of an image.
struct IndexedPixelWriter<'a> {
    width: usize,
    height: usize,
    top_down: bool,
    palette: &'a [[u8; 4]],
}

impl IndexedPixelWriter<'_> {
    /// Writes palette entry `idx` at `(x, y)`, in stream coordinates.
    fn write(&self, out: &mut Vec<u8>, x: usize, y: usize, idx: usize) -> (r: Result<(), DecodeError>)
        requires
            old(out)@.len() == self.width * self.height * 4,
        ensures
            final(out)@.len() == old(out)@.len(),
            match (r, spec_rle_put(old(out)@, self.width as int, self.height as int, self.top_down, self.palette@, x as int, y as int, idx as int)) {
                (Ok(()), Ok(o)) => final(out)@ == o,
                (Err(a), Err(b)) => a == b && final(out)@ == old(out)@,
                _ => false,
            },
    {
        let _olen = out.len();
        if x >= self.width || y >= self.height {
            return Err(DecodeError::RleOutOfBounds);
        }
        if idx >= self.palette.len() {
            return Err(
                DecodeError::PaletteIndexOutOfRange { x, y, index: idx, palette_len: self.palette.len() },
            );
        }
        let y_out = if self.top_down {
            y
        } else {
            self.height - 1 - y
        };
        proof {
            lemma_pixel_bounds(self.width as int, self.height as int, x as int, y_out as int);
        }
        let dst = (y_out * self.width + x) * 4;
        let ghost o = old(out)@;
        let c = self.palette[idx];
        put_pixel(out, dst, c);
        assert(out@ =~= o.update(dst as int, c@[0]).update(dst + 1, c@[1]).update(dst + 2, c@[2]).update(
            dst + 3,
            c@[3],
        ));
        Ok(())
    }
}

/// Writes an encoded run of `count` pixels from `(x0, y)`: even pixels with
/// index `hi`, odd ones with `lo`. Returns the column after the run.
fn rle_fill(
    writer: &IndexedPixelWriter,
    out: &mut Vec<u8>,
    x0: usize,
    y: usize,
    hi: usize,
    lo: usize,
    count: usize,
) -> (r: Result<usize, DecodeError>)
    requires
        old(out)@.len() == writer.width * writer.height * 4,
        x0 <= writer.width,
    ensures
        final(out)@.len() == old(out)@.len(),
        match (r, spec_rle_fill(old(out)@, writer.width as int, writer.height as int, writer.top_down, writer.palette@, x0 as int, y as int, hi as int, lo as int, 0, count as int)) {
            (Ok(x2), Ok((o, sx))) => final(out)@ == o && x2 == sx && x2 <= writer.width,
            (Err(a), Err(b)) => a == b,
            _ => false,
        },
{
    let mut x = x0;
    let mut k: usize = 0;
    while k < count
        invariant
            old(out)@.len() == writer.width * writer.height * 4,
            out@.len() == writer.width * writer.height * 4,
            x <= writer.width,
            k <= count,
            spec_rle_fill(out@, writer.width as int, writer.height as int, writer.top_down, writer.palette@, x as int, y as int, hi as int, lo as int, k as int, count as int)
                == spec_rle_fill(old(out)@, writer.width as int, writer.height as int, writer.top_down, writer.palette@, x0 as int, y as int, hi as int, lo as int, 0, count as int),
        decreases count - k,
    {
        assert((k & 1) == 0 <==> k % 2 == 0) by (bit_vector);
        let idx = if (k & 1) == 0 {
            hi
        } else {
            lo
        };
        match writer.write(out, x, y, idx) {
            Ok(()) => {},
            Err(e) => {
                return Err(e);
            },
        }
        x += 1;
        if x > writer.width {
            return Err(DecodeError::RleOutOfBounds);
        }
        k += 1;
    }
    Ok(x)
}

/// Writes an absolute run of `n` pixels whose indices start at byte
/// `start` (`four`: two 4-bit indices per byte) from `(x0, y)`. Returns the
/// column after the run.
fn rle_abs(
    writer: &IndexedPixelWriter,
    out: &mut Vec<u8>,
    data: &[u8],
    four: bool,
    start: usize,
    x0: usize,
    y: usize,
    n: usize,
) -> (r: Result<usize, DecodeError>)
    requires
        old(out)@.len() == writer.width * writer.height * 4,
        x0 <= writer.width,
        start + (if four { (n + 1) / 2 } else { n as int }) <= data@.len(),
    ensures
        final(out)@.len() == old(out)@.len(),
        match (r, spec_rle_abs(old(out)@, writer.width as int, writer.height as int, writer.top_down, writer.palette@, data@, four, start as int, x0 as int, y as int, 0, n as int)) {
            (Ok(x2), Ok((o, sx))) => final(out)@ == o && x2 == sx && x2 <= writer.width,
            (Err(a), Err(b)) => a == b,
            _ => false,
        },
{
    let mut x = x0;
    let mut p: usize = 0;
    let dlen = data.len();
    while p < n
        invariant
            dlen == data@.len(),
            old(out)@.len() == writer.width * writer.height * 4,
            out@.len() == writer.width * writer.height * 4,
            x <= writer.width,
            p <= n,
            start + (if four { (n + 1) / 2 } else { n as int }) <= data@.len(),
            spec_rle_abs(out@, writer.width as int, writer.height as int, writer.top_down, writer.palette@, data@, four, start as int, x as int, y as int, p as int, n as int)
                == spec_rle_abs(old(out)@, writer.width as int, writer.height as int, writer.top_down, writer.palette@, data@, four, start as int, x0 as int, y as int, 0, n as int),
        decreases n - p,
    {
        let idx = if four {
            let b = data[start + p / 2];
            assert((p & 1) == 0 <==> p % 2 == 0) by (bit_vector);
            if (p & 1) == 0 {
                (b >> 4) as usize
            } else {
                (b & 0x0f) as usize
            }
        } else {
            data[start + p] as usize
        };
        assert(idx == spec_abs_index(data@, four, start as int, p as int));
        match writer.write(out, x, y, idx) {
            Ok(()) => {},
            Err(e) => {
                return Err(e);
            },
        }
        x += 1;
        if x > writer.width {
            return Err(DecodeError::RleOutOfBounds);
        }
        p += 1;
    }
    Ok(x)
}

/// A zero-filled buffer of `n` bytes.
fn zeroed(n: usize) -> (r: Vec<u8>)
    ensures
        r@ == Seq::new(n as nat, |k: int| 0u8),
{
    let mut v: Vec<u8> = Vec::with_capacity(n);
    let mut k: usize = 0;
    while k < n
        invariant
            k <= n,
            v@ == Seq::new(k as nat, |j: int| 0u8),
        decreases n - k,
    {
        v.push(0);
        k += 1;
        assert(v@ =~= Seq::new(k as nat, |j: int| 0u8));
    }
    v
}

/// Decodes an RLE stream (`four`: `BI_RLE4`, else `BI_RLE8`) into top-down
/// RGBA; pixels that the stream skips stay transparent black.
fn decode_rle_pixels(
    pixel_data: &[u8],
    four: bool,
    width: usize,
    height: usize,
    top_down: bool,
    palette: &[[u8; 4]],
) -> (r: Result<Vec<u8>, DecodeError>)
    requires
        height <= 0x8000_0000,
    ensures
        spec_view_result(r) == spec_decode_rle(pixel_data@, four, width, height, top_down, palette@),
{
    let n = match rgba_output_len(width, height) {
        Ok(n) => n,
        Err(e) => {
            return Err(e);
        },
    };
    let mut out = zeroed(n);
    let ghost init = out@;
    let writer = IndexedPixelWriter { width, height, top_down, palette };
    let len = pixel_data.len();
    proof {
        if height > 0 {
            assert(width <= width * height * 4) by (nonlinear_arith)
                requires
                    height > 0,
            ;
        }
    }
    let mut i: usize = 0;
    let mut x: usize = 0;
    let mut y: usize = 0;
    while len - i > 1
        invariant
            len == pixel_data@.len(),
            i <= len,
            writer.width == width,
            writer.height == height,
            writer.top_down == top_down,
            writer.palette@ == palette@,
            n == width * height * 4,
            n <= MAX_DECODED_RGBA_BYTES,
            height <= 0x8000_0000,
            out@.len() == n,
            x <= width,
            height == 0 ==> x == 0 && y == 0,
            height > 0 ==> y < height && width <= MAX_DECODED_RGBA_BYTES,
            init == Seq::new(n as nat, |k: int| 0u8),
            spec_rle_from(pixel_data@, four, width as int, height as int, top_down, palette@, i as int, x as int, y as int, out@)
                == spec_rle_from(pixel_data@, four, width as int, height as int, top_down, palette@, 0, 0, 0, init),
        decreases len - i,
    {
        let count = pixel_data[i];
        let value = pixel_data[i + 1];
        i += 2;
        if count > 0 {
            let hi = if four {
                (value >> 4) as usize
            } else {
                value as usize
            };
            let lo = if four {
                (value & 0x0f) as usize
            } else {
                value as usize
            };
            match rle_fill(&writer, &mut out, x, y, hi, lo, count as usize) {
                Ok(x2) => {
                    x = x2;
                },
                Err(e) => {
                    return Err(e);
                },
            }
            continue;
        }
        match value {
            0 => {
                x = 0;
                y += 1;
                if y >= height {
                    return Ok(out);
                }
            },
            1 => {
                return Ok(out);
            },
            2 => {
                if len - i < 2 {
                    return Err(DecodeError::InvalidRle("delta escape missing dx/dy"));
                }
                let dx = pixel_data[i] as usize;
                let dy = pixel_data[i + 1] as usize;
                i += 2;
                x += dx;
                y += dy;
                if x > width || y >= height {
                    return Err(DecodeError::RleOutOfBounds);
                }
            },
            _ => {
                let n_abs = value as usize;
                let bytes = if four {
                    (n_abs + 1) / 2
                } else {
                    n_abs
                };
                if bytes > len - i {
                    return Err(DecodeError::InvalidRle("absolute run exceeds stream"));
                }
                match rle_abs(&writer, &mut out, pixel_data, four, i, x, y, n_abs) {
                    Ok(x2) => {
                        x = x2;
                    },
                    Err(e) => {
                        return Err(e);
                    },
                }
                i += bytes;
                assert((bytes & 1) == 1 <==> bytes % 2 == 1) by (bit_vector);
                if (bytes & 1) == 1 {
                    if i >= len {
                        return Err(DecodeError::InvalidRle("absolute run pad byte missing"));
                    }
                    i += 1;
                }
            },
        }
    }
    Ok(out)
}

/// Decodes an `BI_RLE8` stream.
fn decode_rle8_pixels(
    pixel_data: &[u8],
    width: usize,
    height: usize,
    top_down: bool,
    palette: &[[u8; 4]],
) -> (r: Result<Vec<u8>, DecodeError>)
    requires
        height <= 0x8000_0000,
    ensures
        spec_view_result(r) == spec_decode_rle(pixel_data@, false, width, height, top_down, palette@),
{
    decode_rle_pixels(pixel_data, false, width, height, top_down, palette)
}

/// Decodes an `BI_RLE4` stream.
fn decode_rle4_pixels(
    pixel_data: &[u8],
    width: usize,
    height: usize,
    top_down: bool,
    palette: &[[u8; 4]],
) -> (r: Result<Vec<u8>, DecodeError>)
    requires
        height <= 0x8000_0000,
    ensures
        spec_view_result(r) == spec_decode_rle(pixel_data@, true, width, height, top_down, palette@),
{
    decode_rle_pixels(pixel_data, true, width, height, top_down, palette)
}

/// The opaque palette a BMP's color table gives.
pub open spec fn spec_palette(bmp: Bmp) -> Seq<[u8; 4]> {
    let t = bmp.spec_color_table();
    Seq::new(t.len(), |i: int| [t[i].red, t[i].green, t[i].blue, 255u8])
}

/// What decoding reads from a BMP: width, height, depth, compression,
/// whether rows are stored top-down, and the bitfield masks it carries.
pub open spec fn spec_decode_params(bmp: Bmp) -> (i32, i32, BitsPerPixel, Compression, bool, Option<RgbaMasks>) {
    match bmp {
        Bmp::Core(d) => (
            d.bmp_header.width as i32,
            d.bmp_header.height as i32,
            d.bmp_header.bit_count,
            Compression::Rgb,
            false,
            None,
        ),
        Bmp::Info(d) => (
            d.bmp_header.width,
            d.bmp_header.height,
            d.bmp_header.bit_count,
            d.bmp_header.compression,
            d.bmp_header.height < 0,
            match d.color_masks {
                Some(m) => Some(m.spec_to_rgba()),
                None => None,
            },
        ),
        Bmp::V4(d) => (
            d.bmp_header.info.width,
            d.bmp_header.info.height,
            d.bmp_header.info.bit_count,
            d.bmp_header.info.compression,
            d.bmp_header.info.height < 0,
            Some(d.bmp_header.masks),
        ),
        Bmp::V5(d) => (
            d.bmp_header.v4.info.width,
            d.bmp_header.v4.info.height,
            d.bmp_header.v4.info.bit_count,
            d.bmp_header.v4.info.compression,
            d.bmp_header.v4.info.height < 0,
            Some(d.bmp_header.v4.masks),
        ),
    }
}

/// The decoder a compression method selects.
pub open spec fn spec_decoder(compression: Compression) -> CompressionDecoder {
    match compression {
        Compression::Rgb => CompressionDecoder::Rgb,
        Compression::Rle4 => CompressionDecoder::Rle4,
        Compression::Rle8 => CompressionDecoder::Rle8,
        Compression::BitFields => CompressionDecoder::BitFields,
        Compression::Jpeg => CompressionDecoder::Other(4),
        Compression::Png => CompressionDecoder::Other(5),
        Compression::Other(x) => CompressionDecoder::Other(x),
    }
}

/// The masks `BI_BITFIELDS` decoding uses: those the BMP carries, else the
/// RGB555 or RGB888 defaults at 16 or 32 bits per pixel.
pub open spec fn spec_bitfield_masks(masks: Option<RgbaMasks>, bpp: BitsPerPixel) -> Option<RgbaMasks> {
    match masks {
        Some(m) => Some(m),
        None => if bpp == BitsPerPixel::Bpp16 {
            Some(RgbaMasks { red_mask: 0x7C00, green_mask: 0x03E0, blue_mask: 0x001F, alpha_mask: 0 })
        } else if bpp == BitsPerPixel::Bpp32 {
            Some(RgbaMasks { red_mask: 0x00FF_0000, green_mask: 0x0000_FF00, blue_mask: 0x0000_00FF, alpha_mask: 0 })
        } else {
            None
        },
    }
}

/// The outcome of decoding a BMP: the width, height and RGBA bytes of the
/// image.
pub open spec fn spec_decode_to_rgba(bmp: Bmp) -> Result<(u32, u32, Seq<u8>), DecodeError> {
    let (w, h, bpp, compression, top_down, masks) = spec_decode_params(bmp);
    let data = bmp.spec_bitmap_array();
    let palette = spec_palette(bmp);
    if w <= 0 || h == 0 {
        Err(DecodeError::InvalidDimensions { width: w, height: h })
    } else {
        let width = w as usize;
        let height = spec_unsigned_abs(h) as usize;
        let rgba = match spec_decoder(compression) {
            CompressionDecoder::Rgb => spec_decode_rgb(data, width, height, top_down, bpp, palette),
            CompressionDecoder::Rle8 => spec_decode_rle(data, false, width, height, top_down, palette),
            CompressionDecoder::Rle4 => spec_decode_rle(data, true, width, height, top_down, palette),
            CompressionDecoder::BitFields => match spec_bitfield_masks(masks, bpp) {
                Some(m) => spec_decode_bitfields(data, width, height, top_down, bpp, m),
                None => Err(DecodeError::MissingBitfieldMasks),
            },
            CompressionDecoder::Other(x) => Err(DecodeError::UnsupportedCompression(CompressionDecoder::Other(x))),
        };
        match rgba {
            Err(e) => Err(e),
            Ok(s) => Ok((width as u32, height as u32, s)),
        }
    }
}

/// Whether decoding `bmp` avoids scaling a channel mask that is not a
/// contiguous run of at most 8 bits: it holds unless `BI_BITFIELDS` pixels
/// are actually converted with such a mask.
pub open spec fn spec_decode_masks_ok(bmp: Bmp) -> bool {
    let (w, h, bpp, compression, top_down, masks) = spec_decode_params(bmp);
    let width = w as usize;
    let height = spec_unsigned_abs(h) as usize;
    (w > 0 && h != 0 && spec_decoder(compression) == CompressionDecoder::BitFields
        && spec_bitfield_masks(masks, bpp) is Some
        && spec_bitfields_layout(bmp.spec_bitmap_array(), width, height, bpp) is Ok)
        ==> spec_masks_decodable(spec_bitfield_masks(masks, bpp)->0)
}

/// Builds the opaque palette of a color table.
fn palette_of_quads(table: &[RgbQuad]) -> (r: Vec<[u8; 4]>)
    ensures
        r@ == Seq::new(table@.len(), |i: int| [table@[i].red, table@[i].green, table@[i].blue, 255u8]),
{
    let mut p: Vec<[u8; 4]> = Vec::new();
    let mut i: usize = 0;
    while i < table.len()
        invariant
            i <= table@.len(),
            p@ == Seq::new(i as nat, |k: int| [table@[k].red, table@[k].green, table@[k].blue, 255u8]),
        decreases table.len() - i,
    {
        let c = table[i];
        p.push([c.red, c.green, c.blue, 255]);
        i += 1;
        assert(p@ =~= Seq::new(i as nat, |k: int| [table@[k].red, table@[k].green, table@[k].blue, 255u8]));
    }
    p
}

/// Builds the opaque palette of a CORE color table.
fn palette_of_triples(table: &[RgbTriple]) -> (r: Vec<[u8; 4]>)
    ensures
        r@ == Seq::new(table@.len(), |i: int| [table@[i].red, table@[i].green, table@[i].blue, 255u8]),
{
    let mut p: Vec<[u8; 4]> = Vec::new();
    let mut i: usize = 0;
    while i < table.len()
        invariant
            i <= table@.len(),
            p@ == Seq::new(i as nat, |k: int| [table@[k].red, table@[k].green, table@[k].blue, 255u8]),
        decreases table.len() - i,
    {
        let c = table[i];
        p.push([c.red, c.green, c.blue, 255]);
        i += 1;
        assert(p@ =~= Seq::new(i as nat, |k: int| [table@[k].red, table@[k].green, table@[k].blue, 255u8]));
    }
    p
}

/// Returns whether `mask` is zero or one run of at most 8 set bits.
fn mask_decodable(mask: u32) -> (r: bool)
    ensures
        r == spec_mask_decodable(mask),
{
    if mask == 0 {
        return true;
    }
    let m = mask >> mask.trailing_zeros();
    m == 1 || m == 3 || m == 7 || m == 15 || m == 31 || m == 63 || m == 127 || m == 255
}

/// Returns whether `BI_BITFIELDS` pixel data of this size is laid out
/// well enough to be converted.
fn bitfields_layout_ok(data: &[u8], width: usize, height: usize, bpp: BitsPerPixel) -> (r: bool)
    ensures
        r == spec_bitfields_layout(data@, width, height, bpp) is Ok,
{
    if bpp != BitsPerPixel::Bpp16 && bpp != BitsPerPixel::Bpp32 {
        return false;
    }
    let stride = match row_stride(width, bpp.bit_count()) {
        Ok(v) => v,
        Err(_) => {
            return false;
        },
    };
    let required = match stride.checked_mul(height) {
        Some(v) => v,
        None => {
            return false;
        },
    };
    if data.len() < required {
        return false;
    }
    rgba_output_len(width, height).is_ok()
}

/// Returns whether `decode_to_rgba` can decode `bmp` without scaling a
/// channel mask that is not a contiguous run of at most 8 bits; only
/// `BI_BITFIELDS` pixels that are actually converted can fail it.
pub fn decode_masks_supported(bmp: &Bmp) -> (r: bool)
    ensures
        r == spec_decode_masks_ok(*bmp),
{
    let (w, h, bpp, compression, data, masks) = match bmp {
        Bmp::Core(d) => (
            d.bmp_header.width as i32,
            d.bmp_header.height as i32,
            d.bmp_header.bit_count,
            Compression::Rgb,
            d.bitmap_array.as_slice(),
            None,
        ),
        Bmp::Info(d) => (
            d.bmp_header.width,
            d.bmp_header.height,
            d.bmp_header.bit_count,
            d.bmp_header.compression,
            d.bitmap_array.as_slice(),
            match d.color_masks {
                Some(m) => Some(m.to_rgba()),
                None => None,
            },
        ),
        Bmp::V4(d) => (
            d.bmp_header.info.width,
            d.bmp_header.info.height,
            d.bmp_header.info.bit_count,
            d.bmp_header.info.compression,
            d.bitmap_array.as_slice(),
            Some(d.bmp_header.masks),
        ),
        Bmp::V5(d) => (
            d.bmp_header.v4.info.width,
            d.bmp_header.v4.info.height,
            d.bmp_header.v4.info.bit_count,
            d.bmp_header.v4.info.compression,
            d.bitmap_array.as_slice(),
            Some(d.bmp_header.v4.masks),
        ),
    };
    assert(data@ == bmp.spec_bitmap_array());
    if w <= 0 || h == 0 || !matches!(compression, Compression::BitFields) {
        return true;
    }
    let effective = match masks {
        Some(m) => m,
        None => {
            if matches!(bpp, BitsPerPixel::Bpp16) {
                RgbaMasks { red_mask: 0x7C00, green_mask: 0x03E0, blue_mask: 0x001F, alpha_mask: 0 }
            } else if matches!(bpp, BitsPerPixel::Bpp32) {
                RgbaMasks { red_mask: 0x00FF_0000, green_mask: 0x0000_FF00, blue_mask: 0x0000_00FF, alpha_mask: 0 }
            } else {
                return true;
            }
        },
    };
    let width = w as usize;
    let height = unsigned_abs(h) as usize;
    if !bitfields_layout_ok(data, width, height, bpp) {
        return true;
    }
    mask_decodable(effective.red_mask) && mask_decodable(effective.green_mask) && mask_decodable(
        effective.blue_mask,
    ) && mask_decodable(effective.alpha_mask)
}

/// Decodes a parsed BMP into top-down RGBA pixels: uncompressed,
/// `BI_BITFIELDS`, `BI_RLE8` and `BI_RLE4` data are supported.
pub fn decode_to_rgba(bmp: &Bmp) -> (r: Result<DecodedImage, DecodeError>)
    requires
        spec_decode_masks_ok(*bmp),
    ensures
        match (r, spec_decode_to_rgba(*bmp)) {
            (Ok(img), Ok((w, h, s))) => img.width == w && img.height == h && img.rgba@ == s,
            (Err(a), Err(b)) => a == b,
            _ => false,
        },
{
    let (width_i32, height_i32, bit_count, compression, pixel_data, palette, top_down, bitfields_masks) = match bmp {
        Bmp::Core(data) => (
            data.bmp_header.width as i32,
            data.bmp_header.height as i32,
            data.bmp_header.bit_count,
            Compression::Rgb,
            data.bitmap_array.as_slice(),
            palette_of_triples(data.color_table.as_slice()),
            false,
            None,
        ),
        Bmp::Info(data) => (
            data.bmp_header.width,
            data.bmp_header.height,
            data.bmp_header.bit_count,
            data.bmp_header.compression,
            data.bitmap_array.as_slice(),
            palette_of_quads(data.color_table.as_slice()),
            data.bmp_header.height < 0,
            match data.color_masks {
                Some(m) => Some(m.to_rgba()),
                None => None,
            },
        ),
        Bmp::V4(data) => (
            data.bmp_header.info.width,
            data.bmp_header.info.height,
            data.bmp_header.info.bit_count,
            data.bmp_header.info.compression,
            data.bitmap_array.as_slice(),
            palette_of_quads(data.color_table.as_slice()),
            data.bmp_header.info.height < 0,
            Some(data.bmp_header.masks),
        ),
        Bmp::V5(data) => (
            data.bmp_header.v4.info.width,
            data.bmp_header.v4.info.height,
            data.bmp_header.v4.info.bit_count,
            data.bmp_header.v4.info.compression,
            data.bitmap_array.as_slice(),
            palette_of_quads(data.color_table.as_slice()),
            data.bmp_header.v4.info.height < 0,
            Some(data.bmp_header.v4.masks),
        ),
    };
    assert(palette@ =~= spec_palette(*bmp));
    let decoder = match compression {
        Compression::Rgb => CompressionDecoder::Rgb,
        Compression::Rle4 => CompressionDecoder::Rle4,
        Compression::Rle8 => CompressionDecoder::Rle8,
        Compression::BitFields => CompressionDecoder::BitFields,
        Compression::Jpeg => CompressionDecoder::Other(4),
        Compression::Png => CompressionDecoder::Other(5),
        Compression::Other(x) => CompressionDecoder::Other(x),
    };
    if width_i32 <= 0 || height_i32 == 0 {
        return Err(DecodeError::InvalidDimensions { width: width_i32, height: height_i32 });
    }
    let width = width_i32 as usize;
    let height = unsigned_abs(height_i32) as usize;
    let rgba = match decoder {
        CompressionDecoder::Rgb => decode_rgb_pixels(pixel_data, width, height, top_down, bit_count, palette.as_slice()),
        CompressionDecoder::Rle8 => decode_rle8_pixels(pixel_data, width, height, top_down, palette.as_slice()),
        CompressionDecoder::Rle4 => decode_rle4_pixels(pixel_data, width, height, top_down, palette.as_slice()),
        CompressionDecoder::BitFields => {
            let masks = match bitfields_masks {
                Some(m) => m,
                None => match bit_count {
                    BitsPerPixel::Bpp16 => RgbMasks::rgb555().to_rgba(),
                    BitsPerPixel::Bpp32 => RgbMasks::rgb888().to_rgba(),
                    _ => {
                        return Err(DecodeError::MissingBitfieldMasks);
                    },
                },
            };
            decode_bitfields_pixels(pixel_data, width, height, top_down, bit_count, masks)
        },
        CompressionDecoder::Other(x) => {
            return Err(DecodeError::UnsupportedCompression(CompressionDecoder::Other(x)));
        },
    };
    match rgba {
        Ok(rgba) => Ok(DecodedImage { width: width as u32, height: height as u32, rgba }),
        Err(e) => Err(e),
    }
}

/// A delta escape `(0, 2, dx, dy)` moves the decoding position `dx`
/// columns right and `dy` stream rows on: in the stream `0 2 dx dy 1 v 0 1`
/// (delta, one pixel of value `v`, end of bitmap), decoded from the top-left
/// stream position, the only pixel written is at column `dx` of stream row
/// `dy`.
pub proof fn lemma_rle_delta_moves(
    four: bool,
    width: int,
    height: int,
    top_down: bool,
    palette: Seq<[u8; 4]>,
    dx: u8,
    dy: u8,
    v: u8,
    out: Seq<u8>,
)
    requires
        dx < width,
        dy < height,
        (if four {
            (v >> 4u8) as int
        } else {
            v as int
        }) < palette.len(),
    ensures
        spec_rle_from(seq![0u8, 2u8, dx, dy, 1u8, v, 0u8, 1u8], four, width, height, top_down, palette, 0, 0, 0, out)
            == spec_rle_put(
            out,
            width,
            height,
            top_down,
            palette,
            dx as int,
            dy as int,
            if four {
                (v >> 4u8) as int
            } else {
                v as int
            },
        ),
{
    let data = seq![0u8, 2u8, dx, dy, 1u8, v, 0u8, 1u8];
    let idx = if four {
        (v >> 4u8) as int
    } else {
        v as int
    };
    let hi = idx;
    let lo = if four {
        (v & 0x0fu8) as int
    } else {
        v as int
    };
    let put = spec_rle_put(out, width, height, top_down, palette, dx as int, dy as int, idx);
    assert(put is Ok);
    let o = put->Ok_0;
    assert(spec_rle_fill(o, width, height, top_down, palette, dx + 1, dy as int, hi, lo, 1, 1) == Ok::<
        (Seq<u8>, int),
        DecodeError,
    >((o, dx + 1)));
    assert(spec_rle_fill(out, width, height, top_down, palette, dx as int, dy as int, hi, lo, 0, 1) == Ok::<
        (Seq<u8>, int),
        DecodeError,
    >((o, dx + 1)));
    assert(spec_rle_from(data, four, width, height, top_down, palette, 6, dx + 1, dy as int, o) == Ok::<
        Seq<u8>,
        DecodeError,
    >(o));
    assert(spec_rle_from(data, four, width, height, top_down, palette, 4, dx as int, dy as int, out) == Ok::<
        Seq<u8>,
        DecodeError,
    >(o));
}

} // verus!
