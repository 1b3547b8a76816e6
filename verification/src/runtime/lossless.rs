//! What survives encoding and decoding: an image saved with 24 or 32 bits
//! per pixel decodes back to its own pixels, made opaque.
use vstd::prelude::*;
use vstd::arithmetic::div_mod::{lemma_fundamental_div_mod, lemma_fundamental_div_mod_converse};
use crate::raw::le::{spec_u16_at, spec_u16_from, spec_u32_from};
use crate::runtime::conformance::{lemma_mask_constants, lemma_trailing_zeros_is};
use crate::raw::masks::RgbaMasks;
use crate::raw::types::BitsPerPixel;
use crate::runtime::decode::{
    lemma_stride_covers, spec_bf_byte, spec_decode_bitfields, spec_decode_rgb, spec_rgb_byte, spec_rgba_output_len,
    spec_row_stride, spec_scale_masked_channel, spec_src_row, DecodeError, MAX_DECODED_RGBA_BYTES,
    spec_rgb555, spec_scale5,
    spec_decode_masks_ok, spec_decode_params, spec_decode_to_rgba, spec_masks_decodable, spec_palette, DecodedImage,
};
use crate::raw::bmp::{spec_read_outcome, spec_read_result, Bmp, MAX_PIXEL_BYTES};
use crate::raw::roundtrip::{lemma_write_read_roundtrip, spec_icc_agrees_with_pixels, spec_same_bmp};
use crate::runtime::conformance::lemma_encoded_valid;
use crate::raw::headers::spec_unsigned_abs;
use crate::runtime::encode::{
    spec_pack555, spec_pack565, spec_pixel_bytes, spec_to5, spec_to6, spec_format_masks,
    spec_direct_data, spec_direct_encoded, spec_direct_fails, spec_direct_pixel_byte, spec_encode_precheck, spec_encoded,
    spec_stride, SaveFormat, SaveHeaderVersion, SourceMetadata,
};

verus! {

/// The RGBA bytes of an image with every alpha byte set to 255.
pub open spec fn spec_opaque(rgba: Seq<u8>) -> Seq<u8> {
    Seq::new(rgba.len(), |i: int| if i % 4 == 3 { 255u8 } else { rgba[i] })
}

/// The formats that keep every color bit: 24-bit and 32-bit uncompressed,
/// and 32-bit bitfields with 8-bit channels.
pub open spec fn spec_lossless_format(format: SaveFormat) -> bool {
    format == SaveFormat::Rgb24 || format == SaveFormat::Rgb32 || format == SaveFormat::BitFields32
}

/// Bytes per stored pixel of a lossless format.
pub open spec fn spec_lossless_pixel_bytes(format: SaveFormat) -> int {
    if format == SaveFormat::Rgb24 {
        3
    } else {
        4
    }
}

/// Stored row `r` is image row `spec_src_row(r)`, and the other way round.
proof fn lemma_src_row_involution(r: int, height: int, top_down: bool)
    requires
        0 <= r < height,
    ensures
        0 <= spec_src_row(r, height, top_down) < height,
        spec_src_row(spec_src_row(r, height, top_down), height, top_down) == r,
{
}

/// Byte `c` of pixel `x` in stored row `r` of the direct pixel data holds
/// channel `c` of the image pixel that row and column stand for.
proof fn lemma_direct_data_at(
    format: SaveFormat,
    rgba: Seq<u8>,
    width: int,
    height: int,
    stride: int,
    top_down: bool,
    r: int,
    x: int,
    c: int,
)
    requires
        spec_lossless_format(format),
        0 <= r < height,
        0 <= x < width,
        0 <= c < spec_lossless_pixel_bytes(format),
        spec_lossless_pixel_bytes(format) * width <= stride,
    ensures
        0 <= r * stride + spec_lossless_pixel_bytes(format) * x + c < stride * height,
        spec_direct_data(format, rgba, width, height, stride, top_down)[r * stride
            + spec_lossless_pixel_bytes(format) * x + c] == spec_direct_pixel_byte(
            format,
            rgba,
            (spec_src_row(r, height, top_down) * width + x) * 4,
            c,
        ),
{
    let n = spec_lossless_pixel_bytes(format);
    let col = n * x + c;
    let k = r * stride + col;
    assert(n * (x + 1) <= n * width) by (nonlinear_arith)
        requires
            0 <= x < width,
            0 < n,
    ;
    assert(0 <= n * x) by (nonlinear_arith)
        requires
            0 <= x,
            0 < n,
    ;
    assert(n * (x + 1) == n * x + n) by (nonlinear_arith);
    assert(0 <= col < stride);
    assert(0 <= k < stride * height) by (nonlinear_arith)
        requires
            0 <= r < height,
            0 <= col < stride,
            k == r * stride + col,
    ;
    lemma_fundamental_div_mod_converse(k, stride, r, col);
    assert(col == x * n + c) by (nonlinear_arith)
        requires
            col == n * x + c,
    ;
    lemma_fundamental_div_mod_converse(col, n, x, c);
    assert(col < n * width);
}

/// The trailing zero counts of the RGB888 channel masks.
proof fn lemma_rgb888_shifts()
    ensures
        0x00FF_0000u32.trailing_zeros() == 16,
        0x0000_FF00u32.trailing_zeros() == 8,
        0x0000_00FFu32.trailing_zeros() == 0,
        0x00FF_0000u32 >> 16u32 == 255u32,
        0x0000_FF00u32 >> 8u32 == 255u32,
        0x0000_00FFu32 >> 0u32 == 255u32,
{
    lemma_mask_constants();
    lemma_trailing_zeros_is(0x00FF_0000u32, 16);
    lemma_trailing_zeros_is(0x0000_FF00u32, 8);
    lemma_trailing_zeros_is(0x0000_00FFu32, 0);
}

/// Scaling the RGB888 channels of a pixel stored as `b0, b1, b2, b3`
/// gives back `b2`, `b1` and `b0`.
proof fn lemma_rgb888_channels(b0: u8, b1: u8, b2: u8, b3: u8)
    ensures
        spec_scale_masked_channel(spec_u32_from(b0, b1, b2, b3), 0x00FF_0000u32) == b2,
        spec_scale_masked_channel(spec_u32_from(b0, b1, b2, b3), 0x0000_FF00u32) == b1,
        spec_scale_masked_channel(spec_u32_from(b0, b1, b2, b3), 0x0000_00FFu32) == b0,
{
    lemma_rgb888_shifts();
    let px = spec_u32_from(b0, b1, b2, b3);
    let r = (px & 0x00FF_0000u32) >> 16u32;
    let g = (px & 0x0000_FF00u32) >> 8u32;
    let b = (px & 0x0000_00FFu32) >> 0u32;
    assert(r == b2 && g == b1 && b == b0) by (bit_vector)
        requires
            px == ((b3 as u32) << 24u32) | ((b2 as u32) << 16u32) | ((b1 as u32) << 8u32) | (b0 as u32),
            r == (px & 0x00FF_0000u32) >> 16u32,
            g == (px & 0x0000_FF00u32) >> 8u32,
            b == (px & 0x0000_00FFu32) >> 0u32,
    ;
    assert(b2 as int * 255 / 255 == b2);
    assert(b1 as int * 255 / 255 == b1);
    assert(b0 as int * 255 / 255 == b0);
}

/// The RGB888 masks as decoding uses them: no alpha.
pub open spec fn spec_rgb888_rgba_masks() -> RgbaMasks {
    RgbaMasks { red_mask: 0x00FF_0000, green_mask: 0x0000_FF00, blue_mask: 0x0000_00FF, alpha_mask: 0 }
}

/// Pixel `p` of a `width`-wide image lies in row `p / width`, column
/// `p % width`.
proof fn lemma_pixel_pos(p: int, width: int, height: int)
    requires
        0 <= p < width * height,
        0 < width,
    ensures
        0 <= p / width < height,
        0 <= p % width < width,
        (p / width) * width + p % width == p,
{
    lemma_fundamental_div_mod(p, width);
    assert((p / width) * width == width * (p / width)) by (nonlinear_arith);
    assert(p / width < height) by (nonlinear_arith)
        requires
            0 <= p < width * height,
            0 < width,
            p == width * (p / width) + p % width,
            0 <= p % width,
    ;
}

/// Decoding byte `i` of the direct pixel data of a lossless format gives
/// byte `i` of the image, with full opacity.
proof fn lemma_decoded_byte(
    format: SaveFormat,
    rgba: Seq<u8>,
    width: int,
    height: int,
    stride: int,
    top_down: bool,
    palette: Seq<[u8; 4]>,
    i: int,
)
    requires
        spec_lossless_format(format),
        0 < width,
        0 < height,
        rgba.len() == width * height * 4,
        spec_lossless_pixel_bytes(format) * width <= stride,
        0 <= i < width * height * 4,
    ensures
        format != SaveFormat::BitFields32 ==> spec_rgb_byte(
            spec_direct_data(format, rgba, width, height, stride, top_down),
            format.spec_bpp(),
            stride,
            width,
            height,
            top_down,
            palette,
            i,
        ) == spec_opaque(rgba)[i],
        format == SaveFormat::BitFields32 ==> spec_bf_byte(
            spec_direct_data(format, rgba, width, height, stride, top_down),
            BitsPerPixel::Bpp32,
            stride,
            width,
            height,
            top_down,
            spec_rgb888_rgba_masks(),
            i,
        ) == spec_opaque(rgba)[i],
{
    let data = spec_direct_data(format, rgba, width, height, stride, top_down);
    let n = spec_lossless_pixel_bytes(format);
    let p = i / 4;
    let j = i % 4;
    assert(0 <= p < width * height);
    lemma_pixel_pos(p, width, height);
    let y = p / width;
    let x = p % width;
    let r = spec_src_row(y, height, top_down);
    lemma_src_row_involution(y, height, top_down);
    lemma_direct_data_at(format, rgba, width, height, stride, top_down, r, x, 0);
    lemma_direct_data_at(format, rgba, width, height, stride, top_down, r, x, 1);
    lemma_direct_data_at(format, rgba, width, height, stride, top_down, r, x, 2);
    if n == 4 {
        lemma_direct_data_at(format, rgba, width, height, stride, top_down, r, x, 3);
    }
    assert((y * width + x) * 4 == i - j);
    let base = r * stride + n * x;
    if format == SaveFormat::BitFields32 {
        lemma_rgb888_channels(data[base], data[base + 1], data[base + 2], data[base + 3]);
    }
}

/// Decoding the direct pixel data of a lossless format gives the image
/// back, with full opacity.
proof fn lemma_decode_direct(
    format: SaveFormat,
    rgba: Seq<u8>,
    width: usize,
    height: usize,
    stride: usize,
    top_down: bool,
    palette: Seq<[u8; 4]>,
)
    requires
        spec_lossless_format(format),
        0 < width,
        0 < height,
        rgba.len() == width * height * 4,
        width * height * 4 <= MAX_DECODED_RGBA_BYTES,
        spec_row_stride(width, format.spec_bpp().spec_bit_count()) == Ok::<usize, DecodeError>(stride),
        stride * height <= u32::MAX,
    ensures
        format != SaveFormat::BitFields32 ==> spec_decode_rgb(
            spec_direct_data(format, rgba, width as int, height as int, stride as int, top_down),
            width,
            height,
            top_down,
            format.spec_bpp(),
            palette,
        ) == Ok::<Seq<u8>, DecodeError>(spec_opaque(rgba)),
        format == SaveFormat::BitFields32 ==> spec_decode_bitfields(
            spec_direct_data(format, rgba, width as int, height as int, stride as int, top_down),
            width,
            height,
            top_down,
            BitsPerPixel::Bpp32,
            spec_rgb888_rgba_masks(),
        ) == Ok::<Seq<u8>, DecodeError>(spec_opaque(rgba)),
{
    let w = width as int;
    let h = height as int;
    let st = stride as int;
    let bits = format.spec_bpp().spec_bit_count() as int;
    lemma_stride_covers(w, bits, st, w - 1);
    let data = spec_direct_data(format, rgba, w, h, st, top_down);
    assert(data.len() == st * h);
    assert(w * h * 4 == (w * h) * 4) by (nonlinear_arith);
    assert(spec_rgba_output_len(width, height) == Ok::<usize, DecodeError>((w * h * 4) as usize));
    if format != SaveFormat::BitFields32 {
        assert forall|i: int| 0 <= i < w * h * 4 implies #[trigger] spec_rgb_byte(
            data,
            format.spec_bpp(),
            st,
            w,
            h,
            top_down,
            palette,
            i,
        ) == spec_opaque(rgba)[i] by {
            lemma_decoded_byte(format, rgba, w, h, st, top_down, palette, i);
        }
    } else {
        assert forall|i: int| 0 <= i < w * h * 4 implies #[trigger] spec_bf_byte(
            data,
            BitsPerPixel::Bpp32,
            st,
            w,
            h,
            top_down,
            spec_rgb888_rgba_masks(),
            i,
        ) == spec_opaque(rgba)[i] by {
            lemma_decoded_byte(format, rgba, w, h, st, top_down, palette, i);
        }
    }
    if format != SaveFormat::BitFields32 {
        let out = Seq::new(
            (w * h * 4) as nat,
            |i: int| spec_rgb_byte(data, format.spec_bpp(), st, w, h, top_down, palette, i),
        );
        assert(out =~= spec_opaque(rgba));
    } else {
        let out = Seq::new(
            (w * h * 4) as nat,
            |i: int| spec_bf_byte(data, BitsPerPixel::Bpp32, st, w, h, top_down, spec_rgb888_rgba_masks(), i),
        );
        assert(out =~= spec_opaque(rgba));
    }
}

/// The RGB888 masks can be scaled to 8 bits.
proof fn lemma_rgb888_decodable()
    ensures
        spec_masks_decodable(spec_rgb888_rgba_masks()),
{
    lemma_rgb888_shifts();
}

/// An image encoded in a lossless format (24-bit or 32-bit uncompressed,
/// or 32-bit bitfields), with any header version that stores the format,
/// decodes back to its own width, height and pixels, each made opaque.
/// Decoding refuses images of more than `MAX_DECODED_RGBA_BYTES` bytes.
pub proof fn lemma_encode_decode_lossless(
    b: Bmp,
    image: DecodedImage,
    format: SaveFormat,
    header: SaveHeaderVersion,
    source: Option<SourceMetadata>,
)
    requires
        spec_lossless_format(format),
        spec_encode_precheck(image, format, header) is Ok,
        !spec_direct_fails(image, format, header, source),
        spec_encoded(b, image, format, header, source),
        image.width * image.height * 4 <= MAX_DECODED_RGBA_BYTES,
    ensures
        spec_decode_masks_ok(b),
        spec_decode_to_rgba(b) == Ok::<(u32, u32, Seq<u8>), DecodeError>(
            (image.width, image.height, spec_opaque(image.rgba@)),
        ),
{
    let width = image.width as usize;
    let height = image.height as usize;
    let bits = format.spec_bpp().spec_bit_count();
    let stride = spec_stride(width, bits)->0;
    let top_down = header != SaveHeaderVersion::Core;
    let data = spec_direct_data(format, image.rgba@, width as int, height as int, stride as int, top_down);
    assert(spec_direct_encoded(b, image, format, header, source));
    assert(b.spec_bitmap_array() == data);
    assert(spec_row_stride(width, bits) == Ok::<usize, DecodeError>(stride));
    assert(image.rgba@.len() == image.width * image.height * 4);
    lemma_decode_direct(format, image.rgba@, width, height, stride, top_down, spec_palette(b));
    lemma_rgb888_decodable();
    let (w, hh, bpp, compression, td, masks) = spec_decode_params(b);
    assert(w == image.width);
    assert(spec_unsigned_abs(hh) == image.height);
    assert(bpp == format.spec_bpp());
    assert(compression == format.spec_compression());
    assert(td == top_down);
    if format == SaveFormat::BitFields32 {
        assert(masks == Some(spec_rgb888_rgba_masks()));
    }
}

/// BMPs with the same parts validate and decode alike.
proof fn lemma_same_bmp_alike(a: Bmp, c: Bmp)
    requires
        spec_same_bmp(a, c),
    ensures
        a.spec_validate() == c.spec_validate(),
        spec_decode_masks_ok(a) == spec_decode_masks_ok(c),
        spec_decode_to_rgba(a) == spec_decode_to_rgba(c),
{
    assert(spec_palette(a) =~= spec_palette(c));
    match (a, c) {
        (Bmp::Core(x), Bmp::Core(y)) => {
            assert(a.spec_color_table() =~= c.spec_color_table());
        },
        _ => {},
    }
    assert(spec_palette(a) =~= spec_palette(c));
}

/// An image saved in a lossless format with any header version, written
/// out and read back, passes validation and decodes to its own width,
/// height and pixels, each made opaque. Decoding refuses images of more
/// than `MAX_DECODED_RGBA_BYTES` bytes; validation refuses pixel data of
/// more than `MAX_PIXEL_BYTES` bytes and rows whose bit count plus padding
/// overflows the header's 32-bit arithmetic.
pub proof fn lemma_save_load_lossless(
    b: Bmp,
    image: DecodedImage,
    format: SaveFormat,
    header: SaveHeaderVersion,
    source: Option<SourceMetadata>,
    r: Bmp,
)
    requires
        spec_lossless_format(format),
        spec_encode_precheck(image, format, header) is Ok,
        !spec_direct_fails(image, format, header, source),
        spec_encoded(b, image, format, header, source),
        image.width * image.height * 4 <= MAX_DECODED_RGBA_BYTES,
        b.spec_bitmap_array().len() <= MAX_PIXEL_BYTES,
        format.spec_bpp().spec_bit_count() * image.width + 31 <= u32::MAX,
        spec_read_result(r, b.spec_written(Seq::empty())),
    ensures
        b.spec_validate_write_layout() is Ok,
        spec_read_outcome(b.spec_written(Seq::empty())) is Ok,
        r.spec_validate() is Ok,
        spec_decode_masks_ok(r),
        spec_decode_to_rgba(r) == Ok::<(u32, u32, Seq<u8>), DecodeError>(
            (image.width, image.height, spec_opaque(image.rgba@)),
        ),
{
    lemma_encoded_valid(b, image, format, header, source);
    lemma_encode_decode_lossless(b, image, format, header, source);
    assert(spec_direct_encoded(b, image, format, header, source));
    assert(b.spec_color_table_len() == 0);
    assert(spec_icc_agrees_with_pixels(b));
    lemma_write_read_roundtrip(b);
    lemma_same_bmp_alike(r, b);
}


/// The default 32-bit encoding stores the pixels top-down, each as blue,
/// green, red and a zero byte: byte `4p + c` of the pixel data is channel
/// `2 - c` of pixel `p` for `c < 3`, and 0 for `c == 3`.
pub proof fn lemma_rgb32_layout(b: Bmp, image: DecodedImage)
    requires
        image.width >= 1,
        image.height >= 1,
        image.rgba@.len() == image.width * image.height * 4,
        spec_stride(image.width as usize, 32) is Some,
        spec_direct_encoded(b, image, SaveFormat::Rgb32, SaveHeaderVersion::Info, None),
    ensures
        b.spec_bitmap_array().len() == image.width * image.height * 4,
        forall|p: int, c: int|
            0 <= p < image.width * image.height && 0 <= c < 4 ==> #[trigger] b.spec_bitmap_array()[4 * p + c] == (
            if c == 3 {
                0u8
            } else {
                image.rgba@[4 * p + 2 - c]
            }),
{
    let w = image.width as int;
    let h = image.height as int;
    let stride = spec_stride(image.width as usize, 32)->0 as int;
    assert(spec_row_stride(image.width as usize, 32) == Ok::<usize, DecodeError>(stride as usize));
    assert(w * 32 + 31 == 32 * w + 31) by (nonlinear_arith);
    lemma_fundamental_div_mod_converse(w * 32 + 31, 32, w, 31);
    assert(stride == 4 * w);
    let data = spec_direct_data(SaveFormat::Rgb32, image.rgba@, w, h, stride, true);
    assert(b.spec_bitmap_array() == data);
    assert(data.len() == stride * h);
    assert(stride * h == w * h * 4) by (nonlinear_arith)
        requires
            stride == 4 * w,
    ;
    assert forall|p: int, c: int|
        0 <= p < w * h && 0 <= c < 4 implies #[trigger] data[4 * p + c] == (if c == 3 {
        0u8
    } else {
        image.rgba@[4 * p + 2 - c]
    }) by {
        lemma_pixel_pos(p, w, h);
        let r = p / w;
        let x = p % w;
        lemma_direct_data_at(SaveFormat::Rgb32, image.rgba@, w, h, stride, true, r, x, c);
        assert(r * stride + 4 * x == 4 * p) by (nonlinear_arith)
            requires
                stride == 4 * w,
                r * w + x == p,
        ;
        assert((r * w + x) * 4 == 4 * p);
    }
}


/// The 16-bit formats: RGB555 uncompressed, and RGB565 or RGB555 bitfields.
pub open spec fn spec_16bit_format(format: SaveFormat) -> bool {
    format == SaveFormat::Rgb16 || format == SaveFormat::BitFields16Rgb565 || format
        == SaveFormat::BitFields16Rgb555
}

/// A decoded byte `a` is close to the original byte `v` at channel `c`:
/// within 9 for a color channel, and 255 for alpha.
pub open spec fn spec_close16(a: u8, v: u8, c: int) -> bool {
    if c == 3 {
        a == 255
    } else {
        -9 <= a - v <= 9
    }
}

/// The masks 16-bit bitfields decoding uses for a format.
pub open spec fn spec_masks16(format: SaveFormat) -> RgbaMasks {
    if format == SaveFormat::BitFields16Rgb565 {
        RgbaMasks { red_mask: 0xF800, green_mask: 0x07E0, blue_mask: 0x001F, alpha_mask: 0 }
    } else {
        RgbaMasks { red_mask: 0x7C00, green_mask: 0x03E0, blue_mask: 0x001F, alpha_mask: 0 }
    }
}

/// Byte `c` of pixel `x` in stored row `r` of the 16-bit pixel data.
proof fn lemma_direct16_data_at(
    format: SaveFormat,
    rgba: Seq<u8>,
    width: int,
    height: int,
    stride: int,
    top_down: bool,
    r: int,
    x: int,
    c: int,
)
    requires
        spec_16bit_format(format),
        0 <= r < height,
        0 <= x < width,
        0 <= c < 2,
        2 * width <= stride,
    ensures
        0 <= r * stride + 2 * x + c < stride * height,
        spec_direct_data(format, rgba, width, height, stride, top_down)[r * stride + 2 * x + c]
            == spec_direct_pixel_byte(format, rgba, (spec_src_row(r, height, top_down) * width + x) * 4, c),
{
    let col = 2 * x + c;
    let k = r * stride + col;
    assert(0 <= col < stride);
    assert(0 <= k < stride * height) by (nonlinear_arith)
        requires
            0 <= r < height,
            0 <= col < stride,
            k == r * stride + col,
    ;
    lemma_fundamental_div_mod_converse(k, stride, r, col);
    lemma_fundamental_div_mod_converse(col, 2, x, c);
    assert(spec_pixel_bytes(format) == 2);
}

/// The bit layout of an RGB555 pixel and of its two stored bytes.
proof fn lemma_pack555_bits(a: u16, b: u16, c: u16)
    by (bit_vector)
    requires
        a < 32,
        b < 32,
        c < 32,
    ensures
        ((((a << 10u16) | (b << 5u16) | c) >> 10u16) & 0x1fu16) == a,
        ((((a << 10u16) | (b << 5u16) | c) >> 5u16) & 0x1fu16) == b,
        ((((a << 10u16) | (b << 5u16) | c)) & 0x1fu16) == c,
        ((((a << 10u16) | (b << 5u16) | c) as u32 & 0x7C00u32) >> 10u32) == a as u32,
        ((((a << 10u16) | (b << 5u16) | c) as u32 & 0x03E0u32) >> 5u32) == b as u32,
        ((((a << 10u16) | (b << 5u16) | c) as u32 & 0x001Fu32) >> 0u32) == c as u32,
        (((((a << 10u16) | (b << 5u16) | c) >> 8u16) as u8 as u16) << 8u16) | (((a << 10u16) | (b << 5u16) | c) as u8
            as u16) == ((a << 10u16) | (b << 5u16) | c),
{
}

/// The bit layout of an RGB565 pixel and of its two stored bytes.
proof fn lemma_pack565_bits(a: u16, g: u16, c: u16)
    by (bit_vector)
    requires
        a < 32,
        g < 64,
        c < 32,
    ensures
        ((((a << 11u16) | (g << 5u16) | c) as u32 & 0xF800u32) >> 11u32) == a as u32,
        ((((a << 11u16) | (g << 5u16) | c) as u32 & 0x07E0u32) >> 5u32) == g as u32,
        ((((a << 11u16) | (g << 5u16) | c) as u32 & 0x001Fu32) >> 0u32) == c as u32,
        (((((a << 11u16) | (g << 5u16) | c) >> 8u16) as u8 as u16) << 8u16) | (((a << 11u16) | (g << 5u16) | c) as u8
            as u16) == ((a << 11u16) | (g << 5u16) | c),
{
}

/// Reducing a channel to 5 bits and scaling it back moves it by at most 9.
proof fn lemma_to5_close(v: u8)
    ensures
        spec_to5(v) <= 31,
        -9 <= spec_to5(v) as int * 255 / 31 - v <= 9,
{
    let t = v as int * 31 + 127;
    let q = t / 255;
    lemma_fundamental_div_mod(t, 255);
    assert(q <= 31);
    assert(spec_to5(v) as int == q);
    let d = q * 255 / 31;
    lemma_fundamental_div_mod(q * 255, 31);
    assert(31 * d <= 255 * q < 31 * d + 31);
    assert(255 * q <= t < 255 * q + 255);
    assert(31 * (d - v) <= 127) by (nonlinear_arith)
        requires
            31 * d <= 255 * q,
            255 * q <= t,
            t == v as int * 31 + 127,
    ;
    assert(31 * (d - v) > -31 - 128) by (nonlinear_arith)
        requires
            255 * q < 31 * d + 31,
            t < 255 * q + 255,
            t == v as int * 31 + 127,
    ;
}

/// Reducing a channel to 6 bits and scaling it back moves it by at most 9.
proof fn lemma_to6_close(v: u8)
    ensures
        spec_to6(v) <= 63,
        -9 <= spec_to6(v) as int * 255 / 63 - v <= 9,
{
    let t = v as int * 63 + 127;
    let q = t / 255;
    lemma_fundamental_div_mod(t, 255);
    assert(q <= 63);
    assert(spec_to6(v) as int == q);
    let d = q * 255 / 63;
    lemma_fundamental_div_mod(q * 255, 63);
    assert(63 * d <= 255 * q < 63 * d + 63);
    assert(255 * q <= t < 255 * q + 255);
    assert(63 * (d - v) <= 127) by (nonlinear_arith)
        requires
            63 * d <= 255 * q,
            255 * q <= t,
            t == v as int * 63 + 127,
    ;
    assert(63 * (d - v) > -63 - 128) by (nonlinear_arith)
        requires
            255 * q < 63 * d + 63,
            t < 255 * q + 255,
            t == v as int * 63 + 127,
    ;
}

/// The trailing zero counts and right-aligned values of the 16-bit masks.
proof fn lemma_masks16_shifts()
    ensures
        0xF800u32.trailing_zeros() == 11,
        0x7C00u32.trailing_zeros() == 10,
        0x07E0u32.trailing_zeros() == 5,
        0x03E0u32.trailing_zeros() == 5,
        0x001Fu32.trailing_zeros() == 0,
        0xF800u32 >> 11u32 == 31u32,
        0x7C00u32 >> 10u32 == 31u32,
        0x07E0u32 >> 5u32 == 63u32,
        0x03E0u32 >> 5u32 == 31u32,
        0x001Fu32 >> 0u32 == 31u32,
{
    lemma_mask_constants();
    lemma_trailing_zeros_is(0xF800u32, 11);
    lemma_trailing_zeros_is(0x7C00u32, 10);
    lemma_trailing_zeros_is(0x07E0u32, 5);
    lemma_trailing_zeros_is(0x03E0u32, 5);
    lemma_trailing_zeros_is(0x001Fu32, 0);
}

/// Decoding byte `i` of the 16-bit pixel data gives a byte close to byte
/// `i` of the image.
proof fn lemma_decoded16_byte(
    format: SaveFormat,
    rgba: Seq<u8>,
    width: int,
    height: int,
    stride: int,
    top_down: bool,
    palette: Seq<[u8; 4]>,
    i: int,
)
    requires
        spec_16bit_format(format),
        0 < width,
        0 < height,
        rgba.len() == width * height * 4,
        2 * width <= stride,
        0 <= i < width * height * 4,
    ensures
        format == SaveFormat::Rgb16 ==> spec_close16(
            spec_rgb_byte(
                spec_direct_data(format, rgba, width, height, stride, top_down),
                BitsPerPixel::Bpp16,
                stride,
                width,
                height,
                top_down,
                palette,
                i,
            ),
            rgba[i],
            i % 4,
        ),
        format != SaveFormat::Rgb16 ==> spec_close16(
            spec_bf_byte(
                spec_direct_data(format, rgba, width, height, stride, top_down),
                BitsPerPixel::Bpp16,
                stride,
                width,
                height,
                top_down,
                spec_masks16(format),
                i,
            ),
            rgba[i],
            i % 4,
        ),
{
    let data = spec_direct_data(format, rgba, width, height, stride, top_down);
    let p = i / 4;
    let j = i % 4;
    assert(0 <= p < width * height);
    lemma_pixel_pos(p, width, height);
    let y = p / width;
    let x = p % width;
    let r = spec_src_row(y, height, top_down);
    lemma_src_row_involution(y, height, top_down);
    lemma_direct16_data_at(format, rgba, width, height, stride, top_down, r, x, 0);
    lemma_direct16_data_at(format, rgba, width, height, stride, top_down, r, x, 1);
    assert((y * width + x) * 4 == i - j);
    let q = i - j;
    let base = r * stride + 2 * x;
    let rr = rgba[q];
    let gg = rgba[q + 1];
    let bb = rgba[q + 2];
    lemma_to5_close(rr);
    lemma_to5_close(bb);
    lemma_to5_close(gg);
    lemma_to6_close(gg);
    lemma_masks16_shifts();
    assert(i == q + j);
    if format == SaveFormat::BitFields16Rgb565 {
        let px = spec_pack565(rr, gg, bb);
        lemma_pack565_bits(spec_to5(rr), spec_to6(gg), spec_to5(bb));
        assert(spec_u16_at(data, base) == px);
        assert(spec_masks16(format).red_mask == 0xF800u32);
    } else {
        let px = spec_pack555(rr, gg, bb);
        lemma_pack555_bits(spec_to5(rr), spec_to5(gg), spec_to5(bb));
        assert(spec_u16_at(data, base) == px);
    }
}


/// An image encoded in a 16-bit format (RGB555 uncompressed, or RGB565 or
/// RGB555 bitfields), with any header version that stores the format,
/// decodes to its own width and height with every color channel within 9
/// of the original and full opacity. Decoding refuses images of more than
/// `MAX_DECODED_RGBA_BYTES` bytes.
pub proof fn lemma_encode_decode_16bit(
    b: Bmp,
    image: DecodedImage,
    format: SaveFormat,
    header: SaveHeaderVersion,
    source: Option<SourceMetadata>,
)
    requires
        spec_16bit_format(format),
        spec_encode_precheck(image, format, header) is Ok,
        !spec_direct_fails(image, format, header, source),
        spec_encoded(b, image, format, header, source),
        image.width * image.height * 4 <= MAX_DECODED_RGBA_BYTES,
    ensures
        spec_decode_masks_ok(b),
        spec_decode_to_rgba(b) is Ok,
        spec_decode_to_rgba(b)->Ok_0.0 == image.width,
        spec_decode_to_rgba(b)->Ok_0.1 == image.height,
        spec_decode_to_rgba(b)->Ok_0.2.len() == image.width * image.height * 4,
        forall|i: int|
            0 <= i < image.width * image.height * 4 ==> #[trigger] spec_close16(
                spec_decode_to_rgba(b)->Ok_0.2[i],
                image.rgba@[i],
                i % 4,
            ),
{
    let width = image.width as usize;
    let height = image.height as usize;
    let w = width as int;
    let h = height as int;
    let bits = format.spec_bpp().spec_bit_count();
    let stride = spec_stride(width, bits)->0;
    let st = stride as int;
    let top_down = header != SaveHeaderVersion::Core;
    let data = spec_direct_data(format, image.rgba@, w, h, st, top_down);
    assert(spec_direct_encoded(b, image, format, header, source));
    assert(b.spec_bitmap_array() == data);
    assert(spec_row_stride(width, bits) == Ok::<usize, DecodeError>(stride));
    assert(image.rgba@.len() == image.width * image.height * 4);
    assert(bits == 16);
    lemma_stride_covers(w, 16, st, w - 1);
    assert(data.len() == st * h);
    assert(w * h * 4 == (w * h) * 4) by (nonlinear_arith);
    assert(spec_rgba_output_len(width, height) == Ok::<usize, DecodeError>((w * h * 4) as usize));
    lemma_masks16_shifts();
    lemma_mask_constants();
    let (dw, dh, bpp, compression, td, masks) = spec_decode_params(b);
    assert(dw == image.width);
    assert(spec_unsigned_abs(dh) == image.height);
    assert(bpp == format.spec_bpp());
    assert(compression == format.spec_compression());
    assert(td == top_down);
    let palette = spec_palette(b);
    if format == SaveFormat::Rgb16 {
        let out = Seq::new(
            (w * h * 4) as nat,
            |i: int| spec_rgb_byte(data, BitsPerPixel::Bpp16, st, w, h, top_down, palette, i),
        );
        assert(spec_decode_rgb(data, width, height, top_down, BitsPerPixel::Bpp16, palette) == Ok::<
            Seq<u8>,
            DecodeError,
        >(out));
        assert forall|i: int| 0 <= i < w * h * 4 implies #[trigger] spec_close16(out[i], image.rgba@[i], i % 4) by {
            lemma_decoded16_byte(format, image.rgba@, w, h, st, top_down, palette, i);
        }
    } else {
        assert(masks == Some(spec_masks16(format)));
        let out = Seq::new(
            (w * h * 4) as nat,
            |i: int| spec_bf_byte(data, BitsPerPixel::Bpp16, st, w, h, top_down, spec_masks16(format), i),
        );
        assert(spec_decode_bitfields(data, width, height, top_down, BitsPerPixel::Bpp16, spec_masks16(format))
            == Ok::<Seq<u8>, DecodeError>(out));
        assert forall|i: int| 0 <= i < w * h * 4 implies #[trigger] spec_close16(out[i], image.rgba@[i], i % 4) by {
            lemma_decoded16_byte(format, image.rgba@, w, h, st, top_down, palette, i);
        }
    }
}

} // verus!
