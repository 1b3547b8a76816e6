//! Encoding of RGBA images into BMP structures.
use vstd::prelude::*;
use vstd::arithmetic::div_mod::lemma_fundamental_div_mod_converse;
use crate::raw::bmp::{spec_icc, BitmapCoreData, BitmapInfoData, BitmapV4Data, BitmapV5Data, Bmp, MAX_ICC_PROFILE_BYTES};
use crate::raw::error::BmpError;
use crate::raw::headers::{BitmapCoreHeader, BitmapInfoHeader, BitmapV4Header, BitmapV5Header, FileHeader};
use crate::raw::masks::{RgbMasks, RgbaMasks};
use crate::raw::types::{
    BitsPerPixel, CieXyz, CieXyzTriple, ColorSpaceType, Compression, FixedPoint16Dot16, FixedPoint2Dot30,
    GammaTriple, RgbQuad, RgbTriple, LCS_GM_IMAGES,
};
use crate::runtime::quantize::{
    quantize, spec_class_color, spec_quantized, spec_wu_indices, spec_wu_palette_len, MAX_QUANTIZE_PIXELS,
};
use crate::runtime::rle::{
    lemma_finish, lemma_resumes_start, lemma_step_abs, lemma_step_eol, lemma_step_run, spec_abs_bytes,
    spec_indexed_rgba, spec_indices_in, spec_resumes, spec_zeros,
};
use crate::runtime::decode::{
    spec_abs_index, spec_palette, spec_rle_from, DecodeError,
    spec_index_at, lemma_pixel_bounds, lemma_row_bounds, lemma_stride_covers, row_stride as decode_row_stride, spec_row_stride,
    spec_src_row, DecodedImage,
};

verus! {

/// Reasons why an image cannot be encoded.
#[derive(Debug, Clone)]
pub enum EncodeError {
    /// A dimension is zero or does not fit the header.
    InvalidDimensions { width: u32, height: u32 },
    /// The RGBA buffer does not hold `width * height * 4` bytes.
    PixelBufferSizeMismatch { expected: usize, actual: usize },
    /// A size computation overflowed.
    ArithmeticOverflow,
    /// The BMP could not be serialized.
    Bmp(BmpError),
    /// The header version cannot store the pixel format.
    IncompatibleFormat { format: SaveFormat, header: SaveHeaderVersion },
}

/// The BMP pixel format used when saving.
#[derive(Debug, Clone, Copy, PartialEq, Eq, Structural)]
pub enum SaveFormat {
    /// `BI_RGB`, 1 bit per pixel, palette of 2 colors.
    Rgb1,
    /// `BI_RGB`, 4 bits per pixel, palette of up to 16 colors.
    Rgb4,
    /// `BI_RGB`, 8 bits per pixel, palette of up to 256 colors.
    Rgb8,
    /// `BI_RGB`, 16 bits per pixel, RGB555.
    Rgb16,
    /// `BI_RGB`, 24 bits per pixel.
    Rgb24,
    /// `BI_RGB`, 32 bits per pixel; the default.
    Rgb32,
    /// `BI_RLE8`, run-length encoded 8-bit indices.
    Rle8,
    /// `BI_RLE4`, run-length encoded 4-bit indices.
    Rle4,
    /// `BI_BITFIELDS`, 16 bits per pixel with RGB565 masks.
    BitFields16Rgb565,
    /// `BI_BITFIELDS`, 16 bits per pixel with RGB555 masks.
    BitFields16Rgb555,
    /// `BI_BITFIELDS`, 32 bits per pixel with RGB888 masks.
    BitFields32,
}

/// The DIB header generation used when saving.
#[derive(Debug, Clone, Copy, PartialEq, Eq, Structural)]
pub enum SaveHeaderVersion {
    /// `BITMAPCOREHEADER`: 1, 4, 8 or 24 bits, no compression, bottom-up.
    Core,
    /// `BITMAPINFOHEADER`.
    Info,
    /// `BITMAPV4HEADER`, with color space fields.
    V4,
    /// `BITMAPV5HEADER`, with rendering intent and ICC profile.
    V5,
}

/// Color management metadata carried over from a V4 or V5 source bitmap.
#[derive(Debug, Clone)]
pub struct SourceMetadata {
    /// Color space type.
    pub cs_type: ColorSpaceType,
    /// CIE XYZ endpoints.
    pub endpoints: CieXyzTriple,
    /// Tone response curves.
    pub gamma: GammaTriple,
    /// Rendering intent (V5 sources only).
    pub intent: Option<u32>,
    /// Embedded or linked profile data (V5 sources only).
    pub icc_profile: Option<Vec<u8>>,
}

impl SaveFormat {
    /// Every save format, in a stable order.
    pub const ALL: [SaveFormat; 11] = [
        SaveFormat::Rgb1,
        SaveFormat::Rgb4,
        SaveFormat::Rgb8,
        SaveFormat::Rgb16,
        SaveFormat::Rgb24,
        SaveFormat::Rgb32,
        SaveFormat::Rle8,
        SaveFormat::Rle4,
        SaveFormat::BitFields16Rgb565,
        SaveFormat::BitFields16Rgb555,
        SaveFormat::BitFields32,
    ];

    /// The bit depth this format stores.
    pub open spec fn spec_bpp(self) -> BitsPerPixel {
        match self {
            SaveFormat::Rgb1 => BitsPerPixel::Bpp1,
            SaveFormat::Rgb4 => BitsPerPixel::Bpp4,
            SaveFormat::Rgb8 => BitsPerPixel::Bpp8,
            SaveFormat::Rgb16 => BitsPerPixel::Bpp16,
            SaveFormat::Rgb24 => BitsPerPixel::Bpp24,
            SaveFormat::Rgb32 => BitsPerPixel::Bpp32,
            SaveFormat::Rle8 => BitsPerPixel::Bpp8,
            SaveFormat::Rle4 => BitsPerPixel::Bpp4,
            SaveFormat::BitFields16Rgb565 => BitsPerPixel::Bpp16,
            SaveFormat::BitFields16Rgb555 => BitsPerPixel::Bpp16,
            SaveFormat::BitFields32 => BitsPerPixel::Bpp32,
        }
    }

    /// The compression this format stores.
    pub open spec fn spec_compression(self) -> Compression {
        match self {
            SaveFormat::Rle8 => Compression::Rle8,
            SaveFormat::Rle4 => Compression::Rle4,
            SaveFormat::BitFields16Rgb565 => Compression::BitFields,
            SaveFormat::BitFields16Rgb555 => Compression::BitFields,
            SaveFormat::BitFields32 => Compression::BitFields,
            _ => Compression::Rgb,
        }
    }

    /// The short human-readable label of this format.
    pub open spec fn spec_label(self) -> Seq<char> {
        match self {
            SaveFormat::Rgb1 => "RGB 1-bpp (monochrome)"@,
            SaveFormat::Rgb4 => "RGB 4-bpp (16 colors)"@,
            SaveFormat::Rgb8 => "RGB 8-bpp (256 colors)"@,
            SaveFormat::Rgb16 => "RGB 16-bpp (RGB555)"@,
            SaveFormat::Rgb24 => "RGB 24-bpp"@,
            SaveFormat::Rgb32 => "RGB 32-bpp (default)"@,
            SaveFormat::Rle8 => "RLE8 (8-bpp compressed)"@,
            SaveFormat::Rle4 => "RLE4 (4-bpp compressed)"@,
            SaveFormat::BitFields16Rgb565 => "BitFields 16-bpp (RGB565)"@,
            SaveFormat::BitFields16Rgb555 => "BitFields 16-bpp (RGB555)"@,
            SaveFormat::BitFields32 => "BitFields 32-bpp"@,
        }
    }

    /// A short human-readable label.
    pub fn label(self) -> (r: &'static str)
        ensures
            r@ == self.spec_label(),
    {
        match self {
            SaveFormat::Rgb1 => "RGB 1-bpp (monochrome)",
            SaveFormat::Rgb4 => "RGB 4-bpp (16 colors)",
            SaveFormat::Rgb8 => "RGB 8-bpp (256 colors)",
            SaveFormat::Rgb16 => "RGB 16-bpp (RGB555)",
            SaveFormat::Rgb24 => "RGB 24-bpp",
            SaveFormat::Rgb32 => "RGB 32-bpp (default)",
            SaveFormat::Rle8 => "RLE8 (8-bpp compressed)",
            SaveFormat::Rle4 => "RLE4 (4-bpp compressed)",
            SaveFormat::BitFields16Rgb565 => "BitFields 16-bpp (RGB565)",
            SaveFormat::BitFields16Rgb555 => "BitFields 16-bpp (RGB555)",
            SaveFormat::BitFields32 => "BitFields 32-bpp",
        }
    }
}

/// The save format closest to a compression, depth and (for 16-bit
/// bitfields) mask layout: 16-bit bitfields are saved as RGB565 or RGB555
/// when their masks are one of these layouts (RGB555 when the masks are not
/// stored), and any other layout, like every combination that cannot be
/// saved as it is, falls back to 32-bit RGB.
pub open spec fn spec_format_for(compression: Compression, bpp: BitsPerPixel, masks: Option<RgbMasks>) -> SaveFormat {
    match (compression, bpp) {
        (Compression::Rgb, BitsPerPixel::Bpp1) => SaveFormat::Rgb1,
        (Compression::Rgb, BitsPerPixel::Bpp4) => SaveFormat::Rgb4,
        (Compression::Rgb, BitsPerPixel::Bpp8) => SaveFormat::Rgb8,
        (Compression::Rgb, BitsPerPixel::Bpp16) => SaveFormat::Rgb16,
        (Compression::Rgb, BitsPerPixel::Bpp24) => SaveFormat::Rgb24,
        (Compression::Rgb, BitsPerPixel::Bpp32) => SaveFormat::Rgb32,
        (Compression::Rle8, BitsPerPixel::Bpp8) => SaveFormat::Rle8,
        (Compression::Rle4, BitsPerPixel::Bpp4) => SaveFormat::Rle4,
        (Compression::BitFields, BitsPerPixel::Bpp16) => if masks == Some(
            RgbMasks { red_mask: 0xF800, green_mask: 0x07E0, blue_mask: 0x001F },
        ) {
            SaveFormat::BitFields16Rgb565
        } else if masks is None || masks == Some(
            RgbMasks { red_mask: 0x7C00, green_mask: 0x03E0, blue_mask: 0x001F },
        ) {
            SaveFormat::BitFields16Rgb555
        } else {
            SaveFormat::Rgb32
        },
        (Compression::BitFields, BitsPerPixel::Bpp32) => SaveFormat::BitFields32,
        _ => SaveFormat::Rgb32,
    }
}

/// The save format that `from_bmp` infers: a CORE bitmap falls back to
/// 32-bit RGB, the others go by their compression, depth and masks.
pub open spec fn spec_format_of(bmp: Bmp) -> SaveFormat {
    match bmp {
        Bmp::Core(_) => SaveFormat::Rgb32,
        Bmp::Info(d) => spec_format_for(d.bmp_header.compression, d.bmp_header.bit_count, d.color_masks),
        Bmp::V4(d) => spec_format_for(
            d.bmp_header.info.compression,
            d.bmp_header.info.bit_count,
            Some(d.bmp_header.masks.spec_to_rgb()),
        ),
        Bmp::V5(d) => spec_format_for(
            d.bmp_header.v4.info.compression,
            d.bmp_header.v4.info.bit_count,
            Some(d.bmp_header.v4.masks.spec_to_rgb()),
        ),
    }
}

/// Picks the save format for a compression, depth and mask layout.
fn format_for(compression: Compression, bpp: BitsPerPixel, masks: Option<RgbMasks>) -> (r: SaveFormat)
    ensures
        r == spec_format_for(compression, bpp, masks),
{
    match (compression, bpp) {
        (Compression::Rgb, BitsPerPixel::Bpp1) => SaveFormat::Rgb1,
        (Compression::Rgb, BitsPerPixel::Bpp4) => SaveFormat::Rgb4,
        (Compression::Rgb, BitsPerPixel::Bpp8) => SaveFormat::Rgb8,
        (Compression::Rgb, BitsPerPixel::Bpp16) => SaveFormat::Rgb16,
        (Compression::Rgb, BitsPerPixel::Bpp24) => SaveFormat::Rgb24,
        (Compression::Rgb, BitsPerPixel::Bpp32) => SaveFormat::Rgb32,
        (Compression::Rle8, BitsPerPixel::Bpp8) => SaveFormat::Rle8,
        (Compression::Rle4, BitsPerPixel::Bpp4) => SaveFormat::Rle4,
        (Compression::BitFields, BitsPerPixel::Bpp16) => {
            match masks {
                Some(m) => {
                    if m == RgbMasks::rgb565() {
                        SaveFormat::BitFields16Rgb565
                    } else if m == RgbMasks::rgb555() {
                        SaveFormat::BitFields16Rgb555
                    } else {
                        SaveFormat::Rgb32
                    }
                },
                None => SaveFormat::BitFields16Rgb555,
            }
        },
        (Compression::BitFields, BitsPerPixel::Bpp32) => SaveFormat::BitFields32,
        _ => SaveFormat::Rgb32,
    }
}

impl SaveFormat {
    /// Infers the closest supported save format from a loaded BMP; formats
    /// that cannot be saved as they are (a CORE header, embedded JPEG or
    /// PNG, unusual depths, exotic bitfield layouts) fall back to 32-bit
    /// RGB.
    pub fn from_bmp(bmp: &Bmp) -> (r: SaveFormat)
        ensures
            r == spec_format_of(*bmp),
    {
        match bmp {
            Bmp::Core(_) => SaveFormat::Rgb32,
            Bmp::Info(info) => format_for(info.bmp_header.compression, info.bmp_header.bit_count, info.color_masks),
            Bmp::V4(v4) => format_for(
                v4.bmp_header.info.compression,
                v4.bmp_header.info.bit_count,
                Some(v4.bmp_header.masks.to_rgb()),
            ),
            Bmp::V5(v5) => format_for(
                v5.bmp_header.v4.info.compression,
                v5.bmp_header.v4.info.bit_count,
                Some(v5.bmp_header.v4.masks.to_rgb()),
            ),
        }
    }
}

/// A loaded bitmap whose compression and depth can be saved as they are
/// (uncompressed 1, 4, 8, 16, 24 or 32 bits, RLE8 at 8 bits, RLE4 at 4 bits,
/// 32-bit bitfields) is saved again with that compression and depth,
/// unless its header is CORE.
pub proof fn lemma_format_keeps_compression_and_depth(bmp: Bmp)
    requires
        !(bmp is Core),
        ({
            let h = bmp.spec_bitmap_header();
            let (c, b) = (h.spec_compression(), h.spec_bit_count());
            ||| c is Rgb && (b is Bpp1 || b is Bpp4 || b is Bpp8 || b is Bpp16 || b is Bpp24 || b is Bpp32)
            ||| c is Rle8 && b is Bpp8
            ||| c is Rle4 && b is Bpp4
            ||| c is BitFields && b is Bpp32
        }),
    ensures
        spec_format_of(bmp).spec_compression() == bmp.spec_bitmap_header().spec_compression(),
        spec_format_of(bmp).spec_bpp() == bmp.spec_bitmap_header().spec_bit_count(),
{
}

/// The bitfield masks a loaded bitmap declares: those stored after an INFO
/// header, if any, or the red, green and blue masks of a V4 or V5 header.
pub open spec fn spec_source_masks(bmp: Bmp) -> Option<RgbMasks> {
    match bmp {
        Bmp::Core(_) => None,
        Bmp::Info(d) => d.color_masks,
        Bmp::V4(d) => Some(d.bmp_header.masks.spec_to_rgb()),
        Bmp::V5(d) => Some(d.bmp_header.v4.masks.spec_to_rgb()),
    }
}

/// A loaded 16-bit bitfield bitmap whose masks are the RGB565 or RGB555
/// layout is saved again as 16-bit bitfields with the same masks.
pub proof fn lemma_format_keeps_16bit_masks(bmp: Bmp)
    requires
        !(bmp is Core),
        bmp.spec_bitmap_header().spec_compression() is BitFields,
        bmp.spec_bitmap_header().spec_bit_count() is Bpp16,
        spec_source_masks(bmp) == spec_format_masks(SaveFormat::BitFields16Rgb565) || spec_source_masks(bmp)
            == spec_format_masks(SaveFormat::BitFields16Rgb555),
    ensures
        spec_format_of(bmp).spec_compression() is BitFields,
        spec_format_of(bmp).spec_bpp() is Bpp16,
        spec_format_masks(spec_format_of(bmp)) == spec_source_masks(bmp),
{
}

impl Default for SaveFormat {
    fn default() -> (r: SaveFormat)
        ensures
            r == SaveFormat::Rgb32,
    {
        SaveFormat::Rgb32
    }
}

impl SaveHeaderVersion {
    /// Every header version, oldest first.
    pub const ALL: [SaveHeaderVersion; 4] = [
        SaveHeaderVersion::Core,
        SaveHeaderVersion::Info,
        SaveHeaderVersion::V4,
        SaveHeaderVersion::V5,
    ];

    /// Whether this header version can store `format`: CORE stores only
    /// uncompressed 1, 4, 8 and 24-bit data, the others store every format.
    pub open spec fn spec_supports(self, format: SaveFormat) -> bool {
        self != SaveHeaderVersion::Core || format == SaveFormat::Rgb1 || format == SaveFormat::Rgb4 || format
            == SaveFormat::Rgb8 || format == SaveFormat::Rgb24
    }

    /// Whether this header version can store `format`.
    pub fn supports(self, format: SaveFormat) -> (r: bool)
        ensures
            r == self.spec_supports(format),
    {
        match self {
            SaveHeaderVersion::Core => matches!(
                format,
                SaveFormat::Rgb1 | SaveFormat::Rgb4 | SaveFormat::Rgb8 | SaveFormat::Rgb24
            ),
            _ => true,
        }
    }

    /// The formats this header version can store, in the order of
    /// [`SaveFormat::ALL`].
    pub open spec fn spec_compatible_formats(self) -> Seq<SaveFormat> {
        if self == SaveHeaderVersion::Core {
            seq![SaveFormat::Rgb1, SaveFormat::Rgb4, SaveFormat::Rgb8, SaveFormat::Rgb24]
        } else {
            seq![
                SaveFormat::Rgb1,
                SaveFormat::Rgb4,
                SaveFormat::Rgb8,
                SaveFormat::Rgb16,
                SaveFormat::Rgb24,
                SaveFormat::Rgb32,
                SaveFormat::Rle8,
                SaveFormat::Rle4,
                SaveFormat::BitFields16Rgb565,
                SaveFormat::BitFields16Rgb555,
                SaveFormat::BitFields32,
            ]
        }
    }

    /// Lists the formats this header version can store.
    pub fn compatible_formats(self) -> (r: Vec<SaveFormat>)
        ensures
            r@ == self.spec_compatible_formats(),
    {
        let v = match self {
            SaveHeaderVersion::Core => vec![SaveFormat::Rgb1, SaveFormat::Rgb4, SaveFormat::Rgb8, SaveFormat::Rgb24],
            _ => vec![
                SaveFormat::Rgb1,
                SaveFormat::Rgb4,
                SaveFormat::Rgb8,
                SaveFormat::Rgb16,
                SaveFormat::Rgb24,
                SaveFormat::Rgb32,
                SaveFormat::Rle8,
                SaveFormat::Rle4,
                SaveFormat::BitFields16Rgb565,
                SaveFormat::BitFields16Rgb555,
                SaveFormat::BitFields32,
            ],
        };
        assert(v@ =~= self.spec_compatible_formats());
        v
    }

    /// The header version of a loaded BMP.
    pub open spec fn spec_of(bmp: Bmp) -> SaveHeaderVersion {
        match bmp {
            Bmp::Core(_) => SaveHeaderVersion::Core,
            Bmp::Info(_) => SaveHeaderVersion::Info,
            Bmp::V4(_) => SaveHeaderVersion::V4,
            Bmp::V5(_) => SaveHeaderVersion::V5,
        }
    }

    /// Detects the header version of a loaded BMP.
    pub fn from_bmp(bmp: &Bmp) -> (r: SaveHeaderVersion)
        ensures
            r == Self::spec_of(*bmp),
    {
        match bmp {
            Bmp::Core(_) => SaveHeaderVersion::Core,
            Bmp::Info(_) => SaveHeaderVersion::Info,
            Bmp::V4(_) => SaveHeaderVersion::V4,
            Bmp::V5(_) => SaveHeaderVersion::V5,
        }
    }
}

/// A copy of a byte slice.
pub(crate) fn copy_bytes(s: &[u8]) -> (r: Vec<u8>)
    ensures
        r@ == s@,
{
    let mut v: Vec<u8> = Vec::with_capacity(s.len());
    let mut i: usize = 0;
    while i < s.len()
        invariant
            i <= s@.len(),
            v@ == s@.subrange(0, i as int),
        decreases s.len() - i,
    {
        v.push(s[i]);
        i += 1;
        assert(v@ =~= s@.subrange(0, i as int));
    }
    assert(s@.subrange(0, i as int) =~= s@);
    v
}

impl SourceMetadata {
    /// The metadata of a V4 or V5 BMP; `None` for CORE and INFO bitmaps.
    pub fn from_bmp(bmp: &Bmp) -> (r: Option<SourceMetadata>)
        ensures
            match *bmp {
                Bmp::V4(d) => r is Some && r->0.cs_type == d.bmp_header.cs_type && r->0.endpoints
                    == d.bmp_header.endpoints && r->0.gamma == d.bmp_header.gamma && r->0.intent is None
                    && r->0.icc_profile is None,
                Bmp::V5(d) => r is Some && r->0.cs_type == d.bmp_header.v4.cs_type && r->0.endpoints
                    == d.bmp_header.v4.endpoints && r->0.gamma == d.bmp_header.v4.gamma && r->0.intent
                    == Some(d.bmp_header.intent) && match d.icc_profile {
                    Some(p) => r->0.icc_profile is Some && r->0.icc_profile->0@ == p@,
                    None => r->0.icc_profile is None,
                },
                _ => r is None,
            },
    {
        match bmp {
            Bmp::V4(d) => Some(
                SourceMetadata {
                    cs_type: d.bmp_header.cs_type,
                    endpoints: d.bmp_header.endpoints,
                    gamma: d.bmp_header.gamma,
                    intent: None,
                    icc_profile: None,
                },
            ),
            Bmp::V5(d) => Some(
                SourceMetadata {
                    cs_type: d.bmp_header.v4.cs_type,
                    endpoints: d.bmp_header.v4.endpoints,
                    gamma: d.bmp_header.v4.gamma,
                    intent: Some(d.bmp_header.intent),
                    icc_profile: match &d.icc_profile {
                        Some(p) => Some(copy_bytes(p.as_slice())),
                        None => None,
                    },
                },
            ),
            _ => None,
        }
    }
}

/// The outcome of checking an image before encoding: positive dimensions
/// that fit an `i32`, and a buffer of exactly `width * height * 4` bytes;
/// on success that byte count.
pub open spec fn spec_validate_image(image: DecodedImage) -> Result<usize, EncodeError> {
    let w = image.width as int;
    let h = image.height as int;
    if image.width == 0 || image.height == 0 || image.width > 0x7FFF_FFFF || image.height > 0x7FFF_FFFF {
        Err(EncodeError::InvalidDimensions { width: image.width, height: image.height })
    } else if w * h > usize::MAX || w * h * 4 > usize::MAX {
        Err(EncodeError::ArithmeticOverflow)
    } else if image.rgba@.len() != w * h * 4 {
        Err(EncodeError::PixelBufferSizeMismatch { expected: (w * h * 4) as usize, actual: image.rgba@.len() as usize })
    } else {
        Ok((w * h * 4) as usize)
    }
}

/// Checks the shared preconditions of every encoder.
fn validate_image(image: &DecodedImage) -> (r: Result<usize, EncodeError>)
    ensures
        r == spec_validate_image(*image),
{
    if image.width == 0 || image.height == 0 || image.width > 0x7FFF_FFFF || image.height > 0x7FFF_FFFF {
        return Err(EncodeError::InvalidDimensions { width: image.width, height: image.height });
    }
    let pixels = match (image.width as usize).checked_mul(image.height as usize) {
        Some(n) => n,
        None => {
            return Err(EncodeError::ArithmeticOverflow);
        },
    };
    let pixel_bytes = match pixels.checked_mul(4) {
        Some(n) => n,
        None => {
            return Err(EncodeError::ArithmeticOverflow);
        },
    };
    if image.rgba.len() != pixel_bytes {
        return Err(EncodeError::PixelBufferSizeMismatch { expected: pixel_bytes, actual: image.rgba.len() });
    }
    Ok(pixel_bytes)
}

/// The padded row size for encoding, `None` on overflow.
pub open spec fn spec_stride(width: usize, bits: u16) -> Option<usize> {
    match spec_row_stride(width, bits) {
        Ok(s) => Some(s),
        Err(_) => None,
    }
}

/// Computes the size of a row padded to a multiple of four bytes.
fn row_stride(width: usize, bits_per_pixel: u16) -> (r: Result<usize, EncodeError>)
    ensures
        match spec_stride(width, bits_per_pixel) {
            Some(s) => r == Ok::<usize, EncodeError>(s),
            None => r == Err::<usize, EncodeError>(EncodeError::ArithmeticOverflow),
        },
{
    match decode_row_stride(width, bits_per_pixel) {
        Ok(s) => Ok(s),
        Err(_) => Err(EncodeError::ArithmeticOverflow),
    }
}

/// An 8-bit channel reduced to 5 bits, rounding to nearest.
pub open spec fn spec_to5(v: u8) -> u16 {
    ((v as u16 * 31 + 127) / 255) as u16
}

/// An 8-bit channel reduced to 6 bits, rounding to nearest.
pub open spec fn spec_to6(v: u8) -> u16 {
    ((v as u16 * 63 + 127) / 255) as u16
}

/// A color packed as RGB555.
pub open spec fn spec_pack555(r: u8, g: u8, b: u8) -> u16 {
    (spec_to5(r) << 10u16) | (spec_to5(g) << 5u16) | spec_to5(b)
}

/// A color packed as RGB565.
pub open spec fn spec_pack565(r: u8, g: u8, b: u8) -> u16 {
    (spec_to5(r) << 11u16) | (spec_to6(g) << 5u16) | spec_to5(b)
}

/// Whether `format` stores direct colors (no palette, no run-length
/// encoding).
pub open spec fn spec_is_direct_format(format: SaveFormat) -> bool {
    format == SaveFormat::Rgb16 || format == SaveFormat::Rgb24 || format == SaveFormat::Rgb32 || format
        == SaveFormat::BitFields16Rgb565 || format == SaveFormat::BitFields16Rgb555 || format == SaveFormat::BitFields32
}

/// Bytes per pixel of a direct-color format.
pub open spec fn spec_pixel_bytes(format: SaveFormat) -> int {
    match format {
        SaveFormat::Rgb24 => 3,
        SaveFormat::Rgb32 => 4,
        SaveFormat::BitFields32 => 4,
        _ => 2,
    }
}

/// Byte `c` of the stored form of the pixel with RGBA bytes at `p`.
pub open spec fn spec_direct_pixel_byte(format: SaveFormat, rgba: Seq<u8>, p: int, c: int) -> u8 {
    match format {
        SaveFormat::Rgb24 => rgba[p + 2 - c],
        SaveFormat::Rgb32 => if c == 3 {
            0u8
        } else {
            rgba[p + 2 - c]
        },
        SaveFormat::BitFields32 => if c == 3 {
            0u8
        } else {
            rgba[p + 2 - c]
        },
        SaveFormat::BitFields16Rgb565 => {
            let px = spec_pack565(rgba[p], rgba[p + 1], rgba[p + 2]);
            if c == 0 {
                px as u8
            } else {
                (px >> 8u16) as u8
            }
        },
        _ => {
            let px = spec_pack555(rgba[p], rgba[p + 1], rgba[p + 2]);
            if c == 0 {
                px as u8
            } else {
                (px >> 8u16) as u8
            }
        },
    }
}

/// Byte `k` of direct-color pixel data with rows of `stride` bytes:
/// stored row `k / stride` holds image row `spec_src_row(k / stride)`,
/// and row padding is zero.
pub open spec fn spec_direct_byte(
    format: SaveFormat,
    rgba: Seq<u8>,
    width: int,
    height: int,
    stride: int,
    top_down: bool,
    k: int,
) -> u8 {
    let n = spec_pixel_bytes(format);
    let y = spec_src_row(k / stride, height, top_down);
    let col = k % stride;
    if col >= n * width {
        0u8
    } else {
        spec_direct_pixel_byte(format, rgba, (y * width + col / n) * 4, col % n)
    }
}

/// The direct-color pixel data of an image.
pub open spec fn spec_direct_data(
    format: SaveFormat,
    rgba: Seq<u8>,
    width: int,
    height: int,
    stride: int,
    top_down: bool,
) -> Seq<u8> {
    Seq::new((stride * height) as nat, |k: int| spec_direct_byte(format, rgba, width, height, stride, top_down, k))
}

/// Reduces an 8-bit channel to 5 bits.
fn to5(v: u8) -> (r: u16)
    ensures
        r == spec_to5(v),
        r <= 31,
{
    (v as u16 * 31 + 127) / 255
}

/// Reduces an 8-bit channel to 6 bits.
fn to6(v: u8) -> (r: u16)
    ensures
        r == spec_to6(v),
        r <= 63,
{
    (v as u16 * 63 + 127) / 255
}

/// The stored bytes of one pixel.
fn direct_pixel(format: SaveFormat, rgba: &[u8], p: usize) -> (r: [u8; 4])
    requires
        spec_is_direct_format(format),
        p + 4 <= rgba@.len(),
    ensures
        forall|c: int| 0 <= c < spec_pixel_bytes(format) ==> r@[c] == spec_direct_pixel_byte(format, rgba@, p as int, c),
{
    let _n = rgba.len();
    match format {
        SaveFormat::Rgb24 => [rgba[p + 2], rgba[p + 1], rgba[p], 0],
        SaveFormat::Rgb32 | SaveFormat::BitFields32 => [rgba[p + 2], rgba[p + 1], rgba[p], 0],
        SaveFormat::BitFields16Rgb565 => {
            let r5 = to5(rgba[p]);
            let g6 = to6(rgba[p + 1]);
            let b5 = to5(rgba[p + 2]);
            let px16: u16 = (r5 << 11u16) | (g6 << 5u16) | b5;
            [px16 as u8, (px16 >> 8u16) as u8, 0, 0]
        },
        _ => {
            let r5 = to5(rgba[p]);
            let g5 = to5(rgba[p + 1]);
            let b5 = to5(rgba[p + 2]);
            let px16: u16 = (r5 << 10u16) | (g5 << 5u16) | b5;
            [px16 as u8, (px16 >> 8u16) as u8, 0, 0]
        },
    }
}

/// Lays out the pixels of a validated image in a direct-color format, rows
/// padded to `stride` bytes, top-down or bottom-up.
fn direct_pixels(image: &DecodedImage, format: SaveFormat, stride: usize, top_down: bool) -> (r: Vec<u8>)
    requires
        spec_is_direct_format(format),
        image.width >= 1,
        image.height >= 1,
        image.rgba@.len() == image.width * image.height * 4,
        spec_stride(image.width as usize, format.spec_bpp().spec_bit_count()) == Some(stride),
        stride * image.height <= usize::MAX,
    ensures
        r@ == spec_direct_data(format, image.rgba@, image.width as int, image.height as int, stride as int, top_down),
{
    let w = image.width as usize;
    let h = image.height as usize;
    let bytes: usize = match format {
        SaveFormat::Rgb24 => 3,
        SaveFormat::Rgb32 | SaveFormat::BitFields32 => 4,
        _ => 2,
    };
    let ghost bits = format.spec_bpp().spec_bit_count() as int;
    let ghost rgba = image.rgba@;
    let total = stride * h;
    let _n = image.rgba.len();
    let mut out: Vec<u8> = vec![0u8; total];
    assert forall|k: int| 0 <= k < total implies #[trigger] out@[k] == 0u8 by {}
    let mut r: usize = 0;
    while r < h
        invariant
            spec_is_direct_format(format),
            bytes == spec_pixel_bytes(format),
            bits == format.spec_bpp().spec_bit_count(),
            w == image.width,
            h == image.height,
            rgba == image.rgba@,
            rgba.len() == w * h * 4,
            w * h * 4 <= usize::MAX,
            w >= 1,
            spec_row_stride(w, format.spec_bpp().spec_bit_count()) == Ok::<usize, crate::runtime::decode::DecodeError>(stride),
            total == stride * h,
            r <= h,
            out@.len() == total,
            forall|k: int|
                0 <= k < total ==> #[trigger] out@[k] == if k < r * stride {
                    spec_direct_byte(format, rgba, w as int, h as int, stride as int, top_down, k)
                } else {
                    0u8
                },
        decreases h - r,
    {
        proof {
            lemma_row_bounds(h as int, stride as int, r as int);
        }
        let y = if top_down {
            r
        } else {
            h - 1 - r
        };
        let row_start = r * stride;
        let mut x: usize = 0;
        while x < w
            invariant
                spec_is_direct_format(format),
                bytes == spec_pixel_bytes(format),
                bits == format.spec_bpp().spec_bit_count(),
                w == image.width,
                h == image.height,
                rgba == image.rgba@,
                rgba.len() == w * h * 4,
                w * h * 4 <= usize::MAX,
                spec_row_stride(w, format.spec_bpp().spec_bit_count()) == Ok::<usize, crate::runtime::decode::DecodeError>(stride),
                total == stride * h,
                r < h,
                y == spec_src_row(r as int, h as int, top_down),
                row_start == r * stride,
                row_start + stride <= total,
                x <= w,
                out@.len() == total,
                forall|k: int|
                    0 <= k < total ==> #[trigger] out@[k] == if k < row_start + x * bytes {
                        spec_direct_byte(format, rgba, w as int, h as int, stride as int, top_down, k)
                    } else {
                        0u8
                    },
            decreases w - x,
        {
            proof {
                lemma_stride_covers(w as int, bits, stride as int, x as int);
                lemma_pixel_bounds(w as int, h as int, x as int, y as int);
            }
            let p = (y * w + x) * 4;
            let px = direct_pixel(format, image.rgba.as_slice(), p);
            let dst = row_start + x * bytes;
            let ghost before = out@;
            let mut c: usize = 0;
            while c < bytes
                invariant
                    spec_is_direct_format(format),
                    bytes == spec_pixel_bytes(format),
                    forall|cc: int| 0 <= cc < bytes ==> px@[cc] == spec_direct_pixel_byte(format, rgba, p as int, cc),
                    dst + bytes <= total,
                    c <= bytes,
                    out@.len() == total,
                    forall|k: int|
                        0 <= k < total ==> #[trigger] out@[k] == if dst <= k < dst + c {
                            px@[k - dst]
                        } else {
                            before[k]
                        },
                decreases bytes - c,
            {
                out.set(dst + c, px[c]);
                c += 1;
            }
            proof {
                assert forall|k: int| 0 <= k < total implies #[trigger] out@[k] == if k < row_start + (x + 1)
                    * bytes {
                    spec_direct_byte(format, rgba, w as int, h as int, stride as int, top_down, k)
                } else {
                    0u8
                } by {
                    if dst <= k < dst + bytes {
                        let cc = k - dst;
                        lemma_fundamental_div_mod_converse(k, stride as int, r as int, x * bytes + cc);
                        assert((x * bytes + cc) / (bytes as int) == x);
                        assert((x * bytes + cc) % (bytes as int) == cc);
                    }
                }
            }
            x += 1;
        }
        proof {
            assert((r + 1) * stride == row_start + stride) by (nonlinear_arith)
                requires
                    row_start == r * stride,
            ;
            if w > 0 {
                lemma_stride_covers(w as int, bits, stride as int, (w - 1) as int);
            }
            assert forall|k: int| 0 <= k < total implies #[trigger] out@[k] == if k < (r + 1) * stride {
                spec_direct_byte(format, rgba, w as int, h as int, stride as int, top_down, k)
            } else {
                0u8
            } by {
                if row_start + w * bytes <= k < (r + 1) * stride {
                    lemma_fundamental_div_mod_converse(k, stride as int, r as int, k - row_start);
                }
            }
        }
        r += 1;
    }
    assert(h * stride == total) by (nonlinear_arith)
        requires
            total == stride * h,
    ;
    assert(out@ =~= spec_direct_data(format, rgba, w as int, h as int, stride as int, top_down));
    out
}

/// The zero CIE XYZ endpoints.
pub open spec fn spec_zero_endpoints() -> CieXyzTriple {
    let z = CieXyz {
        x: FixedPoint2Dot30::spec_from_raw(0),
        y: FixedPoint2Dot30::spec_from_raw(0),
        z: FixedPoint2Dot30::spec_from_raw(0),
    };
    CieXyzTriple { red: z, green: z, blue: z }
}

/// The zero gamma triple.
pub open spec fn spec_zero_gamma() -> GammaTriple {
    GammaTriple {
        red: FixedPoint16Dot16::spec_from_raw(0),
        green: FixedPoint16Dot16::spec_from_raw(0),
        blue: FixedPoint16Dot16::spec_from_raw(0),
    }
}

/// The color space type a saved V4 or V5 header carries: the source's
/// when the header can represent it (a profile type only in V5, with
/// profile data within the size limit), else sRGB.
pub open spec fn spec_saved_cs_type(header: SaveHeaderVersion, source: Option<SourceMetadata>) -> ColorSpaceType {
    match source {
        None => ColorSpaceType::SRgb,
        Some(m) => if m.cs_type is CalibratedRgb || m.cs_type is SRgb || m.cs_type is WindowsColorSpace {
            m.cs_type
        } else if header == SaveHeaderVersion::V5 && m.cs_type.spec_is_profile() && m.icc_profile is Some
            && m.icc_profile->0@.len() <= MAX_ICC_PROFILE_BYTES {
            m.cs_type
        } else {
            ColorSpaceType::SRgb
        },
    }
}

/// The profile data a saved V5 header carries.
pub open spec fn spec_saved_icc(header: SaveHeaderVersion, source: Option<SourceMetadata>) -> Option<Seq<u8>> {
    if header == SaveHeaderVersion::V5 && spec_saved_cs_type(header, source).spec_is_profile() {
        Some(source->0.icc_profile->0@)
    } else {
        None
    }
}

/// The length of the saved profile data.
pub open spec fn spec_saved_icc_len(header: SaveHeaderVersion, source: Option<SourceMetadata>) -> int {
    match spec_saved_icc(header, source) {
        Some(p) => p.len() as int,
        None => 0,
    }
}

/// The DIB header size of a header version.
pub open spec fn spec_dib_size(header: SaveHeaderVersion) -> int {
    match header {
        SaveHeaderVersion::Core => 12,
        SaveHeaderVersion::Info => 40,
        SaveHeaderVersion::V4 => 108,
        SaveHeaderVersion::V5 => 124,
    }
}

/// The number of color table entries written: a CORE table always has
/// `2^bits` entries at indexed depths (padded with black), other tables
/// as many as given.
pub open spec fn spec_table_entries(header: SaveHeaderVersion, bpp: BitsPerPixel, table_len: nat) -> nat {
    if header == SaveHeaderVersion::Core {
        match bpp {
            BitsPerPixel::Bpp1 => 2,
            BitsPerPixel::Bpp4 => 16,
            BitsPerPixel::Bpp8 => 256,
            _ => 0,
        }
    } else {
        table_len
    }
}

/// The pixel data offset: file header, DIB header, an INFO mask block and
/// the color table.
pub open spec fn spec_pixel_offset(
    header: SaveHeaderVersion,
    bpp: BitsPerPixel,
    masks: Option<RgbMasks>,
    table_len: nat,
) -> int {
    14 + spec_dib_size(header) + (if header == SaveHeaderVersion::Info && masks is Some {
        12int
    } else {
        0int
    }) + spec_table_entries(header, bpp, table_len) * (if header == SaveHeaderVersion::Core {
        3int
    } else {
        4int
    })
}

/// The file size: the metadata, the pixel data, then any profile data.
pub open spec fn spec_file_size(
    header: SaveHeaderVersion,
    source: Option<SourceMetadata>,
    bpp: BitsPerPixel,
    masks: Option<RgbMasks>,
    table_len: nat,
    image_size: u32,
) -> int {
    spec_pixel_offset(header, bpp, masks, table_len) + image_size + spec_saved_icc_len(header, source)
}

/// The CORE color table: the given colors, padded with black.
pub open spec fn spec_core_table(table: Seq<RgbQuad>, entries: nat) -> Seq<RgbTriple> {
    Seq::new(
        entries,
        |i: int|
            if i < table.len() {
                RgbTriple { blue: table[i].blue, green: table[i].green, red: table[i].red }
            } else {
                RgbTriple { blue: 0, green: 0, red: 0 }
            },
    )
}

/// The INFO header fields of a saved bitmap: top-down rows unless
/// run-length encoded.
pub open spec fn spec_saved_info(
    width: u32,
    height: u32,
    bpp: BitsPerPixel,
    compression: Compression,
    image_size: u32,
    colors: nat,
) -> BitmapInfoHeader {
    BitmapInfoHeader {
        width: width as i32,
        height: if compression is Rle4 || compression is Rle8 {
            height as i32
        } else {
            (-(height as int)) as i32
        },
        planes: 1,
        bit_count: bpp,
        compression,
        image_size,
        x_resolution_ppm: 0,
        y_resolution_ppm: 0,
        colors_used: colors as u32,
        colors_important: 0,
    }
}

/// The V4 mask fields: the bitfield masks with no alpha, or zero.
pub open spec fn spec_saved_masks(masks: Option<RgbMasks>) -> RgbaMasks {
    match masks {
        Some(m) => m.spec_to_rgba(),
        None => RgbaMasks { red_mask: 0, green_mask: 0, blue_mask: 0, alpha_mask: 0 },
    }
}

/// Whether `b` is the bitmap assembled from these parts.
pub open spec fn spec_built(
    b: Bmp,
    width: u32,
    height: u32,
    header: SaveHeaderVersion,
    source: Option<SourceMetadata>,
    bpp: BitsPerPixel,
    compression: Compression,
    image_size: u32,
    masks: Option<RgbMasks>,
    table: Seq<RgbQuad>,
    data: Seq<u8>,
) -> bool {
    let offset = spec_pixel_offset(header, bpp, masks, table.len());
    let fh = b.spec_file_header();
    let info = spec_saved_info(width, height, bpp, compression, image_size, table.len());
    let v4 = BitmapV4Header {
        info,
        masks: spec_saved_masks(masks),
        cs_type: spec_saved_cs_type(header, source),
        endpoints: match source {
            Some(m) => m.endpoints,
            None => spec_zero_endpoints(),
        },
        gamma: match source {
            Some(m) => m.gamma,
            None => spec_zero_gamma(),
        },
    };
    &&& SaveHeaderVersion::spec_of(b) == header
    &&& fh.signature@ == seq![0x42u8, 0x4Du8]
    &&& fh.file_size == spec_file_size(header, source, bpp, masks, table.len(), image_size)
    &&& fh.reserved_1@ == seq![0u8, 0u8]
    &&& fh.reserved_2@ == seq![0u8, 0u8]
    &&& fh.pixel_data_offset == offset
    &&& b.spec_bitmap_array() == data
    &&& match b {
        Bmp::Core(d) => d.bmp_header == (BitmapCoreHeader {
            width: width as u16,
            height: height as u16,
            planes: 1,
            bit_count: bpp,
        }) && d.color_table@ == spec_core_table(table, spec_table_entries(header, bpp, table.len())),
        Bmp::Info(d) => d.bmp_header == info && d.color_masks == masks && d.color_table@ == table,
        Bmp::V4(d) => d.bmp_header == v4 && d.color_table@ == table,
        Bmp::V5(d) => {
            &&& d.bmp_header.v4 == v4
            &&& d.bmp_header.intent == match source {
                Some(m) => match m.intent {
                    Some(i) => i,
                    None => LCS_GM_IMAGES,
                },
                None => LCS_GM_IMAGES,
            }
            &&& d.bmp_header.profile_data == if spec_saved_icc(header, source) is Some {
                offset - 14 + image_size
            } else {
                0
            }
            &&& d.bmp_header.profile_size == spec_saved_icc_len(header, source)
            &&& d.bmp_header.reserved@ == seq![0u8, 0u8, 0u8, 0u8]
            &&& spec_icc(d.icc_profile) == spec_saved_icc(header, source)
            &&& d.color_table@ == table
        },
    }
}

/// The source metadata as a value.
pub open spec fn spec_source(source: Option<&SourceMetadata>) -> Option<SourceMetadata> {
    match source {
        Some(m) => Some(*m),
        None => None,
    }
}

/// Assembles a bitmap of the given header version from encoded pixel data
/// and a color table.
fn build_bmp(
    width: u32,
    height: u32,
    header: SaveHeaderVersion,
    source: Option<&SourceMetadata>,
    bpp: BitsPerPixel,
    compression: Compression,
    image_size: u32,
    color_masks: Option<RgbMasks>,
    color_table: Vec<RgbQuad>,
    bitmap_array: Vec<u8>,
) -> (r: Result<Bmp, EncodeError>)
    requires
        1 <= width <= 0x7FFF_FFFF,
        1 <= height <= 0x7FFF_FFFF,
        color_table@.len() <= 256,
        header == SaveHeaderVersion::Core ==> width <= 0xFFFF && height <= 0xFFFF && color_table@.len()
            <= spec_table_entries(header, bpp, color_table@.len()),
    ensures
        match r {
            Ok(b) => spec_built(
                b,
                width,
                height,
                header,
                spec_source(source),
                bpp,
                compression,
                image_size,
                color_masks,
                color_table@,
                bitmap_array@,
            ) && spec_file_size(header, spec_source(source), bpp, color_masks, color_table@.len(), image_size)
                <= u32::MAX,
            Err(e) => e == EncodeError::ArithmeticOverflow && spec_file_size(
                header,
                spec_source(source),
                bpp,
                color_masks,
                color_table@.len(),
                image_size,
            ) > u32::MAX,
        },
{
    let ghost src = spec_source(source);
    let table_len = color_table.len();
    let entries: usize = match header {
        SaveHeaderVersion::Core => match bpp {
            BitsPerPixel::Bpp1 => 2,
            BitsPerPixel::Bpp4 => 16,
            BitsPerPixel::Bpp8 => 256,
            _ => 0,
        },
        _ => table_len,
    };
    let dib_size: u32 = match header {
        SaveHeaderVersion::Core => BitmapCoreHeader::HEADER_SIZE,
        SaveHeaderVersion::Info => BitmapInfoHeader::HEADER_SIZE,
        SaveHeaderVersion::V4 => BitmapV4Header::HEADER_SIZE,
        SaveHeaderVersion::V5 => BitmapV5Header::HEADER_SIZE,
    };
    let masks_size: u32 = match header {
        SaveHeaderVersion::Info => if color_masks.is_some() {
            12
        } else {
            0
        },
        _ => 0,
    };
    let entry_size: u32 = match header {
        SaveHeaderVersion::Core => 3,
        _ => 4,
    };
    let pixel_offset: u32 = FileHeader::SIZE + dib_size + masks_size + (entries as u32) * entry_size;
    assert(pixel_offset == spec_pixel_offset(header, bpp, color_masks, color_table@.len()));
    // The color space and profile the header can carry.
    let (cs_type, endpoints, gamma, intent) = match source {
        Some(m) => (
            m.cs_type,
            m.endpoints,
            m.gamma,
            match m.intent {
                Some(i) => i,
                None => LCS_GM_IMAGES,
            },
        ),
        None => {
            let z = CieXyz {
                x: FixedPoint2Dot30::from_raw(0),
                y: FixedPoint2Dot30::from_raw(0),
                z: FixedPoint2Dot30::from_raw(0),
            };
            (
                ColorSpaceType::SRgb,
                CieXyzTriple { red: z, green: z, blue: z },
                GammaTriple {
                    red: FixedPoint16Dot16::from_raw(0),
                    green: FixedPoint16Dot16::from_raw(0),
                    blue: FixedPoint16Dot16::from_raw(0),
                },
                LCS_GM_IMAGES,
            )
        },
    };
    let keeps_profile = match source {
        Some(m) => match header {
            SaveHeaderVersion::V5 => match &m.icc_profile {
                Some(p) => matches!(m.cs_type, ColorSpaceType::ProfileEmbedded | ColorSpaceType::ProfileLinked)
                    && p.len() <= MAX_ICC_PROFILE_BYTES,
                None => false,
            },
            _ => false,
        },
        None => false,
    };
    let cs_type = if matches!(
        cs_type,
        ColorSpaceType::CalibratedRgb | ColorSpaceType::SRgb | ColorSpaceType::WindowsColorSpace
    ) || keeps_profile {
        cs_type
    } else {
        ColorSpaceType::SRgb
    };
    assert(cs_type == spec_saved_cs_type(header, src));
    let icc: Option<Vec<u8>> = if keeps_profile {
        match source {
            Some(m) => match &m.icc_profile {
                Some(p) => Some(copy_bytes(p.as_slice())),
                None => None,
            },
            None => None,
        }
    } else {
        None
    };
    assert(spec_icc(icc) == spec_saved_icc(header, src));
    let icc_len: u32 = match &icc {
        Some(p) => p.len() as u32,
        None => 0,
    };
    let file_size = match pixel_offset.checked_add(image_size) {
        Some(v) => match v.checked_add(icc_len) {
            Some(f) => f,
            None => {
                return Err(EncodeError::ArithmeticOverflow);
            },
        },
        None => {
            return Err(EncodeError::ArithmeticOverflow);
        },
    };
    let file_header = FileHeader {
        signature: [0x42, 0x4D],
        file_size,
        reserved_1: [0, 0],
        reserved_2: [0, 0],
        pixel_data_offset: pixel_offset,
    };
    assert(file_header.signature@ =~= seq![0x42u8, 0x4Du8]);
    assert(file_header.reserved_1@ =~= seq![0u8, 0u8]);
    assert(file_header.reserved_2@ =~= seq![0u8, 0u8]);
    let rle = matches!(compression, Compression::Rle4 | Compression::Rle8);
    let info = BitmapInfoHeader {
        width: width as i32,
        height: if rle {
            height as i32
        } else {
            -(height as i32)
        },
        planes: 1,
        bit_count: bpp,
        compression,
        image_size,
        x_resolution_ppm: 0,
        y_resolution_ppm: 0,
        colors_used: table_len as u32,
        colors_important: 0,
    };
    let v4_masks = match color_masks {
        Some(m) => m.to_rgba(),
        None => RgbaMasks { red_mask: 0, green_mask: 0, blue_mask: 0, alpha_mask: 0 },
    };
    match header {
        SaveHeaderVersion::Core => {
            let mut triples: Vec<RgbTriple> = Vec::new();
            let mut i: usize = 0;
            while i < entries
                invariant
                    entries == spec_table_entries(header, bpp, color_table@.len()),
                    table_len == color_table@.len(),
                    i <= entries,
                    triples@ == spec_core_table(color_table@, entries as nat).subrange(0, i as int),
                decreases entries - i,
            {
                let t = if i < table_len {
                    let q = color_table[i];
                    RgbTriple { blue: q.blue, green: q.green, red: q.red }
                } else {
                    RgbTriple { blue: 0, green: 0, red: 0 }
                };
                triples.push(t);
                i += 1;
                assert(triples@ =~= spec_core_table(color_table@, entries as nat).subrange(0, i as int));
            }
            assert(triples@ =~= spec_core_table(color_table@, entries as nat));
            Ok(
                Bmp::Core(
                    BitmapCoreData {
                        file_header,
                        bmp_header: BitmapCoreHeader {
                            width: width as u16,
                            height: height as u16,
                            planes: 1,
                            bit_count: bpp,
                        },
                        color_table: triples,
                        bitmap_array,
                    },
                ),
            )
        },
        SaveHeaderVersion::Info => Ok(
            Bmp::Info(BitmapInfoData { file_header, bmp_header: info, color_masks, color_table, bitmap_array }),
        ),
        SaveHeaderVersion::V4 => Ok(
            Bmp::V4(
                BitmapV4Data {
                    file_header,
                    bmp_header: BitmapV4Header { info, masks: v4_masks, cs_type, endpoints, gamma },
                    color_table,
                    bitmap_array,
                },
            ),
        ),
        SaveHeaderVersion::V5 => {
            let (profile_data, profile_size) = if icc.is_some() {
                (pixel_offset - 14 + image_size, icc_len)
            } else {
                (0, 0)
            };
            let reserved: [u8; 4] = [0, 0, 0, 0];
            assert(reserved@ =~= seq![0u8, 0u8, 0u8, 0u8]);
            Ok(
                Bmp::V5(
                    BitmapV5Data {
                        file_header,
                        bmp_header: BitmapV5Header {
                            v4: BitmapV4Header { info, masks: v4_masks, cs_type, endpoints, gamma },
                            intent,
                            profile_data,
                            profile_size,
                            reserved,
                        },
                        color_table,
                        bitmap_array,
                        icc_profile: icc,
                    },
                ),
            )
        },
    }
}

/// Whether the image dimensions fit the header: CORE stores them as `u16`.
pub open spec fn spec_fits_header(image: DecodedImage, header: SaveHeaderVersion) -> bool {
    header == SaveHeaderVersion::Core ==> image.width <= 0xFFFF && image.height <= 0xFFFF
}

/// The bitfield masks a format stores, if any.
pub open spec fn spec_format_masks(format: SaveFormat) -> Option<RgbMasks> {
    match format {
        SaveFormat::BitFields16Rgb565 => Some(RgbMasks { red_mask: 0xF800, green_mask: 0x07E0, blue_mask: 0x001F }),
        SaveFormat::BitFields16Rgb555 => Some(RgbMasks { red_mask: 0x7C00, green_mask: 0x03E0, blue_mask: 0x001F }),
        SaveFormat::BitFields32 => Some(
            RgbMasks { red_mask: 0x00FF_0000, green_mask: 0x0000_FF00, blue_mask: 0x0000_00FF },
        ),
        _ => None,
    }
}

/// Returns the bitfield masks a format stores, if any.
fn format_masks(format: SaveFormat) -> (r: Option<RgbMasks>)
    ensures
        r == spec_format_masks(format),
{
    match format {
        SaveFormat::BitFields16Rgb565 => Some(RgbMasks::rgb565()),
        SaveFormat::BitFields16Rgb555 => Some(RgbMasks::rgb555()),
        SaveFormat::BitFields32 => Some(RgbMasks::rgb888()),
        _ => None,
    }
}

/// Whether `b` is the encoding of a validated image in a direct-color
/// format: rows are stored top-down except in CORE bitmaps.
pub open spec fn spec_direct_encoded(
    b: Bmp,
    image: DecodedImage,
    format: SaveFormat,
    header: SaveHeaderVersion,
    source: Option<SourceMetadata>,
) -> bool {
    let w = image.width as int;
    let h = image.height as int;
    let stride = spec_stride(image.width as usize, format.spec_bpp().spec_bit_count())->0;
    spec_built(
        b,
        image.width,
        image.height,
        header,
        source,
        format.spec_bpp(),
        format.spec_compression(),
        (stride * h) as u32,
        spec_format_masks(format),
        Seq::empty(),
        spec_direct_data(format, image.rgba@, w, h, stride as int, header != SaveHeaderVersion::Core),
    )
}

/// The errors of direct-color encoding of a validated image: a row size or
/// pixel data size that overflows, or a file size over `u32::MAX`.
pub open spec fn spec_direct_fails(
    image: DecodedImage,
    format: SaveFormat,
    header: SaveHeaderVersion,
    source: Option<SourceMetadata>,
) -> bool {
    let stride = spec_stride(image.width as usize, format.spec_bpp().spec_bit_count());
    ||| stride is None
    ||| stride->0 * image.height > u32::MAX
    ||| spec_file_size(
        header,
        source,
        format.spec_bpp(),
        spec_format_masks(format),
        0,
        (stride->0 * image.height) as u32,
    ) > u32::MAX
}

/// Encodes a validated image in a direct-color format (16, 24 or 32 bits,
/// plain or with bitfield masks).
fn encode_direct(
    image: &DecodedImage,
    format: SaveFormat,
    header: SaveHeaderVersion,
    source: Option<&SourceMetadata>,
) -> (r: Result<Bmp, EncodeError>)
    requires
        spec_validate_image(*image) is Ok,
        spec_is_direct_format(format),
        header.spec_supports(format),
        spec_fits_header(*image, header),
    ensures
        match r {
            Ok(b) => !spec_direct_fails(*image, format, header, spec_source(source)) && spec_direct_encoded(
                b,
                *image,
                format,
                header,
                spec_source(source),
            ),
            Err(e) => e == EncodeError::ArithmeticOverflow && spec_direct_fails(
                *image,
                format,
                header,
                spec_source(source),
            ),
        },
{
    let w = image.width as usize;
    let h = image.height as usize;
    let bpp = match format {
        SaveFormat::Rgb16 | SaveFormat::BitFields16Rgb565 | SaveFormat::BitFields16Rgb555 => BitsPerPixel::Bpp16,
        SaveFormat::Rgb24 => BitsPerPixel::Bpp24,
        _ => BitsPerPixel::Bpp32,
    };
    let compression = match format {
        SaveFormat::BitFields16Rgb565 | SaveFormat::BitFields16Rgb555 | SaveFormat::BitFields32 => Compression::BitFields,
        _ => Compression::Rgb,
    };
    let stride = row_stride(w, bpp.bit_count())?;
    let size = match stride.checked_mul(h) {
        Some(n) => n,
        None => {
            return Err(EncodeError::ArithmeticOverflow);
        },
    };
    if size > 0xFFFF_FFFF {
        return Err(EncodeError::ArithmeticOverflow);
    }
    let image_size = size as u32;
    let data = direct_pixels(image, format, stride, !matches!(header, SaveHeaderVersion::Core));
    build_bmp(
        image.width,
        image.height,
        header,
        source,
        bpp,
        compression,
        image_size,
        format_masks(format),
        Vec::new(),
        data,
    )
}

/// The palette size an indexed depth allows.
pub open spec fn spec_max_colors(bpp: BitsPerPixel) -> usize {
    match bpp {
        BitsPerPixel::Bpp1 => 2,
        BitsPerPixel::Bpp4 => 16,
        _ => 256,
    }
}

/// The color table entry of an opaque palette color.
pub open spec fn spec_quad_of(c: [u8; 4]) -> RgbQuad {
    RgbQuad { blue: c@[2], green: c@[1], red: c@[0], reserved: 0 }
}

/// The color table of the quantization of `rgba` to at most `max_colors`
/// colors: the mean color of each palette entry's pixels.
pub open spec fn spec_wu_table(rgba: Seq<u8>, max_colors: usize) -> Seq<RgbQuad> {
    Seq::new(
        spec_wu_palette_len(rgba, max_colors as int),
        |k: int|
            {
                let c = spec_class_color(rgba, spec_wu_indices(rgba, max_colors as int), k);
                RgbQuad { blue: c[2], green: c[1], red: c[0], reserved: 0 }
            },
    )
}

/// Whether `table` and `indices` are the quantization of the image to at
/// most `max_colors` colors (`quantize`'s palette as a color table, and its
/// indices).
pub open spec fn spec_quantized_table(rgba: Seq<u8>, max_colors: usize, table: Seq<RgbQuad>, indices: Seq<u8>) -> bool {
    &&& table == spec_wu_table(rgba, max_colors)
    &&& indices == spec_wu_indices(rgba, max_colors as int)
    &&& exists|palette: Seq<[u8; 4]>|
        #![trigger spec_quantized(rgba, max_colors, palette, indices)]
        spec_quantized(rgba, max_colors, palette, indices) && table == palette.map_values(
            |c: [u8; 4]| spec_quad_of(c),
        )
}

/// Quantizes the image to at most `max_colors` colors: the palette as a
/// color table, and one index per pixel.
fn quantize_image(image: &DecodedImage, max_colors: usize) -> (r: (Vec<RgbQuad>, Vec<u8>))
    requires
        2 <= max_colors <= 256,
        image.rgba@.len() / 4 <= MAX_QUANTIZE_PIXELS,
    ensures
        spec_quantized_table(image.rgba@, max_colors, r.0@, r.1@),
{
    let (palette, indices) = match quantize(image.rgba.as_slice(), max_colors) {
        Ok(p) => p,
        Err(_) => {
            assert(false);
            (Vec::new(), Vec::new())
        },
    };
    let mut table: Vec<RgbQuad> = Vec::new();
    let mut i: usize = 0;
    while i < palette.len()
        invariant
            i <= palette@.len(),
            table@ == palette@.subrange(0, i as int).map_values(|c: [u8; 4]| spec_quad_of(c)),
        decreases palette.len() - i,
    {
        let c = palette[i];
        table.push(RgbQuad { blue: c[2], green: c[1], red: c[0], reserved: 0 });
        i += 1;
        assert(table@ =~= palette@.subrange(0, i as int).map_values(|c: [u8; 4]| spec_quad_of(c)));
    }
    assert(palette@.subrange(0, i as int) =~= palette@);
    assert(table@ =~= spec_wu_table(image.rgba@, max_colors)) by {
        assert forall|k: int| 0 <= k < table@.len() implies #[trigger] table@[k] == spec_wu_table(
            image.rgba@,
            max_colors,
        )[k] by {
            assert(palette@[k]@ == spec_class_color(image.rgba@, indices@, k));
        }
    }
    (table, indices)
}

/// Whether `data` stores `indices` as packed rows of `stride` bytes at
/// depth `bpp`: the index the decoder reads for each pixel is the pixel's.
pub open spec fn spec_indices_stored(
    data: Seq<u8>,
    bpp: BitsPerPixel,
    stride: int,
    width: int,
    height: int,
    top_down: bool,
    indices: Seq<u8>,
) -> bool {
    &&& data.len() == stride * height
    &&& forall|y: int, x: int|
        0 <= y < height && 0 <= x < width ==> #[trigger] spec_index_at(
            data,
            bpp,
            spec_src_row(y, height, top_down) * stride,
            x,
        ) == indices[y * width + x] as int
}

/// The byte of a row that holds pixel `x` at depth `bpp`.
pub open spec fn spec_index_byte(bpp: BitsPerPixel, x: int) -> int {
    match bpp {
        BitsPerPixel::Bpp1 => x / 8,
        BitsPerPixel::Bpp4 => x / 2,
        _ => x,
    }
}

/// Bytes of a row holding the first `x` pixels at depth `bpp`.
pub open spec fn spec_bytes_used(bpp: BitsPerPixel, x: int) -> int {
    match bpp {
        BitsPerPixel::Bpp1 => (x + 7) / 8,
        BitsPerPixel::Bpp4 => (x + 1) / 2,
        _ => x,
    }
}

/// The bits of the byte holding pixel `x` that belong to pixels at or
/// after `x` are clear.
pub open spec fn spec_tail_clear(byte: u8, bpp: BitsPerPixel, x: int) -> bool {
    match bpp {
        BitsPerPixel::Bpp1 => if x % 8 == 0 {
            byte == 0
        } else {
            byte & (0xffu8 >> ((x % 8) as u8)) == 0
        },
        BitsPerPixel::Bpp4 => if x % 2 == 0 {
            byte == 0
        } else {
            byte & 0x0fu8 == 0
        },
        _ => true,
    }
}

/// The index of pixel `x` read from the byte that holds it.
pub open spec fn spec_extract(byte: u8, bpp: BitsPerPixel, x: int) -> int {
    match bpp {
        BitsPerPixel::Bpp1 => ((byte >> ((7 - x % 8) as u8)) & 1u8) as int,
        BitsPerPixel::Bpp4 => if x % 2 == 0 {
            (byte >> 4u8) as int
        } else {
            (byte & 0x0fu8) as int
        },
        _ => byte as int,
    }
}

/// The byte holding pixel `x` after index `idx` is packed into it.
pub open spec fn spec_packed_byte(b: u8, bpp: BitsPerPixel, x: int, idx: u8) -> u8 {
    match bpp {
        BitsPerPixel::Bpp1 => b | (idx << ((7 - x % 8) as u8)),
        BitsPerPixel::Bpp4 => if x % 2 == 0 {
            b | ((idx & 0x0f) << 4u8)
        } else {
            b | (idx & 0x0f)
        },
        _ => idx,
    }
}

/// The decoder reads pixel `x` from the byte that holds it.
proof fn lemma_index_at_extract(data: Seq<u8>, bpp: BitsPerPixel, row: int, x: int)
    requires
        bpp == BitsPerPixel::Bpp1 || bpp == BitsPerPixel::Bpp4 || bpp == BitsPerPixel::Bpp8,
    ensures
        spec_index_at(data, bpp, row, x) == spec_extract(data[row + spec_index_byte(bpp, x)], bpp, x),
{
}

/// Packing index `idx` for pixel `x` into a byte whose bits for pixels
/// from `x` on are clear stores it, keeps the pixels before `x` in the
/// same byte, and leaves the bits after it clear.
proof fn lemma_pack_step(b: u8, bpp: BitsPerPixel, x: int, idx: u8, xx: int)
    requires
        bpp == BitsPerPixel::Bpp1 || bpp == BitsPerPixel::Bpp4 || bpp == BitsPerPixel::Bpp8,
        (idx as int) < spec_max_colors(bpp),
        0 <= xx <= x,
        spec_index_byte(bpp, xx) == spec_index_byte(bpp, x),
        spec_tail_clear(b, bpp, x),
    ensures
        xx == x ==> spec_extract(spec_packed_byte(b, bpp, x, idx), bpp, x) == idx,
        xx < x ==> spec_extract(spec_packed_byte(b, bpp, x, idx), bpp, xx) == spec_extract(b, bpp, xx),
        spec_index_byte(bpp, x + 1) == spec_index_byte(bpp, x) ==> spec_tail_clear(
            spec_packed_byte(b, bpp, x, idx),
            bpp,
            x + 1,
        ),
{
    if bpp == BitsPerPixel::Bpp4 {
        assert(b & 0x0f == 0 ==> (b | (idx & 0x0f)) >> 4u8 == b >> 4u8) by (bit_vector);
        assert(b & 0x0f == 0 ==> (b | (idx & 0x0f)) & 0x0f == idx) by (bit_vector)
            requires
                idx < 16,
        ;
        assert((b | ((idx & 0x0f) << 4u8)) & 0x0f == b & 0x0f) by (bit_vector);
        assert(b == 0 ==> b & 0x0f == 0) by (bit_vector);
        if x % 2 == 0 {
            assert(b == 0 ==> (b | ((idx & 0x0f) << 4u8)) >> 4u8 == idx) by (bit_vector)
                requires
                    idx < 16,
            ;
            assert(xx == x);
        } else {
            assert(xx == x || (xx == x - 1 && xx % 2 == 0));
        }
    } else if bpp == BitsPerPixel::Bpp1 {
        let s: u8 = (x % 8) as u8;
        let t: u8 = (xx % 8) as u8;
        assert(((7 - x % 8) as u8) == ((7 - s) as u8));
        assert(((7 - xx % 8) as u8) == ((7 - t) as u8));
        assert(t <= s);
        assert(b & (0xffu8 >> s) == 0 ==> ((b | (idx << ((7 - s) as u8))) >> ((7 - s) as u8)) & 1 == idx) by (bit_vector)
            requires
                idx < 2,
                s < 8,
        ;
        assert(t < s ==> ((b | (idx << ((7 - s) as u8))) >> ((7 - t) as u8)) & 1 == (b >> ((7 - t) as u8)) & 1) by (bit_vector)
            requires
                idx < 2,
                s < 8,
        ;
        assert(b & (0xffu8 >> s) == 0 && s + 1 < 8 ==> (b | (idx << ((7 - s) as u8))) & (0xffu8 >> ((s + 1) as u8)) == 0) by (bit_vector)
            requires
                idx < 2,
                s < 8,
        ;
        assert(s == 0 ==> b & (0xffu8 >> s) == b) by (bit_vector);
        assert(b == 0 ==> b & (0xffu8 >> s) == 0) by (bit_vector);
        if x % 8 == 0 {
            assert(b == 0);
        }
        assert(b & (0xffu8 >> s) == 0);
        if spec_index_byte(bpp, x + 1) == spec_index_byte(bpp, x) {
            assert(s + 1 < 8);
            assert(((x + 1) % 8) as u8 == ((s + 1) as u8));
        }
    } else {
        assert(xx == x);
    }
}

/// Packs quantized indices as 1, 4 or 8-bit rows of `stride` bytes, top-down
/// or bottom-up.
fn pack_indices(
    indices: &[u8],
    bpp: BitsPerPixel,
    width: usize,
    height: usize,
    stride: usize,
    top_down: bool,
) -> (r: Vec<u8>)
    requires
        bpp == BitsPerPixel::Bpp1 || bpp == BitsPerPixel::Bpp4 || bpp == BitsPerPixel::Bpp8,
        width >= 1,
        height >= 1,
        indices@.len() == width * height,
        forall|i: int| 0 <= i < indices@.len() ==> (#[trigger] indices@[i] as int) < spec_max_colors(bpp),
        spec_row_stride(width, bpp.spec_bit_count()) == Ok::<usize, crate::runtime::decode::DecodeError>(stride),
        stride * height <= usize::MAX,
    ensures
        spec_indices_stored(r@, bpp, stride as int, width as int, height as int, top_down, indices@),
{
    let ghost bits = bpp.spec_bit_count() as int;
    let total = stride * height;
    let _n = indices.len();
    let mut out: Vec<u8> = vec![0u8; total];
    assert forall|k: int| 0 <= k < total implies #[trigger] out@[k] == 0u8 by {}
    let mut r: usize = 0;
    while r < height
        invariant
            bpp == BitsPerPixel::Bpp1 || bpp == BitsPerPixel::Bpp4 || bpp == BitsPerPixel::Bpp8,
            bits == bpp.spec_bit_count(),
            width >= 1,
            indices@.len() == width * height,
            width * height <= usize::MAX,
            forall|i: int| 0 <= i < indices@.len() ==> (#[trigger] indices@[i] as int) < spec_max_colors(bpp),
            spec_row_stride(width, bpp.spec_bit_count()) == Ok::<usize, crate::runtime::decode::DecodeError>(stride),
            total == stride * height,
            r <= height,
            out@.len() == total,
            forall|k: int| r * stride <= k < total ==> #[trigger] out@[k] == 0u8,
            forall|rr: int, x: int|
                0 <= rr < r && 0 <= x < width ==> #[trigger] spec_index_at(out@, bpp, rr * stride, x)
                    == indices@[spec_src_row(rr, height as int, top_down) * width + x] as int,
        decreases height - r,
    {
        proof {
            lemma_row_bounds(height as int, stride as int, r as int);
        }
        let y = if top_down {
            r
        } else {
            height - 1 - r
        };
        let row = r * stride;
        let mut x: usize = 0;
        while x < width
            invariant
                bpp == BitsPerPixel::Bpp1 || bpp == BitsPerPixel::Bpp4 || bpp == BitsPerPixel::Bpp8,
                bits == bpp.spec_bit_count(),
                indices@.len() == width * height,
                width * height <= usize::MAX,
                forall|i: int| 0 <= i < indices@.len() ==> (#[trigger] indices@[i] as int) < spec_max_colors(bpp),
                spec_row_stride(width, bpp.spec_bit_count()) == Ok::<usize, crate::runtime::decode::DecodeError>(stride),
                total == stride * height,
                r < height,
                y == spec_src_row(r as int, height as int, top_down),
                row == r * stride,
                row + stride <= total,
                x <= width,
                out@.len() == total,
                forall|k: int| row + spec_bytes_used(bpp, x as int) <= k < total ==> #[trigger] out@[k] == 0u8,
                x < width ==> spec_tail_clear(out@[row + spec_index_byte(bpp, x as int)], bpp, x as int),
                forall|rr: int, xx: int|
                    0 <= rr < r && 0 <= xx < width ==> #[trigger] spec_index_at(out@, bpp, rr * stride, xx)
                        == indices@[spec_src_row(rr, height as int, top_down) * width + xx] as int,
                forall|xx: int|
                    0 <= xx < x ==> #[trigger] spec_index_at(out@, bpp, row as int, xx) == indices@[y * width + xx] as int,
            decreases width - x,
        {
            proof {
                lemma_stride_covers(width as int, bits, stride as int, x as int);
                lemma_pixel_bounds(width as int, height as int, x as int, y as int);
            }
            let idx = indices[y * width + x];
            let ghost before = out@;
            let ghost pos_i: int = row + spec_index_byte(bpp, x as int);
            let ghost old_byte: u8 = out@[pos_i];
            assert(0 <= spec_index_byte(bpp, x as int) < stride);
            match bpp {
                BitsPerPixel::Bpp8 => {
                    out.set(row + x, idx);
                },
                BitsPerPixel::Bpp4 => {
                    let pos = row + x / 2;
                    let b = out[pos];
                    if x % 2 == 0 {
                        out.set(pos, b | ((idx & 0x0f) << 4));
                    } else {
                        out.set(pos, b | (idx & 0x0f));
                    }
                },
                _ => {
                    let pos = row + x / 8;
                    let bit = (7 - (x % 8)) as u8;
                    let b = out[pos];
                    proof {
                        assert(idx < 2);
                        assert((idx & 1 != 0) == (idx == 1)) by (bit_vector)
                            requires
                                idx < 2,
                        ;
                        assert(b | (0u8 << bit) == b) by (bit_vector);
                    }
                    if idx & 1 != 0 {
                        out.set(pos, b | (1u8 << bit));
                    }
                },
            }
            proof {
                assert(out@ == before.update(pos_i, spec_packed_byte(old_byte, bpp, x as int, idx)));
                assert forall|rr: int, xx: int|
                    0 <= rr < r && 0 <= xx < width implies #[trigger] spec_index_at(out@, bpp, rr * stride, xx)
                    == indices@[spec_src_row(rr, height as int, top_down) * width + xx] as int by {
                    lemma_stride_covers(width as int, bits, stride as int, xx);
                    assert(rr * stride + stride <= r * stride) by (nonlinear_arith)
                        requires
                            rr < r,
                            stride >= 0,
                    ;
                    assert(spec_index_at(out@, bpp, rr * stride, xx) == spec_index_at(before, bpp, rr * stride, xx));
                }
                assert forall|xx: int| 0 <= xx < x + 1 implies #[trigger] spec_index_at(out@, bpp, row as int, xx)
                    == indices@[y * width + xx] as int by {
                    lemma_stride_covers(width as int, bits, stride as int, xx);
                    lemma_index_at_extract(out@, bpp, row as int, xx);
                    lemma_index_at_extract(before, bpp, row as int, xx);
                    if row + spec_index_byte(bpp, xx) == pos_i {
                        lemma_pack_step(old_byte, bpp, x as int, idx, xx);
                    }
                }
                if x + 1 < width {
                    lemma_stride_covers(width as int, bits, stride as int, x + 1);
                    if spec_index_byte(bpp, x + 1) == spec_index_byte(bpp, x as int) {
                        lemma_pack_step(old_byte, bpp, x as int, idx, x as int);
                    } else {
                        assert(spec_index_byte(bpp, x + 1) == spec_bytes_used(bpp, x + 1) || spec_index_byte(bpp, x + 1) >= spec_bytes_used(bpp, x as int));
                    }
                }
            }
            x += 1;
        }
        proof {
            lemma_stride_covers(width as int, bits, stride as int, width - 1);
            assert((r + 1) * stride == row + stride) by (nonlinear_arith)
                requires
                    row == r * stride,
            ;
            assert forall|rr: int, xx: int|
                0 <= rr < r + 1 && 0 <= xx < width implies #[trigger] spec_index_at(out@, bpp, rr * stride, xx)
                == indices@[spec_src_row(rr, height as int, top_down) * width + xx] as int by {
                if rr == r {
                    assert(rr * stride == row);
                }
            }
        }
        r += 1;
    }
    assert(height * stride == total) by (nonlinear_arith)
        requires
            total == stride * height,
    ;
    assert forall|yy: int, x: int|
        0 <= yy < height && 0 <= x < width implies #[trigger] spec_index_at(
            out@,
            bpp,
            spec_src_row(yy, height as int, top_down) * stride,
            x,
        ) == indices@[yy * width + x] as int by {
        let rr = spec_src_row(yy, height as int, top_down);
        assert(spec_src_row(rr, height as int, top_down) == yy);
    }
    out
}

/// The stride, image size and file size checks of an indexed encoding,
/// with a color table of `table_len` entries; `true` when one fails.
pub open spec fn spec_indexed_fails(
    image: DecodedImage,
    bpp: BitsPerPixel,
    header: SaveHeaderVersion,
    source: Option<SourceMetadata>,
    table_len: nat,
) -> bool {
    let stride = spec_stride(image.width as usize, bpp.spec_bit_count());
    ||| image.width as int * image.height as int > MAX_QUANTIZE_PIXELS
    ||| stride is None
    ||| stride->0 * image.height > u32::MAX
    ||| spec_file_size(header, source, bpp, None, table_len, (stride->0 * image.height) as u32) > u32::MAX
}

/// Whether `b` is an indexed encoding of the image: the palette of its
/// quantization (`spec_wu_table`) as color table, and the quantization's
/// indices (`spec_wu_indices`) packed in rows, top-down except in CORE
/// bitmaps.
pub open spec fn spec_indexed_encoded(
    b: Bmp,
    image: DecodedImage,
    bpp: BitsPerPixel,
    header: SaveHeaderVersion,
    source: Option<SourceMetadata>,
) -> bool {
    let stride = spec_stride(image.width as usize, bpp.spec_bit_count())->0;
    exists|table: Seq<RgbQuad>, indices: Seq<u8>|
        #![trigger spec_quantized_table(image.rgba@, spec_max_colors(bpp), table, indices)]
        spec_quantized_table(image.rgba@, spec_max_colors(bpp), table, indices) && !spec_indexed_fails(
            image,
            bpp,
            header,
            source,
            table.len(),
        ) && spec_indices_stored(
            b.spec_bitmap_array(),
            bpp,
            stride as int,
            image.width as int,
            image.height as int,
            header != SaveHeaderVersion::Core,
            indices,
        ) && spec_built(
            b,
            image.width,
            image.height,
            header,
            source,
            bpp,
            Compression::Rgb,
            (stride * image.height) as u32,
            None,
            table,
            b.spec_bitmap_array(),
        )
}

/// The quantized indices of a validated image fit the depth.
pub(crate) proof fn lemma_quantized_indices(rgba: Seq<u8>, max_colors: usize, table: Seq<RgbQuad>, indices: Seq<u8>)
    requires
        spec_quantized_table(rgba, max_colors, table, indices),
    ensures
        1 <= table.len() <= max_colors,
        indices.len() == rgba.len() / 4,
        forall|i: int| 0 <= i < indices.len() ==> (#[trigger] indices[i] as int) < table.len(),
{
    let palette = choose|palette: Seq<[u8; 4]>|
        spec_quantized(rgba, max_colors, palette, indices) && table == palette.map_values(
            |c: [u8; 4]| spec_quad_of(c),
        );
    assert(table.len() == palette.len());
}

/// Encodes a validated image as uncompressed 1, 4 or 8-bit palette
/// indices.
fn encode_indexed_rgb(
    image: &DecodedImage,
    bpp: BitsPerPixel,
    header: SaveHeaderVersion,
    source: Option<&SourceMetadata>,
) -> (r: Result<Bmp, EncodeError>)
    requires
        spec_validate_image(*image) is Ok,
        bpp == BitsPerPixel::Bpp1 || bpp == BitsPerPixel::Bpp4 || bpp == BitsPerPixel::Bpp8,
        spec_fits_header(*image, header),
    ensures
        match r {
            Ok(b) => spec_indexed_encoded(b, *image, bpp, header, spec_source(source)),
            Err(e) => e == EncodeError::ArithmeticOverflow && spec_indexed_fails(
                *image,
                bpp,
                header,
                spec_source(source),
                spec_max_colors(bpp) as nat,
            ),
        },
        spec_indexed_fails(*image, bpp, header, spec_source(source), 1) ==> r is Err,
{
    let w = image.width as usize;
    let h = image.height as usize;
    let max_colors: usize = match bpp {
        BitsPerPixel::Bpp1 => 2,
        BitsPerPixel::Bpp4 => 16,
        _ => 256,
    };
    if w * h > MAX_QUANTIZE_PIXELS {
        return Err(EncodeError::ArithmeticOverflow);
    }
    let stride = row_stride(w, bpp.bit_count())?;
    let size = match stride.checked_mul(h) {
        Some(n) => n,
        None => {
            return Err(EncodeError::ArithmeticOverflow);
        },
    };
    if size > 0xFFFF_FFFF {
        return Err(EncodeError::ArithmeticOverflow);
    }
    let (color_table, indices) = quantize_image(image, max_colors);
    proof {
        lemma_quantized_indices(image.rgba@, max_colors, color_table@, indices@);
        assert(indices@.len() == w * h);
    }
    let data = pack_indices(indices.as_slice(), bpp, w, h, stride, !matches!(header, SaveHeaderVersion::Core));
    let ghost table = color_table@;
    let ghost data_v = data@;
    let r = build_bmp(
        image.width,
        image.height,
        header,
        source,
        bpp,
        Compression::Rgb,
        size as u32,
        None,
        color_table,
        data,
    );
    proof {
        if r is Ok {
            assert(spec_quantized_table(image.rgba@, spec_max_colors(bpp), table, indices@));
        }
    }
    r
}

/// The two nibbles of a packed byte read back.
proof fn lemma_nibbles(h: u8, l: u8)
    by (bit_vector)
    requires
        h < 16,
        l < 16,
    ensures
        ((h << 4u8) | l) >> 4u8 == h,
        ((h << 4u8) | l) & 0x0fu8 == l,
        h & 0x0fu8 == h,
{
}

/// The value byte of a run of index `v`: the index itself, or in 4-bit
/// streams the index in both nibbles.
pub open spec fn spec_run_byte(v: u8, four: bool) -> u8 {
    if four {
        ((v << 4u8) | v) as u8
    } else {
        v
    }
}

/// The length of the run of equal indices starting at `x`, counted from `k`
/// and capped at 255.
pub open spec fn spec_run_len(row: Seq<u8>, x: int, k: int) -> int
    decreases 255 - k,
{
    if k < 255 && x + k < row.len() && row[x + k] == row[x] {
        spec_run_len(row, x, k + 1)
    } else {
        k
    }
}

/// How many equal indices, up to 3, start at `p`.
pub open spec fn spec_same_ahead(row: Seq<u8>, p: int) -> int {
    if p + 1 < row.len() && row[p + 1] == row[p] {
        if p + 2 < row.len() && row[p + 2] == row[p] {
            3
        } else {
            2
        }
    } else {
        1
    }
}

/// The length of the stretch starting at `x` that is written without
/// encoded runs: it ends at the row's end, at 255 indices, or before an
/// index that starts three equal ones.
pub open spec fn spec_abs_len(row: Seq<u8>, x: int, k: int) -> int
    decreases 255 - k,
{
    if x + k < row.len() && k < 255 && !(spec_same_ahead(row, x + k) >= 3 && k > 0) {
        spec_abs_len(row, x, k + 1)
    } else {
        k
    }
}

/// The first `n` indices from `x`, each written as a run of one.
pub open spec fn spec_short_runs(row: Seq<u8>, x: int, n: int, four: bool) -> Seq<u8>
    decreases n,
{
    if n <= 0 {
        Seq::empty()
    } else {
        spec_short_runs(row, x, n - 1, four) + seq![1u8, spec_run_byte(row[x + n - 1], four)]
    }
}

/// The payload of an absolute run of `n` indices from `x`: the indices, or
/// in 4-bit streams two per byte, high nibble first.
pub open spec fn spec_abs_payload(row: Seq<u8>, x: int, n: int, four: bool) -> Seq<u8> {
    if four {
        Seq::new(
            ((n + 1) / 2) as nat,
            |b: int|
                (((row[x + 2 * b] & 0x0fu8) << 4u8) | (if 2 * b + 1 < n {
                    row[x + 2 * b + 1] & 0x0fu8
                } else {
                    0u8
                })) as u8,
        )
    } else {
        row.subrange(x, x + n)
    }
}

/// A zero byte when `len` is odd, keeping absolute runs word-aligned.
pub open spec fn spec_pad(len: int) -> Seq<u8> {
    if len % 2 != 0 {
        seq![0u8]
    } else {
        Seq::empty()
    }
}

/// The run length never falls below its start and never runs past the row
/// or 255.
pub proof fn lemma_run_len_bounds(row: Seq<u8>, x: int, k: int)
    requires
        0 <= x,
        1 <= k <= 255,
        x + k <= row.len(),
    ensures
        k <= spec_run_len(row, x, k) <= 255,
        x + spec_run_len(row, x, k) <= row.len(),
    decreases 255 - k,
{
    if k < 255 && x + k < row.len() && row[x + k] == row[x] {
        lemma_run_len_bounds(row, x, k + 1);
    }
}

/// The absolute stretch length stays between its start and the row's end,
/// and is at least one from the start of the row's remainder.
pub proof fn lemma_abs_len_bounds(row: Seq<u8>, x: int, k: int)
    requires
        0 <= x,
        0 <= k <= 255,
        x + k <= row.len(),
    ensures
        k <= spec_abs_len(row, x, k) <= 255,
        x + spec_abs_len(row, x, k) <= row.len(),
        k == 0 && x < row.len() ==> spec_abs_len(row, x, k) >= 1,
    decreases 255 - k,
{
    if x + k < row.len() && k < 255 && !(spec_same_ahead(row, x + k) >= 3 && k > 0) {
        lemma_abs_len_bounds(row, x, k + 1);
    }
}

/// The RLE bytes of a row from index `x` on: a run of three or more equal
/// indices (at most 255) becomes an encoded run; otherwise the stretch up
/// to the next such run (at most 255 indices) becomes one absolute run,
/// word-aligned, or runs of one when it is shorter than three.
pub open spec fn spec_rle_row(row: Seq<u8>, x: int, four: bool) -> Seq<u8>
    decreases row.len() - x,
{
    if x < 0 || x >= row.len() {
        Seq::empty()
    } else {
        let run = spec_run_len(row, x, 1);
        let a = spec_abs_len(row, x, 0);
        proof {
            lemma_run_len_bounds(row, x, 1);
            lemma_abs_len_bounds(row, x, 0);
        }
        if run >= 3 {
            seq![run as u8, spec_run_byte(row[x], four)] + spec_rle_row(row, x + run, four)
        } else if a < 3 {
            spec_short_runs(row, x, a, four) + spec_rle_row(row, x + a, four)
        } else {
            seq![0u8, a as u8] + spec_abs_payload(row, x, a, four) + spec_pad(
                spec_abs_payload(row, x, a, four).len() as int,
            ) + spec_rle_row(row, x + a, four)
        }
    }
}

/// Row `y` of `width` indices.
pub open spec fn spec_index_row(ix: Seq<u8>, width: int, y: int) -> Seq<u8> {
    ix.subrange(y * width, y * width + width)
}

/// The RLE bytes of the bottom `n` rows, bottom row first, each but the
/// top image row followed by an end-of-line.
pub open spec fn spec_rle_rows(ix: Seq<u8>, width: int, height: int, four: bool, n: int) -> Seq<u8>
    decreases n,
{
    if n <= 0 {
        Seq::empty()
    } else {
        let y = height - n;
        spec_rle_rows(ix, width, height, four, n - 1) + spec_rle_row(spec_index_row(ix, width, y), 0, four) + (
        if y > 0 {
            seq![0u8, 0u8]
        } else {
            Seq::empty()
        })
    }
}

/// The RLE stream of an image of palette indices: every row, bottom first,
/// then the end-of-bitmap.
pub open spec fn spec_rle_stream(ix: Seq<u8>, width: int, height: int, four: bool) -> Seq<u8> {
    spec_rle_rows(ix, width, height, four, height) + seq![0u8, 1u8]
}

/// Run-length encodes rows of palette indices, bottom row first: runs of
/// three or more equal indices become encoded runs (at most 255 long),
/// other stretches absolute runs (or single-pixel runs when shorter than
/// three), rows end with an end-of-line marker except the last, and the
/// stream ends with an end-of-bitmap marker. In 4-bit mode indices are
/// nibbles. Decoding the stream bottom-up with any palette that covers the
/// indices paints every pixel with its index's color.
#[verifier::rlimit(100)]
#[verifier::spinoff_prover]
fn rle_stream(
    indices: &[u8],
    width: usize,
    height: usize,
    four: bool,
    Ghost(palette): Ghost<Seq<[u8; 4]>>,
) -> (data: Vec<u8>)
    requires
        width >= 1,
        height >= 1,
        indices@.len() == width * height,
        four ==> forall|i: int| 0 <= i < indices@.len() ==> (#[trigger] indices@[i]) < 16,
        spec_indices_in(indices@, palette),
    ensures
        data@.len() >= 2,
        data@.len() <= 2 * width * height + 2 * height + 2,
        data@[data@.len() - 2] == 0 && data@[data@.len() - 1] == 1,
        data@ == spec_rle_stream(indices@, width as int, height as int, four),
        spec_rle_from(
            data@,
            four,
            width as int,
            height as int,
            false,
            palette,
            0,
            0,
            0,
            spec_zeros(width as int, height as int),
        ) == Ok::<Seq<u8>, DecodeError>(spec_indexed_rgba(indices@, palette, width as int, height as int)),
{
    let ghost w = width as int;
    let ghost hh = height as int;
    let ghost ix = indices@;
    let total = indices.len();
    let mut out: Vec<u8> = Vec::new();
    proof {
        assert(total == width * height);
        lemma_resumes_start(ix, palette, four, w, hh);
    }
    let mut ys: usize = 0;
    let ghost mut acc: int = 0;
    while ys < height
        invariant
            acc == ys * width,
            out@.len() <= 2 * acc + 2 * ys,
            out@ == spec_rle_rows(ix, w, hh, four, ys as int),
            width >= 1,
            height >= 1,
            w == width,
            hh == height,
            ix == indices@,
            indices@.len() == width * height,
            width * height <= usize::MAX,
            ys <= height,
            four ==> forall|i: int| 0 <= i < indices@.len() ==> (#[trigger] indices@[i]) < 16,
            spec_indices_in(ix, palette),
            ys < height ==> spec_resumes(out@, ix, palette, four, w, hh, 0, ys as int),
            ys == height ==> spec_resumes(out@, ix, palette, four, w, hh, w, hh - 1),
        decreases height - ys,
    {
        let y = height - 1 - ys;
        proof {
            lemma_pixel_bounds(width as int, height as int, 0, y as int);
            assert(y * width + width <= width * height) by (nonlinear_arith)
                requires
                    y < height,
                    width >= 1,
            ;
        }
        let base = y * width;
        let ghost row = spec_index_row(ix, w, y as int);
        let ghost start = out@;
        assert(row.len() == w);
        let mut x: usize = 0;
        while x < width
            invariant
                width >= 1,
                w == width,
                hh == height,
                ix == indices@,
                indices@.len() == width * height,
                width * height <= usize::MAX,
                base + width <= width * height,
                base == (hh - 1 - ys) * w,
                ys < height,
                x <= width,
                acc == ys * width,
                out@.len() <= 2 * acc + 2 * x + 2 * ys,
                row == indices@.subrange(base as int, base + width),
                start == spec_rle_rows(ix, w, hh, four, ys as int),
                out@ + spec_rle_row(row, x as int, four) == start + spec_rle_row(row, 0, four),
                four ==> forall|i: int| 0 <= i < indices@.len() ==> (#[trigger] indices@[i]) < 16,
                spec_indices_in(ix, palette),
                spec_resumes(out@, ix, palette, four, w, hh, x as int, ys as int),
            decreases width - x,
        {
            let val = indices[base + x];
            let mut run_len: usize = 1;
            while x + run_len < width && indices[base + x + run_len] == val && run_len < 255
                invariant
                    indices@.len() == width * height,
                    width * height <= usize::MAX,
                    base + width <= width * height,
                    x < width,
                    1 <= run_len <= 255,
                    x + run_len <= width,
                    val == indices@[base + x],
                    forall|j: int| base + x <= j < base + x + run_len ==> #[trigger] indices@[j] == val,
                    row == indices@.subrange(base as int, base + width),
                    spec_run_len(row, x as int, run_len as int) == spec_run_len(row, x as int, 1),
                decreases 255 - run_len,
            {
                run_len += 1;
            }
            proof {
                if x + run_len < width {
                    assert(row[x + run_len as int] == indices@[base + x + run_len]);
                }
                assert(row[x as int] == val);
                assert(spec_run_len(row, x as int, run_len as int) == run_len);
                lemma_run_len_bounds(row, x as int, 1);
                lemma_abs_len_bounds(row, x as int, 0);
            }
            let ghost xs = out@;
            if run_len >= 3 {
                let ghost s0 = out@;
                let byte = if four {
                    (val << 4) | val
                } else {
                    val
                };
                proof {
                    if four {
                        assert(val < 16);
                        lemma_nibbles(val, val);
                    }
                }
                out.push(run_len as u8);
                out.push(byte);
                proof {
                    assert(out@ =~= s0 + seq![run_len as u8, byte]);
                    lemma_step_run(s0, ix, palette, four, w, hh, x as int, ys as int, run_len as u8, byte, val as int);
                    assert(byte == spec_run_byte(row[x as int], four));
                    assert(spec_rle_row(row, x as int, four) == seq![run_len as u8, byte] + spec_rle_row(
                        row,
                        x + run_len,
                        four,
                    ));
                    assert(out@ + spec_rle_row(row, x + run_len, four) =~= s0 + spec_rle_row(row, x as int, four));
                }
                x += run_len;
            } else {
                let abs_start = x;
                let mut abs_len: usize = 0;
                let mut stop = false;
                while x + abs_len < width && abs_len < 255 && !stop
                    invariant
                        indices@.len() == width * height,
                        width * height <= usize::MAX,
                        base + width <= width * height,
                        x < width,
                        abs_len <= 255,
                        x + abs_len <= width,
                        stop ==> abs_len > 0,
                        row == indices@.subrange(base as int, base + width),
                        !stop ==> spec_abs_len(row, x as int, abs_len as int) == spec_abs_len(row, x as int, 0),
                        stop ==> abs_len == spec_abs_len(row, x as int, 0),
                    decreases 255 - abs_len, if stop {
                        0int
                    } else {
                        1int
                    },
                {
                    let pos = x + abs_len;
                    let cur = indices[base + pos];
                    let same1 = pos + 1 < width && indices[base + pos + 1] == cur;
                    let same2 = same1 && pos + 2 < width && indices[base + pos + 2] == cur;
                    let same_ahead: usize = if same2 {
                        3
                    } else if same1 {
                        2
                    } else {
                        1
                    };
                    proof {
                        assert(row[pos as int] == cur);
                        if pos + 1 < width {
                            assert(row[pos + 1] == indices@[base + pos + 1]);
                        }
                        if pos + 2 < width {
                            assert(row[pos + 2] == indices@[base + pos + 2]);
                        }
                        assert(same_ahead == spec_same_ahead(row, pos as int));
                    }
                    if same_ahead >= 3 && abs_len > 0 {
                        stop = true;
                    } else {
                        abs_len += 1;
                    }
                }
                assert(abs_len == spec_abs_len(row, x as int, 0));
                assert(spec_run_len(row, x as int, 1) < 3);
                if abs_len < 3 {
                    let mut i: usize = 0;
                    while i < abs_len
                        invariant
                            row == indices@.subrange(base as int, base + width),
                            out@ == xs + spec_short_runs(row, abs_start as int, i as int, four),
                            w == width,
                            hh == height,
                            ix == indices@,
                            indices@.len() == width * height,
                            width * height <= usize::MAX,
                            base + width <= width * height,
                            base == (hh - 1 - ys) * w,
                            ys < height,
                            abs_start + abs_len <= width,
                            i <= abs_len,
                            out@.len() <= 2 * acc + 2 * (abs_start + i) + 2 * ys,
                            four ==> forall|i: int| 0 <= i < indices@.len() ==> (#[trigger] indices@[i]) < 16,
                            spec_indices_in(ix, palette),
                            spec_resumes(out@, ix, palette, four, w, hh, abs_start + i, ys as int),
                        decreases abs_len - i,
                    {
                        let v = indices[base + abs_start + i];
                        let ghost s0 = out@;
                        let byte = if four {
                            (v << 4) | v
                        } else {
                            v
                        };
                        proof {
                            if four {
                                assert(v < 16);
                                lemma_nibbles(v, v);
                            }
                        }
                        out.push(1);
                        out.push(byte);
                        proof {
                            assert(out@ =~= s0 + seq![1u8, byte]);
                            lemma_step_run(s0, ix, palette, four, w, hh, abs_start + i, ys as int, 1u8, byte, v as int);
                            assert(row[abs_start + i] == v);
                            assert(out@ =~= xs + spec_short_runs(row, abs_start as int, i + 1, four));
                        }
                        i += 1;
                    }
                    proof {
                        assert(spec_rle_row(row, x as int, four) == spec_short_runs(row, x as int, abs_len as int, four)
                            + spec_rle_row(row, x + abs_len, four));
                        assert(out@ + spec_rle_row(row, x + abs_len, four) =~= xs + spec_rle_row(
                            row,
                            x as int,
                            four,
                        ));
                    }
                } else {
                    let ghost s0 = out@;
                    out.push(0);
                    out.push(abs_len as u8);
                    let ghost s1 = out@;
                    let ghost bytes: int = spec_abs_bytes(four, abs_len as int);
                    if four {
                        let bytes_needed = (abs_len + 1) / 2;
                        let mut b: usize = 0;
                        while b < bytes_needed
                            invariant
                                ix == indices@,
                                indices@.len() == width * height,
                                width * height <= usize::MAX,
                                base + width <= width * height,
                                abs_start + abs_len <= width,
                                bytes_needed == (abs_len + 1) / 2,
                                b <= bytes_needed,
                                row == indices@.subrange(base as int, base + width),
                                out@.subrange(s1.len() as int, out@.len() as int) == spec_abs_payload(
                                    row,
                                    abs_start as int,
                                    abs_len as int,
                                    true,
                                ).subrange(0, b as int),
                                forall|i: int| 0 <= i < indices@.len() ==> (#[trigger] indices@[i]) < 16,
                                out@.len() == s1.len() + b,
                                out@.subrange(0, s1.len() as int) == s1,
                                forall|q: int|
                                    0 <= q < abs_len && q < 2 * b ==> #[trigger] spec_abs_index(
                                        out@.subrange(s1.len() as int, out@.len() as int),
                                        true,
                                        0,
                                        q,
                                    ) == indices@[base + abs_start + q] as int,
                            decreases bytes_needed - b,
                        {
                            let hi = indices[base + abs_start + b * 2] & 0x0f;
                            let lo = if abs_start + b * 2 + 1 < abs_start + abs_len {
                                indices[base + abs_start + b * 2 + 1] & 0x0f
                            } else {
                                0
                            };
                            let ghost prev = out@;
                            proof {
                                let h0 = indices@[base + abs_start + b * 2];
                                lemma_nibbles(h0, 0);
                                if abs_start + b * 2 + 1 < abs_start + abs_len {
                                    lemma_nibbles(indices@[base + abs_start + b * 2 + 1], 0);
                                }
                                lemma_nibbles(hi, lo);
                            }
                            out.push((hi << 4) | lo);
                            proof {
                                let p_old = prev.subrange(s1.len() as int, prev.len() as int);
                                let p_new = out@.subrange(s1.len() as int, out@.len() as int);
                                assert(p_new =~= p_old.push((hi << 4) | lo));
                                assert(out@.subrange(0, s1.len() as int) =~= s1);
                                assert forall|q: int|
                                    0 <= q < abs_len && q < 2 * (b + 1) implies #[trigger] spec_abs_index(
                                    p_new,
                                    true,
                                    0,
                                    q,
                                ) == indices@[base + abs_start + q] as int by {
                                    if q < 2 * b {
                                        assert(spec_abs_index(p_old, true, 0, q) == indices@[base + abs_start + q] as int);
                                        assert(p_new[q / 2] == p_old[q / 2]);
                                    } else {
                                        assert(q / 2 == b);
                                        assert(p_new[q / 2] == (hi << 4) | lo);
                                    }
                                }
                                let sp = spec_abs_payload(row, abs_start as int, abs_len as int, true);
                                assert(row[abs_start + 2 * b] == indices@[base + abs_start + b * 2]);
                                if abs_start + b * 2 + 1 < abs_start + abs_len {
                                    assert(row[abs_start + 2 * b + 1] == indices@[base + abs_start + b * 2 + 1]);
                                }
                                assert(sp[b as int] == (hi << 4) | lo);
                                assert(p_new =~= sp.subrange(0, b + 1));
                            }
                            b += 1;
                        }
                        let ghost payload = out@.subrange(s1.len() as int, out@.len() as int);
                        let ghost s2 = out@;
                        if bytes_needed % 2 != 0 {
                            out.push(0);
                        }
                        proof {
                            let pad = if bytes_needed % 2 != 0 {
                                seq![0u8]
                            } else {
                                Seq::<u8>::empty()
                            };
                            assert(s1 =~= s0 + seq![0u8, abs_len as u8]);
                            assert(s2 =~= s1 + payload);
                            assert(out@ =~= s0 + (seq![0u8, abs_len as u8] + payload + pad));
                            lemma_step_abs(
                                s0,
                                ix,
                                palette,
                                four,
                                w,
                                hh,
                                abs_start as int,
                                ys as int,
                                abs_len as u8,
                                payload,
                                pad,
                            );
                            assert(payload =~= spec_abs_payload(row, abs_start as int, abs_len as int, true));
                            assert(pad == spec_pad(payload.len() as int));
                            assert(spec_rle_row(row, x as int, four) == seq![0u8, abs_len as u8] + payload + pad
                                + spec_rle_row(row, x + abs_len, four));
                            assert(out@ + spec_rle_row(row, x + abs_len, four) =~= xs + spec_rle_row(
                                row,
                                x as int,
                                four,
                            ));
                        }
                    } else {
                        let mut i: usize = 0;
                        while i < abs_len
                            invariant
                                ix == indices@,
                                indices@.len() == width * height,
                                width * height <= usize::MAX,
                                base + width <= width * height,
                                abs_start + abs_len <= width,
                                i <= abs_len,
                                out@.len() == s1.len() + i,
                                out@.subrange(0, s1.len() as int) == s1,
                                row == indices@.subrange(base as int, base + width),
                                out@.subrange(s1.len() as int, out@.len() as int) == row.subrange(
                                    abs_start as int,
                                    abs_start + i,
                                ),
                                forall|q: int|
                                    0 <= q < i ==> #[trigger] spec_abs_index(
                                        out@.subrange(s1.len() as int, out@.len() as int),
                                        false,
                                        0,
                                        q,
                                    ) == indices@[base + abs_start + q] as int,
                            decreases abs_len - i,
                        {
                            let ghost prev = out@;
                            out.push(indices[base + abs_start + i]);
                            proof {
                                let p_old = prev.subrange(s1.len() as int, prev.len() as int);
                                let p_new = out@.subrange(s1.len() as int, out@.len() as int);
                                assert(p_new =~= p_old.push(indices@[base + abs_start + i]));
                                assert(out@.subrange(0, s1.len() as int) =~= s1);
                                assert forall|q: int| 0 <= q < i + 1 implies #[trigger] spec_abs_index(
                                    p_new,
                                    false,
                                    0,
                                    q,
                                ) == indices@[base + abs_start + q] as int by {
                                    if q < i {
                                        assert(spec_abs_index(p_old, false, 0, q) == indices@[base + abs_start + q] as int);
                                    }
                                }
                                assert(row[abs_start + i] == indices@[base + abs_start + i]);
                                assert(p_new =~= row.subrange(abs_start as int, abs_start + i + 1));
                            }
                            i += 1;
                        }
                        let ghost payload = out@.subrange(s1.len() as int, out@.len() as int);
                        let ghost s2 = out@;
                        if abs_len % 2 != 0 {
                            out.push(0);
                        }
                        proof {
                            let pad = if abs_len % 2 != 0 {
                                seq![0u8]
                            } else {
                                Seq::<u8>::empty()
                            };
                            assert(s1 =~= s0 + seq![0u8, abs_len as u8]);
                            assert(s2 =~= s1 + payload);
                            assert(out@ =~= s0 + (seq![0u8, abs_len as u8] + payload + pad));
                            lemma_step_abs(
                                s0,
                                ix,
                                palette,
                                four,
                                w,
                                hh,
                                abs_start as int,
                                ys as int,
                                abs_len as u8,
                                payload,
                                pad,
                            );
                            assert(payload =~= spec_abs_payload(row, abs_start as int, abs_len as int, false));
                            assert(pad == spec_pad(payload.len() as int));
                            assert(spec_rle_row(row, x as int, four) == seq![0u8, abs_len as u8] + payload + pad
                                + spec_rle_row(row, x + abs_len, four));
                            assert(out@ + spec_rle_row(row, x + abs_len, four) =~= xs + spec_rle_row(
                                row,
                                x as int,
                                four,
                            ));
                        }
                    }
                }
                x += abs_len;
            }
        }
        if y > 0 {
            let ghost s0 = out@;
            out.push(0);
            out.push(0);
            proof {
                assert(out@ =~= s0 + seq![0u8, 0u8]);
                lemma_step_eol(s0, ix, palette, four, w, hh, ys as int);
            }
        }
        proof {
            assert((ys + 1) * width == ys * width + width) by (nonlinear_arith);
            acc = acc + width;
        }
        ys += 1;
    }
    let ghost s0 = out@;
    out.push(0);
    out.push(1);
    proof {
        assert(out@ =~= s0 + seq![0u8, 1u8]);
        lemma_finish(s0, ix, palette, four, w, hh);
        assert(acc == height * width);
        assert(height * width == width * height) by (nonlinear_arith);
        assert(2 * width * height == 2 * (width * height)) by (nonlinear_arith);
    }
    out
}

/// The opaque colors of a color table, as decoding reads them.
pub open spec fn spec_table_palette(table: Seq<RgbQuad>) -> Seq<[u8; 4]> {
    Seq::new(table.len(), |i: int| [table[i].red, table[i].green, table[i].blue, 255u8])
}

/// Whether `b` is a run-length encoding of the image: the palette of its
/// quantization (`spec_wu_table`) as color table, and in an INFO-or-later
/// bitmap the RLE stream of the quantization's indices (`spec_wu_indices`) (`spec_rle_stream`: encoded runs of 3 to 255 equal indices,
/// absolute runs or runs of one for the stretches between them, an
/// end-of-line after every row but the top one, and the end-of-bitmap),
/// which decodes to the quantized image and is never longer than
/// `spec_rle_worst`.
pub open spec fn spec_rle_encoded(
    b: Bmp,
    image: DecodedImage,
    four: bool,
    header: SaveHeaderVersion,
    source: Option<SourceMetadata>,
) -> bool {
    b.spec_bitmap_array().len() >= 2 && b.spec_bitmap_array()[b.spec_bitmap_array().len() - 2] == 0
        && b.spec_bitmap_array()[b.spec_bitmap_array().len() - 1] == 1 && b.spec_bitmap_array().len()
        <= spec_rle_worst(image.width as int, image.height as int) && exists|table: Seq<RgbQuad>, indices: Seq<u8>|
        #![trigger spec_quantized_table(image.rgba@, spec_max_colors(spec_rle_bpp(four)), table, indices)]
        spec_quantized_table(image.rgba@, spec_max_colors(spec_rle_bpp(four)), table, indices)
            && b.spec_bitmap_array() == spec_rle_stream(indices, image.width as int, image.height as int, four)
            && spec_rle_from(
            b.spec_bitmap_array(),
            four,
            image.width as int,
            image.height as int,
            false,
            spec_table_palette(table),
            0,
            0,
            0,
            spec_zeros(image.width as int, image.height as int),
        ) == Ok::<Seq<u8>, DecodeError>(
            spec_indexed_rgba(indices, spec_table_palette(table), image.width as int, image.height as int),
        ) && spec_built(
            b,
            image.width,
            image.height,
            header,
            source,
            spec_rle_bpp(four),
            spec_rle_compression(four),
            b.spec_bitmap_array().len() as u32,
            None,
            table,
            b.spec_bitmap_array(),
        )
}

/// The largest RLE stream an image can need: two bytes per pixel (a run
/// of one, or an absolute run with its escape and padding), an
/// end-of-line per row and the end-of-bitmap.
pub open spec fn spec_rle_worst(w: int, h: int) -> int {
    2 * w * h + 2 * h + 2
}

/// Whether an RLE encoding of the image may fail: more pixels than the
/// quantizer takes, or a file that, with a full palette and the largest
/// stream, would not fit `u32` sizes.
pub open spec fn spec_rle_may_fail(
    image: DecodedImage,
    four: bool,
    header: SaveHeaderVersion,
    source: Option<SourceMetadata>,
) -> bool {
    ||| image.width as int * image.height as int > MAX_QUANTIZE_PIXELS
    ||| spec_pixel_offset(header, spec_rle_bpp(four), None, spec_max_colors(spec_rle_bpp(four)) as nat)
        + spec_rle_worst(image.width as int, image.height as int) + spec_saved_icc_len(header, source) > u32::MAX
}

/// The depth of an RLE encoding.
pub open spec fn spec_rle_bpp(four: bool) -> BitsPerPixel {
    if four {
        BitsPerPixel::Bpp4
    } else {
        BitsPerPixel::Bpp8
    }
}

/// The compression of an RLE encoding.
pub open spec fn spec_rle_compression(four: bool) -> Compression {
    if four {
        Compression::Rle4
    } else {
        Compression::Rle8
    }
}

/// Encodes a validated image as `BI_RLE8` or (`four`) `BI_RLE4` indices.
fn encode_rle(
    image: &DecodedImage,
    four: bool,
    header: SaveHeaderVersion,
    source: Option<&SourceMetadata>,
) -> (r: Result<Bmp, EncodeError>)
    requires
        spec_validate_image(*image) is Ok,
        header != SaveHeaderVersion::Core,
    ensures
        match r {
            Ok(b) => spec_rle_encoded(b, *image, four, header, spec_source(source)),
            Err(e) => e == EncodeError::ArithmeticOverflow && spec_rle_may_fail(
                *image,
                four,
                header,
                spec_source(source),
            ),
        },
        image.width as int * image.height as int > MAX_QUANTIZE_PIXELS ==> r is Err,
{
    let w = image.width as usize;
    let h = image.height as usize;
    if w * h > MAX_QUANTIZE_PIXELS {
        return Err(EncodeError::ArithmeticOverflow);
    }
    let max_colors: usize = if four {
        16
    } else {
        256
    };
    let (color_table, indices) = quantize_image(image, max_colors);
    proof {
        lemma_quantized_indices(image.rgba@, max_colors, color_table@, indices@);
    }
    let ghost pal = spec_table_palette(color_table@);
    proof {
        assert forall|i: int| 0 <= i < indices@.len() implies (#[trigger] indices@[i] as int) < pal.len() by {
            assert((indices@[i] as int) < color_table@.len());
        }
    }
    let data = rle_stream(indices.as_slice(), w, h, four, Ghost(pal));
    if data.len() > 0xFFFF_FFFF {
        return Err(EncodeError::ArithmeticOverflow);
    }
    let image_size = data.len() as u32;
    let bpp = if four {
        BitsPerPixel::Bpp4
    } else {
        BitsPerPixel::Bpp8
    };
    let compression = if four {
        Compression::Rle4
    } else {
        Compression::Rle8
    };
    let ghost table = color_table@;
    let ghost data_v = data@;
    let r = build_bmp(image.width, image.height, header, source, bpp, compression, image_size, None, color_table, data);
    proof {
        if r is Ok {
            let b = r->Ok_0;
            assert(b.spec_bitmap_array() == data_v);
            assert(spec_quantized_table(image.rgba@, spec_max_colors(bpp), table, indices@));
            assert(spec_built(
                b,
                image.width,
                image.height,
                header,
                spec_source(source),
                bpp,
                compression,
                b.spec_bitmap_array().len() as u32,
                None,
                table,
                b.spec_bitmap_array(),
            ));
            assert(spec_palette(b) == pal);
        }
    }
    r
}

/// Whether `b` is the encoding of a validated image in `format`.
pub open spec fn spec_encoded(
    b: Bmp,
    image: DecodedImage,
    format: SaveFormat,
    header: SaveHeaderVersion,
    source: Option<SourceMetadata>,
) -> bool {
    match format {
        SaveFormat::Rgb1 => spec_indexed_encoded(b, image, BitsPerPixel::Bpp1, header, source),
        SaveFormat::Rgb4 => spec_indexed_encoded(b, image, BitsPerPixel::Bpp4, header, source),
        SaveFormat::Rgb8 => spec_indexed_encoded(b, image, BitsPerPixel::Bpp8, header, source),
        SaveFormat::Rle8 => spec_rle_encoded(b, image, false, header, source),
        SaveFormat::Rle4 => spec_rle_encoded(b, image, true, header, source),
        _ => spec_direct_encoded(b, image, format, header, source),
    }
}

/// The checks an encoding makes before any pixel is touched: the header
/// must store the format, the image must be valid, and a CORE bitmap must
/// fit `u16` dimensions.
pub open spec fn spec_encode_precheck(image: DecodedImage, format: SaveFormat, header: SaveHeaderVersion) -> Result<
    (),
    EncodeError,
> {
    if !header.spec_supports(format) {
        Err(EncodeError::IncompatibleFormat { format, header })
    } else {
        match spec_validate_image(image) {
            Err(e) => Err(e),
            Ok(_) => if !spec_fits_header(image, header) {
                Err(EncodeError::InvalidDimensions { width: image.width, height: image.height })
            } else {
                Ok(())
            },
        }
    }
}

/// Whether a run-length format uses 4-bit (`Some(true)`) or 8-bit
/// (`Some(false)`) indices; `None` for the other formats.
pub open spec fn spec_rle_four(format: SaveFormat) -> Option<bool> {
    match format {
        SaveFormat::Rle4 => Some(true),
        SaveFormat::Rle8 => Some(false),
        _ => None,
    }
}

/// The palette depth of an uncompressed palette format.
pub open spec fn spec_indexed_depth(format: SaveFormat) -> Option<BitsPerPixel> {
    match format {
        SaveFormat::Rgb1 => Some(BitsPerPixel::Bpp1),
        SaveFormat::Rgb4 => Some(BitsPerPixel::Bpp4),
        SaveFormat::Rgb8 => Some(BitsPerPixel::Bpp8),
        _ => None,
    }
}

/// Encodes an RGBA image into a BMP of the given pixel format and header
/// version, carrying over color management metadata from `source` where
/// the header can hold it. Uncompressed rows are stored top-down except in
/// CORE bitmaps; RLE rows are stored bottom-up.
pub fn encode_rgba_to_bmp_ext(
    image: &DecodedImage,
    format: SaveFormat,
    header: SaveHeaderVersion,
    source: Option<&SourceMetadata>,
) -> (r: Result<Bmp, EncodeError>)
    ensures
        match spec_encode_precheck(*image, format, header) {
            Err(e) => r == Err::<Bmp, EncodeError>(e),
            Ok(()) => match r {
                Ok(b) => spec_encoded(b, *image, format, header, spec_source(source)),
                Err(e) => e == EncodeError::ArithmeticOverflow,
            },
        },
        spec_encode_precheck(*image, format, header) is Ok && spec_is_direct_format(format) ==> (r is Ok
            <==> !spec_direct_fails(*image, format, header, spec_source(source))),
        spec_encode_precheck(*image, format, header) is Ok && spec_indexed_depth(format) is Some ==> {
            let bpp = spec_indexed_depth(format)->0;
            &&& !spec_indexed_fails(*image, bpp, header, spec_source(source), spec_max_colors(bpp) as nat)
                ==> r is Ok
            &&& spec_indexed_fails(*image, bpp, header, spec_source(source), 1) ==> r is Err
        },
        spec_encode_precheck(*image, format, header) is Ok && spec_rle_four(format) is Some ==> {
            &&& !spec_rle_may_fail(*image, spec_rle_four(format)->0, header, spec_source(source)) ==> r is Ok
            &&& image.width as int * image.height as int > MAX_QUANTIZE_PIXELS ==> r is Err
        },
{
    if !header.supports(format) {
        return Err(EncodeError::IncompatibleFormat { format, header });
    }
    validate_image(image)?;
    if matches!(header, SaveHeaderVersion::Core) && (image.width > 0xFFFF || image.height > 0xFFFF) {
        return Err(EncodeError::InvalidDimensions { width: image.width, height: image.height });
    }
    match format {
        SaveFormat::Rgb1 => encode_indexed_rgb(image, BitsPerPixel::Bpp1, header, source),
        SaveFormat::Rgb4 => encode_indexed_rgb(image, BitsPerPixel::Bpp4, header, source),
        SaveFormat::Rgb8 => encode_indexed_rgb(image, BitsPerPixel::Bpp8, header, source),
        SaveFormat::Rle8 => encode_rle(image, false, header, source),
        SaveFormat::Rle4 => encode_rle(image, true, header, source),
        _ => encode_direct(image, format, header, source),
    }
}

/// Encodes an RGBA image into an INFO bitmap of the given pixel format.
pub fn encode_rgba_to_bmp_with_format(image: &DecodedImage, format: SaveFormat) -> (r: Result<Bmp, EncodeError>)
    ensures
        match spec_encode_precheck(*image, format, SaveHeaderVersion::Info) {
            Err(e) => r == Err::<Bmp, EncodeError>(e),
            Ok(()) => match r {
                Ok(b) => spec_encoded(b, *image, format, SaveHeaderVersion::Info, None),
                Err(e) => e == EncodeError::ArithmeticOverflow,
            },
        },
        spec_encode_precheck(*image, format, SaveHeaderVersion::Info) is Ok && spec_is_direct_format(format) ==> (r is Ok
            <==> !spec_direct_fails(*image, format, SaveHeaderVersion::Info, None)),
        spec_encode_precheck(*image, format, SaveHeaderVersion::Info) is Ok && spec_indexed_depth(format) is Some ==> {
            let bpp = spec_indexed_depth(format)->0;
            &&& !spec_indexed_fails(*image, bpp, SaveHeaderVersion::Info, None, spec_max_colors(bpp) as nat)
                ==> r is Ok
            &&& spec_indexed_fails(*image, bpp, SaveHeaderVersion::Info, None, 1) ==> r is Err
        },
        spec_encode_precheck(*image, format, SaveHeaderVersion::Info) is Ok && spec_rle_four(format) is Some ==> {
            &&& !spec_rle_may_fail(*image, spec_rle_four(format)->0, SaveHeaderVersion::Info, None) ==> r is Ok
            &&& image.width as int * image.height as int > MAX_QUANTIZE_PIXELS ==> r is Err
        },
{
    encode_rgba_to_bmp_ext(image, format, SaveHeaderVersion::Info, None)
}

/// Encodes an RGBA image into an INFO bitmap with 32-bit uncompressed
/// pixels, the default format.
pub fn encode_rgba_to_bmp(image: &DecodedImage) -> (r: Result<Bmp, EncodeError>)
    ensures
        match spec_encode_precheck(*image, SaveFormat::Rgb32, SaveHeaderVersion::Info) {
            Err(e) => r == Err::<Bmp, EncodeError>(e),
            Ok(()) => (r is Ok <==> !spec_direct_fails(*image, SaveFormat::Rgb32, SaveHeaderVersion::Info, None))
                && match r {
                Ok(b) => spec_direct_encoded(b, *image, SaveFormat::Rgb32, SaveHeaderVersion::Info, None),
                Err(e) => e == EncodeError::ArithmeticOverflow,
            },
        },
{
    encode_rgba_to_bmp_with_format(image, SaveFormat::Rgb32)
}

} // verus!
