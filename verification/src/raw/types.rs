//! Small value types stored in BMP headers and color tables.
use vstd::prelude::*;

use crate::raw::bmp::DibVariant;
use crate::raw::error::ValidationError;

verus! {

/// `BI_RGB`
pub const BI_RGB: u32 = 0;
/// `BI_RLE8`
pub const BI_RLE8: u32 = 1;
/// `BI_RLE4`
pub const BI_RLE4: u32 = 2;
/// `BI_BITFIELDS`
pub const BI_BITFIELDS: u32 = 3;
/// `BI_JPEG`
pub const BI_JPEG: u32 = 4;
/// `BI_PNG`
pub const BI_PNG: u32 = 5;

/// `LCS_CALIBRATED_RGB`
pub const LCS_CALIBRATED_RGB: u32 = 0x0000_0000;
/// `LCS_sRGB` ('sRGB')
pub const LCS_SRGB: u32 = 0x7352_4742;
/// `LCS_WINDOWS_COLOR_SPACE` ('Win ')
pub const LCS_WINDOWS_COLOR_SPACE: u32 = 0x5769_6e20;
/// `PROFILE_LINKED` ('LINK')
pub const PROFILE_LINKED: u32 = 0x4c49_4e4b;
/// `PROFILE_EMBEDDED` ('MBED')
pub const PROFILE_EMBEDDED: u32 = 0x4d42_4544;
/// `LCS_DEVICE_RGB`
pub const LCS_DEVICE_RGB: u32 = 0x0000_0001;
/// `LCS_DEVICE_CMYK`
pub const LCS_DEVICE_CMYK: u32 = 0x0000_0002;
/// `LCS_GM_BUSINESS`: saturation-preserving rendering intent.
pub const LCS_GM_BUSINESS: u32 = 0x0000_0001;
/// `LCS_GM_GRAPHICS`: relative colorimetric rendering intent.
pub const LCS_GM_GRAPHICS: u32 = 0x0000_0002;
/// `LCS_GM_IMAGES`: perceptual rendering intent.
pub const LCS_GM_IMAGES: u32 = 0x0000_0004;
/// `LCS_GM_ABS_COLORIMETRIC`: absolute colorimetric rendering intent.
pub const LCS_GM_ABS_COLORIMETRIC: u32 = 0x0000_0008;

/// Recognized bits-per-pixel (color depth) values of a DIB.
#[derive(Debug, Clone, Copy, PartialEq, Eq, Structural)]
pub enum BitsPerPixel {
    /// Depth implied by an embedded JPEG or PNG stream.
    Bpp0,
    /// Monochrome, two palette entries.
    Bpp1,
    /// Up to 16 palette entries.
    Bpp4,
    /// Up to 256 palette entries.
    Bpp8,
    /// 16-bit direct color (RGB555 unless bitfields say otherwise).
    Bpp16,
    /// 24-bit BGR triplets.
    Bpp24,
    /// 32-bit direct color.
    Bpp32,
    /// Any other raw value.
    Other(u16),
}

impl BitsPerPixel {
    /// The numeric bit count this value stands for.
    pub open spec fn spec_bit_count(self) -> u16 {
        match self {
            BitsPerPixel::Bpp0 => 0,
            BitsPerPixel::Bpp1 => 1,
            BitsPerPixel::Bpp4 => 4,
            BitsPerPixel::Bpp8 => 8,
            BitsPerPixel::Bpp16 => 16,
            BitsPerPixel::Bpp24 => 24,
            BitsPerPixel::Bpp32 => 32,
            BitsPerPixel::Other(raw) => raw,
        }
    }

    /// The value that a raw on-disk bit count decodes to.
    pub open spec fn spec_from_raw(raw: u16) -> BitsPerPixel {
        if raw == 0 {
            BitsPerPixel::Bpp0
        } else if raw == 1 {
            BitsPerPixel::Bpp1
        } else if raw == 4 {
            BitsPerPixel::Bpp4
        } else if raw == 8 {
            BitsPerPixel::Bpp8
        } else if raw == 16 {
            BitsPerPixel::Bpp16
        } else if raw == 24 {
            BitsPerPixel::Bpp24
        } else if raw == 32 {
            BitsPerPixel::Bpp32
        } else {
            BitsPerPixel::Other(raw)
        }
    }

    /// Decodes a raw on-disk bit count.
    pub fn from_raw(raw: u16) -> (r: BitsPerPixel)
        ensures
            r == Self::spec_from_raw(raw),
            r.spec_bit_count() == raw,
    {
        match raw {
            0 => BitsPerPixel::Bpp0,
            1 => BitsPerPixel::Bpp1,
            4 => BitsPerPixel::Bpp4,
            8 => BitsPerPixel::Bpp8,
            16 => BitsPerPixel::Bpp16,
            24 => BitsPerPixel::Bpp24,
            32 => BitsPerPixel::Bpp32,
            _ => BitsPerPixel::Other(raw),
        }
    }

    /// Returns the numeric bit count.
    pub fn bit_count(self) -> (r: u16)
        ensures
            r == self.spec_bit_count(),
    {
        match self {
            BitsPerPixel::Bpp0 => 0,
            BitsPerPixel::Bpp1 => 1,
            BitsPerPixel::Bpp4 => 4,
            BitsPerPixel::Bpp8 => 8,
            BitsPerPixel::Bpp16 => 16,
            BitsPerPixel::Bpp24 => 24,
            BitsPerPixel::Bpp32 => 32,
            BitsPerPixel::Other(raw) => raw,
        }
    }

    /// Whether this depth is allowed by the given DIB header family: the CORE
    /// header allows 1, 4, 8 and 24 bits; INFO and later also allow 0, 16, 32.
    pub open spec fn spec_allowed_for(self, variant: DibVariant) -> bool {
        match variant {
            DibVariant::Core => matches!(
                self,
                BitsPerPixel::Bpp1 | BitsPerPixel::Bpp4 | BitsPerPixel::Bpp8 | BitsPerPixel::Bpp24
            ),
            _ => !(self is Other),
        }
    }

    /// Checks that this depth is allowed by the given DIB header family.
    pub fn validate(self, variant: DibVariant) -> (r: Result<(), ValidationError>)
        ensures
            r == (if self.spec_allowed_for(variant) {
                Ok(())
            } else {
                Err(ValidationError::InvalidBitCount(self))
            }),
    {
        let ok = match variant {
            DibVariant::Core => matches!(
                self,
                BitsPerPixel::Bpp1 | BitsPerPixel::Bpp4 | BitsPerPixel::Bpp8 | BitsPerPixel::Bpp24
            ),
            _ => !matches!(self, BitsPerPixel::Other(_)),
        };
        if ok {
            Ok(())
        } else {
            Err(ValidationError::InvalidBitCount(self))
        }
    }
}

/// Compression methods defined for BMP files.
#[derive(Debug, Clone, Copy, PartialEq, Eq, Structural)]
pub enum Compression {
    /// `BI_RGB`: uncompressed.
    Rgb,
    /// `BI_RLE8`: run-length encoding of 8-bit indices.
    Rle8,
    /// `BI_RLE4`: run-length encoding of 4-bit indices.
    Rle4,
    /// `BI_BITFIELDS`: uncompressed with explicit channel masks.
    BitFields,
    /// `BI_JPEG`: embedded JPEG stream.
    Jpeg,
    /// `BI_PNG`: embedded PNG stream.
    Png,
    /// Any other raw value.
    Other(u32),
}

impl Compression {
    /// The raw on-disk value of this compression.
    pub open spec fn spec_value(self) -> u32 {
        match self {
            Compression::Rgb => BI_RGB,
            Compression::Rle8 => BI_RLE8,
            Compression::Rle4 => BI_RLE4,
            Compression::BitFields => BI_BITFIELDS,
            Compression::Jpeg => BI_JPEG,
            Compression::Png => BI_PNG,
            Compression::Other(x) => x,
        }
    }

    /// The compression a raw on-disk value decodes to.
    pub open spec fn spec_from_raw(raw: u32) -> Compression {
        if raw == BI_RGB {
            Compression::Rgb
        } else if raw == BI_RLE4 {
            Compression::Rle4
        } else if raw == BI_RLE8 {
            Compression::Rle8
        } else if raw == BI_BITFIELDS {
            Compression::BitFields
        } else if raw == BI_JPEG {
            Compression::Jpeg
        } else if raw == BI_PNG {
            Compression::Png
        } else {
            Compression::Other(raw)
        }
    }

    /// Decodes a raw on-disk compression value.
    pub fn from_raw(raw: u32) -> (r: Compression)
        ensures
            r == Self::spec_from_raw(raw),
            r.spec_value() == raw,
    {
        if raw == BI_RGB {
            Compression::Rgb
        } else if raw == BI_RLE4 {
            Compression::Rle4
        } else if raw == BI_RLE8 {
            Compression::Rle8
        } else if raw == BI_BITFIELDS {
            Compression::BitFields
        } else if raw == BI_JPEG {
            Compression::Jpeg
        } else if raw == BI_PNG {
            Compression::Png
        } else {
            Compression::Other(raw)
        }
    }

    /// Returns the raw on-disk value.
    pub fn value(self) -> (r: u32)
        ensures
            r == self.spec_value(),
    {
        match self {
            Compression::Rgb => BI_RGB,
            Compression::Rle4 => BI_RLE4,
            Compression::Rle8 => BI_RLE8,
            Compression::BitFields => BI_BITFIELDS,
            Compression::Jpeg => BI_JPEG,
            Compression::Png => BI_PNG,
            Compression::Other(x) => x,
        }
    }

    /// The outcome of checking this compression against a bit depth: RLE4
    /// needs 4 bpp, RLE8 needs 8 bpp, BITFIELDS needs 16 or 32 bpp, RGB needs
    /// 1, 4, 8, 16, 24 or 32 bpp, JPEG and PNG need 0 bpp; an unknown value is
    /// reported as such.
    pub open spec fn spec_validate_for_bpp(self, bpp: BitsPerPixel) -> Result<(), ValidationError> {
        match (self, bpp) {
            (Compression::Rle4, BitsPerPixel::Bpp4) => Ok(()),
            (Compression::Rle8, BitsPerPixel::Bpp8) => Ok(()),
            (Compression::BitFields, BitsPerPixel::Bpp16) => Ok(()),
            (Compression::BitFields, BitsPerPixel::Bpp32) => Ok(()),
            (Compression::Rgb, BitsPerPixel::Bpp1) => Ok(()),
            (Compression::Rgb, BitsPerPixel::Bpp4) => Ok(()),
            (Compression::Rgb, BitsPerPixel::Bpp8) => Ok(()),
            (Compression::Rgb, BitsPerPixel::Bpp16) => Ok(()),
            (Compression::Rgb, BitsPerPixel::Bpp24) => Ok(()),
            (Compression::Rgb, BitsPerPixel::Bpp32) => Ok(()),
            (Compression::Png, BitsPerPixel::Bpp0) => Ok(()),
            (Compression::Jpeg, BitsPerPixel::Bpp0) => Ok(()),
            (Compression::Other(raw), _) => Err(ValidationError::UnknownCompression(raw)),
            _ => Err(ValidationError::InvalidCompressionForBpp { compression: self, bpp }),
        }
    }

    /// Validates that this compression method is compatible with `bpp`.
    pub fn validate_for_bpp(self, bpp: BitsPerPixel) -> (r: Result<(), ValidationError>)
        ensures
            r == self.spec_validate_for_bpp(bpp),
    {
        match (self, bpp) {
            (Compression::Rle4, BitsPerPixel::Bpp4) => Ok(()),
            (Compression::Rle8, BitsPerPixel::Bpp8) => Ok(()),
            (Compression::BitFields, BitsPerPixel::Bpp16) => Ok(()),
            (Compression::BitFields, BitsPerPixel::Bpp32) => Ok(()),
            (Compression::Rgb, BitsPerPixel::Bpp1) => Ok(()),
            (Compression::Rgb, BitsPerPixel::Bpp4) => Ok(()),
            (Compression::Rgb, BitsPerPixel::Bpp8) => Ok(()),
            (Compression::Rgb, BitsPerPixel::Bpp16) => Ok(()),
            (Compression::Rgb, BitsPerPixel::Bpp24) => Ok(()),
            (Compression::Rgb, BitsPerPixel::Bpp32) => Ok(()),
            (Compression::Png, BitsPerPixel::Bpp0) => Ok(()),
            (Compression::Jpeg, BitsPerPixel::Bpp0) => Ok(()),
            (Compression::Other(raw), _) => Err(ValidationError::UnknownCompression(raw)),
            _ => Err(ValidationError::InvalidCompressionForBpp { compression: self, bpp }),
        }
    }
}

/// How RGB values of a V4/V5 DIB are to be interpreted for color management.
#[derive(Debug, Clone, Copy, PartialEq, Eq, Structural)]
pub enum ColorSpaceType {
    /// `LCS_CALIBRATED_RGB`: endpoints and gammas in the header apply.
    CalibratedRgb,
    /// `LCS_sRGB`.
    SRgb,
    /// `LCS_WINDOWS_COLOR_SPACE`.
    WindowsColorSpace,
    /// `PROFILE_EMBEDDED` (V5 only): an ICC profile is embedded in the file.
    ProfileEmbedded,
    /// `PROFILE_LINKED` (V5 only): a profile path is embedded in the file.
    ProfileLinked,
    /// Any other raw value.
    Other(u32),
}

impl ColorSpaceType {
    /// The raw on-disk value.
    pub open spec fn spec_value(self) -> u32 {
        match self {
            ColorSpaceType::CalibratedRgb => LCS_CALIBRATED_RGB,
            ColorSpaceType::SRgb => LCS_SRGB,
            ColorSpaceType::WindowsColorSpace => LCS_WINDOWS_COLOR_SPACE,
            ColorSpaceType::ProfileEmbedded => PROFILE_EMBEDDED,
            ColorSpaceType::ProfileLinked => PROFILE_LINKED,
            ColorSpaceType::Other(x) => x,
        }
    }

    /// The value a raw on-disk color space type decodes to.
    pub open spec fn spec_from_raw(raw: u32) -> ColorSpaceType {
        if raw == LCS_CALIBRATED_RGB {
            ColorSpaceType::CalibratedRgb
        } else if raw == LCS_SRGB {
            ColorSpaceType::SRgb
        } else if raw == LCS_WINDOWS_COLOR_SPACE {
            ColorSpaceType::WindowsColorSpace
        } else if raw == PROFILE_EMBEDDED {
            ColorSpaceType::ProfileEmbedded
        } else if raw == PROFILE_LINKED {
            ColorSpaceType::ProfileLinked
        } else {
            ColorSpaceType::Other(raw)
        }
    }

    /// Decodes a raw on-disk color space type.
    pub fn from_raw(raw: u32) -> (r: ColorSpaceType)
        ensures
            r == Self::spec_from_raw(raw),
            r.spec_value() == raw,
    {
        if raw == LCS_CALIBRATED_RGB {
            ColorSpaceType::CalibratedRgb
        } else if raw == LCS_SRGB {
            ColorSpaceType::SRgb
        } else if raw == LCS_WINDOWS_COLOR_SPACE {
            ColorSpaceType::WindowsColorSpace
        } else if raw == PROFILE_EMBEDDED {
            ColorSpaceType::ProfileEmbedded
        } else if raw == PROFILE_LINKED {
            ColorSpaceType::ProfileLinked
        } else {
            ColorSpaceType::Other(raw)
        }
    }

    /// Returns the raw on-disk value.
    pub fn value(self) -> (r: u32)
        ensures
            r == self.spec_value(),
    {
        match self {
            ColorSpaceType::CalibratedRgb => LCS_CALIBRATED_RGB,
            ColorSpaceType::SRgb => LCS_SRGB,
            ColorSpaceType::WindowsColorSpace => LCS_WINDOWS_COLOR_SPACE,
            ColorSpaceType::ProfileEmbedded => PROFILE_EMBEDDED,
            ColorSpaceType::ProfileLinked => PROFILE_LINKED,
            ColorSpaceType::Other(x) => x,
        }
    }

    /// Whether this color space refers to ICC profile data in the file.
    pub open spec fn spec_is_profile(self) -> bool {
        self is ProfileEmbedded || self is ProfileLinked
    }
}

/// An unsigned 2.30 fixed-point number (CIE XYZ endpoint coordinate).
#[derive(Debug, Clone, Copy, PartialEq, Eq, Structural)]
pub struct FixedPoint2Dot30 {
    raw: u32,
}

impl FixedPoint2Dot30 {
    /// The value whose raw representation is `raw`.
    pub closed spec fn spec_from_raw(raw: u32) -> Self {
        FixedPoint2Dot30 { raw }
    }

    /// The raw representation of the value built from `raw` is `raw`.
    pub broadcast proof fn lemma_raw_of_from_raw(raw: u32)
        ensures
            #[trigger] Self::spec_from_raw(raw).spec_raw() == raw,
    {
    }

    /// A value is the one built from its raw representation.
    pub broadcast proof fn lemma_from_raw_of_raw(v: Self)
        ensures
            #[trigger] Self::spec_from_raw(v.spec_raw()) == v,
    {
    }

    /// Number of fractional bits.
    pub const FRACTIONAL_BITS: u32 = 30;

    /// The raw 32-bit representation.
    pub closed spec fn spec_raw(self) -> u32 {
        self.raw
    }

    /// Creates a value from its raw 32-bit representation.
    pub fn from_raw(raw: u32) -> (r: Self)
        ensures
            r == Self::spec_from_raw(raw),
            r.spec_raw() == raw,
    {
        FixedPoint2Dot30 { raw }
    }

    /// Returns the raw 32-bit representation.
    pub fn raw(self) -> (r: u32)
        ensures
            r == self.spec_raw(),
    {
        self.raw
    }
}

/// An unsigned 16.16 fixed-point number (gamma value).
#[derive(Debug, Clone, Copy, PartialEq, Eq, Structural)]
pub struct FixedPoint16Dot16 {
    raw: u32,
}

impl FixedPoint16Dot16 {
    /// The value whose raw representation is `raw`.
    pub closed spec fn spec_from_raw(raw: u32) -> Self {
        FixedPoint16Dot16 { raw }
    }

    /// The raw representation of the value built from `raw` is `raw`.
    pub broadcast proof fn lemma_raw_of_from_raw(raw: u32)
        ensures
            #[trigger] Self::spec_from_raw(raw).spec_raw() == raw,
    {
    }

    /// A value is the one built from its raw representation.
    pub broadcast proof fn lemma_from_raw_of_raw(v: Self)
        ensures
            #[trigger] Self::spec_from_raw(v.spec_raw()) == v,
    {
    }

    /// Number of fractional bits.
    pub const FRACTIONAL_BITS: u32 = 16;

    /// The raw 32-bit representation.
    pub closed spec fn spec_raw(self) -> u32 {
        self.raw
    }

    /// Creates a value from its raw 32-bit representation.
    pub fn from_raw(raw: u32) -> (r: Self)
        ensures
            r == Self::spec_from_raw(raw),
            r.spec_raw() == raw,
    {
        FixedPoint16Dot16 { raw }
    }

    /// Returns the raw 32-bit representation.
    pub fn raw(self) -> (r: u32)
        ensures
            r == self.spec_raw(),
    {
        self.raw
    }
}

/// A CIE XYZ color space endpoint (`CIEXYZ`).
#[derive(Debug, Clone, Copy, PartialEq, Eq, Structural)]
pub struct CieXyz {
    /// The x coordinate.
    pub x: FixedPoint2Dot30,
    /// The y coordinate.
    pub y: FixedPoint2Dot30,
    /// The z coordinate.
    pub z: FixedPoint2Dot30,
}

/// The CIE XYZ endpoints for red, green and blue (`CIEXYZTRIPLE`).
#[derive(Debug, Clone, Copy, PartialEq, Eq, Structural)]
pub struct CieXyzTriple {
    /// Red endpoint.
    pub red: CieXyz,
    /// Green endpoint.
    pub green: CieXyz,
    /// Blue endpoint.
    pub blue: CieXyz,
}

/// Gamma values for the RGB channels, in 16.16 fixed point.
#[derive(Debug, Clone, Copy, PartialEq, Eq, Structural)]
pub struct GammaTriple {
    /// Red tone response.
    pub red: FixedPoint16Dot16,
    /// Green tone response.
    pub green: FixedPoint16Dot16,
    /// Blue tone response.
    pub blue: FixedPoint16Dot16,
}

/// A color table entry of CORE bitmaps (`RGBTRIPLE`, stored B, G, R).
#[derive(Debug, Clone, Copy, PartialEq, Eq, Structural)]
pub struct RgbTriple {
    /// Blue intensity.
    pub blue: u8,
    /// Green intensity.
    pub green: u8,
    /// Red intensity.
    pub red: u8,
}

/// A color table entry of INFO and later bitmaps (`RGBQUAD`, stored B, G, R,
/// reserved).
#[derive(Debug, Clone, Copy, PartialEq, Eq, Structural)]
pub struct RgbQuad {
    /// Blue intensity.
    pub blue: u8,
    /// Green intensity.
    pub green: u8,
    /// Red intensity.
    pub red: u8,
    /// Reserved; must be zero.
    pub reserved: u8,
}

impl RgbQuad {
    /// The entry a CORE triple stands for, with a zero reserved byte.
    pub open spec fn spec_from_triple(t: RgbTriple) -> RgbQuad {
        RgbQuad { blue: t.blue, green: t.green, red: t.red, reserved: 0 }
    }

    /// Widens a CORE triple to a quad with a zero reserved byte.
    pub fn from_triple(t: RgbTriple) -> (r: RgbQuad)
        ensures
            r == Self::spec_from_triple(t),
    {
        RgbQuad { blue: t.blue, green: t.green, red: t.red, reserved: 0 }
    }

    /// Checks that the reserved byte is zero.
    pub fn validate(&self) -> (r: Result<(), ValidationError>)
        ensures
            r == (if self.reserved == 0 {
                Ok(())
            } else {
                Err(ValidationError::InvalidRgbQuad(*self))
            }),
    {
        if self.reserved != 0 {
            return Err(ValidationError::InvalidRgbQuad(*self));
        }
        Ok(())
    }
}

} // verus!
