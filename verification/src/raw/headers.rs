//! The BMP file header and the four DIB header generations: their byte
//! layout, structural sizes and specification validation.
use vstd::prelude::*;

use crate::raw::bmp::DibVariant;
use crate::raw::error::{IoErrorKind, IoStage, StructuralError, ValidationError};
use crate::raw::le::{
    i32_to_le, spec_i32_at, spec_i32_le, spec_u16_at, spec_u16_le, spec_u32_at, spec_u32_le, u16_to_le,
    u32_to_le,
};
use crate::raw::masks::{spec_validate_masks_for_bpp, RgbaMasks};
use crate::raw::stream::BoundedStream;
use crate::raw::types::{
    BitsPerPixel, CieXyz, CieXyzTriple, ColorSpaceType, Compression, FixedPoint16Dot16, FixedPoint2Dot30,
    GammaTriple,
};

verus! {

/// The error for a bit depth whose color table size is undefined.
pub open spec fn spec_table_size_error() -> StructuralError {
    StructuralError::UnsupportedStructure("cannot compute color table size for unsupported bits-per-pixel value")
}

/// The error for a pixel data size that overflows `u32`.
pub open spec fn spec_pixel_size_error() -> StructuralError {
    StructuralError::ArithmeticOverflow("pixel data size")
}

/// The error for a DIB header size of no supported generation.
pub open spec fn spec_header_size_error() -> StructuralError {
    StructuralError::UnsupportedStructure("the DIB header size did not match any supported BMP variant")
}


broadcast use FixedPoint2Dot30::lemma_raw_of_from_raw, FixedPoint16Dot16::lemma_raw_of_from_raw;

/// Appends `bytes` to `out`.
pub fn push_all(out: &mut Vec<u8>, bytes: &[u8])
    ensures
        final(out)@ == old(out)@ + bytes@,
{
    let mut i: usize = 0;
    while i < bytes.len()
        invariant
            i <= bytes@.len(),
            out@ == old(out)@ + bytes@.subrange(0, i as int),
        decreases bytes.len() - i,
    {
        out.push(bytes[i]);
        i += 1;
        assert(out@ =~= old(out)@ + bytes@.subrange(0, i as int));
    }
    assert(bytes@.subrange(0, bytes@.len() as int) =~= bytes@);
}

/// Appends the little-endian bytes of `n`.
pub fn push_u16(out: &mut Vec<u8>, n: u16)
    ensures
        final(out)@ == old(out)@ + spec_u16_le(n),
{
    let b = u16_to_le(n);
    push_all(out, &b);
}

/// Appends the little-endian bytes of `n`.
pub fn push_u32(out: &mut Vec<u8>, n: u32)
    ensures
        final(out)@ == old(out)@ + spec_u32_le(n),
{
    let b = u32_to_le(n);
    push_all(out, &b);
}

/// Appends the little-endian bytes of `n`.
pub fn push_i32(out: &mut Vec<u8>, n: i32)
    ensures
        final(out)@ == old(out)@ + spec_i32_le(n),
{
    let b = i32_to_le(n);
    push_all(out, &b);
}

/// The BMP file header (`BITMAPFILEHEADER`), always 14 bytes.
#[derive(Debug, Clone, PartialEq, Eq)]
pub struct FileHeader {
    /// The signature; must be "BM".
    pub signature: [u8; 2],
    /// Total size of the BMP file in bytes.
    pub file_size: u32,
    /// Reserved; must be zero.
    pub reserved_1: [u8; 2],
    /// Reserved; must be zero.
    pub reserved_2: [u8; 2],
    /// Offset of the pixel data from the start of the file.
    pub pixel_data_offset: u32,
}

impl FileHeader {
    /// Size of the file header in bytes.
    pub const SIZE: u32 = 14;

    /// `self` is the file header stored at `p` in `s`.
    pub open spec fn spec_at(self, s: Seq<u8>, p: int) -> bool {
        &&& 0 <= p && p + 14 <= s.len()
        &&& self.signature@ == s.subrange(p, p + 2)
        &&& self.file_size == spec_u32_at(s, p + 2)
        &&& self.reserved_1@ == s.subrange(p + 6, p + 8)
        &&& self.reserved_2@ == s.subrange(p + 8, p + 10)
        &&& self.pixel_data_offset == spec_u32_at(s, p + 10)
    }

    /// The 14 bytes that store `self`.
    pub open spec fn spec_bytes(self) -> Seq<u8> {
        self.signature@ + spec_u32_le(self.file_size) + self.reserved_1@ + self.reserved_2@ + spec_u32_le(
            self.pixel_data_offset,
        )
    }

    /// The outcome of validating the file header: the signature must be
    /// "BM" and both reserved fields must be zero.
    pub open spec fn spec_validate(self) -> Result<(), ValidationError> {
        if self.signature@ != seq![0x42u8, 0x4du8] {
            Err(ValidationError::InvalidFileSignature(self.signature))
        } else if self.reserved_1@ != seq![0u8, 0u8] || self.reserved_2@ != seq![0u8, 0u8] {
            Err(
                ValidationError::InvalidFileReservedData(
                    [self.reserved_1[0], self.reserved_1[1], self.reserved_2[0], self.reserved_2[1]],
                ),
            )
        } else {
            Ok(())
        }
    }

    /// Validates the signature and the reserved fields.
    pub fn validate(&self) -> (r: Result<(), ValidationError>)
        ensures
            r == self.spec_validate(),
    {
        if !(self.signature[0] == 0x42 && self.signature[1] == 0x4d) {
            assert(self.signature@ != seq![0x42u8, 0x4du8]) by {
                if self.signature@ == seq![0x42u8, 0x4du8] {
                    assert(self.signature@[0] == 0x42u8);
                }
            }
            return Err(ValidationError::InvalidFileSignature(self.signature));
        }
        assert(self.signature@ =~= seq![0x42u8, 0x4du8]);
        if !(self.reserved_1[0] == 0 && self.reserved_1[1] == 0 && self.reserved_2[0] == 0
            && self.reserved_2[1] == 0) {
            assert(self.reserved_1@ != seq![0u8, 0u8] || self.reserved_2@ != seq![0u8, 0u8]) by {
                if self.reserved_1@ == seq![0u8, 0u8] && self.reserved_2@ == seq![0u8, 0u8] {
                    assert(self.reserved_1@[0] == 0u8 && self.reserved_1@[1] == 0u8);
                    assert(self.reserved_2@[0] == 0u8 && self.reserved_2@[1] == 0u8);
                }
            }
            return Err(
                ValidationError::InvalidFileReservedData(
                    [self.reserved_1[0], self.reserved_1[1], self.reserved_2[0], self.reserved_2[1]],
                ),
            );
        }
        assert(self.reserved_1@ =~= seq![0u8, 0u8]);
        assert(self.reserved_2@ =~= seq![0u8, 0u8]);
        Ok(())
    }

    /// Reads a file header at the stream position.
    pub fn read_unchecked(st: &mut BoundedStream) -> (r: Result<Self, IoErrorKind>)
        ensures
            final(st).spec_data() == old(st).spec_data(),
            final(st).spec_start() == old(st).spec_start(),
            final(st).spec_end() == old(st).spec_end(),
            old(st).spec_can_read(14) ==> r is Ok && r->Ok_0.spec_at(
                old(st).spec_data(),
                old(st).spec_pos() as int,
            ) && final(st).spec_pos() == old(st).spec_pos() + 14,
            !old(st).spec_can_read(14) ==> r == Err::<Self, IoErrorKind>(IoErrorKind::UnexpectedEof),
    {
        let ghost s = st.spec_data();
        let ghost p = st.spec_pos() as int;
        let s0 = st.read_u8()?;
        let s1 = st.read_u8()?;
        let file_size = st.read_u32()?;
        let r0 = st.read_u8()?;
        let r1 = st.read_u8()?;
        let r2 = st.read_u8()?;
        let r3 = st.read_u8()?;
        let pixel_data_offset = st.read_u32()?;
        let h = FileHeader {
            signature: [s0, s1],
            file_size,
            reserved_1: [r0, r1],
            reserved_2: [r2, r3],
            pixel_data_offset,
        };
        assert(h.signature@ =~= s.subrange(p, p + 2));
        assert(h.reserved_1@ =~= s.subrange(p + 6, p + 8));
        assert(h.reserved_2@ =~= s.subrange(p + 8, p + 10));
        Ok(h)
    }

    /// Appends the 14 bytes of this header.
    pub fn write_unchecked(&self, out: &mut Vec<u8>)
        ensures
            final(out)@ == old(out)@ + self.spec_bytes(),
    {
        push_all(out, &self.signature);
        push_u32(out, self.file_size);
        push_all(out, &self.reserved_1);
        push_all(out, &self.reserved_2);
        push_u32(out, self.pixel_data_offset);
        assert(out@ =~= old(out)@ + self.spec_bytes());
    }
}

/// `((bits * width + 31) / 32) * 4`: bytes per row, padded to 4 bytes.
pub open spec fn spec_row_stride(bits: int, width: int) -> int {
    ((bits * width + 31) / 32) * 4
}

/// The pixel data size of an uncompressed image computed in `u32`
/// arithmetic: `None` when the padded row or the total overflows `u32`.
pub open spec fn spec_uncompressed_size(bits: u16, width: u32, height: u32) -> Option<u32> {
    if bits * width + 31 > u32::MAX {
        None
    } else if spec_row_stride(bits as int, width as int) * height > u32::MAX {
        None
    } else {
        Some((spec_row_stride(bits as int, width as int) * height) as u32)
    }
}

/// Computes the pixel data size of an uncompressed image in `u32`.
pub fn uncompressed_size(bits: u16, width: u32, height: u32) -> (r: Option<u32>)
    ensures
        r == spec_uncompressed_size(bits, width, height),
{
    let bits_per_row = match (bits as u32).checked_mul(width) {
        Some(v) => v,
        None => return None,
    };
    let padded = match bits_per_row.checked_add(31) {
        Some(v) => v,
        None => return None,
    };
    let row_stride = (padded / 32) * 4;
    assert(row_stride == spec_row_stride(bits as int, width as int));
    row_stride.checked_mul(height)
}

/// The BMP CORE (12 byte) header (`BITMAPCOREHEADER`).
#[derive(Debug, Clone, Copy, PartialEq, Eq, Structural)]
pub struct BitmapCoreHeader {
    /// Width in pixels.
    pub width: u16,
    /// Height in pixels (always bottom-up).
    pub height: u16,
    /// Number of planes; must be 1.
    pub planes: u16,
    /// Bits per pixel.
    pub bit_count: BitsPerPixel,
}

impl BitmapCoreHeader {
    /// Size of the header in bytes, including its size field.
    pub const HEADER_SIZE: u32 = 12;

    /// `self` is the CORE header body (after the size field) stored at `p`.
    pub open spec fn spec_at(self, s: Seq<u8>, p: int) -> bool {
        &&& 0 <= p && p + 8 <= s.len()
        &&& self.width == spec_u16_at(s, p)
        &&& self.height == spec_u16_at(s, p + 2)
        &&& self.planes == spec_u16_at(s, p + 4)
        &&& self.bit_count == BitsPerPixel::spec_from_raw(spec_u16_at(s, p + 6))
    }

    /// The 8 bytes that store the header body.
    pub open spec fn spec_bytes(self) -> Seq<u8> {
        spec_u16_le(self.width) + spec_u16_le(self.height) + spec_u16_le(self.planes) + spec_u16_le(
            self.bit_count.spec_bit_count(),
        )
    }

    /// The outcome of validation: non-zero width and height, one plane, and a
    /// bit depth the CORE header allows.
    pub open spec fn spec_validate(self) -> Result<(), ValidationError> {
        if self.width == 0 {
            Err(ValidationError::InvalidWidth(self.width as i32))
        } else if self.height == 0 {
            Err(ValidationError::InvalidHeight(self.height as i32))
        } else if self.planes != 1 {
            Err(ValidationError::InvalidPlanes(self.planes))
        } else if !self.bit_count.spec_allowed_for(DibVariant::Core) {
            Err(ValidationError::InvalidBitCount(self.bit_count))
        } else {
            Ok(())
        }
    }

    /// Validates the header against the specification.
    pub fn validate(&self) -> (r: Result<(), ValidationError>)
        ensures
            r == self.spec_validate(),
    {
        if self.width == 0 {
            return Err(ValidationError::InvalidWidth(self.width as i32));
        }
        if self.height == 0 {
            return Err(ValidationError::InvalidHeight(self.height as i32));
        }
        if self.planes != 1 {
            return Err(ValidationError::InvalidPlanes(self.planes));
        }
        self.bit_count.validate(DibVariant::Core)
    }

    /// Reads the header body at the stream position.
    pub fn read_unchecked(st: &mut BoundedStream) -> (r: Result<Self, IoErrorKind>)
        ensures
            final(st).spec_data() == old(st).spec_data(),
            final(st).spec_start() == old(st).spec_start(),
            final(st).spec_end() == old(st).spec_end(),
            old(st).spec_can_read(8) ==> r is Ok && r->Ok_0.spec_at(
                old(st).spec_data(),
                old(st).spec_pos() as int,
            ) && final(st).spec_pos() == old(st).spec_pos() + 8,
            !old(st).spec_can_read(8) ==> r == Err::<Self, IoErrorKind>(IoErrorKind::UnexpectedEof),
    {
        let width = st.read_u16()?;
        let height = st.read_u16()?;
        let planes = st.read_u16()?;
        let raw_bpp = st.read_u16()?;
        Ok(BitmapCoreHeader { width, height, planes, bit_count: BitsPerPixel::from_raw(raw_bpp) })
    }

    /// Appends the 8 bytes of the header body.
    pub fn write_unchecked(&self, out: &mut Vec<u8>)
        ensures
            final(out)@ == old(out)@ + self.spec_bytes(),
    {
        push_u16(out, self.width);
        push_u16(out, self.height);
        push_u16(out, self.planes);
        push_u16(out, self.bit_count.bit_count());
        assert(out@ =~= old(out)@ + self.spec_bytes());
    }

    /// Number of color table entries: `2^bits` for 1, 4 and 8 bits, none for
    /// 24 bits; other depths have no defined table size.
    pub open spec fn spec_color_table_size(self) -> Option<u32> {
        match self.bit_count {
            BitsPerPixel::Bpp1 => Some(2),
            BitsPerPixel::Bpp4 => Some(16),
            BitsPerPixel::Bpp8 => Some(256),
            BitsPerPixel::Bpp24 => Some(0),
            _ => None,
        }
    }

    /// Computes the number of color table entries.
    pub fn color_table_size(&self) -> (r: Result<u32, StructuralError>)
        ensures
            match self.spec_color_table_size() {
                Some(n) => r == Ok::<u32, StructuralError>(n),
                None => r == Err::<u32, StructuralError>(spec_table_size_error()),
            },
    {
        match self.bit_count {
            BitsPerPixel::Bpp1 => Ok(2),
            BitsPerPixel::Bpp4 => Ok(16),
            BitsPerPixel::Bpp8 => Ok(256),
            BitsPerPixel::Bpp24 => Ok(0),
            _ => Err(
                StructuralError::UnsupportedStructure(
                    "cannot compute color table size for unsupported bits-per-pixel value",
                ),
            ),
        }
    }

    /// The pixel data size: the padded row stride times the height.
    pub open spec fn spec_pixel_data_size(self) -> Option<u32> {
        spec_uncompressed_size(self.bit_count.spec_bit_count(), self.width as u32, self.height as u32)
    }

    /// Computes the pixel data size; fails on `u32` overflow.
    pub fn pixel_data_size(&self) -> (r: Result<u32, StructuralError>)
        ensures
            match self.spec_pixel_data_size() {
                Some(n) => r == Ok::<u32, StructuralError>(n),
                None => r == Err::<u32, StructuralError>(spec_pixel_size_error()),
            },
    {
        match uncompressed_size(self.bit_count.bit_count(), self.width as u32, self.height as u32) {
            Some(n) => Ok(n),
            None => Err(StructuralError::ArithmeticOverflow("pixel data size")),
        }
    }
}

/// The BMP INFO (40 byte) header (`BITMAPINFOHEADER`).
#[derive(Debug, Clone, Copy, PartialEq, Eq, Structural)]
pub struct BitmapInfoHeader {
    /// Width in pixels.
    pub width: i32,
    /// Height in pixels; negative for top-down bitmaps.
    pub height: i32,
    /// Number of planes; must be 1.
    pub planes: u16,
    /// Bits per pixel.
    pub bit_count: BitsPerPixel,
    /// Compression method.
    pub compression: Compression,
    /// Size of the pixel data; may be zero for uncompressed bitmaps.
    pub image_size: u32,
    /// Horizontal resolution in pixels per meter.
    pub x_resolution_ppm: i32,
    /// Vertical resolution in pixels per meter.
    pub y_resolution_ppm: i32,
    /// Number of color table entries; zero means the maximum for indexed
    /// depths.
    pub colors_used: u32,
    /// Number of important colors; zero means all.
    pub colors_important: u32,
}

/// The absolute value of an `i32`, as a `u32`.
pub open spec fn spec_unsigned_abs(v: i32) -> u32 {
    if v < 0 {
        (-(v as int)) as u32
    } else {
        v as u32
    }
}

/// Returns the absolute value of `v` as a `u32`.
pub fn unsigned_abs(v: i32) -> (r: u32)
    ensures
        r == spec_unsigned_abs(v),
{
    if v < 0 {
        if v == i32::MIN {
            0x8000_0000u32
        } else {
            (-v) as u32
        }
    } else {
        v as u32
    }
}

impl BitmapInfoHeader {
    /// Size of the header in bytes, including its size field.
    pub const HEADER_SIZE: u32 = 40;

    /// `self` is the INFO header body (after the size field) stored at `p`.
    pub open spec fn spec_at(self, s: Seq<u8>, p: int) -> bool {
        &&& 0 <= p && p + 36 <= s.len()
        &&& self.width == spec_i32_at(s, p)
        &&& self.height == spec_i32_at(s, p + 4)
        &&& self.planes == spec_u16_at(s, p + 8)
        &&& self.bit_count == BitsPerPixel::spec_from_raw(spec_u16_at(s, p + 10))
        &&& self.compression == Compression::spec_from_raw(spec_u32_at(s, p + 12))
        &&& self.image_size == spec_u32_at(s, p + 16)
        &&& self.x_resolution_ppm == spec_i32_at(s, p + 20)
        &&& self.y_resolution_ppm == spec_i32_at(s, p + 24)
        &&& self.colors_used == spec_u32_at(s, p + 28)
        &&& self.colors_important == spec_u32_at(s, p + 32)
    }

    /// The 36 bytes that store the header body.
    pub open spec fn spec_bytes(self) -> Seq<u8> {
        spec_i32_le(self.width) + spec_i32_le(self.height) + spec_u16_le(self.planes) + spec_u16_le(
            self.bit_count.spec_bit_count(),
        ) + spec_u32_le(self.compression.spec_value()) + spec_u32_le(self.image_size) + spec_i32_le(
            self.x_resolution_ppm,
        ) + spec_i32_le(self.y_resolution_ppm) + spec_u32_le(self.colors_used) + spec_u32_le(
            self.colors_important,
        )
    }

    /// Whether the compression stores uncompressed rows (`RGB` or `BITFIELDS`).
    pub open spec fn spec_is_uncompressed(self) -> bool {
        self.compression is Rgb || self.compression is BitFields
    }

    /// The outcome of validation, checked in this order: positive width,
    /// non-zero height, one plane, a depth INFO allows, compression matching
    /// the depth, no compression for top-down bitmaps, a non-zero image size
    /// for compressed bitmaps, a declared uncompressed size that matches the
    /// computed one, and no palette with JPEG or PNG data.
    pub open spec fn spec_validate(self) -> Result<(), ValidationError> {
        if self.width <= 0 {
            Err(ValidationError::InvalidWidth(self.width))
        } else if self.height == 0 {
            Err(ValidationError::InvalidHeight(self.height))
        } else if self.planes != 1 {
            Err(ValidationError::InvalidPlanes(self.planes))
        } else if !self.bit_count.spec_allowed_for(DibVariant::Info) {
            Err(ValidationError::InvalidBitCount(self.bit_count))
        } else if self.compression.spec_validate_for_bpp(self.bit_count) is Err {
            self.compression.spec_validate_for_bpp(self.bit_count)
        } else if self.height < 0 && !self.spec_is_uncompressed() {
            Err(ValidationError::InvalidCompressionForTopDown(self.compression))
        } else if self.image_size == 0 && !self.spec_is_uncompressed() {
            Err(ValidationError::CompressedImageMissingSize(self.compression))
        } else if self.image_size != 0 && self.spec_is_uncompressed() && self.spec_pixel_data_size() is Some
            && self.spec_pixel_data_size()->Some_0 != self.image_size {
            Err(
                ValidationError::UncompressedImageSizeMismatch {
                    reported: self.image_size,
                    computed: self.spec_pixel_data_size()->Some_0,
                },
            )
        } else if (self.compression is Jpeg || self.compression is Png) && self.colors_used != 0 {
            Err(
                ValidationError::PaletteNotAllowedForCompression {
                    compression: self.compression,
                    colors_used: self.colors_used,
                },
            )
        } else {
            Ok(())
        }
    }

    /// Validates the header against the specification.
    pub fn validate(&self) -> (r: Result<(), ValidationError>)
        ensures
            r == self.spec_validate(),
    {
        if self.width <= 0 {
            return Err(ValidationError::InvalidWidth(self.width));
        }
        if self.height == 0 {
            return Err(ValidationError::InvalidHeight(self.height));
        }
        if self.planes != 1 {
            return Err(ValidationError::InvalidPlanes(self.planes));
        }
        self.bit_count.validate(DibVariant::Info)?;
        self.compression.validate_for_bpp(self.bit_count)?;
        let uncompressed = matches!(self.compression, Compression::Rgb | Compression::BitFields);
        if self.height < 0 && !uncompressed {
            return Err(ValidationError::InvalidCompressionForTopDown(self.compression));
        }
        if self.image_size == 0 && !uncompressed {
            return Err(ValidationError::CompressedImageMissingSize(self.compression));
        }
        if self.image_size != 0 && uncompressed {
            if let Ok(computed) = self.pixel_data_size() {
                if computed != self.image_size {
                    return Err(
                        ValidationError::UncompressedImageSizeMismatch { reported: self.image_size, computed },
                    );
                }
            }
        }
        if matches!(self.compression, Compression::Jpeg | Compression::Png) && self.colors_used != 0 {
            return Err(
                ValidationError::PaletteNotAllowedForCompression {
                    compression: self.compression,
                    colors_used: self.colors_used,
                },
            );
        }
        Ok(())
    }

    /// Reads the header body at the stream position.
    pub fn read_unchecked(st: &mut BoundedStream) -> (r: Result<Self, IoErrorKind>)
        ensures
            final(st).spec_data() == old(st).spec_data(),
            final(st).spec_start() == old(st).spec_start(),
            final(st).spec_end() == old(st).spec_end(),
            old(st).spec_can_read(36) ==> r is Ok && r->Ok_0.spec_at(
                old(st).spec_data(),
                old(st).spec_pos() as int,
            ) && final(st).spec_pos() == old(st).spec_pos() + 36,
            !old(st).spec_can_read(36) ==> r == Err::<Self, IoErrorKind>(IoErrorKind::UnexpectedEof),
    {
        let width = st.read_i32()?;
        let height = st.read_i32()?;
        let planes = st.read_u16()?;
        let raw_bpp = st.read_u16()?;
        let raw_compression = st.read_u32()?;
        let image_size = st.read_u32()?;
        let x_resolution_ppm = st.read_i32()?;
        let y_resolution_ppm = st.read_i32()?;
        let colors_used = st.read_u32()?;
        let colors_important = st.read_u32()?;
        Ok(
            BitmapInfoHeader {
                width,
                height,
                planes,
                bit_count: BitsPerPixel::from_raw(raw_bpp),
                compression: Compression::from_raw(raw_compression),
                image_size,
                x_resolution_ppm,
                y_resolution_ppm,
                colors_used,
                colors_important,
            },
        )
    }

    /// Appends the 36 bytes of the header body.
    pub fn write_unchecked(&self, out: &mut Vec<u8>)
        ensures
            final(out)@ == old(out)@ + self.spec_bytes(),
    {
        push_i32(out, self.width);
        push_i32(out, self.height);
        push_u16(out, self.planes);
        push_u16(out, self.bit_count.bit_count());
        push_u32(out, self.compression.value());
        push_u32(out, self.image_size);
        push_i32(out, self.x_resolution_ppm);
        push_i32(out, self.y_resolution_ppm);
        push_u32(out, self.colors_used);
        push_u32(out, self.colors_important);
        assert(out@ =~= old(out)@ + self.spec_bytes());
    }

    /// Number of color table entries: none for 0 bpp; when `colors_used` is
    /// zero, `2^bits` for 1, 4 and 8 bits and none for 16, 24 and 32 bits
    /// (undefined otherwise); else `colors_used`.
    pub open spec fn spec_color_table_size(self) -> Option<u32> {
        if self.bit_count is Bpp0 {
            Some(0)
        } else if self.colors_used == 0 {
            match self.bit_count {
                BitsPerPixel::Bpp1 => Some(2),
                BitsPerPixel::Bpp4 => Some(16),
                BitsPerPixel::Bpp8 => Some(256),
                BitsPerPixel::Bpp16 => Some(0),
                BitsPerPixel::Bpp24 => Some(0),
                BitsPerPixel::Bpp32 => Some(0),
                _ => None,
            }
        } else {
            Some(self.colors_used)
        }
    }

    /// Computes the number of color table entries.
    pub fn color_table_size(&self) -> (r: Result<u32, StructuralError>)
        ensures
            match self.spec_color_table_size() {
                Some(n) => r == Ok::<u32, StructuralError>(n),
                None => r == Err::<u32, StructuralError>(spec_table_size_error()),
            },
    {
        if matches!(self.bit_count, BitsPerPixel::Bpp0) {
            return Ok(0);
        }
        if self.colors_used == 0 {
            return match self.bit_count {
                BitsPerPixel::Bpp1 => Ok(2),
                BitsPerPixel::Bpp4 => Ok(16),
                BitsPerPixel::Bpp8 => Ok(256),
                BitsPerPixel::Bpp16 => Ok(0),
                BitsPerPixel::Bpp24 => Ok(0),
                BitsPerPixel::Bpp32 => Ok(0),
                _ => Err(
                    StructuralError::UnsupportedStructure(
                        "cannot compute color table size for unsupported bits-per-pixel value",
                    ),
                ),
            };
        }
        Ok(self.colors_used)
    }

    /// The pixel data size: for uncompressed rows the padded stride of
    /// `|width|` pixels times `|height|`, otherwise the declared image size.
    pub open spec fn spec_pixel_data_size(self) -> Option<u32> {
        if self.spec_is_uncompressed() {
            spec_uncompressed_size(
                self.bit_count.spec_bit_count(),
                spec_unsigned_abs(self.width),
                spec_unsigned_abs(self.height),
            )
        } else {
            Some(self.image_size)
        }
    }

    /// Computes the pixel data size; fails on `u32` overflow.
    pub fn pixel_data_size(&self) -> (r: Result<u32, StructuralError>)
        ensures
            match self.spec_pixel_data_size() {
                Some(n) => r == Ok::<u32, StructuralError>(n),
                None => r == Err::<u32, StructuralError>(spec_pixel_size_error()),
            },
    {
        match self.compression {
            Compression::Rgb | Compression::BitFields => {
                match uncompressed_size(
                    self.bit_count.bit_count(),
                    unsigned_abs(self.width),
                    unsigned_abs(self.height),
                ) {
                    Some(n) => Ok(n),
                    None => Err(StructuralError::ArithmeticOverflow("pixel data size")),
                }
            },
            _ => Ok(self.image_size),
        }
    }
}


/// Reads a 2.30 fixed-point value.
fn read_fixed_2dot30(st: &mut BoundedStream) -> (r: Result<FixedPoint2Dot30, IoErrorKind>)
    ensures
        final(st).spec_data() == old(st).spec_data(),
        final(st).spec_start() == old(st).spec_start(),
        final(st).spec_end() == old(st).spec_end(),
        old(st).spec_can_read(4) ==> r == Ok::<FixedPoint2Dot30, IoErrorKind>(
            FixedPoint2Dot30::spec_from_raw(spec_u32_at(old(st).spec_data(), old(st).spec_pos() as int)),
        ) && final(st).spec_pos() == old(st).spec_pos() + 4,
        !old(st).spec_can_read(4) ==> r == Err::<FixedPoint2Dot30, IoErrorKind>(IoErrorKind::UnexpectedEof),
{
    let raw = st.read_u32()?;
    Ok(FixedPoint2Dot30::from_raw(raw))
}

/// Reads a 16.16 fixed-point value.
fn read_fixed_16dot16(st: &mut BoundedStream) -> (r: Result<FixedPoint16Dot16, IoErrorKind>)
    ensures
        final(st).spec_data() == old(st).spec_data(),
        final(st).spec_start() == old(st).spec_start(),
        final(st).spec_end() == old(st).spec_end(),
        old(st).spec_can_read(4) ==> r == Ok::<FixedPoint16Dot16, IoErrorKind>(
            FixedPoint16Dot16::spec_from_raw(spec_u32_at(old(st).spec_data(), old(st).spec_pos() as int)),
        ) && final(st).spec_pos() == old(st).spec_pos() + 4,
        !old(st).spec_can_read(4) ==> r == Err::<FixedPoint16Dot16, IoErrorKind>(IoErrorKind::UnexpectedEof),
{
    let raw = st.read_u32()?;
    Ok(FixedPoint16Dot16::from_raw(raw))
}

/// `c` is the CIE XYZ endpoint stored at `p`.
pub open spec fn spec_cie_xyz_at(c: CieXyz, s: Seq<u8>, p: int) -> bool {
    &&& c.x == FixedPoint2Dot30::spec_from_raw(spec_u32_at(s, p))
    &&& c.y == FixedPoint2Dot30::spec_from_raw(spec_u32_at(s, p + 4))
    &&& c.z == FixedPoint2Dot30::spec_from_raw(spec_u32_at(s, p + 8))
}

/// The 12 bytes that store a CIE XYZ endpoint.
pub open spec fn spec_cie_xyz_bytes(c: CieXyz) -> Seq<u8> {
    spec_u32_le(c.x.spec_raw()) + spec_u32_le(c.y.spec_raw()) + spec_u32_le(c.z.spec_raw())
}

/// Reads a CIE XYZ endpoint.
fn read_cie_xyz(st: &mut BoundedStream) -> (r: Result<CieXyz, IoErrorKind>)
    ensures
        final(st).spec_data() == old(st).spec_data(),
        final(st).spec_start() == old(st).spec_start(),
        final(st).spec_end() == old(st).spec_end(),
        old(st).spec_can_read(12) ==> r is Ok && spec_cie_xyz_at(
            r->Ok_0,
            old(st).spec_data(),
            old(st).spec_pos() as int,
        ) && final(st).spec_pos() == old(st).spec_pos() + 12,
        !old(st).spec_can_read(12) ==> r == Err::<CieXyz, IoErrorKind>(IoErrorKind::UnexpectedEof),
{
    let x = read_fixed_2dot30(st)?;
    let y = read_fixed_2dot30(st)?;
    let z = read_fixed_2dot30(st)?;
    Ok(CieXyz { x, y, z })
}

/// Appends the 12 bytes of a CIE XYZ endpoint.
fn write_cie_xyz(c: &CieXyz, out: &mut Vec<u8>)
    ensures
        final(out)@ == old(out)@ + spec_cie_xyz_bytes(*c),
{
    push_u32(out, c.x.raw());
    push_u32(out, c.y.raw());
    push_u32(out, c.z.raw());
    assert(out@ =~= old(out)@ + spec_cie_xyz_bytes(*c));
}

/// The BMP V4 (108 byte) header (`BITMAPV4HEADER`).
#[derive(Debug, Clone, Copy, PartialEq, Eq, Structural)]
pub struct BitmapV4Header {
    /// The INFO header fields.
    pub info: BitmapInfoHeader,
    /// Channel masks, used with `BI_BITFIELDS`.
    pub masks: RgbaMasks,
    /// Color space type.
    pub cs_type: ColorSpaceType,
    /// CIE XYZ endpoints, meaningful for calibrated RGB.
    pub endpoints: CieXyzTriple,
    /// Tone response curves.
    pub gamma: GammaTriple,
}

impl BitmapV4Header {
    /// Size of the header in bytes, including its size field.
    pub const HEADER_SIZE: u32 = 108;

    /// `self` is the V4 header body (after the size field) stored at `p`.
    pub open spec fn spec_at(self, s: Seq<u8>, p: int) -> bool {
        &&& 0 <= p && p + 104 <= s.len()
        &&& self.info.spec_at(s, p)
        &&& self.masks.red_mask == spec_u32_at(s, p + 36)
        &&& self.masks.green_mask == spec_u32_at(s, p + 40)
        &&& self.masks.blue_mask == spec_u32_at(s, p + 44)
        &&& self.masks.alpha_mask == spec_u32_at(s, p + 48)
        &&& self.cs_type == ColorSpaceType::spec_from_raw(spec_u32_at(s, p + 52))
        &&& spec_cie_xyz_at(self.endpoints.red, s, p + 56)
        &&& spec_cie_xyz_at(self.endpoints.green, s, p + 68)
        &&& spec_cie_xyz_at(self.endpoints.blue, s, p + 80)
        &&& self.gamma.red == FixedPoint16Dot16::spec_from_raw(spec_u32_at(s, p + 92))
        &&& self.gamma.green == FixedPoint16Dot16::spec_from_raw(spec_u32_at(s, p + 96))
        &&& self.gamma.blue == FixedPoint16Dot16::spec_from_raw(spec_u32_at(s, p + 100))
    }

    /// The 104 bytes that store the header body.
    pub open spec fn spec_bytes(self) -> Seq<u8> {
        self.info.spec_bytes() + spec_u32_le(self.masks.red_mask) + spec_u32_le(self.masks.green_mask)
            + spec_u32_le(self.masks.blue_mask) + spec_u32_le(self.masks.alpha_mask) + spec_u32_le(
            self.cs_type.spec_value(),
        ) + spec_cie_xyz_bytes(self.endpoints.red) + spec_cie_xyz_bytes(self.endpoints.green)
            + spec_cie_xyz_bytes(self.endpoints.blue) + spec_u32_le(self.gamma.red.spec_raw()) + spec_u32_le(
            self.gamma.green.spec_raw(),
        ) + spec_u32_le(self.gamma.blue.spec_raw())
    }

    /// The checks shared with V5: the INFO fields, then the masks against
    /// the bit depth.
    pub open spec fn spec_validate_base(self) -> Result<(), ValidationError> {
        match self.info.spec_validate() {
            Err(e) => Err(e),
            Ok(()) => match spec_validate_masks_for_bpp(self.masks.spec_channels(), self.info.bit_count) {
                Err(e) => Err(ValidationError::InvalidColorMasks(e)),
                Ok(()) => Ok(()),
            },
        }
    }

    /// The outcome of validation: the shared checks, then a color space type
    /// of calibrated RGB, sRGB or the Windows color space.
    pub open spec fn spec_validate(self) -> Result<(), ValidationError> {
        match self.spec_validate_base() {
            Err(e) => Err(e),
            Ok(()) => if self.cs_type is CalibratedRgb || self.cs_type is SRgb || self.cs_type is WindowsColorSpace {
                Ok(())
            } else {
                Err(ValidationError::InvalidColorSpaceType(self.cs_type))
            },
        }
    }

    /// Validates the INFO fields and the masks.
    pub fn validate_base(&self) -> (r: Result<(), ValidationError>)
        ensures
            r == self.spec_validate_base(),
    {
        self.info.validate()?;
        match self.masks.validate_for_bpp(self.info.bit_count) {
            Ok(()) => Ok(()),
            Err(e) => Err(ValidationError::InvalidColorMasks(e)),
        }
    }

    /// Validates the header against the specification.
    pub fn validate(&self) -> (r: Result<(), ValidationError>)
        ensures
            r == self.spec_validate(),
    {
        self.validate_base()?;
        if matches!(
            self.cs_type,
            ColorSpaceType::CalibratedRgb | ColorSpaceType::SRgb | ColorSpaceType::WindowsColorSpace
        ) {
            Ok(())
        } else {
            Err(ValidationError::InvalidColorSpaceType(self.cs_type))
        }
    }

    /// Reads the header body at the stream position.
    pub fn read_unchecked(st: &mut BoundedStream) -> (r: Result<Self, IoErrorKind>)
        ensures
            final(st).spec_data() == old(st).spec_data(),
            final(st).spec_start() == old(st).spec_start(),
            final(st).spec_end() == old(st).spec_end(),
            old(st).spec_can_read(104) ==> r is Ok && r->Ok_0.spec_at(
                old(st).spec_data(),
                old(st).spec_pos() as int,
            ) && final(st).spec_pos() == old(st).spec_pos() + 104,
            !old(st).spec_can_read(104) ==> r == Err::<Self, IoErrorKind>(IoErrorKind::UnexpectedEof),
    {
        let info = BitmapInfoHeader::read_unchecked(st)?;
        let red_mask = st.read_u32()?;
        let green_mask = st.read_u32()?;
        let blue_mask = st.read_u32()?;
        let alpha_mask = st.read_u32()?;
        let raw_cs = st.read_u32()?;
        let red = read_cie_xyz(st)?;
        let green = read_cie_xyz(st)?;
        let blue = read_cie_xyz(st)?;
        let gamma_red = read_fixed_16dot16(st)?;
        let gamma_green = read_fixed_16dot16(st)?;
        let gamma_blue = read_fixed_16dot16(st)?;
        Ok(
            BitmapV4Header {
                info,
                masks: RgbaMasks { red_mask, green_mask, blue_mask, alpha_mask },
                cs_type: ColorSpaceType::from_raw(raw_cs),
                endpoints: CieXyzTriple { red, green, blue },
                gamma: GammaTriple { red: gamma_red, green: gamma_green, blue: gamma_blue },
            },
        )
    }

    /// Appends the 104 bytes of the header body.
    pub fn write_unchecked(&self, out: &mut Vec<u8>)
        ensures
            final(out)@ == old(out)@ + self.spec_bytes(),
    {
        self.info.write_unchecked(out);
        push_u32(out, self.masks.red_mask);
        push_u32(out, self.masks.green_mask);
        push_u32(out, self.masks.blue_mask);
        push_u32(out, self.masks.alpha_mask);
        push_u32(out, self.cs_type.value());
        write_cie_xyz(&self.endpoints.red, out);
        write_cie_xyz(&self.endpoints.green, out);
        write_cie_xyz(&self.endpoints.blue, out);
        push_u32(out, self.gamma.red.raw());
        push_u32(out, self.gamma.green.raw());
        push_u32(out, self.gamma.blue.raw());
        assert(out@ =~= old(out)@ + self.spec_bytes());
    }
}

/// The BMP V5 (124 byte) header (`BITMAPV5HEADER`).
#[derive(Debug, Clone, PartialEq, Eq)]
pub struct BitmapV5Header {
    /// The V4 header fields.
    pub v4: BitmapV4Header,
    /// Rendering intent.
    pub intent: u32,
    /// Offset of the profile data from the start of the DIB header.
    pub profile_data: u32,
    /// Size of the profile data in bytes.
    pub profile_size: u32,
    /// Reserved; should be zero.
    pub reserved: [u8; 4],
}

impl BitmapV5Header {
    /// Size of the header in bytes, including its size field.
    pub const HEADER_SIZE: u32 = 124;

    /// `self` is the V5 header body (after the size field) stored at `p`.
    pub open spec fn spec_at(self, s: Seq<u8>, p: int) -> bool {
        &&& 0 <= p && p + 120 <= s.len()
        &&& self.v4.spec_at(s, p)
        &&& self.intent == spec_u32_at(s, p + 104)
        &&& self.profile_data == spec_u32_at(s, p + 108)
        &&& self.profile_size == spec_u32_at(s, p + 112)
        &&& self.reserved@ == s.subrange(p + 116, p + 120)
    }

    /// The 120 bytes that store the header body.
    pub open spec fn spec_bytes(self) -> Seq<u8> {
        self.v4.spec_bytes() + spec_u32_le(self.intent) + spec_u32_le(self.profile_data) + spec_u32_le(
            self.profile_size,
        ) + self.reserved@
    }

    /// The outcome of validation: the checks shared with V4, then one of the
    /// five known color space types, then, for profile color spaces, a
    /// profile offset that lies beyond the header.
    pub open spec fn spec_validate(self) -> Result<(), ValidationError> {
        match self.v4.spec_validate_base() {
            Err(e) => Err(e),
            Ok(()) => if self.v4.cs_type is Other {
                Err(ValidationError::InvalidColorSpaceType(self.v4.cs_type))
            } else if self.v4.cs_type.spec_is_profile() && self.profile_data < 124 {
                Err(ValidationError::InvalidProfileOffset(self.profile_data))
            } else {
                Ok(())
            },
        }
    }

    /// Validates the header against the specification.
    pub fn validate(&self) -> (r: Result<(), ValidationError>)
        ensures
            r == self.spec_validate(),
    {
        self.v4.validate_base()?;
        if matches!(self.v4.cs_type, ColorSpaceType::Other(_)) {
            return Err(ValidationError::InvalidColorSpaceType(self.v4.cs_type));
        }
        if matches!(self.v4.cs_type, ColorSpaceType::ProfileEmbedded | ColorSpaceType::ProfileLinked)
            && self.profile_data < Self::HEADER_SIZE {
            return Err(ValidationError::InvalidProfileOffset(self.profile_data));
        }
        Ok(())
    }

    /// Reads the header body at the stream position.
    pub fn read_unchecked(st: &mut BoundedStream) -> (r: Result<Self, IoErrorKind>)
        ensures
            final(st).spec_data() == old(st).spec_data(),
            final(st).spec_start() == old(st).spec_start(),
            final(st).spec_end() == old(st).spec_end(),
            old(st).spec_can_read(120) ==> r is Ok && r->Ok_0.spec_at(
                old(st).spec_data(),
                old(st).spec_pos() as int,
            ) && final(st).spec_pos() == old(st).spec_pos() + 120,
            !old(st).spec_can_read(120) ==> r == Err::<Self, IoErrorKind>(IoErrorKind::UnexpectedEof),
    {
        let ghost s = st.spec_data();
        let ghost p = st.spec_pos() as int;
        let v4 = BitmapV4Header::read_unchecked(st)?;
        let intent = st.read_u32()?;
        let profile_data = st.read_u32()?;
        let profile_size = st.read_u32()?;
        let r0 = st.read_u8()?;
        let r1 = st.read_u8()?;
        let r2 = st.read_u8()?;
        let r3 = st.read_u8()?;
        let h = BitmapV5Header { v4, intent, profile_data, profile_size, reserved: [r0, r1, r2, r3] };
        assert(h.reserved@ =~= s.subrange(p + 116, p + 120));
        Ok(h)
    }

    /// Appends the 120 bytes of the header body.
    pub fn write_unchecked(&self, out: &mut Vec<u8>)
        ensures
            final(out)@ == old(out)@ + self.spec_bytes(),
    {
        self.v4.write_unchecked(out);
        push_u32(out, self.intent);
        push_u32(out, self.profile_data);
        push_u32(out, self.profile_size);
        push_all(out, &self.reserved);
        assert(out@ =~= old(out)@ + self.spec_bytes());
    }
}

/// Any of the four DIB header generations.
#[derive(Debug, Clone, PartialEq, Eq)]
pub enum BitmapHeader {
    Core(BitmapCoreHeader),
    Info(BitmapInfoHeader),
    V4(BitmapV4Header),
    V5(BitmapV5Header),
}

/// Whether a DIB header size field names a supported header generation.
pub open spec fn spec_known_header_size(size: u32) -> bool {
    size == 12 || size == 40 || size == 108 || size == 124
}

impl BitmapHeader {
    /// The size of this header generation, including the size field.
    pub open spec fn spec_size(self) -> u32 {
        match self {
            BitmapHeader::Core(_) => 12,
            BitmapHeader::Info(_) => 40,
            BitmapHeader::V4(_) => 108,
            BitmapHeader::V5(_) => 124,
        }
    }

    /// `self` is the DIB header, starting with its size field, stored at `p`.
    pub open spec fn spec_at(self, s: Seq<u8>, p: int) -> bool {
        &&& 0 <= p && p + 4 <= s.len()
        &&& spec_u32_at(s, p) == self.spec_size()
        &&& match self {
            BitmapHeader::Core(h) => h.spec_at(s, p + 4),
            BitmapHeader::Info(h) => h.spec_at(s, p + 4),
            BitmapHeader::V4(h) => h.spec_at(s, p + 4),
            BitmapHeader::V5(h) => h.spec_at(s, p + 4),
        }
    }

    /// The bytes that store the header, starting with its size field.
    pub open spec fn spec_bytes(self) -> Seq<u8> {
        spec_u32_le(self.spec_size()) + match self {
            BitmapHeader::Core(h) => h.spec_bytes(),
            BitmapHeader::Info(h) => h.spec_bytes(),
            BitmapHeader::V4(h) => h.spec_bytes(),
            BitmapHeader::V5(h) => h.spec_bytes(),
        }
    }

    /// The outcome of validating the inner header.
    pub open spec fn spec_validate(self) -> Result<(), ValidationError> {
        match self {
            BitmapHeader::Core(h) => h.spec_validate(),
            BitmapHeader::Info(h) => h.spec_validate(),
            BitmapHeader::V4(h) => h.spec_validate(),
            BitmapHeader::V5(h) => h.spec_validate(),
        }
    }

    /// Validates the inner header.
    pub fn validate(&self) -> (r: Result<(), ValidationError>)
        ensures
            r == self.spec_validate(),
    {
        match self {
            BitmapHeader::Core(h) => h.validate(),
            BitmapHeader::Info(h) => h.validate(),
            BitmapHeader::V4(h) => h.validate(),
            BitmapHeader::V5(h) => h.validate(),
        }
    }

    /// The bit depth.
    pub open spec fn spec_bit_count(self) -> BitsPerPixel {
        match self {
            BitmapHeader::Core(h) => h.bit_count,
            BitmapHeader::Info(h) => h.bit_count,
            BitmapHeader::V4(h) => h.info.bit_count,
            BitmapHeader::V5(h) => h.v4.info.bit_count,
        }
    }

    /// Returns the bit depth.
    pub fn bit_count(&self) -> (r: BitsPerPixel)
        ensures
            r == self.spec_bit_count(),
    {
        match self {
            BitmapHeader::Core(h) => h.bit_count,
            BitmapHeader::Info(h) => h.bit_count,
            BitmapHeader::V4(h) => h.info.bit_count,
            BitmapHeader::V5(h) => h.v4.info.bit_count,
        }
    }

    /// The compression; CORE bitmaps are always uncompressed.
    pub open spec fn spec_compression(self) -> Compression {
        match self {
            BitmapHeader::Core(_) => Compression::Rgb,
            BitmapHeader::Info(h) => h.compression,
            BitmapHeader::V4(h) => h.info.compression,
            BitmapHeader::V5(h) => h.v4.info.compression,
        }
    }

    /// Returns the compression.
    pub fn compression(&self) -> (r: Compression)
        ensures
            r == self.spec_compression(),
    {
        match self {
            BitmapHeader::Core(_) => Compression::Rgb,
            BitmapHeader::Info(h) => h.compression,
            BitmapHeader::V4(h) => h.info.compression,
            BitmapHeader::V5(h) => h.v4.info.compression,
        }
    }

    /// The number of color table entries, when defined.
    pub open spec fn spec_color_table_size(self) -> Option<u32> {
        match self {
            BitmapHeader::Core(h) => h.spec_color_table_size(),
            BitmapHeader::Info(h) => h.spec_color_table_size(),
            BitmapHeader::V4(h) => h.info.spec_color_table_size(),
            BitmapHeader::V5(h) => h.v4.info.spec_color_table_size(),
        }
    }

    /// Computes the number of color table entries.
    pub fn color_table_size(&self) -> (r: Result<u32, StructuralError>)
        ensures
            match self.spec_color_table_size() {
                Some(n) => r == Ok::<u32, StructuralError>(n),
                None => r == Err::<u32, StructuralError>(spec_table_size_error()),
            },
    {
        match self {
            BitmapHeader::Core(h) => h.color_table_size(),
            BitmapHeader::Info(h) => h.color_table_size(),
            BitmapHeader::V4(h) => h.info.color_table_size(),
            BitmapHeader::V5(h) => h.v4.info.color_table_size(),
        }
    }

    /// The pixel data size, when it does not overflow.
    pub open spec fn spec_pixel_data_size(self) -> Option<u32> {
        match self {
            BitmapHeader::Core(h) => h.spec_pixel_data_size(),
            BitmapHeader::Info(h) => h.spec_pixel_data_size(),
            BitmapHeader::V4(h) => h.info.spec_pixel_data_size(),
            BitmapHeader::V5(h) => h.v4.info.spec_pixel_data_size(),
        }
    }

    /// Computes the pixel data size.
    pub fn pixel_data_size(&self) -> (r: Result<u32, StructuralError>)
        ensures
            match self.spec_pixel_data_size() {
                Some(n) => r == Ok::<u32, StructuralError>(n),
                None => r == Err::<u32, StructuralError>(spec_pixel_size_error()),
            },
    {
        match self {
            BitmapHeader::Core(h) => h.pixel_data_size(),
            BitmapHeader::Info(h) => h.pixel_data_size(),
            BitmapHeader::V4(h) => h.info.pixel_data_size(),
            BitmapHeader::V5(h) => h.v4.info.pixel_data_size(),
        }
    }

    /// Reads a DIB header at the stream position: its size field selects the
    /// generation; an unknown size is unsupported.
    pub fn read_unchecked(st: &mut BoundedStream) -> (r: Result<Self, StructuralError>)
        ensures
            final(st).spec_data() == old(st).spec_data(),
            final(st).spec_start() == old(st).spec_start(),
            final(st).spec_end() == old(st).spec_end(),
            !old(st).spec_can_read(4) ==> r == Err::<Self, StructuralError>(
                StructuralError::Io { kind: IoErrorKind::UnexpectedEof, stage: IoStage::ReadingDibHeader },
            ),
            old(st).spec_can_read(4) ==> {
                let size = spec_u32_at(old(st).spec_data(), old(st).spec_pos() as int);
                &&& !spec_known_header_size(size) ==> r == Err::<BitmapHeader, StructuralError>(spec_header_size_error())
                &&& spec_known_header_size(size) && old(st).spec_can_read(size as int) ==> r is Ok
                    && r->Ok_0.spec_at(old(st).spec_data(), old(st).spec_pos() as int)
                    && final(st).spec_pos() == old(st).spec_pos() + size
                &&& spec_known_header_size(size) && !old(st).spec_can_read(size as int) ==> r == Err::<
                    Self,
                    StructuralError,
                >(StructuralError::Io { kind: IoErrorKind::UnexpectedEof, stage: IoStage::ReadingDibHeader })
            },
    {
        let size = match st.read_u32() {
            Ok(v) => v,
            Err(kind) => return Err(StructuralError::Io { kind, stage: IoStage::ReadingDibHeader }),
        };
        if size == 12 {
            match BitmapCoreHeader::read_unchecked(st) {
                Ok(h) => Ok(BitmapHeader::Core(h)),
                Err(kind) => Err(StructuralError::Io { kind, stage: IoStage::ReadingDibHeader }),
            }
        } else if size == 40 {
            match BitmapInfoHeader::read_unchecked(st) {
                Ok(h) => Ok(BitmapHeader::Info(h)),
                Err(kind) => Err(StructuralError::Io { kind, stage: IoStage::ReadingDibHeader }),
            }
        } else if size == 108 {
            match BitmapV4Header::read_unchecked(st) {
                Ok(h) => Ok(BitmapHeader::V4(h)),
                Err(kind) => Err(StructuralError::Io { kind, stage: IoStage::ReadingDibHeader }),
            }
        } else if size == 124 {
            match BitmapV5Header::read_unchecked(st) {
                Ok(h) => Ok(BitmapHeader::V5(h)),
                Err(kind) => Err(StructuralError::Io { kind, stage: IoStage::ReadingDibHeader }),
            }
        } else {
            Err(
                StructuralError::UnsupportedStructure(
                    "the DIB header size did not match any supported BMP variant",
                ),
            )
        }
    }

    /// Appends the header bytes, starting with its size field.
    pub fn write_unchecked(&self, out: &mut Vec<u8>)
        ensures
            final(out)@ == old(out)@ + self.spec_bytes(),
    {
        match self {
            BitmapHeader::Core(h) => {
                push_u32(out, BitmapCoreHeader::HEADER_SIZE);
                h.write_unchecked(out);
            },
            BitmapHeader::Info(h) => {
                push_u32(out, BitmapInfoHeader::HEADER_SIZE);
                h.write_unchecked(out);
            },
            BitmapHeader::V4(h) => {
                push_u32(out, BitmapV4Header::HEADER_SIZE);
                h.write_unchecked(out);
            },
            BitmapHeader::V5(h) => {
                push_u32(out, BitmapV5Header::HEADER_SIZE);
                h.write_unchecked(out);
            },
        }
        assert(out@ =~= old(out)@ + self.spec_bytes());
    }
}

/// Without an explicit color count, an indexed header of `b` bits per
/// pixel (1, 4 or 8) has a full color table of `2^b` entries; a CORE
/// header always does.
pub proof fn lemma_default_color_table_size(h: BitmapHeader)
    requires
        h.spec_bit_count() is Bpp1 || h.spec_bit_count() is Bpp4 || h.spec_bit_count() is Bpp8,
        match h {
            BitmapHeader::Core(_) => true,
            BitmapHeader::Info(i) => i.colors_used == 0,
            BitmapHeader::V4(v) => v.info.colors_used == 0,
            BitmapHeader::V5(v) => v.v4.info.colors_used == 0,
        },
    ensures
        h.spec_color_table_size() == Some(
            vstd::arithmetic::power2::pow2(h.spec_bit_count().spec_bit_count() as nat) as u32,
        ),
{
    vstd::arithmetic::power2::lemma2_to64();
}

} // verus!
