//! Error types of the raw BMP layer.
use vstd::prelude::*;

use crate::raw::masks::ColorMaskChannel;
use crate::raw::types::{BitsPerPixel, ColorSpaceType, Compression, RgbQuad};

verus! {

/// The stage of reading or writing at which a byte-level failure happened.
#[derive(Debug, Clone, Copy, PartialEq, Eq, Structural)]
pub enum IoStage {
    ReadingFileHeader,
    ReadingDibHeader,
    ReadingColorMasks,
    ReadingColorTable,
    ReadingPixelData,
    ReadingIccProfile,
}

/// The kind of a byte-level failure of a bounded stream.
#[derive(Debug, Clone, Copy, PartialEq, Eq, Structural)]
pub enum IoErrorKind {
    /// Fewer bytes were available than needed.
    UnexpectedEof,
    /// A position was requested outside the allowed window, or overflowed.
    InvalidInput,
}

/// Any error of the raw layer.
#[derive(Debug, Clone)]
pub enum BmpError {
    /// The structure could not be interpreted safely.
    Structure(StructuralError),
    /// The structure violates the BMP specification.
    Validation(ValidationError),
}

/// The parts of a BMP whose size a safety limit bounds.
#[derive(Debug, Clone, Copy, PartialEq, Eq)]
pub enum LimitedItem {
    /// The pixel data, in bytes.
    PixelData,
    /// The ICC profile, in bytes.
    IccProfile,
    /// The color table, in entries.
    ColorTable,
}

/// The error for `item` having `size` entries beyond its limit `max`.
#[verifier::opaque]
pub open spec fn spec_too_large(item: LimitedItem, size: int, max: usize) -> StructuralError {
    StructuralError::StructureUnsafe { item, size: size as usize, max }
}

/// Builds the error for `item` having `size` entries beyond its limit
/// `max`.
pub fn too_large(item: LimitedItem, size: usize, max: usize) -> (e: StructuralError)
    ensures
        e == spec_too_large(item, size as int, max),
{
    proof {
        reveal(spec_too_large);
    }
    StructuralError::StructureUnsafe { item, size, max }
}

/// Errors indicating that the BMP structure cannot be interpreted safely:
/// byte-level failures, arithmetic overflows, structures that no variant of
/// the format describes, and explicit safety limits.
#[derive(Debug, Clone)]
pub enum StructuralError {
    /// A bounded stream could not provide or position the needed bytes.
    Io { kind: IoErrorKind, stage: IoStage },
    /// A size or offset computation overflowed.
    ArithmeticOverflow(&'static str),
    /// The structure exceeds a safety limit: `item` has `size` entries
    /// (bytes for an ICC profile) where at most `max` are allowed.
    StructureUnsafe { item: LimitedItem, size: usize, max: usize },
    /// The structure is not described by any supported variant.
    UnsupportedStructure(&'static str),
    /// The stored pixel data does not have the size the header declares.
    PixelDataSizeMismatch { stored_size: usize, header_size: usize },
    /// The pixel data would not fit in the declared layout.
    PixelDataLayout(PixelDataLayoutError),
    /// The ICC profile would not fit in the declared layout.
    IccProfile(IccProfileError),
}

/// Errors indicating that a parsed BMP structure violates the specification.
#[derive(Debug, Clone)]
pub enum ValidationError {
    InvalidFileSignature([u8; 2]),
    InvalidFileReservedData([u8; 4]),
    InvalidWidth(i32),
    InvalidHeight(i32),
    InvalidPlanes(u16),
    InvalidBitCount(BitsPerPixel),
    InvalidCompressionForTopDown(Compression),
    InvalidCompressionForBpp { compression: Compression, bpp: BitsPerPixel },
    UnknownCompression(u32),
    CompressedImageMissingSize(Compression),
    InvalidColorMasks(ColorMaskError),
    InvalidColorSpaceType(ColorSpaceType),
    InvalidProfileOffset(u32),
    PaletteNotAllowedForCompression { compression: Compression, colors_used: u32 },
    UncompressedImageSizeMismatch { reported: u32, computed: u32 },
    InvalidRgbQuad(RgbQuad),
    ColorTableSizeMismatch { stored_size: usize, header_size: usize },
    PixelDataSizeMismatch { stored_size: usize, header_size: usize },
    PixelDataLayout(PixelDataLayoutError),
    IccProfile(IccProfileError),
}

/// Errors in the placement of the pixel data within the file.
#[derive(Debug, Clone, Copy, PartialEq, Eq, Structural)]
pub enum PixelDataLayoutError {
    OverlapsMetadata { pixel_offset_header: u32, min_offset: u32 },
    ExceedsFileSize { pixel_end: u64, file_size: u32 },
    DoesNotEndAtFileEnd { pixel_end: u64, file_size: u32 },
}

/// Errors in bitfield color masks.
#[derive(Debug, Clone, Copy, PartialEq, Eq, Structural)]
pub enum ColorMaskError {
    NonContiguous { mask: u32, channel: ColorMaskChannel },
    Overlapping { mask_a: u32, channel_a: ColorMaskChannel, mask_b: u32, channel_b: ColorMaskChannel },
    ExceedsBitDepth { mask: u32, channel: ColorMaskChannel, bpp: BitsPerPixel },
}

/// Errors in the ICC profile of a V5 bitmap.
#[derive(Debug, Clone, Copy, PartialEq, Eq, Structural)]
pub enum IccProfileError {
    MissingDataForProfileColorSpace { cs_type: ColorSpaceType },
    UnexpectedDataForNonProfileColorSpace { cs_type: ColorSpaceType, profile_data: u32, profile_size: u32 },
    SizeMismatch { stored_size: usize, header_size: usize },
    OverlapsMetadata { profile_offset: u64, min_offset: u64 },
    ExceedsFileSize { profile_end: u64, file_size: u32 },
}

} // verus!
