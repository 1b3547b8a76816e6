//! The BMP container: accessors, specification validation, structural
//! parsing from bytes and serialization to bytes.
use vstd::prelude::*;

use crate::raw::error::{
    spec_too_large, too_large, BmpError, IccProfileError, IoErrorKind, IoStage, LimitedItem, PixelDataLayoutError,
    StructuralError, ValidationError,
};
use crate::raw::headers::{
    BitmapCoreHeader, BitmapHeader, BitmapInfoHeader, BitmapV4Header, BitmapV5Header, FileHeader,
};
use crate::raw::headers::{spec_header_size_error, spec_known_header_size, spec_pixel_size_error, spec_table_size_error};
use crate::raw::headers::{push_all, push_u32};
use crate::raw::le::{spec_u32_at, spec_u32_le};
use crate::raw::masks::{spec_validate_masks_for_bpp, RgbMasks};
use crate::raw::stream::{BoundedStream, SeekFrom};
use crate::raw::types::{ColorSpaceType, Compression, RgbQuad, RgbTriple};

verus! {

/// Largest pixel payload, in bytes, that is read, validated or written.
pub const MAX_PIXEL_BYTES: usize = 536870912;

/// Largest ICC profile payload, in bytes, that is read, validated or written.
pub const MAX_ICC_PROFILE_BYTES: usize = 16777216;

/// Largest color table, in entries, that is read.
pub const MAX_COLOR_TABLE_ENTRIES: usize = 65536;

/// Identifies the DIB header family used by a BMP payload.
#[derive(Debug, Clone, Copy, PartialEq, Eq, Structural)]
pub enum DibVariant {
    /// `BITMAPCOREHEADER`.
    Core,
    /// `BITMAPINFOHEADER`.
    Info,
    /// `BITMAPV4HEADER`.
    V4,
    /// `BITMAPV5HEADER`.
    V5,
}

/// Parsed BMP data for CORE bitmaps.
#[derive(Debug, Clone)]
pub struct BitmapCoreData {
    /// File header.
    pub file_header: FileHeader,
    /// CORE DIB header.
    pub bmp_header: BitmapCoreHeader,
    /// Color table of `RGBTRIPLE` entries.
    pub color_table: Vec<RgbTriple>,
    /// Raw encoded pixel payload.
    pub bitmap_array: Vec<u8>,
}

/// Parsed BMP data for INFO bitmaps.
#[derive(Debug, Clone)]
pub struct BitmapInfoData {
    /// File header.
    pub file_header: FileHeader,
    /// INFO DIB header.
    pub bmp_header: BitmapInfoHeader,
    /// Bitfield masks stored after the header for `BI_BITFIELDS`.
    pub color_masks: Option<RgbMasks>,
    /// Color table of `RGBQUAD` entries.
    pub color_table: Vec<RgbQuad>,
    /// Raw encoded pixel payload.
    pub bitmap_array: Vec<u8>,
}

/// Parsed BMP data for V4 bitmaps.
#[derive(Debug, Clone)]
pub struct BitmapV4Data {
    /// File header.
    pub file_header: FileHeader,
    /// V4 DIB header.
    pub bmp_header: BitmapV4Header,
    /// Color table of `RGBQUAD` entries.
    pub color_table: Vec<RgbQuad>,
    /// Raw encoded pixel payload.
    pub bitmap_array: Vec<u8>,
}

/// Parsed BMP data for V5 bitmaps.
#[derive(Debug, Clone)]
pub struct BitmapV5Data {
    /// File header.
    pub file_header: FileHeader,
    /// V5 DIB header.
    pub bmp_header: BitmapV5Header,
    /// Color table of `RGBQUAD` entries.
    pub color_table: Vec<RgbQuad>,
    /// Raw encoded pixel payload.
    pub bitmap_array: Vec<u8>,
    /// Embedded or linked ICC profile payload.
    pub icc_profile: Option<Vec<u8>>,
}

/// A BMP, keyed by its DIB header generation.
#[derive(Debug, Clone)]
pub enum Bmp {
    Core(BitmapCoreData),
    Info(BitmapInfoData),
    V4(BitmapV4Data),
    V5(BitmapV5Data),
}

/// The color table of an INFO or later bitmap, or a CORE table widened to
/// quads with zero reserved bytes.
pub open spec fn spec_quads_of_triples(t: Seq<RgbTriple>) -> Seq<RgbQuad> {
    t.map_values(|e: RgbTriple| RgbQuad::spec_from_triple(e))
}

/// The index of the first quad, from `i` on, with a non-zero reserved byte.
pub open spec fn spec_first_invalid_quad(t: Seq<RgbQuad>, i: int) -> Option<int>
    decreases t.len() - i,
{
    if i < 0 || i >= t.len() {
        None
    } else if t[i].reserved != 0 {
        Some(i)
    } else {
        spec_first_invalid_quad(t, i + 1)
    }
}

/// The outcome of validating a color table against the size the header
/// declares: sizes must match, then every INFO-or-later entry must have a
/// zero reserved byte.
pub open spec fn spec_validate_color_table(len: nat, quads: Option<Seq<RgbQuad>>, header_size: usize) -> Result<(), ValidationError> {
    if len != header_size {
        Err(ValidationError::ColorTableSizeMismatch { stored_size: len as usize, header_size })
    } else {
        match quads {
            None => Ok(()),
            Some(q) => match spec_first_invalid_quad(q, 0) {
                Some(i) => Err(ValidationError::InvalidRgbQuad(q[i])),
                None => Ok(()),
            },
        }
    }
}

/// Validates the stored size and the entries of an INFO-or-later table.
fn validate_quad_table(table: &[RgbQuad], header_size: usize) -> (r: Result<(), ValidationError>)
    ensures
        r == spec_validate_color_table(table@.len(), Some(table@), header_size),
{
    let stored_size = table.len();
    if stored_size != header_size {
        return Err(ValidationError::ColorTableSizeMismatch { stored_size, header_size });
    }
    let mut i: usize = 0;
    while i < table.len()
        invariant
            i <= table@.len(),
            table@.len() == header_size,
            spec_first_invalid_quad(table@, 0) == spec_first_invalid_quad(table@, i as int),
        decreases table.len() - i,
    {
        table[i].validate()?;
        i += 1;
    }
    Ok(())
}

/// Validates the stored size of a CORE table; its entries have no invariant.
fn validate_triple_table(table: &[RgbTriple], header_size: usize) -> (r: Result<(), ValidationError>)
    ensures
        r == spec_validate_color_table(table@.len(), None, header_size),
{
    let stored_size = table.len();
    if stored_size != header_size {
        return Err(ValidationError::ColorTableSizeMismatch { stored_size, header_size });
    }
    Ok(())
}

/// The outcome of checking the stored pixel data size against the header.
pub open spec fn spec_validate_pixel_data_size(stored_size: usize, header_size: usize) -> Result<(), BmpError> {
    if stored_size != header_size {
        Err(BmpError::Validation(ValidationError::PixelDataSizeMismatch { stored_size, header_size }))
    } else if header_size > MAX_PIXEL_BYTES {
        Err(BmpError::Structure(spec_too_large(LimitedItem::PixelData, header_size as int, MAX_PIXEL_BYTES)))
    } else {
        Ok(())
    }
}

/// Checks the stored pixel data size against the header and the safety
/// limit.
fn validate_pixel_data_size(stored_size: usize, header_size: usize) -> (r: Result<(), BmpError>)
    ensures
        r == spec_validate_pixel_data_size(stored_size, header_size),
{
    if stored_size != header_size {
        return Err(BmpError::Validation(ValidationError::PixelDataSizeMismatch { stored_size, header_size }));
    }
    if header_size > MAX_PIXEL_BYTES {
        return Err(
            BmpError::Structure(too_large(LimitedItem::PixelData, header_size, MAX_PIXEL_BYTES)),
        );
    }
    Ok(())
}

/// The smallest pixel data offset: file header, DIB header, extra data and
/// color table, in `u32`; `None` on overflow.
pub open spec fn spec_min_pixel_offset(dib_header_size: u32, entries: nat, entry_size: u32, extra_size: u32) -> Option<u32> {
    let total = 14 + dib_header_size + extra_size + entries * entry_size;
    if entries > u32::MAX || entries * entry_size > u32::MAX || 14 + dib_header_size + extra_size > u32::MAX
        || total > u32::MAX {
        None
    } else {
        Some(total as u32)
    }
}

/// Computes the smallest legal pixel data offset.
fn min_pixel_offset(dib_header_size: u32, color_table_entries: usize, color_entry_size: u32, extra_size: u32) -> (r:
    Result<u32, StructuralError>)
    ensures
        match spec_min_pixel_offset(dib_header_size, color_table_entries as nat, color_entry_size, extra_size) {
            Some(v) => r == Ok::<u32, StructuralError>(v),
            None => r == Err::<u32, StructuralError>(StructuralError::ArithmeticOverflow("min pixel offset calculation")),
        },
{
    let overflow = StructuralError::ArithmeticOverflow("min pixel offset calculation");
    let a = match FileHeader::SIZE.checked_add(dib_header_size) {
        Some(v) => v,
        None => return Err(overflow),
    };
    let b = match a.checked_add(extra_size) {
        Some(v) => v,
        None => return Err(overflow),
    };
    if color_table_entries > u32::MAX as usize {
        return Err(overflow);
    }
    let entries = color_table_entries as u32;
    let table = match entries.checked_mul(color_entry_size) {
        Some(v) => v,
        None => return Err(overflow),
    };
    match b.checked_add(table) {
        Some(v) => Ok(v),
        None => Err(overflow),
    }
}

/// The outcome of placing the pixel data: its offset must not lie inside
/// the metadata; the result is its end offset.
pub open spec fn spec_pixel_end(pixel_data_offset: u32, min_offset: u32, pixel_data_size: usize) -> Result<u64, BmpError> {
    if pixel_data_offset < min_offset {
        Err(
            BmpError::Validation(
                ValidationError::PixelDataLayout(
                    PixelDataLayoutError::OverlapsMetadata { pixel_offset_header: pixel_data_offset, min_offset },
                ),
            ),
        )
    } else if pixel_data_offset + pixel_data_size > u64::MAX {
        Err(BmpError::Structure(StructuralError::ArithmeticOverflow("pixel data end calculation")))
    } else {
        Ok((pixel_data_offset + pixel_data_size) as u64)
    }
}

/// Computes the end of the pixel data, rejecting an offset inside the
/// metadata.
fn pixel_end_with_overlap_check(file_header: &FileHeader, min_pixel_offset: u32, pixel_data_size: usize) -> (r: Result<
    u64,
    BmpError,
>)
    ensures
        match (r, spec_pixel_end(file_header.pixel_data_offset, min_pixel_offset, pixel_data_size)) {
            (Ok(a), Ok(b)) => a == b,
            (Err(a), Err(b)) => a == b,
            _ => false,
        },
{
    if file_header.pixel_data_offset < min_pixel_offset {
        return Err(
            BmpError::Validation(
                ValidationError::PixelDataLayout(
                    PixelDataLayoutError::OverlapsMetadata {
                        pixel_offset_header: file_header.pixel_data_offset,
                        min_offset: min_pixel_offset,
                    },
                ),
            ),
        );
    }
    match (file_header.pixel_data_offset as u64).checked_add(pixel_data_size as u64) {
        Some(v) => Ok(v),
        None => Err(BmpError::Structure(StructuralError::ArithmeticOverflow("pixel data end calculation"))),
    }
}

/// The outcome of checking that the data ends exactly at the declared file
/// size.
pub open spec fn spec_validate_file_end(file_size: u32, required_end: u64) -> Result<(), ValidationError> {
    if required_end > file_size {
        Err(
            ValidationError::PixelDataLayout(
                PixelDataLayoutError::ExceedsFileSize { pixel_end: required_end, file_size },
            ),
        )
    } else if required_end != file_size {
        Err(
            ValidationError::PixelDataLayout(
                PixelDataLayoutError::DoesNotEndAtFileEnd { pixel_end: required_end, file_size },
            ),
        )
    } else {
        Ok(())
    }
}

/// Verifies that the data ends exactly at the declared file size.
fn validate_file_end(file_size: u32, required_end: u64) -> (r: Result<(), ValidationError>)
    ensures
        r == spec_validate_file_end(file_size, required_end),
{
    if required_end > file_size as u64 {
        return Err(
            ValidationError::PixelDataLayout(
                PixelDataLayoutError::ExceedsFileSize { pixel_end: required_end, file_size },
            ),
        );
    }
    if required_end != file_size as u64 {
        return Err(
            ValidationError::PixelDataLayout(
                PixelDataLayoutError::DoesNotEndAtFileEnd { pixel_end: required_end, file_size },
            ),
        );
    }
    Ok(())
}

/// The outcome of checking the INFO mask block: `BI_BITFIELDS` needs masks
/// that are valid for the depth; other compressions must have none.
pub open spec fn spec_validate_info_masks(header: BitmapInfoHeader, masks: Option<RgbMasks>) -> Result<(), ValidationError> {
    if header.compression is BitFields {
        match masks {
            None => Err(
                ValidationError::InvalidCompressionForBpp {
                    compression: Compression::BitFields,
                    bpp: header.bit_count,
                },
            ),
            Some(m) => match spec_validate_masks_for_bpp(m.spec_channels(), header.bit_count) {
                Err(e) => Err(ValidationError::InvalidColorMasks(e)),
                Ok(()) => Ok(()),
            },
        }
    } else if masks is Some {
        Err(ValidationError::InvalidCompressionForBpp { compression: header.compression, bpp: header.bit_count })
    } else {
        Ok(())
    }
}

/// Validates the presence and validity of INFO bitfield masks.
fn validate_info_masks(header: &BitmapInfoHeader, masks: &Option<RgbMasks>) -> (r: Result<(), ValidationError>)
    ensures
        r == spec_validate_info_masks(*header, *masks),
{
    let compression = header.compression;
    let bpp = header.bit_count;
    if matches!(compression, Compression::BitFields) {
        match masks {
            None => {
                return Err(
                    ValidationError::InvalidCompressionForBpp { compression: Compression::BitFields, bpp },
                );
            },
            Some(m) => {
                return match m.validate_for_bpp(bpp) {
                    Ok(()) => Ok(()),
                    Err(e) => Err(ValidationError::InvalidColorMasks(e)),
                };
            },
        }
    }
    if masks.is_some() {
        return Err(ValidationError::InvalidCompressionForBpp { compression, bpp });
    }
    Ok(())
}

/// The outcome of validating the ICC profile of a V5 bitmap; on success the
/// end offset of the profile, or 0 when there is none.
pub open spec fn spec_validate_v5_icc_profile(
    header: BitmapV5Header,
    icc: Option<Seq<u8>>,
    color_table_len: nat,
    file_size: u32,
) -> Result<u64, BmpError> {
    let cs = header.v4.cs_type;
    if cs.spec_is_profile() {
        match icc {
            None => Err(
                BmpError::Validation(
                    ValidationError::IccProfile(IccProfileError::MissingDataForProfileColorSpace { cs_type: cs }),
                ),
            ),
            Some(p) => {
                let offset = 14 + header.profile_data;
                let min_offset = 14 + 124 + color_table_len * 4;
                if p.len() > MAX_ICC_PROFILE_BYTES {
                    Err(BmpError::Structure(spec_too_large(LimitedItem::IccProfile, p.len() as int, MAX_ICC_PROFILE_BYTES)))
                } else if p.len() != header.profile_size {
                    Err(
                        BmpError::Validation(
                            ValidationError::IccProfile(
                                IccProfileError::SizeMismatch {
                                    stored_size: p.len() as usize,
                                    header_size: header.profile_size as usize,
                                },
                            ),
                        ),
                    )
                } else if min_offset > u64::MAX {
                    Err(BmpError::Structure(StructuralError::ArithmeticOverflow("ICC profile min offset calculation")))
                } else if offset < min_offset {
                    Err(
                        BmpError::Validation(
                            ValidationError::IccProfile(
                                IccProfileError::OverlapsMetadata {
                                    profile_offset: offset as u64,
                                    min_offset: min_offset as u64,
                                },
                            ),
                        ),
                    )
                } else if offset + p.len() > file_size {
                    Err(
                        BmpError::Validation(
                            ValidationError::IccProfile(
                                IccProfileError::ExceedsFileSize {
                                    profile_end: (offset + p.len()) as u64,
                                    file_size,
                                },
                            ),
                        ),
                    )
                } else {
                    Ok((offset + p.len()) as u64)
                }
            },
        }
    } else if icc is Some || header.profile_data != 0 || header.profile_size != 0 {
        Err(
            BmpError::Validation(
                ValidationError::IccProfile(
                    IccProfileError::UnexpectedDataForNonProfileColorSpace {
                        cs_type: cs,
                        profile_data: header.profile_data,
                        profile_size: header.profile_size,
                    },
                ),
            ),
        )
    } else {
        Ok(0)
    }
}

/// The optional ICC payload as a sequence.
pub open spec fn spec_icc(icc: Option<Vec<u8>>) -> Option<Seq<u8>> {
    match icc {
        Some(v) => Some(v@),
        None => None,
    }
}

/// Validates the ICC profile of a V5 bitmap and returns its end offset.
fn validate_v5_icc_profile(data: &BitmapV5Data, color_table_len: usize, file_size: u32) -> (r: Result<u64, BmpError>)
    ensures
        match (
            r,
            spec_validate_v5_icc_profile(
                data.bmp_header,
                spec_icc(data.icc_profile),
                color_table_len as nat,
                file_size,
            ),
        ) {
            (Ok(a), Ok(b)) => a == b,
            (Err(a), Err(b)) => a == b,
            _ => false,
        },
{
    let cs_type = data.bmp_header.v4.cs_type;
    if matches!(cs_type, ColorSpaceType::ProfileEmbedded | ColorSpaceType::ProfileLinked) {
        let profile = match &data.icc_profile {
            Some(p) => p,
            None => {
                return Err(
                    BmpError::Validation(
                        ValidationError::IccProfile(IccProfileError::MissingDataForProfileColorSpace { cs_type }),
                    ),
                );
            },
        };
        if profile.len() > MAX_ICC_PROFILE_BYTES {
            return Err(
                BmpError::Structure(too_large(LimitedItem::IccProfile, profile.len(), MAX_ICC_PROFILE_BYTES)),
            );
        }
        let profile_size_header = data.bmp_header.profile_size as usize;
        if profile.len() != profile_size_header {
            return Err(
                BmpError::Validation(
                    ValidationError::IccProfile(
                        IccProfileError::SizeMismatch {
                            stored_size: profile.len(),
                            header_size: profile_size_header,
                        },
                    ),
                ),
            );
        }
        let profile_offset_absolute: u64 = 14u64 + data.bmp_header.profile_data as u64;
        if color_table_len as u64 > (u64::MAX - 138) / 4 {
            return Err(
                BmpError::Structure(StructuralError::ArithmeticOverflow("ICC profile min offset calculation")),
            );
        }
        let min_profile_offset: u64 = 138u64 + (color_table_len as u64) * 4;
        if profile_offset_absolute < min_profile_offset {
            return Err(
                BmpError::Validation(
                    ValidationError::IccProfile(
                        IccProfileError::OverlapsMetadata {
                            profile_offset: profile_offset_absolute,
                            min_offset: min_profile_offset,
                        },
                    ),
                ),
            );
        }
        let profile_end: u64 = profile_offset_absolute + profile.len() as u64;
        if profile_end > file_size as u64 {
            return Err(
                BmpError::Validation(
                    ValidationError::IccProfile(IccProfileError::ExceedsFileSize { profile_end, file_size }),
                ),
            );
        }
        Ok(profile_end)
    } else {
        if data.icc_profile.is_some() || data.bmp_header.profile_data != 0 || data.bmp_header.profile_size != 0 {
            return Err(
                BmpError::Validation(
                    ValidationError::IccProfile(
                        IccProfileError::UnexpectedDataForNonProfileColorSpace {
                            cs_type,
                            profile_data: data.bmp_header.profile_data,
                            profile_size: data.bmp_header.profile_size,
                        },
                    ),
                ),
            );
        }
        Ok(0)
    }
}

impl Bmp {
    /// The file header.
    pub open spec fn spec_file_header(&self) -> FileHeader {
        match self {
            Bmp::Core(d) => d.file_header,
            Bmp::Info(d) => d.file_header,
            Bmp::V4(d) => d.file_header,
            Bmp::V5(d) => d.file_header,
        }
    }

    /// Returns the file header.
    pub fn file_header(&self) -> (r: &FileHeader)
        ensures
            *r == self.spec_file_header(),
    {
        match self {
            Bmp::Core(d) => &d.file_header,
            Bmp::Info(d) => &d.file_header,
            Bmp::V4(d) => &d.file_header,
            Bmp::V5(d) => &d.file_header,
        }
    }

    /// The DIB header as a [`BitmapHeader`].
    pub open spec fn spec_bitmap_header(&self) -> BitmapHeader {
        match self {
            Bmp::Core(d) => BitmapHeader::Core(d.bmp_header),
            Bmp::Info(d) => BitmapHeader::Info(d.bmp_header),
            Bmp::V4(d) => BitmapHeader::V4(d.bmp_header),
            Bmp::V5(d) => BitmapHeader::V5(d.bmp_header),
        }
    }

    /// Returns a copy of the DIB header as a [`BitmapHeader`].
    pub fn bitmap_header(&self) -> (r: BitmapHeader)
        ensures
            r == self.spec_bitmap_header(),
    {
        match self {
            Bmp::Core(d) => BitmapHeader::Core(d.bmp_header),
            Bmp::Info(d) => BitmapHeader::Info(d.bmp_header),
            Bmp::V4(d) => BitmapHeader::V4(d.bmp_header),
            Bmp::V5(d) => BitmapHeader::V5(
                BitmapV5Header {
                    v4: d.bmp_header.v4,
                    intent: d.bmp_header.intent,
                    profile_data: d.bmp_header.profile_data,
                    profile_size: d.bmp_header.profile_size,
                    reserved: d.bmp_header.reserved,
                },
            ),
        }
    }

    /// The encoded pixel payload.
    pub open spec fn spec_bitmap_array(&self) -> Seq<u8> {
        match self {
            Bmp::Core(d) => d.bitmap_array@,
            Bmp::Info(d) => d.bitmap_array@,
            Bmp::V4(d) => d.bitmap_array@,
            Bmp::V5(d) => d.bitmap_array@,
        }
    }

    /// Returns the encoded pixel payload.
    pub fn bitmap_array(&self) -> (r: &[u8])
        ensures
            r@ == self.spec_bitmap_array(),
    {
        match self {
            Bmp::Core(d) => d.bitmap_array.as_slice(),
            Bmp::Info(d) => d.bitmap_array.as_slice(),
            Bmp::V4(d) => d.bitmap_array.as_slice(),
            Bmp::V5(d) => d.bitmap_array.as_slice(),
        }
    }

    /// The number of stored color table entries.
    pub open spec fn spec_color_table_len(&self) -> nat {
        match self {
            Bmp::Core(d) => d.color_table@.len(),
            Bmp::Info(d) => d.color_table@.len(),
            Bmp::V4(d) => d.color_table@.len(),
            Bmp::V5(d) => d.color_table@.len(),
        }
    }

    /// The stored color table, as quads (CORE triples widened with a zero
    /// reserved byte).
    pub open spec fn spec_color_table(&self) -> Seq<RgbQuad> {
        match self {
            Bmp::Core(d) => spec_quads_of_triples(d.color_table@),
            Bmp::Info(d) => d.color_table@,
            Bmp::V4(d) => d.color_table@,
            Bmp::V5(d) => d.color_table@,
        }
    }

    /// Returns the number of stored color table entries.
    pub fn color_table_len(&self) -> (r: usize)
        ensures
            r == self.spec_color_table_len(),
    {
        match self {
            Bmp::Core(d) => d.color_table.len(),
            Bmp::Info(d) => d.color_table.len(),
            Bmp::V4(d) => d.color_table.len(),
            Bmp::V5(d) => d.color_table.len(),
        }
    }

    /// The outcome of validating the stored color table against the header.
    pub open spec fn spec_validate_table(&self, header_size: usize) -> Result<(), ValidationError> {
        match self {
            Bmp::Core(d) => spec_validate_color_table(d.color_table@.len(), None, header_size),
            Bmp::Info(d) => spec_validate_color_table(d.color_table@.len(), Some(d.color_table@), header_size),
            Bmp::V4(d) => spec_validate_color_table(d.color_table@.len(), Some(d.color_table@), header_size),
            Bmp::V5(d) => spec_validate_color_table(d.color_table@.len(), Some(d.color_table@), header_size),
        }
    }

    /// Validates the stored color table against the header.
    fn validate_color_table(&self, header_size: usize) -> (r: Result<(), ValidationError>)
        ensures
            r == self.spec_validate_table(header_size),
    {
        match self {
            Bmp::Core(d) => validate_triple_table(d.color_table.as_slice(), header_size),
            Bmp::Info(d) => validate_quad_table(d.color_table.as_slice(), header_size),
            Bmp::V4(d) => validate_quad_table(d.color_table.as_slice(), header_size),
            Bmp::V5(d) => validate_quad_table(d.color_table.as_slice(), header_size),
        }
    }

    /// The DIB header size, color entry size and extra data size of the
    /// metadata that precedes the pixel data.
    pub open spec fn spec_layout_sizes(&self) -> (u32, u32, u32) {
        match self {
            Bmp::Core(_) => (12, 3, 0),
            Bmp::Info(d) => (40, 4, if d.color_masks is Some { 12 } else { 0 }),
            Bmp::V4(_) => (108, 4, 0),
            Bmp::V5(_) => (124, 4, 0),
        }
    }

    /// The outcome of the checks that follow the header checks: the color
    /// table, the pixel data size, the INFO mask block, the pixel data
    /// placement, the V5 ICC profile, and the file end.
    pub open spec fn spec_validate_layout(&self, table_size: u32, pixel_size: u32) -> Result<(), BmpError> {
        let fh = self.spec_file_header();
        let (dib, entry, extra) = self.spec_layout_sizes();
        if self.spec_validate_table(table_size as usize) is Err {
            Err(BmpError::Validation(self.spec_validate_table(table_size as usize)->Err_0))
        } else if spec_validate_pixel_data_size(self.spec_bitmap_array().len() as usize, pixel_size as usize) is Err {
            spec_validate_pixel_data_size(self.spec_bitmap_array().len() as usize, pixel_size as usize)
        } else if self is Info && spec_validate_info_masks(self->Info_0.bmp_header, self->Info_0.color_masks) is Err {
            Err(
                BmpError::Validation(
                    spec_validate_info_masks(self->Info_0.bmp_header, self->Info_0.color_masks)->Err_0,
                ),
            )
        } else if spec_min_pixel_offset(dib, self.spec_color_table_len(), entry, extra) is None {
            Err(BmpError::Structure(StructuralError::ArithmeticOverflow("min pixel offset calculation")))
        } else {
            let min_offset = spec_min_pixel_offset(dib, self.spec_color_table_len(), entry, extra)->Some_0;
            match spec_pixel_end(fh.pixel_data_offset, min_offset, pixel_size as usize) {
                Err(e) => Err(e),
                Ok(pixel_end) => {
                    let icc = match self {
                        Bmp::V5(d) => spec_validate_v5_icc_profile(
                            d.bmp_header,
                            spec_icc(d.icc_profile),
                            self.spec_color_table_len(),
                            fh.file_size,
                        ),
                        _ => Ok(0u64),
                    };
                    match icc {
                        Err(e) => Err(e),
                        Ok(icc_end) => {
                            let required = if pixel_end >= icc_end {
                                pixel_end
                            } else {
                                icc_end
                            };
                            match spec_validate_file_end(fh.file_size, required) {
                                Err(e) => Err(BmpError::Validation(e)),
                                Ok(()) => Ok(()),
                            }
                        },
                    }
                },
            }
        }
    }

    /// The outcome of full validation: the file header, the DIB header, the
    /// header's table and pixel sizes, then the layout checks.
    pub open spec fn spec_validate(&self) -> Result<(), BmpError> {
        let fh = self.spec_file_header();
        let header = self.spec_bitmap_header();
        if fh.spec_validate() is Err {
            Err(BmpError::Validation(fh.spec_validate()->Err_0))
        } else if header.spec_validate() is Err {
            Err(BmpError::Validation(header.spec_validate()->Err_0))
        } else if header.spec_color_table_size() is None {
            Err(BmpError::Structure(spec_table_size_error()))
        } else if header.spec_pixel_data_size() is None {
            Err(BmpError::Structure(spec_pixel_size_error()))
        } else {
            self.spec_validate_layout(
                header.spec_color_table_size()->Some_0,
                header.spec_pixel_data_size()->Some_0,
            )
        }
    }

    /// Validates BMP structural and semantic consistency.
    pub fn validate(&self) -> (r: Result<(), BmpError>)
        ensures
            match (r, self.spec_validate()) {
                (Ok(()), Ok(())) => true,
                (Err(a), Err(b)) => a == b,
                _ => false,
            },
    {
        let file_header = self.file_header();
        if let Err(e) = file_header.validate() {
            return Err(BmpError::Validation(e));
        }
        let header = self.bitmap_header();
        if let Err(e) = header.validate() {
            return Err(BmpError::Validation(e));
        }
        let table_size = match header.color_table_size() {
            Ok(v) => v,
            Err(e) => return Err(BmpError::Structure(e)),
        };
        let pixel_size = match header.pixel_data_size() {
            Ok(v) => v,
            Err(e) => return Err(BmpError::Structure(e)),
        };
        self.validate_layout(table_size, pixel_size)
    }

    /// Runs the checks that follow the header checks.
    fn validate_layout(&self, table_size: u32, pixel_size: u32) -> (r: Result<(), BmpError>)
        ensures
            match (r, self.spec_validate_layout(table_size, pixel_size)) {
                (Ok(()), Ok(())) => true,
                (Err(a), Err(b)) => a == b,
                _ => false,
            },
    {
        let file_header = self.file_header();
        if let Err(e) = self.validate_color_table(table_size as usize) {
            return Err(BmpError::Validation(e));
        }
        validate_pixel_data_size(self.bitmap_array().len(), pixel_size as usize)?;
        let (dib_header_size, color_entry_size, extra_size): (u32, u32, u32) = match self {
            Bmp::Core(_) => (BitmapCoreHeader::HEADER_SIZE, 3, 0),
            Bmp::Info(d) => {
                if let Err(e) = validate_info_masks(&d.bmp_header, &d.color_masks) {
                    return Err(BmpError::Validation(e));
                }
                let masks_size: u32 = if d.color_masks.is_some() {
                    12
                } else {
                    0
                };
                (BitmapInfoHeader::HEADER_SIZE, 4, masks_size)
            },
            Bmp::V4(_) => (BitmapV4Header::HEADER_SIZE, 4, 0),
            Bmp::V5(_) => (BitmapV5Header::HEADER_SIZE, 4, 0),
        };
        let min_offset = match min_pixel_offset(
            dib_header_size,
            self.color_table_len(),
            color_entry_size,
            extra_size,
        ) {
            Ok(v) => v,
            Err(e) => return Err(BmpError::Structure(e)),
        };
        let pixel_end = pixel_end_with_overlap_check(file_header, min_offset, pixel_size as usize)?;
        let icc_end = match self {
            Bmp::V5(d) => validate_v5_icc_profile(d, self.color_table_len(), file_header.file_size)?,
            _ => 0,
        };
        let required_end = if pixel_end >= icc_end {
            pixel_end
        } else {
            icc_end
        };
        match validate_file_end(file_header.file_size, required_end) {
            Ok(()) => Ok(()),
            Err(e) => Err(BmpError::Validation(e)),
        }
    }
}


/// The color table as read from a file, in the entry format of its header.
pub enum ColorTable {
    /// `RGBTRIPLE` entries of a CORE bitmap.
    Core(Vec<RgbTriple>),
    /// `RGBQUAD` entries of an INFO or later bitmap.
    InfoOrLater(Vec<RgbQuad>),
}

/// The `RGBTRIPLE` stored at `p`.
pub open spec fn spec_triple_at(s: Seq<u8>, p: int) -> RgbTriple {
    RgbTriple { blue: s[p], green: s[p + 1], red: s[p + 2] }
}

/// The `RGBQUAD` stored at `p`.
pub open spec fn spec_quad_at(s: Seq<u8>, p: int) -> RgbQuad {
    RgbQuad { blue: s[p], green: s[p + 1], red: s[p + 2], reserved: s[p + 3] }
}

/// The `n` triples stored from `p` on.
pub open spec fn spec_triples_at(s: Seq<u8>, p: int, n: int) -> Seq<RgbTriple> {
    Seq::new(n as nat, |i: int| spec_triple_at(s, p + 3 * i))
}

/// The `n` quads stored from `p` on.
pub open spec fn spec_quads_at(s: Seq<u8>, p: int, n: int) -> Seq<RgbQuad> {
    Seq::new(n as nat, |i: int| spec_quad_at(s, p + 4 * i))
}

/// Bytes per color table entry: 3 for CORE, 4 otherwise.
pub open spec fn spec_entry_size(h: BitmapHeader) -> int {
    if h is Core {
        3
    } else {
        4
    }
}

/// Bytes of the mask block after the DIB header: 12 for INFO with
/// `BI_BITFIELDS`, none otherwise.
pub open spec fn spec_mask_block_len(h: BitmapHeader) -> int {
    if h is Info && h->Info_0.compression is BitFields {
        12
    } else {
        0
    }
}

/// Reads `n` entries of the table format that `header` uses.
fn read_color_table(st: &mut BoundedStream, header: &BitmapHeader, n: usize) -> (r: Result<ColorTable, IoErrorKind>)
    requires
        old(st).spec_pos() <= old(st).spec_avail(),
    ensures
        final(st).spec_data() == old(st).spec_data(),
        final(st).spec_start() == old(st).spec_start(),
        final(st).spec_end() == old(st).spec_end(),
        old(st).spec_can_read(n * spec_entry_size(*header)) ==> r is Ok && final(st).spec_pos() == old(
            st,
        ).spec_pos() + n * spec_entry_size(*header) && match r->Ok_0 {
            ColorTable::Core(t) => header is Core && t@ == spec_triples_at(
                old(st).spec_data(),
                old(st).spec_pos() as int,
                n as int,
            ),
            ColorTable::InfoOrLater(t) => !(header is Core) && t@ == spec_quads_at(
                old(st).spec_data(),
                old(st).spec_pos() as int,
                n as int,
            ),
        },
        !old(st).spec_can_read(n * spec_entry_size(*header)) ==> r == Err::<ColorTable, IoErrorKind>(
            IoErrorKind::UnexpectedEof,
        ),
{
    let ghost s = st.spec_data();
    let ghost p = st.spec_pos() as int;
    match header {
        BitmapHeader::Core(_) => {
            let mut table: Vec<RgbTriple> = Vec::new();
            let mut i: usize = 0;
            while i < n
                invariant
                    st.spec_data() == s,
                    st.spec_start() == old(st).spec_start(),
                    st.spec_end() == old(st).spec_end(),
                    old(st).spec_data() == s,
                    old(st).spec_pos() == p,
                    i <= n,
                    st.spec_pos() == p + 3 * i,
                    st.spec_pos() <= st.spec_avail(),
                    spec_entry_size(*header) == 3,
                    header is Core,
                    table@ == spec_triples_at(s, p, i as int),
                decreases n - i,
            {
                let blue = st.read_u8()?;
                let green = st.read_u8()?;
                let red = st.read_u8()?;
                table.push(RgbTriple { blue, green, red });
                i += 1;
                assert(table@ =~= spec_triples_at(s, p, i as int));
            }
            Ok(ColorTable::Core(table))
        },
        _ => {
            let mut table: Vec<RgbQuad> = Vec::new();
            let mut i: usize = 0;
            while i < n
                invariant
                    st.spec_data() == s,
                    st.spec_start() == old(st).spec_start(),
                    st.spec_end() == old(st).spec_end(),
                    old(st).spec_data() == s,
                    old(st).spec_pos() == p,
                    i <= n,
                    st.spec_pos() == p + 4 * i,
                    st.spec_pos() <= st.spec_avail(),
                    spec_entry_size(*header) == 4,
                    !(header is Core),
                    table@ == spec_quads_at(s, p, i as int),
                decreases n - i,
            {
                let blue = st.read_u8()?;
                let green = st.read_u8()?;
                let red = st.read_u8()?;
                let reserved = st.read_u8()?;
                table.push(RgbQuad { blue, green, red, reserved });
                i += 1;
                assert(table@ =~= spec_quads_at(s, p, i as int));
            }
            Ok(ColorTable::InfoOrLater(table))
        },
    }
}


/// The file header stored at the start of `s`.
pub open spec fn spec_file_header_of(s: Seq<u8>) -> FileHeader {
    choose|h: FileHeader| h.spec_at(s, 0)
}

/// The DIB header stored after the file header in `s`.
pub open spec fn spec_header_of(s: Seq<u8>) -> BitmapHeader {
    choose|h: BitmapHeader| h.spec_at(s, 14)
}

/// Only one file header is stored at a position.
pub proof fn lemma_file_header_at_unique(h: FileHeader, s: Seq<u8>, p: int)
    requires
        h.spec_at(s, p),
    ensures
        h == choose|x: FileHeader| x.spec_at(s, p),
{
    broadcast use vstd::array::group_array_axioms;

    let c = choose|x: FileHeader| x.spec_at(s, p);
    assert(c.spec_at(s, p));
    assert(c.signature =~= h.signature);
    assert(c.reserved_1 =~= h.reserved_1);
    assert(c.reserved_2 =~= h.reserved_2);
}

/// Only one DIB header is stored at a position.
pub proof fn lemma_header_at_unique(h: BitmapHeader, s: Seq<u8>, p: int)
    requires
        h.spec_at(s, p),
    ensures
        h == choose|x: BitmapHeader| x.spec_at(s, p),
{
    broadcast use vstd::array::group_array_axioms;

    let c = choose|x: BitmapHeader| x.spec_at(s, p);
    assert(c.spec_at(s, p));
    match (h, c) {
        (BitmapHeader::V5(a), BitmapHeader::V5(b)) => {
            assert(a.reserved =~= b.reserved);
        },
        _ => {},
    }
}

/// The absolute position of the color table (after header and masks).
pub open spec fn spec_table_pos(h: BitmapHeader) -> int {
    14 + h.spec_size() + spec_mask_block_len(h)
}

/// The outcome of reading everything after the DIB header: the mask block,
/// the color table (bounded in size), the pixel data (bounded in size, placed
/// within the file), and the ICC profile of V5 profile color spaces (bounded
/// in size, placed within the file).
pub open spec fn spec_read_body_outcome(s: Seq<u8>, h: BitmapHeader) -> Result<(), StructuralError> {
    let fs = spec_u32_at(s, 2) as int;
    let off = spec_u32_at(s, 10) as int;
    let q = spec_table_pos(h);
    if q > fs {
        Err(StructuralError::Io { kind: IoErrorKind::UnexpectedEof, stage: IoStage::ReadingColorMasks })
    } else if h.spec_color_table_size() is None {
        Err(spec_table_size_error())
    } else if h.spec_color_table_size()->Some_0 > MAX_COLOR_TABLE_ENTRIES {
        Err(spec_too_large(LimitedItem::ColorTable, h.spec_color_table_size()->Some_0 as int, MAX_COLOR_TABLE_ENTRIES))
    } else if q + h.spec_color_table_size()->Some_0 * spec_entry_size(h) > fs {
        Err(StructuralError::Io { kind: IoErrorKind::UnexpectedEof, stage: IoStage::ReadingColorTable })
    } else if h.spec_pixel_data_size() is None {
        Err(spec_pixel_size_error())
    } else if h.spec_pixel_data_size()->Some_0 > MAX_PIXEL_BYTES {
        Err(spec_too_large(LimitedItem::PixelData, h.spec_pixel_data_size()->Some_0 as int, MAX_PIXEL_BYTES))
    } else if off > fs {
        Err(
            StructuralError::PixelDataLayout(
                PixelDataLayoutError::ExceedsFileSize { pixel_end: off as u64, file_size: fs as u32 },
            ),
        )
    } else if off + h.spec_pixel_data_size()->Some_0 > fs {
        Err(StructuralError::Io { kind: IoErrorKind::UnexpectedEof, stage: IoStage::ReadingPixelData })
    } else if h is V5 && h->V5_0.v4.cs_type.spec_is_profile() {
        let v5 = h->V5_0;
        let poff = v5.profile_data + 14;
        if v5.profile_size > MAX_ICC_PROFILE_BYTES {
            Err(spec_too_large(LimitedItem::IccProfile, v5.profile_size as int, MAX_ICC_PROFILE_BYTES))
        } else if poff > fs {
            Err(StructuralError::Io { kind: IoErrorKind::InvalidInput, stage: IoStage::ReadingIccProfile })
        } else if poff + v5.profile_size > fs {
            Err(StructuralError::Io { kind: IoErrorKind::UnexpectedEof, stage: IoStage::ReadingIccProfile })
        } else {
            Ok(())
        }
    } else {
        Ok(())
    }
}

/// The outcome of reading a BMP from `s`: the file header must be present,
/// its file size must lie between 14 and the available bytes, and the DIB
/// header must have a supported size and fit in the file; then the body.
pub open spec fn spec_read_outcome(s: Seq<u8>) -> Result<(), StructuralError> {
    if s.len() < 14 {
        Err(StructuralError::Io { kind: IoErrorKind::UnexpectedEof, stage: IoStage::ReadingFileHeader })
    } else if spec_u32_at(s, 2) > s.len() || spec_u32_at(s, 2) < 14 {
        Err(StructuralError::Io { kind: IoErrorKind::InvalidInput, stage: IoStage::ReadingFileHeader })
    } else if spec_u32_at(s, 2) < 18 {
        Err(StructuralError::Io { kind: IoErrorKind::UnexpectedEof, stage: IoStage::ReadingDibHeader })
    } else if !spec_known_header_size(spec_u32_at(s, 14)) {
        Err(spec_header_size_error())
    } else if 14 + spec_u32_at(s, 14) > spec_u32_at(s, 2) {
        Err(StructuralError::Io { kind: IoErrorKind::UnexpectedEof, stage: IoStage::ReadingDibHeader })
    } else {
        spec_read_body_outcome(s, spec_header_of(s))
    }
}

/// `b` is the BMP stored in `s`, given that reading succeeds: its headers,
/// mask block, color table, pixel data and ICC profile are the bytes at the
/// positions the headers give.
pub open spec fn spec_read_result(b: Bmp, s: Seq<u8>) -> bool {
    let h = spec_header_of(s);
    let q = spec_table_pos(h);
    let n = h.spec_color_table_size()->Some_0 as int;
    let off = spec_u32_at(s, 10) as int;
    let pds = h.spec_pixel_data_size()->Some_0 as int;
    &&& b.spec_file_header() == spec_file_header_of(s)
    &&& b.spec_bitmap_header() == h
    &&& b.spec_bitmap_array() == s.subrange(off, off + pds)
    &&& match b {
        Bmp::Core(d) => d.color_table@ == spec_triples_at(s, q, n),
        Bmp::Info(d) => d.color_table@ == spec_quads_at(s, q, n) && d.color_masks == (if d.bmp_header.compression is BitFields {
            Some(
                RgbMasks {
                    red_mask: spec_u32_at(s, 54),
                    green_mask: spec_u32_at(s, 58),
                    blue_mask: spec_u32_at(s, 62),
                },
            )
        } else {
            None
        }),
        Bmp::V4(d) => d.color_table@ == spec_quads_at(s, q, n),
        Bmp::V5(d) => d.color_table@ == spec_quads_at(s, q, n) && spec_icc(d.icc_profile) == (
        if d.bmp_header.v4.cs_type.spec_is_profile() {
            Some(
                s.subrange(
                    d.bmp_header.profile_data + 14,
                    d.bmp_header.profile_data + 14 + d.bmp_header.profile_size,
                ),
            )
        } else {
            None
        }),
    }
}

/// Reads the ICC profile a V5 profile color space refers to.
fn read_v5_icc_profile(st: &mut BoundedStream, header: &BitmapV5Header) -> (r: Result<Option<Vec<u8>>, StructuralError>)
    requires
        old(st).spec_start() == 0,
        old(st).spec_end() <= old(st).spec_data().len(),
    ensures
        final(st).spec_data() == old(st).spec_data(),
        final(st).spec_start() == old(st).spec_start(),
        final(st).spec_end() == old(st).spec_end(),
        !header.v4.cs_type.spec_is_profile() ==> r == Ok::<Option<Vec<u8>>, StructuralError>(None),
        header.v4.cs_type.spec_is_profile() ==> {
            let poff = header.profile_data + 14;
            let fs = old(st).spec_end() as int;
            if header.profile_size > MAX_ICC_PROFILE_BYTES {
                r == Err::<Option<Vec<u8>>, StructuralError>(
                    spec_too_large(LimitedItem::IccProfile, header.profile_size as int, MAX_ICC_PROFILE_BYTES),
                )
            } else if poff > fs {
                r == Err::<Option<Vec<u8>>, StructuralError>(
                    StructuralError::Io { kind: IoErrorKind::InvalidInput, stage: IoStage::ReadingIccProfile },
                )
            } else if poff + header.profile_size > fs {
                r == Err::<Option<Vec<u8>>, StructuralError>(
                    StructuralError::Io { kind: IoErrorKind::UnexpectedEof, stage: IoStage::ReadingIccProfile },
                )
            } else {
                r is Ok && r->Ok_0 is Some && r->Ok_0->Some_0@ == old(st).spec_data().subrange(
                    poff,
                    poff + header.profile_size,
                )
            }
        },
{
    if !matches!(header.v4.cs_type, ColorSpaceType::ProfileEmbedded | ColorSpaceType::ProfileLinked) {
        return Ok(None);
    }
    let offset: u64 = header.profile_data as u64 + 14;
    let size = header.profile_size as usize;
    if size > MAX_ICC_PROFILE_BYTES {
        return Err(too_large(LimitedItem::IccProfile, size, MAX_ICC_PROFILE_BYTES));
    }
    if let Err(kind) = st.seek(SeekFrom::Start(offset)) {
        return Err(StructuralError::Io { kind, stage: IoStage::ReadingIccProfile });
    }
    match st.read_bytes(size) {
        Ok(data) => Ok(Some(data)),
        Err(kind) => Err(StructuralError::Io { kind, stage: IoStage::ReadingIccProfile }),
    }
}

impl Bmp {
    /// Reads a BMP from `bytes` with only the structural checks required for
    /// safe parsing; it does not validate against the specification.
    #[verifier::rlimit(40)]
    #[verifier::spinoff_prover]
    pub fn read_unchecked(bytes: &[u8]) -> (r: Result<Bmp, StructuralError>)
        ensures
            match spec_read_outcome(bytes@) {
                Ok(()) => r is Ok && spec_read_result(r->Ok_0, bytes@),
                Err(e) => r == Err::<Bmp, StructuralError>(e),
            },
    {
        let ghost s = bytes@;
        let total_len = bytes.len();
        let mut st = BoundedStream::new(bytes);
        let file_header = match FileHeader::read_unchecked(&mut st) {
            Ok(h) => h,
            Err(kind) => return Err(StructuralError::Io { kind, stage: IoStage::ReadingFileHeader }),
        };
        proof {
            lemma_file_header_at_unique(file_header, s, 0);
        }
        // Restrict the stream to the bytes of this BMP.
        if let Err(kind) = st.seek(SeekFrom::Current(-14)) {
            return Err(StructuralError::Io { kind, stage: IoStage::ReadingFileHeader });
        }
        let st = match st.shrink_start(SeekFrom::Current(0)) {
            Ok(v) => v,
            Err(kind) => return Err(StructuralError::Io { kind, stage: IoStage::ReadingFileHeader }),
        };
        let st = st.cap_to_stream_end();
        assert(st.spec_end() == total_len && st.spec_pos() == 0 && st.spec_start() == 0);
        let mut st = match st.shrink_end(SeekFrom::Current(file_header.file_size as i64)) {
            Ok(v) => v,
            Err(kind) => return Err(StructuralError::Io { kind, stage: IoStage::ReadingFileHeader }),
        };
        if let Err(kind) = st.seek(SeekFrom::Current(14)) {
            return Err(StructuralError::Io { kind, stage: IoStage::ReadingFileHeader });
        }
        assert(st.spec_pos() == 14 && st.spec_start() == 0 && st.spec_end() == file_header.file_size);
        let header = BitmapHeader::read_unchecked(&mut st)?;
        proof {
            lemma_header_at_unique(header, s, 14);
        }
        let masks = match &header {
            BitmapHeader::Info(h) => {
                if matches!(h.compression, Compression::BitFields) {
                    let red_mask = match st.read_u32() {
                        Ok(v) => v,
                        Err(kind) => return Err(StructuralError::Io { kind, stage: IoStage::ReadingColorMasks }),
                    };
                    let green_mask = match st.read_u32() {
                        Ok(v) => v,
                        Err(kind) => return Err(StructuralError::Io { kind, stage: IoStage::ReadingColorMasks }),
                    };
                    let blue_mask = match st.read_u32() {
                        Ok(v) => v,
                        Err(kind) => return Err(StructuralError::Io { kind, stage: IoStage::ReadingColorMasks }),
                    };
                    Some(RgbMasks { red_mask, green_mask, blue_mask })
                } else {
                    None
                }
            },
            _ => None,
        };
        assert(st.spec_pos() == spec_table_pos(header));
        let table_size = match header.color_table_size() {
            Ok(v) => v as usize,
            Err(e) => return Err(e),
        };
        if table_size > MAX_COLOR_TABLE_ENTRIES {
            return Err(too_large(LimitedItem::ColorTable, table_size, MAX_COLOR_TABLE_ENTRIES));
        }
        let table = match read_color_table(&mut st, &header, table_size) {
            Ok(t) => t,
            Err(kind) => return Err(StructuralError::Io { kind, stage: IoStage::ReadingColorTable }),
        };
        let pixel_data_size = match header.pixel_data_size() {
            Ok(v) => v as usize,
            Err(e) => return Err(e),
        };
        if pixel_data_size > MAX_PIXEL_BYTES {
            return Err(too_large(LimitedItem::PixelData, pixel_data_size, MAX_PIXEL_BYTES));
        }
        let pixel_data_pos = file_header.pixel_data_offset as u64;
        assert(spec_read_outcome(s) == spec_read_body_outcome(s, header));
        assert(header.spec_color_table_size() == Some(table_size as u32));
        assert(spec_table_pos(header) + table_size * spec_entry_size(header) <= file_header.file_size);
        if pixel_data_pos > file_header.file_size as u64 {
            return Err(
                StructuralError::PixelDataLayout(
                    PixelDataLayoutError::ExceedsFileSize {
                        pixel_end: pixel_data_pos,
                        file_size: file_header.file_size,
                    },
                ),
            );
        }
        if let Err(kind) = st.seek(SeekFrom::Start(pixel_data_pos)) {
            return Err(StructuralError::Io { kind, stage: IoStage::ReadingPixelData });
        }
        let pixel_data = match st.read_bytes(pixel_data_size) {
            Ok(v) => v,
            Err(kind) => return Err(StructuralError::Io { kind, stage: IoStage::ReadingPixelData }),
        };
        let bmp = match (header, table) {
            (BitmapHeader::Core(h), ColorTable::Core(t)) => Bmp::Core(
                BitmapCoreData { file_header, bmp_header: h, color_table: t, bitmap_array: pixel_data },
            ),
            (BitmapHeader::Info(h), ColorTable::InfoOrLater(t)) => Bmp::Info(
                BitmapInfoData {
                    file_header,
                    bmp_header: h,
                    color_masks: masks,
                    color_table: t,
                    bitmap_array: pixel_data,
                },
            ),
            (BitmapHeader::V4(h), ColorTable::InfoOrLater(t)) => Bmp::V4(
                BitmapV4Data { file_header, bmp_header: h, color_table: t, bitmap_array: pixel_data },
            ),
            (BitmapHeader::V5(h), ColorTable::InfoOrLater(t)) => {
                let icc_profile = read_v5_icc_profile(&mut st, &h)?;
                Bmp::V5(
                    BitmapV5Data {
                        file_header,
                        bmp_header: h,
                        color_table: t,
                        bitmap_array: pixel_data,
                        icc_profile,
                    },
                )
            },
            _ => {
                proof {
                    assert(false);
                }
                return Err(StructuralError::UnsupportedStructure("color table does not match the header"));
            },
        };
        // Leave the stream at the end of the BMP.
        if let Err(kind) = st.seek(SeekFrom::End(0)) {
            return Err(StructuralError::Io { kind, stage: IoStage::ReadingFileHeader });
        }
        Ok(bmp)
    }

    /// Reads a BMP from `bytes` and validates it against the specification.
    pub fn read_checked(bytes: &[u8]) -> (r: Result<Bmp, BmpError>)
        ensures
            match spec_read_outcome(bytes@) {
                Err(e) => r == Err::<Bmp, BmpError>(BmpError::Structure(e)),
                Ok(()) => match r {
                    Ok(b) => spec_read_result(b, bytes@) && b.spec_validate() is Ok,
                    Err(e) => exists|b: Bmp|
                        spec_read_result(b, bytes@) && b.spec_validate() == Err::<(), BmpError>(e),
                },
            },
    {
        let bmp = match Bmp::read_unchecked(bytes) {
            Ok(b) => b,
            Err(e) => return Err(BmpError::Structure(e)),
        };
        match bmp.validate() {
            Ok(()) => Ok(bmp),
            Err(e) => Err(e),
        }
    }
}


/// The bytes of a CORE color table.
pub open spec fn spec_triples_bytes(t: Seq<RgbTriple>) -> Seq<u8>
    decreases t.len(),
{
    if t.len() == 0 {
        Seq::empty()
    } else {
        spec_triples_bytes(t.drop_last()) + seq![t.last().blue, t.last().green, t.last().red]
    }
}

/// The bytes of an INFO-or-later color table.
pub open spec fn spec_quads_bytes(t: Seq<RgbQuad>) -> Seq<u8>
    decreases t.len(),
{
    if t.len() == 0 {
        Seq::empty()
    } else {
        spec_quads_bytes(t.drop_last()) + seq![t.last().blue, t.last().green, t.last().red, t.last().reserved]
    }
}

/// `s` extended with zero bytes up to length `pos`.
pub open spec fn spec_pad(s: Seq<u8>, pos: int) -> Seq<u8> {
    if pos > s.len() {
        s + Seq::new((pos - s.len()) as nat, |i: int| 0u8)
    } else {
        s
    }
}

/// `s` after writing `b` at `pos`, as a cursor does: the gap before `pos`
/// is zero-filled, bytes under `b` are replaced, and the buffer grows as
/// needed.
pub open spec fn spec_write_at(s: Seq<u8>, pos: int, b: Seq<u8>) -> Seq<u8> {
    let t = spec_pad(s, pos);
    let len = if t.len() >= pos + b.len() {
        t.len() as int
    } else {
        pos + b.len()
    };
    Seq::new(len as nat, |i: int| if pos <= i < pos + b.len() { b[i - pos] } else { t[i] })
}

/// Writes `b` at `pos` in `out`, zero-filling any gap.
pub fn write_at(out: &mut Vec<u8>, pos: usize, b: &[u8])
    requires
        pos + b@.len() <= usize::MAX,
    ensures
        final(out)@ == spec_write_at(old(out)@, pos as int, b@),
{
    let ghost s0 = out@;
    while out.len() < pos
        invariant
            out@ == s0 + Seq::new((out@.len() - s0.len()) as nat, |i: int| 0u8),
            out@.len() >= s0.len(),
            out@.len() <= pos || out@.len() == s0.len(),
        decreases pos - out.len(),
    {
        out.push(0);
        assert(out@ =~= s0 + Seq::new((out@.len() - s0.len()) as nat, |i: int| 0u8));
    }
    proof {
        if s0.len() >= pos {
            assert(out@ =~= s0);
        }
    }
    assert(out@ =~= spec_pad(s0, pos as int));
    let ghost t = out@;
    let mut i: usize = 0;
    while i < b.len()
        invariant
            pos + b@.len() <= usize::MAX,
            t.len() >= pos,
            i <= b@.len(),
            out@.len() == (if t.len() >= pos + i {
                t.len() as int
            } else {
                pos + i
            }),
            forall|k: int|
                0 <= k < out@.len() ==> #[trigger] out@[k] == (if pos <= k < pos + i {
                    b@[k - pos]
                } else {
                    t[k]
                }),
        decreases b.len() - i,
    {
        let p = pos + i;
        if p < out.len() {
            out.set(p, b[i]);
        } else {
            out.push(b[i]);
        }
        i += 1;
    }
    assert(out@ =~= spec_write_at(s0, pos as int, b@));
}

impl Bmp {
    /// The mask block stored after an INFO header.
    pub open spec fn spec_mask_bytes(&self) -> Seq<u8> {
        match self {
            Bmp::Info(d) => match d.color_masks {
                Some(m) => spec_u32_le(m.red_mask) + spec_u32_le(m.green_mask) + spec_u32_le(m.blue_mask),
                None => Seq::empty(),
            },
            _ => Seq::empty(),
        }
    }

    /// The bytes of the stored color table.
    pub open spec fn spec_table_bytes(&self) -> Seq<u8> {
        match self {
            Bmp::Core(d) => spec_triples_bytes(d.color_table@),
            Bmp::Info(d) => spec_quads_bytes(d.color_table@),
            Bmp::V4(d) => spec_quads_bytes(d.color_table@),
            Bmp::V5(d) => spec_quads_bytes(d.color_table@),
        }
    }

    /// The metadata written sequentially: file header, DIB header, mask
    /// block and color table.
    pub open spec fn spec_meta_bytes(&self) -> Seq<u8> {
        self.spec_file_header().spec_bytes() + self.spec_bitmap_header().spec_bytes() + self.spec_mask_bytes()
            + self.spec_table_bytes()
    }

    /// `s` after this BMP is written at its end: the metadata is appended,
    /// then the pixel data is written at the declared offset and the ICC
    /// profile of a V5 bitmap at its declared offset.
    pub open spec fn spec_written(&self, s: Seq<u8>) -> Seq<u8> {
        let base = s.len() as int;
        let fh = self.spec_file_header();
        let with_pixels = spec_write_at(
            s + self.spec_meta_bytes(),
            base + fh.pixel_data_offset,
            self.spec_bitmap_array(),
        );
        match self {
            Bmp::V5(d) => match d.icc_profile {
                Some(p) => spec_write_at(with_pixels, base + d.bmp_header.profile_data + 14, p@),
                None => with_pixels,
            },
            _ => with_pixels,
        }
    }

    /// The outcome of the write-path preflight checks: the stored pixel
    /// data must have the size the header declares and respect the safety
    /// limit, the pixel data must start after the file header and end within
    /// the file, and a V5 ICC profile must respect its limit and end within
    /// the file.
    pub open spec fn spec_validate_write_layout(&self) -> Result<(), StructuralError> {
        let header = self.spec_bitmap_header();
        let fh = self.spec_file_header();
        let stored = self.spec_bitmap_array().len();
        if header.spec_pixel_data_size() is None {
            Err(spec_pixel_size_error())
        } else {
            let pds = header.spec_pixel_data_size()->Some_0;
            let pixel_end = fh.pixel_data_offset + pds;
            if stored != pds {
                Err(StructuralError::PixelDataSizeMismatch { stored_size: stored as usize, header_size: pds as usize })
            } else if pds > MAX_PIXEL_BYTES {
                Err(spec_too_large(LimitedItem::PixelData, pds as int, MAX_PIXEL_BYTES))
            } else if fh.pixel_data_offset < 14 {
                Err(
                    StructuralError::PixelDataLayout(
                        PixelDataLayoutError::OverlapsMetadata {
                            pixel_offset_header: fh.pixel_data_offset,
                            min_offset: 14,
                        },
                    ),
                )
            } else if pixel_end > fh.file_size {
                Err(
                    StructuralError::PixelDataLayout(
                        PixelDataLayoutError::ExceedsFileSize {
                            pixel_end: pixel_end as u64,
                            file_size: fh.file_size,
                        },
                    ),
                )
            } else {
                match self {
                    Bmp::V5(d) => match d.icc_profile {
                        Some(p) => if p.len() > MAX_ICC_PROFILE_BYTES {
                            Err(spec_too_large(LimitedItem::IccProfile, p.len() as int, MAX_ICC_PROFILE_BYTES))
                        } else if 14 + d.bmp_header.profile_data + p.len() > fh.file_size {
                            Err(
                                StructuralError::IccProfile(
                                    IccProfileError::ExceedsFileSize {
                                        profile_end: (14 + d.bmp_header.profile_data + p.len()) as u64,
                                        file_size: fh.file_size,
                                    },
                                ),
                            )
                        } else {
                            Ok(())
                        },
                        None => Ok(()),
                    },
                    _ => Ok(()),
                }
            }
        }
    }

    /// Performs the write-path preflight checks.
    pub fn validate_write_layout(&self) -> (r: Result<(), StructuralError>)
        ensures
            match (r, self.spec_validate_write_layout()) {
                (Ok(()), Ok(())) => true,
                (Err(a), Err(b)) => a == b,
                _ => false,
            },
    {
        let header = self.bitmap_header();
        let pixel_data_size_header = header.pixel_data_size()? as usize;
        let pixel_data_size_stored = self.bitmap_array().len();
        if pixel_data_size_stored != pixel_data_size_header {
            return Err(
                StructuralError::PixelDataSizeMismatch {
                    stored_size: pixel_data_size_stored,
                    header_size: pixel_data_size_header,
                },
            );
        }
        if pixel_data_size_header > MAX_PIXEL_BYTES {
            return Err(too_large(LimitedItem::PixelData, pixel_data_size_header, MAX_PIXEL_BYTES));
        }
        let file_header = self.file_header();
        if file_header.pixel_data_offset < FileHeader::SIZE {
            return Err(
                StructuralError::PixelDataLayout(
                    PixelDataLayoutError::OverlapsMetadata {
                        pixel_offset_header: file_header.pixel_data_offset,
                        min_offset: FileHeader::SIZE,
                    },
                ),
            );
        }
        let pixel_end: u64 = file_header.pixel_data_offset as u64 + pixel_data_size_header as u64;
        if pixel_end > file_header.file_size as u64 {
            return Err(
                StructuralError::PixelDataLayout(
                    PixelDataLayoutError::ExceedsFileSize { pixel_end, file_size: file_header.file_size },
                ),
            );
        }
        if let Bmp::V5(d) = self {
            if let Some(profile) = &d.icc_profile {
                if profile.len() > MAX_ICC_PROFILE_BYTES {
                    return Err(too_large(LimitedItem::IccProfile, profile.len(), MAX_ICC_PROFILE_BYTES));
                }
                let profile_end: u64 = 14u64 + d.bmp_header.profile_data as u64 + profile.len() as u64;
                if profile_end > file_header.file_size as u64 {
                    return Err(
                        StructuralError::IccProfile(
                            IccProfileError::ExceedsFileSize { profile_end, file_size: file_header.file_size },
                        ),
                    );
                }
            }
        }
        Ok(())
    }

    /// Appends the stored color table.
    fn write_table(&self, out: &mut Vec<u8>)
        ensures
            final(out)@ == old(out)@ + self.spec_table_bytes(),
    {
        match self {
            Bmp::Core(d) => {
                let mut i: usize = 0;
                while i < d.color_table.len()
                    invariant
                        i <= d.color_table@.len(),
                        out@ == old(out)@ + spec_triples_bytes(d.color_table@.subrange(0, i as int)),
                    decreases d.color_table.len() - i,
                {
                    let e = d.color_table[i];
                    out.push(e.blue);
                    out.push(e.green);
                    out.push(e.red);
                    i += 1;
                    assert(d.color_table@.subrange(0, i as int).drop_last() =~= d.color_table@.subrange(
                        0,
                        i - 1,
                    ));
                    assert(out@ =~= old(out)@ + spec_triples_bytes(d.color_table@.subrange(0, i as int)));
                }
                assert(d.color_table@.subrange(0, i as int) =~= d.color_table@);
            },
            Bmp::Info(d) => write_quads(d.color_table.as_slice(), out),
            Bmp::V4(d) => write_quads(d.color_table.as_slice(), out),
            Bmp::V5(d) => write_quads(d.color_table.as_slice(), out),
        }
    }

    /// Serializes this BMP at the end of `out` as stored, without
    /// re-deriving field values: the metadata is appended, then the pixel
    /// data and any V5 ICC profile are written at their declared offsets
    /// (relative to where the BMP starts), zero-filling gaps. Nothing is
    /// written when the preflight checks fail.
    pub fn write_unchecked(&self, out: &mut Vec<u8>) -> (r: Result<(), StructuralError>)
        requires
            old(out)@.len() + u32::MAX <= usize::MAX,
        ensures
            match (r, self.spec_validate_write_layout()) {
                (Ok(()), Ok(())) => final(out)@ == self.spec_written(old(out)@),
                (Err(a), Err(b)) => a == b && final(out)@ == old(out)@,
                _ => false,
            },
    {
        self.validate_write_layout()?;
        let base = out.len();
        let file_header = self.file_header();
        file_header.write_unchecked(out);
        self.bitmap_header().write_unchecked(out);
        if let Bmp::Info(d) = self {
            if let Some(m) = &d.color_masks {
                push_u32(out, m.red_mask);
                push_u32(out, m.green_mask);
                push_u32(out, m.blue_mask);
            }
        }
        self.write_table(out);
        assert(out@ =~= old(out)@ + self.spec_meta_bytes());
        let pixel_pos = base + file_header.pixel_data_offset as usize;
        write_at(out, pixel_pos, self.bitmap_array());
        if let Bmp::V5(d) = self {
            if let Some(profile) = &d.icc_profile {
                let profile_pos = base + d.bmp_header.profile_data as usize + 14;
                write_at(out, profile_pos, profile.as_slice());
            }
        }
        Ok(())
    }
}

/// Appends an INFO-or-later color table.
fn write_quads(table: &[RgbQuad], out: &mut Vec<u8>)
    ensures
        final(out)@ == old(out)@ + spec_quads_bytes(table@),
{
    let mut i: usize = 0;
    while i < table.len()
        invariant
            i <= table@.len(),
            out@ == old(out)@ + spec_quads_bytes(table@.subrange(0, i as int)),
        decreases table.len() - i,
    {
        let e = table[i];
        out.push(e.blue);
        out.push(e.green);
        out.push(e.red);
        out.push(e.reserved);
        i += 1;
        assert(table@.subrange(0, i as int).drop_last() =~= table@.subrange(0, i - 1));
        assert(out@ =~= old(out)@ + spec_quads_bytes(table@.subrange(0, i as int)));
    }
    assert(table@.subrange(0, i as int) =~= table@);
}

} // verus!
