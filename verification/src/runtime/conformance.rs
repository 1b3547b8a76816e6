//! Every BMP the encoders build passes full validation.
use vstd::prelude::*;
use vstd::std_specs::bits::{axiom_u32_trailing_zeros, u32_trailing_zeros};
use crate::raw::masks::{
    spec_contiguous, spec_first_exceeding, spec_first_noncontiguous, spec_first_overlap, spec_pixel_mask,
    spec_validate_masks, spec_validate_masks_for_bpp, RgbMasks, RgbaMasks,
};
use crate::raw::bmp::{
    spec_first_invalid_quad, spec_icc, spec_min_pixel_offset, spec_pixel_end, spec_validate_pixel_data_size,
    spec_validate_v5_icc_profile, Bmp, DibVariant, MAX_PIXEL_BYTES,
};
use crate::raw::error::BmpError;
use crate::raw::headers::{spec_row_stride, spec_unsigned_abs};
use crate::raw::types::{BitsPerPixel, Compression, RgbQuad};
use crate::runtime::decode::{spec_is_indexed, DecodedImage};
use crate::runtime::quantize::spec_quantized;
use crate::runtime::encode::{
    spec_built, spec_direct_encoded, spec_direct_fails, spec_encode_precheck, spec_encoded, spec_indexed_encoded,
    spec_indexed_fails, spec_indices_stored, spec_is_direct_format, spec_max_colors, spec_quad_of, spec_quantized_table,
    spec_rle_bpp, spec_rle_compression, spec_rle_encoded, spec_stride, spec_file_size, spec_pixel_offset, spec_table_entries, spec_format_masks, spec_saved_info, spec_saved_masks, SaveFormat, SaveHeaderVersion,
    SourceMetadata,
};

verus! {

/// A mask whose lowest set bit is bit `t` has `t` trailing zeros.
pub(crate) proof fn lemma_trailing_zeros_is(mask: u32, t: u32)
    requires
        mask != 0,
        t < 32,
        (mask >> t) & 1u32 == 1u32,
        forall|j: u32| j < t ==> #[trigger] ((mask >> j) & 1u32) == 0u32,
    ensures
        u32_trailing_zeros(mask) == t,
{
    axiom_u32_trailing_zeros(mask);
    let z = u32_trailing_zeros(mask);
    if z > t {
        assert((mask >> t) & 1u32 == 0u32);
    } else if z < t {
        assert((mask >> z) & 1u32 == 0u32);
    }
}

/// Bit facts about the channel masks of the save formats.
pub(crate) proof fn lemma_mask_constants()
    by (bit_vector)
    ensures
        forall|x: u32| #[trigger] (x & 0u32) == 0u32,
        forall|x: u32| #[trigger] (0u32 & x) == 0u32,
        u32::MAX >> 16u32 == 0xFFFFu32,
        forall|j: u32| j < 11 ==> #[trigger] ((0xF800u32 >> j) & 1u32) == 0u32,
        forall|j: u32| j < 10 ==> #[trigger] ((0x7C00u32 >> j) & 1u32) == 0u32,
        forall|j: u32| j < 5 ==> #[trigger] ((0x07E0u32 >> j) & 1u32) == 0u32,
        forall|j: u32| j < 5 ==> #[trigger] ((0x03E0u32 >> j) & 1u32) == 0u32,
        forall|j: u32| j < 16 ==> #[trigger] ((0x00FF_0000u32 >> j) & 1u32) == 0u32,
        forall|j: u32| j < 8 ==> #[trigger] ((0x0000_FF00u32 >> j) & 1u32) == 0u32,
        (0xF800u32 >> 11u32) & 1u32 == 1u32,
        (0x7C00u32 >> 10u32) & 1u32 == 1u32,
        (0x07E0u32 >> 5u32) & 1u32 == 1u32,
        (0x03E0u32 >> 5u32) & 1u32 == 1u32,
        (0x001Fu32 >> 0u32) & 1u32 == 1u32,
        (0x00FF_0000u32 >> 16u32) & 1u32 == 1u32,
        (0x0000_FF00u32 >> 8u32) & 1u32 == 1u32,
        (0x0000_00FFu32 >> 0u32) & 1u32 == 1u32,
        0xF800u32 >> 11u32 == 0x1Fu32,
        0x7C00u32 >> 10u32 == 0x1Fu32,
        0x07E0u32 >> 5u32 == 0x3Fu32,
        0x03E0u32 >> 5u32 == 0x1Fu32,
        0x001Fu32 >> 0u32 == 0x1Fu32,
        0x00FF_0000u32 >> 16u32 == 0xFFu32,
        0x0000_FF00u32 >> 8u32 == 0xFFu32,
        0x0000_00FFu32 >> 0u32 == 0xFFu32,
        0x1Fu32 & 0x20u32 == 0,
        0x3Fu32 & 0x40u32 == 0,
        0xFFu32 & 0x100u32 == 0,
        0xF800u32 & 0x07E0u32 == 0 && 0xF800u32 & 0x001Fu32 == 0 && 0x07E0u32 & 0x001Fu32 == 0,
        0x7C00u32 & 0x03E0u32 == 0 && 0x7C00u32 & 0x001Fu32 == 0 && 0x03E0u32 & 0x001Fu32 == 0,
        0x00FF_0000u32 & 0x0000_FF00u32 == 0 && 0x00FF_0000u32 & 0x0000_00FFu32 == 0 && 0x0000_FF00u32
            & 0x0000_00FFu32 == 0,
        0xF800u32 & !0xFFFFu32 == 0 && 0x07E0u32 & !0xFFFFu32 == 0 && 0x001Fu32 & !0xFFFFu32 == 0,
        0x7C00u32 & !0xFFFFu32 == 0 && 0x03E0u32 & !0xFFFFu32 == 0,
        0x00FF_0000u32 & !u32::MAX == 0 && 0x0000_FF00u32 & !u32::MAX == 0 && 0x0000_00FFu32 & !u32::MAX == 0,
{
}

/// No mask from `i` on is non-zero and scattered.
proof fn lemma_no_noncontiguous(s: Seq<(u32, crate::raw::masks::ColorMaskChannel)>, i: int)
    requires
        forall|k: int| 0 <= k < s.len() ==> s[k].0 == 0 || spec_contiguous(#[trigger] s[k].0),
    ensures
        spec_first_noncontiguous(s, i) is None,
    decreases s.len() - i,
{
    if 0 <= i < s.len() {
        lemma_no_noncontiguous(s, i + 1);
    }
}

/// No two masks, in pairs from `(i, j)` on, share a bit.
proof fn lemma_no_overlap(s: Seq<(u32, crate::raw::masks::ColorMaskChannel)>, i: int, j: int)
    requires
        forall|a: int, b: int| 0 <= a < b < s.len() ==> #[trigger] (s[a].0 & s[b].0) == 0,
    ensures
        spec_first_overlap(s, i, j) is None,
    decreases s.len() - i, s.len() - j,
{
    if i >= s.len() || i < 0 {
    } else if j >= s.len() {
        lemma_no_overlap(s, i + 1, i + 2);
    } else if j <= i {
    } else {
        assert((s[i].0 & s[j].0) == 0);
        lemma_no_overlap(s, i, j + 1);
    }
}

/// No mask from `i` on has bits outside `pm`.
proof fn lemma_no_exceeding(s: Seq<(u32, crate::raw::masks::ColorMaskChannel)>, pm: u32, i: int)
    requires
        forall|k: int| 0 <= k < s.len() ==> #[trigger] (s[k].0 & !pm) == 0,
    ensures
        spec_first_exceeding(s, pm, i) is None,
    decreases s.len() - i,
{
    if 0 <= i < s.len() {
        assert((s[i].0 & !pm) == 0);
        lemma_no_exceeding(s, pm, i + 1);
    }
}

/// Masks that are each zero or one run of bits, pairwise disjoint and
/// within the pixel width pass validation.
proof fn lemma_channels_valid(s: Seq<(u32, crate::raw::masks::ColorMaskChannel)>, bpp: BitsPerPixel)
    requires
        forall|k: int| 0 <= k < s.len() ==> s[k].0 == 0 || spec_contiguous(#[trigger] s[k].0),
        forall|a: int, b: int| 0 <= a < b < s.len() ==> #[trigger] (s[a].0 & s[b].0) == 0,
        forall|k: int|
            0 <= k < s.len() ==> #[trigger] (s[k].0 & !spec_pixel_mask(bpp.spec_bit_count())) == 0,
    ensures
        spec_validate_masks_for_bpp(s, bpp) is Ok,
{
    lemma_no_noncontiguous(s, 0);
    lemma_no_overlap(s, 0, 1);
    lemma_no_exceeding(s, spec_pixel_mask(bpp.spec_bit_count()), 0);
}

/// Three masks with these trailing zero counts and run shapes pass
/// validation at `bpp`, alone and with a zero alpha mask.
proof fn lemma_three_masks_valid(r: u32, g: u32, b: u32, tr: u32, tg: u32, tb: u32, bpp: BitsPerPixel)
    requires
        u32_trailing_zeros(r) == tr,
        u32_trailing_zeros(g) == tg,
        u32_trailing_zeros(b) == tb,
        r != 0 && g != 0 && b != 0,
        (r >> tr) & ((r >> tr) + 1) as u32 == 0,
        (g >> tg) & ((g >> tg) + 1) as u32 == 0,
        (b >> tb) & ((b >> tb) + 1) as u32 == 0,
        (r >> tr) != u32::MAX && (g >> tg) != u32::MAX && (b >> tb) != u32::MAX,
        r & g == 0 && r & b == 0 && g & b == 0,
        r & !spec_pixel_mask(bpp.spec_bit_count()) == 0,
        g & !spec_pixel_mask(bpp.spec_bit_count()) == 0,
        b & !spec_pixel_mask(bpp.spec_bit_count()) == 0,
    ensures
        spec_validate_masks_for_bpp((RgbMasks { red_mask: r, green_mask: g, blue_mask: b }).spec_channels(), bpp)
            is Ok,
        spec_validate_masks_for_bpp(
            (RgbaMasks { red_mask: r, green_mask: g, blue_mask: b, alpha_mask: 0 }).spec_channels(),
            bpp,
        ) is Ok,
{
    let pm = spec_pixel_mask(bpp.spec_bit_count());
    lemma_mask_constants();
    assert(r & 0u32 == 0 && g & 0u32 == 0 && b & 0u32 == 0 && 0u32 & !pm == 0);
    let s3 = (RgbMasks { red_mask: r, green_mask: g, blue_mask: b }).spec_channels();
    let s4 = (RgbaMasks { red_mask: r, green_mask: g, blue_mask: b, alpha_mask: 0 }).spec_channels();
    assert(spec_contiguous(r) && spec_contiguous(g) && spec_contiguous(b));
    assert forall|a: int, c: int| 0 <= a < c < s3.len() implies #[trigger] (s3[a].0 & s3[c].0) == 0 by {
    }
    lemma_channels_valid(s3, bpp);
    assert forall|a: int, c: int| 0 <= a < c < s4.len() implies #[trigger] (s4[a].0 & s4[c].0) == 0 by {
    }
    lemma_channels_valid(s4, bpp);
}

/// The bitfield masks of each save format pass validation at its depth,
/// as stored after an INFO header and as stored in a V4 or V5 header; so
/// do the zero masks of the other formats.
proof fn lemma_format_masks_valid(format: SaveFormat)
    ensures
        spec_format_masks(format) matches Some(m) ==> spec_validate_masks_for_bpp(m.spec_channels(), format.spec_bpp())
            is Ok,
        spec_validate_masks_for_bpp(spec_saved_masks(spec_format_masks(format)).spec_channels(), format.spec_bpp())
            is Ok,
{
    let bpp = format.spec_bpp();
    let pm = spec_pixel_mask(bpp.spec_bit_count());
    lemma_mask_constants();
    match format {
        SaveFormat::BitFields16Rgb565 => {
            lemma_trailing_zeros_is(0xF800u32, 11);
            lemma_trailing_zeros_is(0x07E0u32, 5);
            lemma_trailing_zeros_is(0x001Fu32, 0);
            lemma_three_masks_valid(0xF800, 0x07E0, 0x001F, 11, 5, 0, bpp);
        },
        SaveFormat::BitFields16Rgb555 => {
            lemma_trailing_zeros_is(0x7C00u32, 10);
            lemma_trailing_zeros_is(0x03E0u32, 5);
            lemma_trailing_zeros_is(0x001Fu32, 0);
            lemma_three_masks_valid(0x7C00, 0x03E0, 0x001F, 10, 5, 0, bpp);
        },
        SaveFormat::BitFields32 => {
            lemma_trailing_zeros_is(0x00FF_0000u32, 16);
            lemma_trailing_zeros_is(0x0000_FF00u32, 8);
            lemma_trailing_zeros_is(0x0000_00FFu32, 0);
            lemma_three_masks_valid(0x00FF_0000, 0x0000_FF00, 0x0000_00FF, 16, 8, 0, bpp);
        },
        _ => {
            let z = spec_saved_masks(spec_format_masks(format)).spec_channels();
            assert(0u32 & 0u32 == 0 && 0u32 & (!pm) == 0);
            assert forall|a: int, c: int| 0 <= a < c < z.len() implies #[trigger] (z[a].0 & z[c].0) == 0 by {
            }
            lemma_channels_valid(z, bpp);
        },
    }
}

/// What an encoder guarantees of the parts it assembles a bitmap from.
pub open spec fn spec_sound_parts(
    width: u32,
    height: u32,
    header: SaveHeaderVersion,
    source: Option<SourceMetadata>,
    bpp: BitsPerPixel,
    compression: Compression,
    image_size: u32,
    masks: Option<RgbMasks>,
    table: Seq<RgbQuad>,
    data: Seq<u8>,
) -> bool {
    let bits = bpp.spec_bit_count();
    let uncompressed = compression is Rgb || compression is BitFields;
    &&& 0 < width <= 0x7FFF_FFFF
    &&& 0 < height <= 0x7FFF_FFFF
    &&& header == SaveHeaderVersion::Core ==> width <= 0xFFFF && height <= 0xFFFF && compression is Rgb
        && bpp.spec_allowed_for(DibVariant::Core)
    &&& compression.spec_validate_for_bpp(bpp) is Ok
    &&& (compression is Rgb || compression is BitFields || compression is Rle4 || compression is Rle8)
    &&& (compression is BitFields <==> masks is Some)
    &&& (masks matches Some(m) ==> spec_validate_masks_for_bpp(m.spec_channels(), bpp) is Ok)
    &&& spec_validate_masks_for_bpp(spec_saved_masks(masks).spec_channels(), bpp) is Ok
    &&& (spec_is_indexed(bpp) ==> 1 <= table.len()) && (!spec_is_indexed(bpp) ==> table.len() == 0)
    &&& forall|i: int| 0 <= i < table.len() ==> (#[trigger] table[i]).reserved == 0
    &&& uncompressed ==> bits * width + 31 <= u32::MAX && data.len() == spec_row_stride(
        bits as int,
        width as int,
    ) * height
    &&& !uncompressed ==> data.len() > 0
    &&& image_size == data.len()
    &&& data.len() <= MAX_PIXEL_BYTES
    &&& spec_file_size(header, source, bpp, masks, table.len(), image_size) <= u32::MAX
}

/// No entry from `i` on has a non-zero reserved byte.
proof fn lemma_quads_reserved_zero(t: Seq<RgbQuad>, i: int)
    requires
        forall|k: int| 0 <= k < t.len() ==> (#[trigger] t[k]).reserved == 0,
    ensures
        spec_first_invalid_quad(t, i) is None,
    decreases t.len() - i,
{
    if 0 <= i < t.len() {
        assert(t[i].reserved == 0);
        lemma_quads_reserved_zero(t, i + 1);
    }
}

/// The headers of a bitmap assembled from sound parts pass validation and
/// give its table and pixel data sizes.
proof fn lemma_built_headers_valid(
    b: Bmp,
    width: u32,
    height: u32,
    header: SaveHeaderVersion,
    source: Option<SourceMetadata>,
    bpp: BitsPerPixel,
    compression: Compression,
    image_size: u32,
    masks: Option<RgbMasks>,
    table: Seq<RgbQuad>,
    data: Seq<u8>,
)
    requires
        spec_built(b, width, height, header, source, bpp, compression, image_size, masks, table, data),
        spec_sound_parts(width, height, header, source, bpp, compression, image_size, masks, table, data),
    ensures
        b.spec_file_header().spec_validate() is Ok,
        b.spec_bitmap_header().spec_validate() is Ok,
        b.spec_bitmap_header().spec_color_table_size() == Some(b.spec_color_table_len() as u32),
        b.spec_bitmap_header().spec_pixel_data_size() == Some(image_size),
{
    let bits = bpp.spec_bit_count();
    let uncompressed = compression is Rgb || compression is BitFields;
    let info = spec_saved_info(width, height, bpp, compression, image_size, table.len());
    assert(spec_unsigned_abs(info.width) == width);
    assert(spec_unsigned_abs(info.height) == height);
    if uncompressed {
        assert(info.spec_pixel_data_size() == Some(image_size));
    }
    assert(info.spec_validate() is Ok);
    if header != SaveHeaderVersion::Core {
        assert(table.len() <= u32::MAX);
        assert(info.colors_used == table.len());
        if table.len() == 0 {
            assert(bpp == BitsPerPixel::Bpp16 || bpp == BitsPerPixel::Bpp24 || bpp == BitsPerPixel::Bpp32);
        }
        assert(info.spec_color_table_size() == Some(table.len() as u32));
    }
    match b {
        Bmp::Core(d) => {
            assert(d.bmp_header.spec_validate() is Ok);
            assert(d.bmp_header.spec_pixel_data_size() == Some(image_size));
        },
        Bmp::Info(d) => {
        },
        Bmp::V4(d) => {
            assert(d.bmp_header.spec_validate_base() is Ok);
        },
        Bmp::V5(d) => {
            assert(d.bmp_header.v4.spec_validate_base() is Ok);
        },
    }
}

/// A bitmap assembled from sound parts passes full validation.
proof fn lemma_built_valid(
    b: Bmp,
    width: u32,
    height: u32,
    header: SaveHeaderVersion,
    source: Option<SourceMetadata>,
    bpp: BitsPerPixel,
    compression: Compression,
    image_size: u32,
    masks: Option<RgbMasks>,
    table: Seq<RgbQuad>,
    data: Seq<u8>,
)
    requires
        spec_built(b, width, height, header, source, bpp, compression, image_size, masks, table, data),
        spec_sound_parts(width, height, header, source, bpp, compression, image_size, masks, table, data),
    ensures
        b.spec_validate() is Ok,
{
    lemma_built_headers_valid(b, width, height, header, source, bpp, compression, image_size, masks, table, data);
    let fh = b.spec_file_header();
    let h = b.spec_bitmap_header();
    let ts = h.spec_color_table_size()->Some_0;
    let ps = h.spec_pixel_data_size()->Some_0;
    let n = b.spec_color_table_len();
    let offset = spec_pixel_offset(header, bpp, masks, table.len());
    assert(b.spec_validate_table(ts as usize) is Ok) by {
        match b {
            Bmp::Core(d) => {},
            Bmp::Info(d) => lemma_quads_reserved_zero(table, 0),
            Bmp::V4(d) => lemma_quads_reserved_zero(table, 0),
            Bmp::V5(d) => lemma_quads_reserved_zero(table, 0),
        }
    }
    assert(spec_validate_pixel_data_size(b.spec_bitmap_array().len() as usize, ps as usize) is Ok);
    let (dib, entry, extra) = b.spec_layout_sizes();
    assert(n == spec_table_entries(header, bpp, table.len()));
    assert(spec_min_pixel_offset(dib, n, entry, extra) == Some(offset as u32));
    assert(spec_pixel_end(fh.pixel_data_offset, offset as u32, ps as usize) == Ok::<u64, BmpError>(
        (offset + ps) as u64,
    ));
    match b {
        Bmp::V5(d) => {
            let icc = spec_validate_v5_icc_profile(d.bmp_header, spec_icc(d.icc_profile), n, fh.file_size);
            if d.bmp_header.v4.cs_type.spec_is_profile() {
                assert(icc == Ok::<u64, BmpError>(fh.file_size as u64));
            } else {
                assert(icc == Ok::<u64, BmpError>(0));
            }
        },
        _ => {},
    }
    assert(b.spec_validate_layout(ts, ps) is Ok);
}

/// The entries of a quantized color table have zero reserved bytes, and
/// there is at least one.
proof fn lemma_quantized_table_sound(rgba: Seq<u8>, max_colors: usize, table: Seq<RgbQuad>, indices: Seq<u8>)
    requires
        spec_quantized_table(rgba, max_colors, table, indices),
    ensures
        1 <= table.len() <= max_colors,
        forall|i: int| 0 <= i < table.len() ==> (#[trigger] table[i]).reserved == 0,
{
    let palette = choose|palette: Seq<[u8; 4]>|
        #![trigger spec_quantized(rgba, max_colors, palette, indices)]
        spec_quantized(rgba, max_colors, palette, indices) && table == palette.map_values(
            |c: [u8; 4]| spec_quad_of(c),
        );
    assert forall|i: int| 0 <= i < table.len() implies (#[trigger] table[i]).reserved == 0 by {
        assert(table[i] == spec_quad_of(palette[i]));
    }
}

/// Every BMP the encoders build passes full validation, whatever the
/// format, header version and source metadata, given that its pixel data
/// is within `MAX_PIXEL_BYTES` and, for uncompressed rows, that a row's
/// bit count plus padding fits the header's 32-bit arithmetic.
pub proof fn lemma_encoded_valid(
    b: Bmp,
    image: DecodedImage,
    format: SaveFormat,
    header: SaveHeaderVersion,
    source: Option<SourceMetadata>,
)
    requires
        spec_encode_precheck(image, format, header) is Ok,
        spec_is_direct_format(format) ==> !spec_direct_fails(image, format, header, source),
        spec_encoded(b, image, format, header, source),
        b.spec_bitmap_array().len() <= MAX_PIXEL_BYTES,
        (format.spec_compression() is Rgb || format.spec_compression() is BitFields) ==> format.spec_bpp().spec_bit_count()
            * image.width + 31 <= u32::MAX,
    ensures
        b.spec_validate() is Ok,
{
    let w = image.width;
    let h = image.height;
    let bpp = format.spec_bpp();
    let bits = bpp.spec_bit_count();
    let compression = format.spec_compression();
    let data = b.spec_bitmap_array();
    let fh = b.spec_file_header();
    lemma_format_masks_valid(format);
    let stride = spec_stride(w as usize, bits)->0;
    if compression is Rgb || compression is BitFields {
        assert(w * bits == bits * w) by (nonlinear_arith);
    }
    match format {
        SaveFormat::Rgb1 | SaveFormat::Rgb4 | SaveFormat::Rgb8 => {
            assert(spec_indexed_encoded(b, image, bpp, header, source));
            let (table, indices) = choose|table: Seq<RgbQuad>, indices: Seq<u8>|
                #![trigger spec_quantized_table(image.rgba@, spec_max_colors(bpp), table, indices)]
                spec_quantized_table(image.rgba@, spec_max_colors(bpp), table, indices) && !spec_indexed_fails(
                    image,
                    bpp,
                    header,
                    source,
                    table.len(),
                ) && spec_indices_stored(
                    data,
                    bpp,
                    stride as int,
                    w as int,
                    h as int,
                    header != SaveHeaderVersion::Core,
                    indices,
                ) && spec_built(
                    b,
                    w,
                    h,
                    header,
                    source,
                    bpp,
                    Compression::Rgb,
                    (stride * h) as u32,
                    None,
                    table,
                    data,
                );
            lemma_quantized_table_sound(image.rgba@, spec_max_colors(bpp), table, indices);
            assert(fh.file_size == spec_file_size(header, source, bpp, None, table.len(), (stride * h) as u32));
            lemma_built_valid(b, w, h, header, source, bpp, Compression::Rgb, (stride * h) as u32, None, table, data);
        },
        SaveFormat::Rle8 | SaveFormat::Rle4 => {
            let four = format == SaveFormat::Rle4;
            assert(spec_rle_encoded(b, image, four, header, source));
            let (table, indices) = choose|table: Seq<RgbQuad>, indices: Seq<u8>|
                #![trigger spec_quantized_table(image.rgba@, spec_max_colors(spec_rle_bpp(four)), table, indices)]
                spec_quantized_table(image.rgba@, spec_max_colors(spec_rle_bpp(four)), table, indices) && spec_built(
                    b,
                    w,
                    h,
                    header,
                    source,
                    spec_rle_bpp(four),
                    spec_rle_compression(four),
                    data.len() as u32,
                    None,
                    table,
                    data,
                );
            lemma_quantized_table_sound(image.rgba@, spec_max_colors(bpp), table, indices);
            assert(fh.file_size == spec_file_size(header, source, bpp, None, table.len(), data.len() as u32));
            lemma_built_valid(b, w, h, header, source, bpp, compression, data.len() as u32, None, table, data);
        },
        _ => {
            assert(spec_direct_encoded(b, image, format, header, source));
            let masks = spec_format_masks(format);
            assert(fh.file_size == spec_file_size(header, source, bpp, masks, 0, (stride * h) as u32));
            lemma_built_valid(b, w, h, header, source, bpp, compression, (stride * h) as u32, masks, Seq::empty(), data);
        },
    }
}

} // verus!
