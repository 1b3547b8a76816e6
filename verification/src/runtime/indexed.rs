//! What survives encoding with a palette: an image saved with 1, 4 or
//! 8-bit indices, uncompressed or run-length encoded, decodes to its
//! quantization, each pixel painted with the palette color of its index.
use vstd::prelude::*;
use vstd::arithmetic::div_mod::lemma_fundamental_div_mod;
use crate::raw::bmp::Bmp;
use crate::raw::headers::spec_unsigned_abs;
use crate::raw::types::{BitsPerPixel, RgbQuad};
use crate::runtime::decode::{
    spec_decode_masks_ok, spec_decode_params, spec_decode_rgb, spec_decode_to_rgba, spec_first_bad_in_row,
    spec_first_bad_index, spec_index_at, spec_palette, spec_rgb_byte, spec_rgba_output_len, spec_row_stride,
    spec_src_row, DecodeError, DecodedImage, MAX_DECODED_RGBA_BYTES,
};
use crate::runtime::encode::{
    spec_built, spec_encode_precheck, spec_encoded, spec_indexed_encoded, spec_indexed_fails, spec_indices_stored,
    spec_max_colors, spec_quantized_table, spec_rle_bpp, spec_rle_compression, spec_rle_encoded, spec_stride,
    spec_table_palette, SaveFormat, SaveHeaderVersion, SourceMetadata,
};
use crate::runtime::rle::{spec_indexed_rgba, spec_zeros};
use crate::runtime::decode::spec_rle_from;

verus! {

/// No pixel from `x` on of a stored row has an index past the palette.
proof fn lemma_no_bad_in_row(
    data: Seq<u8>,
    bpp: BitsPerPixel,
    row: int,
    width: int,
    pal_len: int,
    y: int,
    height: int,
    top_down: bool,
    stride: int,
    indices: Seq<u8>,
    x: int,
)
    requires
        0 <= y < height,
        row == spec_src_row(y, height, top_down) * stride,
        spec_indices_stored(data, bpp, stride, width, height, top_down, indices),
        forall|i: int| 0 <= i < indices.len() ==> (#[trigger] indices[i] as int) < pal_len,
        indices.len() == width * height,
        0 <= x,
    ensures
        spec_first_bad_in_row(data, bpp, row, width, pal_len, x) is None,
    decreases width - x,
{
    if x < width {
        assert(spec_index_at(data, bpp, spec_src_row(y, height, top_down) * stride, x) == indices[y * width + x] as int);
        assert(0 <= y * width + x < width * height) by (nonlinear_arith)
            requires
                0 <= y < height,
                0 <= x < width,
        ;
        lemma_no_bad_in_row(data, bpp, row, width, pal_len, y, height, top_down, stride, indices, x + 1);
    }
}

/// No stored row from `y` on has an index past the palette.
proof fn lemma_no_bad_index(
    data: Seq<u8>,
    bpp: BitsPerPixel,
    stride: int,
    width: int,
    height: int,
    top_down: bool,
    pal_len: int,
    indices: Seq<u8>,
    y: int,
)
    requires
        spec_indices_stored(data, bpp, stride, width, height, top_down, indices),
        forall|i: int| 0 <= i < indices.len() ==> (#[trigger] indices[i] as int) < pal_len,
        indices.len() == width * height,
        0 <= y,
    ensures
        spec_first_bad_index(data, bpp, stride, width, height, top_down, pal_len, y) is None,
    decreases height - y,
{
    if y < height {
        lemma_no_bad_in_row(
            data,
            bpp,
            spec_src_row(y, height, top_down) * stride,
            width,
            pal_len,
            y,
            height,
            top_down,
            stride,
            indices,
            0,
        );
        lemma_no_bad_index(data, bpp, stride, width, height, top_down, pal_len, indices, y + 1);
    }
}

/// Decoding packed indices paints each pixel with its index's color.
proof fn lemma_decode_indices(
    data: Seq<u8>,
    bpp: BitsPerPixel,
    width: usize,
    height: usize,
    top_down: bool,
    palette: Seq<[u8; 4]>,
    indices: Seq<u8>,
)
    requires
        bpp == BitsPerPixel::Bpp1 || bpp == BitsPerPixel::Bpp4 || bpp == BitsPerPixel::Bpp8,
        0 < width,
        0 < height,
        width * height * 4 <= MAX_DECODED_RGBA_BYTES,
        spec_row_stride(width, bpp.spec_bit_count()) is Ok,
        spec_row_stride(width, bpp.spec_bit_count())->Ok_0 * height <= usize::MAX,
        spec_indices_stored(
            data,
            bpp,
            spec_row_stride(width, bpp.spec_bit_count())->Ok_0 as int,
            width as int,
            height as int,
            top_down,
            indices,
        ),
        forall|i: int| 0 <= i < indices.len() ==> (#[trigger] indices[i] as int) < palette.len(),
        indices.len() == width * height,
    ensures
        spec_decode_rgb(data, width, height, top_down, bpp, palette) == Ok::<Seq<u8>, DecodeError>(
            spec_indexed_rgba(indices, palette, width as int, height as int),
        ),
{
    let stride = spec_row_stride(width, bpp.spec_bit_count())->Ok_0;
    let w = width as int;
    let h = height as int;
    lemma_no_bad_index(data, bpp, stride as int, w, h, top_down, palette.len() as int, indices, 0);
    assert(w * h * 4 == (w * h) * 4) by (nonlinear_arith);
    assert(spec_rgba_output_len(width, height) == Ok::<usize, DecodeError>((w * h * 4) as usize));
    let out = Seq::new(
        (w * h * 4) as nat,
        |i: int| spec_rgb_byte(data, bpp, stride as int, w, h, top_down, palette, i),
    );
    assert forall|i: int| 0 <= i < out.len() implies out[i] == spec_indexed_rgba(indices, palette, w, h)[i] by {
        let p = i / 4;
        assert(0 <= p < w * h);
        lemma_fundamental_div_mod(p, w);
        let y = p / w;
        let x = p % w;
        assert((p / w) * w == w * (p / w)) by (nonlinear_arith);
        assert(y < h) by (nonlinear_arith)
            requires
                0 <= p < w * h,
                0 < w,
                p == w * y + x,
                0 <= x,
        ;
        assert(spec_index_at(data, bpp, spec_src_row(y, h, top_down) * stride, x) == indices[y * w + x] as int);
    }
    assert(out =~= spec_indexed_rgba(indices, palette, w, h));
}

/// Painting with two palettes that agree on the used entries gives the
/// same image.
proof fn lemma_palette_agree(indices: Seq<u8>, a: Seq<[u8; 4]>, c: Seq<[u8; 4]>, n: int, width: int, height: int)
    requires
        forall|i: int| 0 <= i < indices.len() ==> (#[trigger] indices[i] as int) < n,
        forall|k: int| 0 <= k < n ==> #[trigger] a[k] == c[k],
        indices.len() == width * height,
        0 <= width,
        0 <= height,
    ensures
        spec_indexed_rgba(indices, a, width, height) == spec_indexed_rgba(indices, c, width, height),
{
    assert forall|i: int| 0 <= i < width * height * 4 implies spec_indexed_rgba(indices, a, width, height)[i]
        == spec_indexed_rgba(indices, c, width, height)[i] by {
        let p = i / 4;
        assert(0 <= p < indices.len());
        assert(a[indices[p] as int] == c[indices[p] as int]);
    }
    assert(spec_indexed_rgba(indices, a, width, height) =~= spec_indexed_rgba(indices, c, width, height));
}

/// An image encoded with 1, 4 or 8-bit uncompressed palette indices, with
/// any header version, decodes to a quantization of it: a palette of at
/// most as many colors as the depth allows, each pixel painted with the
/// palette color of its index. Decoding refuses images of more than
/// `MAX_DECODED_RGBA_BYTES` bytes.
pub proof fn lemma_encode_decode_indexed(
    b: Bmp,
    image: DecodedImage,
    format: SaveFormat,
    header: SaveHeaderVersion,
    source: Option<SourceMetadata>,
)
    requires
        format == SaveFormat::Rgb1 || format == SaveFormat::Rgb4 || format == SaveFormat::Rgb8,
        spec_encode_precheck(image, format, header) is Ok,
        spec_encoded(b, image, format, header, source),
        image.width * image.height * 4 <= MAX_DECODED_RGBA_BYTES,
    ensures
        spec_decode_masks_ok(b),
        exists|table: Seq<RgbQuad>, indices: Seq<u8>|
            #![trigger spec_quantized_table(image.rgba@, spec_max_colors(format.spec_bpp()), table, indices)]
            spec_quantized_table(image.rgba@, spec_max_colors(format.spec_bpp()), table, indices)
                && spec_decode_to_rgba(b) == Ok::<(u32, u32, Seq<u8>), DecodeError>(
                (
                    image.width,
                    image.height,
                    spec_indexed_rgba(indices, spec_table_palette(table), image.width as int, image.height as int),
                ),
            ),
{
    let bpp = format.spec_bpp();
    let w = image.width;
    let h = image.height;
    let width = w as usize;
    let height = h as usize;
    let stride = spec_stride(width, bpp.spec_bit_count())->0;
    let top_down = header != SaveHeaderVersion::Core;
    let data = b.spec_bitmap_array();
    assert(spec_indexed_encoded(b, image, bpp, header, source));
    let (table, indices) = choose|table: Seq<RgbQuad>, indices: Seq<u8>|
        #![trigger spec_quantized_table(image.rgba@, spec_max_colors(bpp), table, indices)]
        spec_quantized_table(image.rgba@, spec_max_colors(bpp), table, indices) && !spec_indexed_fails(
            image,
            bpp,
            header,
            source,
            table.len(),
        ) && spec_indices_stored(data, bpp, stride as int, w as int, h as int, top_down, indices) && spec_built(
            b,
            w,
            h,
            header,
            source,
            bpp,
            crate::raw::types::Compression::Rgb,
            (stride * h) as u32,
            None,
            table,
            data,
        );
    crate::runtime::encode::lemma_quantized_indices(image.rgba@, spec_max_colors(bpp), table, indices);
    assert(image.rgba@.len() == w * h * 4);
    assert(indices.len() == w * h);
    let pal = spec_palette(b);
    let tp = spec_table_palette(table);
    assert forall|k: int| 0 <= k < table.len() implies #[trigger] pal[k] == tp[k] by {
    }
    lemma_decode_indices(data, bpp, width, height, top_down, pal, indices);
    lemma_palette_agree(indices, pal, tp, table.len() as int, w as int, h as int);
    let (dw, dh, dbpp, compression, td, masks) = spec_decode_params(b);
    assert(dw == w && spec_unsigned_abs(dh) == h && dbpp == bpp && td == top_down);
    assert(compression == crate::raw::types::Compression::Rgb);
}

/// An image encoded as RLE8 or RLE4, with any header version that stores
/// run-length data, decodes to a quantization of it: a palette of at most
/// 256 or 16 colors, each pixel painted with the palette color of its
/// index. Decoding refuses images of more than `MAX_DECODED_RGBA_BYTES`
/// bytes.
pub proof fn lemma_encode_decode_rle(
    b: Bmp,
    image: DecodedImage,
    format: SaveFormat,
    header: SaveHeaderVersion,
    source: Option<SourceMetadata>,
)
    requires
        format == SaveFormat::Rle8 || format == SaveFormat::Rle4,
        spec_encode_precheck(image, format, header) is Ok,
        spec_encoded(b, image, format, header, source),
        image.width * image.height * 4 <= MAX_DECODED_RGBA_BYTES,
    ensures
        spec_decode_masks_ok(b),
        exists|table: Seq<RgbQuad>, indices: Seq<u8>|
            #![trigger spec_quantized_table(image.rgba@, spec_max_colors(format.spec_bpp()), table, indices)]
            spec_quantized_table(image.rgba@, spec_max_colors(format.spec_bpp()), table, indices)
                && spec_decode_to_rgba(b) == Ok::<(u32, u32, Seq<u8>), DecodeError>(
                (
                    image.width,
                    image.height,
                    spec_indexed_rgba(indices, spec_table_palette(table), image.width as int, image.height as int),
                ),
            ),
{
    let four = format == SaveFormat::Rle4;
    let w = image.width;
    let h = image.height;
    let data = b.spec_bitmap_array();
    assert(spec_rle_encoded(b, image, four, header, source));
    assert(spec_rle_bpp(four) == format.spec_bpp());
    let (table, indices) = choose|table: Seq<RgbQuad>, indices: Seq<u8>|
        #![trigger spec_quantized_table(image.rgba@, spec_max_colors(spec_rle_bpp(four)), table, indices)]
        spec_quantized_table(image.rgba@, spec_max_colors(spec_rle_bpp(four)), table, indices) && spec_rle_from(
            data,
            four,
            w as int,
            h as int,
            false,
            spec_table_palette(table),
            0,
            0,
            0,
            spec_zeros(w as int, h as int),
        ) == Ok::<Seq<u8>, DecodeError>(spec_indexed_rgba(indices, spec_table_palette(table), w as int, h as int))
            && spec_built(
            b,
            w,
            h,
            header,
            source,
            spec_rle_bpp(four),
            spec_rle_compression(four),
            data.len() as u32,
            None,
            table,
            data,
        );
    assert(spec_palette(b) =~= spec_table_palette(table));
    let n = (w as int * h as int * 4);
    assert(w as int * h as int * 4 == (w as int * h as int) * 4) by (nonlinear_arith);
    assert(spec_rgba_output_len(w as usize, h as usize) == Ok::<usize, DecodeError>(n as usize));
    assert(Seq::new(n as nat, |k: int| 0u8) =~= spec_zeros(w as int, h as int));
    let (dw, dh, dbpp, compression, td, masks) = spec_decode_params(b);
    assert(dw == w && spec_unsigned_abs(dh) == h && td == false);
    assert(compression == spec_rle_compression(four));
}

} // verus!
