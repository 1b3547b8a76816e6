use bmp::raw::{
    BitmapInfoData, BitmapInfoHeader, BitsPerPixel, Bmp, Compression, FileHeader, RgbMasks, RgbQuad,
};
use bmp::runtime::decode::{
    DecodeError, DecodedImage, MAX_DECODED_RGBA_BYTES, decode_to_rgba, rgb555_to_rgba, rgba_output_len,
    row_stride, scale_masked_channel,
};

#[test]
fn rgba_output_len_rejects_multiplication_overflow() {
    let err = rgba_output_len(usize::MAX, 2).expect_err("must fail on overflow");
    assert!(matches!(err, DecodeError::ArithmeticOverflow("pixel count")));
}

#[test]
fn rgba_output_len_rejects_excessive_allocation() {
    let over_limit_pixels = (MAX_DECODED_RGBA_BYTES / 4) + 1;
    let err = rgba_output_len(over_limit_pixels, 1).expect_err("must enforce decoded size cap");
    assert!(matches!(err, DecodeError::DecodedImageTooLarge { .. }));
}

#[test]
fn rgba_output_len_of_small_image() {
    assert_eq!(rgba_output_len(3, 2).unwrap(), 24);
}

#[test]
fn row_stride_pads_to_four_bytes() {
    assert_eq!(row_stride(1, 24).unwrap(), 4);
    assert_eq!(row_stride(17, 24).unwrap(), 52);
    assert_eq!(row_stride(9, 1).unwrap(), 4);
    assert_eq!(row_stride(3, 4).unwrap(), 4);
    assert!(matches!(row_stride(usize::MAX, 32), Err(DecodeError::ArithmeticOverflow("bits per row"))));
}

#[test]
fn rgb555_expands_to_full_range() {
    assert_eq!(rgb555_to_rgba(0x7FFF), [255, 255, 255, 255]);
    assert_eq!(rgb555_to_rgba(0x7C00), [255, 0, 0, 255]);
    assert_eq!(rgb555_to_rgba(0x0010), [0, 0, 131, 255]);
}

#[test]
fn scale_masked_channel_examples() {
    assert_eq!(scale_masked_channel(0b1111100000000000, 0b1111100000000000), 255);
    assert_eq!(scale_masked_channel(0b0000011111100000, 0b0000011111100000), 255);
    assert_eq!(scale_masked_channel(0b0000000000011111, 0b0000000000011111), 255);
    assert_eq!(scale_masked_channel(0x1234, 0), 0);
    assert_eq!(scale_masked_channel(0x0000_0010, 0x0000_001F), 131);
}

/// An 8-bit indexed INFO bitmap (bottom-up unless `top_down`) with a
/// two-entry palette.
fn indexed_bmp(width: i32, height: i32, compression: Compression, pixels: Vec<u8>) -> Bmp {
    let table = vec![
        RgbQuad { blue: 0, green: 0, red: 255, reserved: 0 },
        RgbQuad { blue: 255, green: 0, red: 0, reserved: 0 },
    ];
    let size = pixels.len() as u32;
    Bmp::Info(BitmapInfoData {
        file_header: FileHeader {
            signature: *b"BM",
            file_size: 14 + 40 + 8 + size,
            reserved_1: [0; 2],
            reserved_2: [0; 2],
            pixel_data_offset: 14 + 40 + 8,
        },
        bmp_header: BitmapInfoHeader {
            width,
            height,
            planes: 1,
            bit_count: BitsPerPixel::Bpp8,
            compression,
            image_size: size,
            x_resolution_ppm: 0,
            y_resolution_ppm: 0,
            colors_used: 2,
            colors_important: 0,
        },
        color_masks: None,
        color_table: table,
        bitmap_array: pixels,
    })
}

const RED: [u8; 4] = [255, 0, 0, 255];
const BLUE: [u8; 4] = [0, 0, 255, 255];

#[test]
fn decode_bottom_up_indexed_rows() {
    // Two rows of 2 pixels, stride 4: first stored row is the bottom one.
    let bmp = indexed_bmp(2, 2, Compression::Rgb, vec![1, 1, 0, 0, 0, 1, 0, 0]);
    let img = decode_to_rgba(&bmp).unwrap();
    assert_eq!((img.width, img.height), (2, 2));
    assert_eq!(img.rgba, [RED, BLUE, BLUE, BLUE].concat());
}

#[test]
fn decode_reports_first_palette_index_out_of_range() {
    let bmp = indexed_bmp(2, -1, Compression::Rgb, vec![0, 7, 0, 0]);
    let err = decode_to_rgba(&bmp).unwrap_err();
    assert!(matches!(
        err,
        DecodeError::PaletteIndexOutOfRange { x: 1, y: 0, index: 7, palette_len: 2 }
    ));
}

#[test]
fn decode_rejects_invalid_dimensions() {
    let bmp = indexed_bmp(0, 1, Compression::Rgb, vec![0, 0, 0, 0]);
    assert!(matches!(
        decode_to_rgba(&bmp).unwrap_err(),
        DecodeError::InvalidDimensions { width: 0, height: 1 }
    ));
}

#[test]
fn decode_rejects_short_pixel_buffer() {
    let bmp = indexed_bmp(2, 2, Compression::Rgb, vec![0, 0, 0, 0]);
    assert!(matches!(
        decode_to_rgba(&bmp).unwrap_err(),
        DecodeError::PixelBufferTooSmall { required: 8, actual: 4 }
    ));
}

#[test]
fn decode_rle8_runs_and_escapes() {
    // Row 0 (bottom): run of 2 x index 1; end of line.
    // Row 1 (top): absolute run of 3 pixels? width is 2, so one encoded
    // pixel then end of bitmap.
    let bmp = indexed_bmp(2, 2, Compression::Rle8, vec![2, 1, 0, 0, 1, 0, 0, 1]);
    let img = decode_to_rgba(&bmp).unwrap();
    // Top row: pixel 0 red, pixel 1 never written (transparent black).
    assert_eq!(img.rgba, [RED, [0, 0, 0, 0], BLUE, BLUE].concat());
}

#[test]
fn decode_rle8_rejects_run_past_row_end() {
    let bmp = indexed_bmp(2, 1, Compression::Rle8, vec![3, 1, 0, 1]);
    assert!(matches!(decode_to_rgba(&bmp).unwrap_err(), DecodeError::RleOutOfBounds));
}

#[test]
fn decode_rle8_rejects_truncated_delta() {
    let bmp = indexed_bmp(2, 1, Compression::Rle8, vec![0, 2, 1]);
    assert!(matches!(
        decode_to_rgba(&bmp).unwrap_err(),
        DecodeError::InvalidRle("delta escape missing dx/dy")
    ));
}

#[test]
fn decode_rle8_rejects_truncated_absolute_run() {
    let bmp = indexed_bmp(4, 1, Compression::Rle8, vec![0, 3, 1, 1]);
    assert!(matches!(
        decode_to_rgba(&bmp).unwrap_err(),
        DecodeError::InvalidRle("absolute run exceeds stream")
    ));
}

#[test]
fn decode_unsupported_compression() {
    let bmp = indexed_bmp(1, 1, Compression::Jpeg, vec![0, 0, 0, 0]);
    assert!(matches!(
        decode_to_rgba(&bmp).unwrap_err(),
        bmp::runtime::decode::DecodeError::UnsupportedCompression(bmp::runtime::decode::CompressionDecoder::Other(4))
    ));
}

#[test]
fn decode_bitfields_with_default_masks_and_missing_masks() {
    // 16-bit BITFIELDS with explicit RGB565 masks.
    let bmp = Bmp::Info(BitmapInfoData {
        file_header: FileHeader {
            signature: *b"BM",
            file_size: 14 + 40 + 12 + 4,
            reserved_1: [0; 2],
            reserved_2: [0; 2],
            pixel_data_offset: 14 + 40 + 12,
        },
        bmp_header: BitmapInfoHeader {
            width: 1,
            height: -1,
            planes: 1,
            bit_count: BitsPerPixel::Bpp16,
            compression: Compression::BitFields,
            image_size: 4,
            x_resolution_ppm: 0,
            y_resolution_ppm: 0,
            colors_used: 0,
            colors_important: 0,
        },
        color_masks: Some(RgbMasks::rgb565()),
        color_table: Vec::new(),
        bitmap_array: vec![0x00, 0xF8, 0, 0],
    });
    let img = decode_to_rgba(&bmp).unwrap();
    assert_eq!(img.rgba, vec![255, 0, 0, 255]);

    let mut no_masks = bmp.clone();
    if let Bmp::Info(d) = &mut no_masks {
        d.color_masks = None;
        d.bitmap_array = vec![0x00, 0x7C, 0, 0];
    }
    // Without masks, 16-bit bitfields fall back to RGB555.
    assert_eq!(decode_to_rgba(&no_masks).unwrap().rgba, vec![255, 0, 0, 255]);
}

#[test]
fn decoded_image_new_checks_buffer_length() {
    assert!(DecodedImage::new(2, 1, vec![0; 8]).is_ok());
    assert!(matches!(
        DecodedImage::new(2, 1, vec![0; 7]),
        Err(bmp::runtime::decode::DecodedImageError::BufferSizeMismatch { expected: 8, actual: 7 })
    ));
    let img = DecodedImage::new(2, 3, vec![0; 24]).unwrap();
    assert_eq!(img.dimensions(), (2, 3));
    assert_eq!(img.pixel_count(), 6);
    assert_eq!(img.rgba().len(), 24);
}
