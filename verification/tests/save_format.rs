use bmp::raw::{Bmp, RgbMasks, RgbQuad};
use bmp::runtime::decode::{decode_to_rgba, DecodedImage};
use bmp::runtime::quantize::quantize;
use bmp::runtime::encode::{encode_rgba_to_bmp_ext, encode_rgba_to_bmp_with_format, SaveFormat, SaveHeaderVersion};

fn two_by_two() -> DecodedImage {
    let rgba = vec![
        255, 0, 0, 255, 0, 255, 0, 255, //
        0, 0, 255, 255, 255, 255, 255, 255,
    ];
    DecodedImage::new(2, 2, rgba).expect("valid image")
}

#[test]
fn core_bitmaps_fall_back_to_rgb32() {
    for format in [SaveFormat::Rgb1, SaveFormat::Rgb4, SaveFormat::Rgb8, SaveFormat::Rgb24] {
        let bmp = encode_rgba_to_bmp_ext(&two_by_two(), format, SaveHeaderVersion::Core, None).expect("encodes");
        assert!(matches!(bmp, Bmp::Core(_)));
        assert_eq!(SaveFormat::from_bmp(&bmp), SaveFormat::Rgb32);
    }
}

#[test]
fn known_bitfield_layouts_are_kept_and_exotic_ones_fall_back() {
    let b565 = encode_rgba_to_bmp_with_format(&two_by_two(), SaveFormat::BitFields16Rgb565).expect("encodes");
    assert_eq!(SaveFormat::from_bmp(&b565), SaveFormat::BitFields16Rgb565);
    let b555 = encode_rgba_to_bmp_with_format(&two_by_two(), SaveFormat::BitFields16Rgb555).expect("encodes");
    assert_eq!(SaveFormat::from_bmp(&b555), SaveFormat::BitFields16Rgb555);
    let mut exotic = b565.clone();
    if let Bmp::Info(d) = &mut exotic {
        d.color_masks = Some(RgbMasks { red_mask: 0xF000, green_mask: 0x0F00, blue_mask: 0x00F0 });
    }
    assert_eq!(SaveFormat::from_bmp(&exotic), SaveFormat::Rgb32);
}

#[test]
fn rle8_encodes_a_run_of_three_and_ends_the_bitmap() {
    let rgba = [255u8, 0, 0, 255].repeat(3);
    let img = DecodedImage::new(3, 1, rgba).expect("valid image");
    let bmp = encode_rgba_to_bmp_with_format(&img, SaveFormat::Rle8).expect("encodes");
    match bmp {
        Bmp::Info(d) => {
            assert_eq!(d.bitmap_array, vec![3, 0, 0, 1]);
            assert_eq!(d.bmp_header.height, 1);
            assert_eq!(d.bmp_header.image_size, 4);
            assert_eq!(d.color_table, vec![RgbQuad { blue: 0, green: 0, red: 255, reserved: 0 }]);
        }
        _ => panic!("expected an INFO bitmap"),
    }
}

#[test]
fn rle4_streams_end_with_end_of_bitmap() {
    let img = two_by_two();
    let bmp = encode_rgba_to_bmp_with_format(&img, SaveFormat::Rle4).expect("encodes");
    let data = bmp.bitmap_array();
    assert_eq!(&data[data.len() - 2..], &[0, 1]);
    assert!(data.len() <= 2 * 2 * 2 + 2 * 2 + 2);
}

#[test]
fn default_encoding_stores_blue_green_red_and_zero() {
    let bmp = bmp::runtime::encode::encode_rgba_to_bmp(&two_by_two()).expect("encodes");
    let expected: Vec<u8> = vec![0, 0, 255, 0, 0, 255, 0, 0, 255, 0, 0, 0, 255, 255, 255, 0];
    assert_eq!(bmp.bitmap_array(), expected.as_slice());
}

// An RLE4 bitmap decodes to the quantizer's palette entry of every pixel.
#[test]
fn rle4_decodes_to_the_quantized_image() {
    let rgba = vec![
        255, 0, 0, 255, 255, 0, 0, 255, 0, 255, 0, 255, //
        0, 0, 255, 255, 0, 0, 255, 255, 0, 0, 255, 255, //
    ];
    let img = DecodedImage::new(3, 2, rgba.clone()).expect("valid image");
    let (palette, indices) = quantize(&rgba, 16).expect("valid palette size");
    let bmp = encode_rgba_to_bmp_with_format(&img, SaveFormat::Rle4).expect("encodes");
    let data = bmp.bitmap_array();
    assert_eq!(&data[data.len() - 2..], &[0, 1]);
    let decoded = decode_to_rgba(&bmp).expect("decodes");
    assert_eq!((decoded.width, decoded.height), (3, 2));
    let expected: Vec<u8> = indices.iter().flat_map(|&k| palette[usize::from(k)]).collect();
    assert_eq!(decoded.rgba, expected);
}
