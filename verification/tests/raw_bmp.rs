use bmp::raw::{
    BitmapInfoData, BitmapInfoHeader, BitmapV4Header, BitmapV5Data, BitmapV5Header, BitsPerPixel, Bmp, BmpError,
    CieXyz, CieXyzTriple, ColorSpaceType, Compression, FileHeader, FixedPoint16Dot16, FixedPoint2Dot30, GammaTriple,
    LimitedItem, RgbQuad, RgbaMasks, StructuralError, ValidationError,
};

/// Returns a zeroed CIEXYZ endpoint triple for test fixture construction.
fn zero_endpoints() -> CieXyzTriple {
    let zero = CieXyz {
        x: FixedPoint2Dot30::from_raw(0),
        y: FixedPoint2Dot30::from_raw(0),
        z: FixedPoint2Dot30::from_raw(0),
    };
    CieXyzTriple {
        red: zero,
        green: zero,
        blue: zero,
    }
}

/// Returns a zeroed gamma triple for test fixture construction.
fn zero_gamma() -> GammaTriple {
    GammaTriple {
        red: FixedPoint16Dot16::from_raw(0),
        green: FixedPoint16Dot16::from_raw(0),
        blue: FixedPoint16Dot16::from_raw(0),
    }
}

/// A 1x1 24-bit INFO bitmap.
fn one_pixel_info() -> Bmp {
    Bmp::Info(BitmapInfoData {
        file_header: FileHeader {
            signature: *b"BM",
            file_size: 58,
            reserved_1: [0; 2],
            reserved_2: [0; 2],
            pixel_data_offset: FileHeader::SIZE + BitmapInfoHeader::HEADER_SIZE,
        },
        bmp_header: BitmapInfoHeader {
            width: 1,
            height: 1,
            planes: 1,
            bit_count: BitsPerPixel::Bpp24,
            compression: Compression::Rgb,
            image_size: 4,
            x_resolution_ppm: 0,
            y_resolution_ppm: 0,
            colors_used: 0,
            colors_important: 0,
        },
        color_masks: None,
        color_table: Vec::<RgbQuad>::new(),
        bitmap_array: vec![0, 0, 0, 0],
    })
}

/// Ensures canonical INFO pixel offset passes validation.
#[test]
fn validate_accepts_canonical_info_pixel_offset() {
    let bmp = one_pixel_info();
    assert!(bmp.validate().is_ok());
}

/// Ensures V5 profile located at first legal metadata boundary is accepted.
#[test]
fn validate_accepts_v5_profile_at_minimum_metadata_boundary() {
    // DIB starts at byte 14. With a V5 header (124 bytes), the first valid
    // profile byte is at absolute offset 138.
    let bmp = Bmp::V5(BitmapV5Data {
        file_header: FileHeader {
            signature: *b"BM",
            file_size: 146,
            reserved_1: [0; 2],
            reserved_2: [0; 2],
            pixel_data_offset: 142,
        },
        bmp_header: BitmapV5Header {
            v4: BitmapV4Header {
                info: BitmapInfoHeader {
                    width: 1,
                    height: 1,
                    planes: 1,
                    bit_count: BitsPerPixel::Bpp32,
                    compression: Compression::Rgb,
                    image_size: 4,
                    x_resolution_ppm: 0,
                    y_resolution_ppm: 0,
                    colors_used: 0,
                    colors_important: 0,
                },
                masks: RgbaMasks {
                    red_mask: 0,
                    green_mask: 0,
                    blue_mask: 0,
                    alpha_mask: 0,
                },
                cs_type: ColorSpaceType::ProfileEmbedded,
                endpoints: zero_endpoints(),
                gamma: zero_gamma(),
            },
            intent: 0,
            profile_data: BitmapV5Header::HEADER_SIZE,
            profile_size: 4,
            reserved: [0; 4],
        },
        color_table: Vec::<RgbQuad>::new(),
        bitmap_array: vec![0, 0, 0, 0],
        icc_profile: Some(vec![1, 2, 3, 4]),
    });

    assert!(bmp.validate().is_ok());
}

/// Ensures `read_unchecked` does not enforce semantic signature validation.
#[test]
fn read_unchecked_defers_signature_validation() {
    let bmp = one_pixel_info();

    let mut bytes = Vec::<u8>::new();
    bmp.write_unchecked(&mut bytes).expect("serialize test bmp");
    bytes[0] = b'Z';
    bytes[1] = b'Z';

    let parsed = Bmp::read_unchecked(&bytes).expect("read_unchecked should not enforce file signature");
    assert!(matches!(
        parsed.validate(),
        Err(BmpError::Validation(ValidationError::InvalidFileSignature([b'Z', b'Z'])))
    ));
}

#[test]
fn write_then_read_checked_gives_back_the_bitmap() {
    let bmp = one_pixel_info();
    let mut bytes = Vec::<u8>::new();
    bmp.write_unchecked(&mut bytes).expect("serialize test bmp");
    assert_eq!(bytes.len(), 58);
    assert_eq!(&bytes[0..2], b"BM");
    let parsed = Bmp::read_checked(&bytes).expect("read back");
    match parsed {
        Bmp::Info(d) => {
            assert_eq!(d.bmp_header.width, 1);
            assert_eq!(d.bmp_header.bit_count, BitsPerPixel::Bpp24);
            assert_eq!(d.bitmap_array, vec![0, 0, 0, 0]);
            assert_eq!(d.file_header.file_size, 58);
        }
        _ => panic!("expected INFO bitmap"),
    }
}

#[test]
fn read_checked_rejects_truncated_input() {
    let bmp = one_pixel_info();
    let mut bytes = Vec::<u8>::new();
    bmp.write_unchecked(&mut bytes).expect("serialize test bmp");
    bytes.truncate(20);
    assert!(Bmp::read_checked(&bytes).is_err());
}

#[test]
fn write_rejects_pixel_size_mismatch() {
    let mut bmp = one_pixel_info();
    if let Bmp::Info(d) = &mut bmp {
        d.bitmap_array = vec![0, 0];
    }
    let mut bytes = Vec::<u8>::new();
    assert!(bmp.write_unchecked(&mut bytes).is_err());
    assert!(bytes.is_empty());
}

#[test]
fn validate_rejects_bad_planes() {
    let mut bmp = one_pixel_info();
    if let Bmp::Info(d) = &mut bmp {
        d.bmp_header.planes = 2;
    }
    assert!(matches!(bmp.validate(), Err(BmpError::Validation(ValidationError::InvalidPlanes(2)))));
}

// Pixel data beyond the safety limit is refused with its size and the limit.
#[test]
fn oversized_pixel_data_reports_size_and_limit() {
    let mut bytes = Vec::new();
    bytes.extend_from_slice(b"BM");
    bytes.extend_from_slice(&54u32.to_le_bytes());
    bytes.extend_from_slice(&[0, 0, 0, 0]);
    bytes.extend_from_slice(&54u32.to_le_bytes());
    bytes.extend_from_slice(&40u32.to_le_bytes());
    bytes.extend_from_slice(&20000i32.to_le_bytes());
    bytes.extend_from_slice(&20000i32.to_le_bytes());
    bytes.extend_from_slice(&1u16.to_le_bytes());
    bytes.extend_from_slice(&32u16.to_le_bytes());
    bytes.extend_from_slice(&[0u8; 24]);
    match Bmp::read_checked(&bytes) {
        Err(BmpError::Structure(StructuralError::StructureUnsafe { item, size, max })) => {
            assert_eq!(item, LimitedItem::PixelData);
            assert_eq!(size, 20000 * 20000 * 4);
            assert_eq!(max, 536_870_912);
        }
        other => panic!("expected the pixel data limit, got {other:?}"),
    }
}
