use bmp::runtime::decode::DecodedImage;
use bmp::runtime::transform::steganography::{
    BitCursor, StegConfig, StegError, StegInfo, detect, embed, extract, remove, write_bit,
};

fn patterned_image(width: u32, height: u32) -> DecodedImage {
    let mut rgba = Vec::with_capacity((width as usize) * (height as usize) * 4);
    for y in 0..height {
        for x in 0..width {
            rgba.push(((x * 31 + y * 17 + 11) % 256) as u8);
            rgba.push(((x * 19 + y * 29 + 53) % 256) as u8);
            rgba.push(((x * 43 + y * 7 + 97) % 256) as u8);
            rgba.push(((x * 13 + y * 37 + 191) % 256) as u8);
        }
    }
    DecodedImage::new(width, height, rgba).expect("valid patterned image")
}

#[test]
fn config_encoding_roundtrips_for_all_valid_values() {
    for raw in 0u16..6561 {
        let config = StegConfig::decode_config_bits(raw).expect("raw value should decode");
        assert_eq!(config.encode_config_bits(), raw);
    }
    assert!(StegConfig::decode_config_bits(6561).is_none());
    assert!(StegConfig::decode_config_bits(8191).is_none());
}

#[test]
fn config_capacity_helpers_behave_as_expected() {
    let config = StegConfig {
        r_bits: 1,
        g_bits: 2,
        b_bits: 3,
        a_bits: 0,
    };
    assert_eq!(config.bits_per_pixel(), 6);
    assert_eq!(config.total_bits(10, 5), 300);
    assert_eq!(config.capacity_bytes(10, 5), 27);

    let tiny = StegConfig {
        r_bits: 1,
        g_bits: 0,
        b_bits: 0,
        a_bits: 0,
    };
    assert_eq!(tiny.capacity_bytes(2, 2), 0);
}

#[test]
fn embed_detect_extract_roundtrip_succeeds() {
    let image = patterned_image(16, 16);
    let config = StegConfig {
        r_bits: 2,
        g_bits: 1,
        b_bits: 2,
        a_bits: 0,
    };
    let payload = b"steganography test payload";

    let embedded = embed(&image, config, payload).expect("embed should succeed");
    let info = detect(&embedded).expect("detect should find embedded payload");
    assert_eq!(info.config, config);
    assert_eq!(info.version, 0);
    assert_eq!(info.payload_len, u32::try_from(payload.len()).unwrap());

    let extracted = extract(&embedded, &info).expect("extract should succeed");
    assert_eq!(extracted, payload);
}

#[test]
fn embed_does_not_modify_original_image() {
    let image = patterned_image(8, 8);
    let config = StegConfig {
        r_bits: 1,
        g_bits: 1,
        b_bits: 1,
        a_bits: 1,
    };
    let original = image.rgba().to_vec();

    let _embedded = embed(&image, config, b"abc").expect("embed should succeed");
    assert_eq!(image.rgba(), original);
}

#[test]
fn detect_returns_none_when_no_header_is_present() {
    let clean = patterned_image(8, 8);
    assert!(detect(&clean).is_none());
}

#[test]
fn remove_clears_only_header_and_payload_bits() {
    let image = patterned_image(12, 12);
    let config = StegConfig {
        r_bits: 3,
        g_bits: 2,
        b_bits: 1,
        a_bits: 0,
    };
    let payload = b"hidden";
    let embedded = embed(&image, config, payload).expect("embed should succeed");
    let stripped = remove(&embedded, config);

    assert!(detect(&stripped).is_none());

    let mut expected = embedded.rgba().to_vec();
    let mut cursor = BitCursor::new(config);
    let bits_to_clear = 80_u64 + (payload.len() as u64) * 8;
    for _ in 0..bits_to_clear {
        write_bit(&mut expected, &cursor, 0);
        cursor.advance();
    }

    assert_eq!(stripped.rgba(), expected);
}

#[test]
fn remove_leaves_image_unchanged_when_no_valid_header_exists() {
    let image = patterned_image(12, 12);
    let config = StegConfig {
        r_bits: 2,
        g_bits: 1,
        b_bits: 0,
        a_bits: 0,
    };

    let stripped = remove(&image, config);
    assert_eq!(stripped.rgba(), image.rgba());
    assert_eq!(stripped.dimensions(), image.dimensions());
}

#[test]
fn embed_rejects_no_channels_config() {
    let image = patterned_image(8, 8);
    let config = StegConfig {
        r_bits: 0,
        g_bits: 0,
        b_bits: 0,
        a_bits: 0,
    };

    let err = embed(&image, config, b"x").expect_err("must reject no-channel config");
    assert!(matches!(err, StegError::NoChannels));
}

#[test]
fn embed_rejects_insufficient_capacity() {
    let image = patterned_image(2, 2);
    let config = StegConfig {
        r_bits: 1,
        g_bits: 0,
        b_bits: 0,
        a_bits: 0,
    };

    let err = embed(&image, config, b"").expect_err("must reject when header cannot fit");
    assert!(matches!(
        err,
        StegError::InsufficientCapacity {
            required: 80,
            capacity: 4
        }
    ));
}

#[test]
fn extract_rejects_no_channels_config() {
    let image = patterned_image(8, 8);
    let info = StegInfo {
        config: StegConfig {
            r_bits: 0,
            g_bits: 0,
            b_bits: 0,
            a_bits: 0,
        },
        version: 0,
        payload_len: 0,
    };

    let err = extract(&image, &info).expect_err("must reject no-channel config");
    assert!(matches!(err, StegError::NoChannels));
}

#[test]
fn extract_rejects_payload_too_large_from_header_info() {
    let image = patterned_image(8, 8);
    let info = StegInfo {
        config: StegConfig {
            r_bits: 1,
            g_bits: 1,
            b_bits: 1,
            a_bits: 0,
        },
        version: 0,
        payload_len: u32::MAX,
    };

    let err = extract(&image, &info).expect_err("payload must be rejected if it does not fit");
    assert!(matches!(err, StegError::PayloadTooLarge { .. }));
}

// The header is written in the first stream bits: with one red bit per
// pixel, the first 8 pixels carry 'S' = 0x53 low bit first.
#[test]
fn embed_writes_magic_in_first_stream_bits() {
    let image = DecodedImage::new(100, 1, vec![0u8; 400]).unwrap();
    let config = StegConfig {
        r_bits: 1,
        g_bits: 0,
        b_bits: 0,
        a_bits: 0,
    };
    let out = embed(&image, config, b"").expect("80 bits fit in 100 pixels");
    let bits: Vec<u8> = (0..8).map(|p| out.rgba()[p * 4] & 1).collect();
    assert_eq!(bits, vec![1, 1, 0, 0, 1, 0, 1, 0]);
    // green, blue and alpha bytes are untouched
    assert!(out.rgba().iter().enumerate().all(|(i, b)| i % 4 == 0 || *b == 0));
    // pixels past the header are untouched
    assert!(out.rgba()[80 * 4..].iter().all(|b| *b == 0));
}

// Embedding and extracting round-trips for several configurations and
// payload sizes, including the empty payload.
#[test]
fn embed_extract_roundtrip_across_configs() {
    let image = patterned_image(20, 20);
    let configs = [
        StegConfig { r_bits: 1, g_bits: 0, b_bits: 0, a_bits: 0 },
        StegConfig { r_bits: 8, g_bits: 8, b_bits: 8, a_bits: 8 },
        StegConfig { r_bits: 0, g_bits: 3, b_bits: 0, a_bits: 5 },
    ];
    for config in configs {
        for len in [0usize, 1, 7, 30] {
            let payload: Vec<u8> = (0..len).map(|i| (i * 37 + 5) as u8).collect();
            let embedded = embed(&image, config, &payload).expect("payload fits");
            let info = StegInfo { config, version: 0, payload_len: len as u32 };
            assert_eq!(extract(&embedded, &info).expect("extract"), payload);
        }
    }
}

// Capacity is exact: a payload filling every stream bit fits, one more
// byte does not.
#[test]
fn embed_capacity_boundary_is_exact() {
    let image = patterned_image(11, 1);
    let config = StegConfig { r_bits: 8, g_bits: 8, b_bits: 0, a_bits: 0 };
    // 11 pixels * 16 bits = 176 bits = 80 header bits + 12 bytes
    assert_eq!(config.capacity_bytes(11, 1), 12);
    assert!(embed(&image, config, &[7u8; 12]).is_ok());
    let err = embed(&image, config, &[7u8; 13]).expect_err("one byte too many");
    assert!(matches!(err, StegError::InsufficientCapacity { required: 184, capacity: 176 }));
}

// Extraction with a header whose payload does not fit after the header is
// refused, and one with a payload that exactly fits is accepted.
#[test]
fn extract_payload_bound_is_exact() {
    let image = patterned_image(11, 1);
    let config = StegConfig { r_bits: 8, g_bits: 8, b_bits: 0, a_bits: 0 };
    let ok = StegInfo { config, version: 0, payload_len: 12 };
    assert_eq!(extract(&image, &ok).expect("fits").len(), 12);
    let too_big = StegInfo { config, version: 0, payload_len: 13 };
    assert!(matches!(extract(&image, &too_big), Err(StegError::PayloadTooLarge { payload_len: 13 })));
}

#[test]
fn removed_payload_is_no_longer_detected() {
    let image = patterned_image(16, 16);
    let config = StegConfig { r_bits: 2, g_bits: 1, b_bits: 1, a_bits: 0 };
    let stego = embed(&image, config, b"secret").expect("embed should succeed");
    let info = detect(&stego).expect("detect should find the payload");
    assert_eq!(info.config, config);
    let cleaned = remove(&stego, config);
    assert_eq!(detect(&cleaned), None);
}
