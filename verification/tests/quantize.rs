use bmp::runtime::quantize::{QuantizeError, quantize};

fn rgba_from_colors(colors: &[[u8; 3]], repeats: usize) -> Vec<u8> {
    let mut rgba = Vec::with_capacity(colors.len() * repeats * 4);
    for _ in 0..repeats {
        for [r, g, b] in colors {
            rgba.extend_from_slice(&[*r, *g, *b, 255]);
        }
    }
    rgba
}

fn reconstruct_rgba(palette: &[[u8; 4]], indices: &[u8]) -> Vec<u8> {
    let mut rgba = Vec::with_capacity(indices.len() * 4);
    for &idx in indices {
        rgba.extend_from_slice(&palette[usize::from(idx)]);
    }
    rgba
}

#[test]
fn quantize_is_lossless_when_distinct_colors_fit_palette() {
    let colors = [
        [0, 0, 0],
        [32, 0, 0],
        [0, 32, 0],
        [0, 0, 32],
        [64, 64, 0],
        [0, 64, 64],
        [96, 32, 16],
        [128, 96, 32],
    ];
    let rgba = rgba_from_colors(&colors, 3);

    let (palette, indices) = quantize(&rgba, colors.len()).expect("palette size should be valid");
    let reconstructed = reconstruct_rgba(&palette, &indices);

    assert_eq!(reconstructed, rgba);
}

#[test]
fn quantize_is_lossless_when_palette_limit_exceeds_distinct_colors() {
    let colors = [[16, 32, 48], [48, 80, 112], [160, 32, 96], [224, 192, 32]];
    let rgba = rgba_from_colors(&colors, 4);

    let (palette, indices) = quantize(&rgba, 256).expect("palette size should be valid");
    let reconstructed = reconstruct_rgba(&palette, &indices);

    assert_eq!(reconstructed, rgba);
}

#[test]
fn quantize_outputs_valid_palette_and_indices() {
    let colors = [
        [0, 0, 0],
        [16, 0, 0],
        [32, 0, 0],
        [48, 0, 0],
        [64, 0, 0],
        [80, 0, 0],
        [96, 0, 0],
        [112, 0, 0],
        [0, 16, 0],
        [0, 32, 0],
        [0, 48, 0],
        [0, 64, 0],
        [0, 80, 0],
        [0, 96, 0],
        [0, 112, 0],
        [0, 0, 16],
        [0, 0, 32],
        [0, 0, 48],
        [0, 0, 64],
        [0, 0, 80],
    ];
    let rgba = rgba_from_colors(&colors, 2);

    let (palette, indices) = quantize(&rgba, 8).expect("palette size should be valid");

    assert!(!palette.is_empty());
    assert!(palette.len() <= 8);
    assert_eq!(indices.len(), rgba.len() / 4);
    assert!(indices.iter().all(|&idx| usize::from(idx) < palette.len()));
}

#[test]
fn quantize_is_deterministic_for_same_input() {
    let colors = [[8, 16, 24], [24, 40, 56], [40, 72, 104], [88, 120, 152], [200, 24, 88]];
    let rgba = rgba_from_colors(&colors, 5);

    let first = quantize(&rgba, 4).expect("palette size should be valid");
    let second = quantize(&rgba, 4).expect("palette size should be valid");

    assert_eq!(first, second);
}

#[test]
fn quantize_rejects_invalid_palette_sizes() {
    let rgba = rgba_from_colors(&[[0, 0, 0], [255, 255, 255]], 1);

    assert_eq!(quantize(&rgba, 1), Err(QuantizeError::InvalidMaxColors(1)));
    assert_eq!(quantize(&rgba, 257), Err(QuantizeError::InvalidMaxColors(257)));
}

#[test]
fn quantize_palette_entries_are_rounded_class_means() {
    // Two pixels in one bin (values 8 and 9 share the 5-bit bin 1): their
    // mean 8.5 rounds to 9.
    let rgba = vec![8, 8, 8, 255, 9, 9, 9, 255];
    let (palette, indices) = quantize(&rgba, 2).expect("valid palette size");
    assert_eq!(indices[0], indices[1]);
    assert_eq!(palette[usize::from(indices[0])], [9, 9, 9, 255]);
}

#[test]
fn quantize_of_empty_buffer_has_one_black_entry() {
    let (palette, indices) = quantize(&[], 16).expect("valid palette size");
    assert_eq!(palette, vec![[0, 0, 0, 255]]);
    assert!(indices.is_empty());
}

// Alpha takes no part in palette fitting or mapping.
#[test]
fn quantize_ignores_alpha() {
    let colors = [[8, 16, 24], [24, 40, 56], [40, 72, 104], [88, 120, 152], [200, 24, 88], [250, 250, 10]];
    let opaque = rgba_from_colors(&colors, 3);
    let mut varied = opaque.clone();
    for (i, px) in varied.chunks_mut(4).enumerate() {
        px[3] = (i * 37 % 256) as u8;
    }
    assert_eq!(quantize(&opaque, 3), quantize(&varied, 3));
}

// Three pixels of one color quantize to a single entry, that color.
#[test]
fn quantize_single_color_has_one_entry() {
    let rgba = rgba_from_colors(&[[255, 0, 0]], 3);
    let (palette, indices) = quantize(&rgba, 256).expect("palette size should be valid");
    assert_eq!(palette, vec![[255, 0, 0, 255]]);
    assert_eq!(indices, vec![0, 0, 0]);
}
