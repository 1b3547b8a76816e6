use bmp::runtime::transform::color::{Brightness, Contrast, Grayscale, InvertColors, Sepia};
use bmp::runtime::transform::convolution::{ConvolutionFilter, Kernel};
use bmp::runtime::transform::geometry::{
    Crop, MirrorHorizontal, MirrorVertical, Resize, RotateAny, RotateLeft, RotateRight, RotationInterpolation, Skew,
    Translate,
    TranslateMode,
};
use bmp::runtime::transform::steganography::{EmbedSteganography, RemoveSteganography, StegConfig};

#[test]
fn brightness_display_format() {
    assert_eq!(Brightness { delta: 10 }.label(), "Brightness +10");
    assert_eq!(Brightness { delta: -10 }.label(), "Brightness -10");
    assert_eq!(Brightness { delta: 0 }.label(), "Brightness +0");
}

#[test]
fn contrast_display_format() {
    assert_eq!(Contrast { delta: 10 }.label(), "Contrast +10");
    assert_eq!(Contrast { delta: -10 }.label(), "Contrast -10");
    assert_eq!(Contrast { delta: 0 }.label(), "Contrast +0");
}

#[test]
fn convolution_display_formats() {
    assert_eq!(ConvolutionFilter::Blur.label(), "Blur");
    assert_eq!(ConvolutionFilter::Sharpen.label(), "Sharpen");
    assert_eq!(ConvolutionFilter::EdgeDetect.label(), "Edge Detect");
    assert_eq!(ConvolutionFilter::Emboss.label(), "Emboss");
}

#[test]
fn resize_display_format() {
    let op = Resize { width: 640, height: 480, interpolation: RotationInterpolation::Nearest };
    assert_eq!(op.label(), "Resize to 640x480 (Nearest)");
}

#[test]
fn skew_display_format() {
    let op = Skew { x_milli: 250, y_milli: -125, interpolation: RotationInterpolation::Bilinear, expand: false };
    assert_eq!(op.label(), "Skew x=+0.250, y=-0.125 (Bilinear, Crop)");
}

#[test]
fn transform_translate_display_format() {
    let op = Translate { dx: -12, dy: 7, mode: TranslateMode::Expand, fill: [0x10, 0x20, 0x30, 0x40] };
    assert_eq!(op.label(), "Translate dx=-12, dy=+7 (Expand, fill #10203040)");
}

#[test]
fn geometry_translate_display_format() {
    let op = Translate { dx: -12, dy: 7, mode: TranslateMode::Expand, fill: [0x10, 0x20, 0x30, 0x40] };
    assert_eq!(op.label(), "Translate dx=-12, dy=+7 (Expand, fill #10203040)");
}

#[test]
fn crop_display_format() {
    let op = Crop { x: 12, y: 7, width: 100, height: 80 };
    assert_eq!(op.label(), "Crop x=12, y=7, 100x80");
}

#[test]
fn custom_kernel_display_format() {
    let k3 = Kernel::new(vec![0; 9], 3, 1, 0);
    assert_eq!(k3.label(), "Custom 3x3");
    let k5 = Kernel::new(vec![0; 25], 5, 1, 0);
    assert_eq!(k5.label(), "Custom 5x5");
    let k1 = Kernel::new(vec![1], 1, 1, 0);
    assert_eq!(k1.label(), "Custom 1x1");
}

#[test]
fn fixed_labels_name_the_operation() {
    assert_eq!(RotateLeft.label(), "Rotate Left");
    assert_eq!(RotateRight.label(), "Rotate Right");
    assert_eq!(MirrorHorizontal.label(), "Mirror Horizontal");
    assert_eq!(MirrorVertical.label(), "Mirror Vertical");
    assert_eq!(InvertColors.label(), "Invert Colors");
    assert_eq!(Grayscale.label(), "Grayscale");
    assert_eq!(Sepia.label(), "Sepia");
    assert_eq!(RotationInterpolation::Bicubic.label(), "Bicubic");
    assert_eq!(TranslateMode::Crop.label(), "Crop");
}

#[test]
fn labels_write_extreme_parameters_exactly() {
    assert_eq!(Brightness { delta: i16::MIN }.label(), "Brightness -32768");
    assert_eq!(Contrast { delta: i16::MAX }.label(), "Contrast +32767");
    let crop = Crop { x: 0, y: u32::MAX, width: 1, height: 4_000_000_000 };
    assert_eq!(crop.label(), "Crop x=0, y=4294967295, 1x4000000000");
    let shift = Translate { dx: i32::MIN, dy: 0, mode: TranslateMode::Crop, fill: [0x00, 0x0A, 0xAB, 0xFF] };
    assert_eq!(shift.label(), "Translate dx=-2147483648, dy=+0 (Crop, fill #000AABFF)");
}

#[test]
fn skew_label_writes_three_decimals_and_sign() {
    let small = Skew { x_milli: -5, y_milli: 0, interpolation: RotationInterpolation::Nearest, expand: true };
    assert_eq!(small.label(), "Skew x=-0.005, y=+0.000 (Nearest, Expand)");
    let large = Skew { x_milli: i16::MIN, y_milli: 1500, interpolation: RotationInterpolation::Bicubic, expand: false };
    assert_eq!(large.label(), "Skew x=-32.768, y=+1.500 (Bicubic, Crop)");
}

#[test]
fn steganography_labels_show_size_and_channel_bits() {
    let config = StegConfig { r_bits: 1, g_bits: 2, b_bits: 8, a_bits: 0 };
    let embed = EmbedSteganography { config, payload: vec![7; 12] };
    assert_eq!(embed.label(), "Embed Steganography (12 bytes, R1G2B8A0)");
    let remove = RemoveSteganography { config };
    assert_eq!(remove.label(), "Remove Steganography (R1G2B8A0)");
}

#[test]
fn geometry_rotate_any_display_format() {
    let op = RotateAny { angle_tenths: -125, interpolation: RotationInterpolation::Bicubic, expand: false };
    assert_eq!(op.label(), "Rotate -12.5 deg (Bicubic, Crop)");
}

// Whole and small angles keep their sign and one decimal.
#[test]
fn rotate_any_label_edges() {
    let zero = RotateAny { angle_tenths: 0, interpolation: RotationInterpolation::Nearest, expand: true };
    assert_eq!(zero.label(), "Rotate +0.0 deg (Nearest, Expand)");
    let small = RotateAny { angle_tenths: -3, interpolation: RotationInterpolation::Bilinear, expand: false };
    assert_eq!(small.label(), "Rotate -0.3 deg (Bilinear, Crop)");
    let full = RotateAny { angle_tenths: 36000, interpolation: RotationInterpolation::Bicubic, expand: true };
    assert_eq!(full.label(), "Rotate +3600.0 deg (Bicubic, Expand)");
}
