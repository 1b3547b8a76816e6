use bmp::runtime::decode::DecodedImage;
use bmp::runtime::transform::color::{Brightness, Contrast, Grayscale, InvertColors, Sepia, brightness, invert_colors};
use bmp::runtime::transform::convolution::{
    ConvolutionFilter, Kernel, apply_convolution, apply_convolution_2d,
};
use bmp::runtime::transform::executor::{CheckpointCache, ReplayProgress, TransformPipelineExecutorConfig};
use bmp::runtime::transform::geometry::{
    Crop, MirrorHorizontal, MirrorVertical, Resize, RotateAny, RotateLeft, RotateRight, RotationInterpolation, Skew,
    Translate, TranslateMode, crop_image, mirror_horizontal, mirror_vertical, rotate_left, rotate_right,
    translate_image,
};
use bmp::runtime::transform::model::{apply_undoable, ImageTransform};
use bmp::runtime::transform::pipeline::{PipelineError, TransformPipeline};

/// Applies one of the operations that can be undone directly.
fn apply_invertible(image: &DecodedImage, op: &ImageTransform) -> DecodedImage {
    apply_undoable(image, op).unwrap_or_else(|| panic!("not directly invertible: {op:?}"))
}

fn image_3x2() -> DecodedImage {
    DecodedImage {
        width: 3,
        height: 2,
        rgba: vec![
            10, 20, 30, 255, 40, 50, 60, 255, 70, 80, 90, 255, 100, 110, 120, 255, 130, 140, 150, 255, 160, 170, 180,
            255,
        ],
    }
}

fn invertible_ops() -> Vec<ImageTransform> {
    vec![
        ImageTransform::RotateLeft(RotateLeft),
        ImageTransform::RotateRight(RotateRight),
        ImageTransform::MirrorHorizontal(MirrorHorizontal),
        ImageTransform::MirrorVertical(MirrorVertical),
        ImageTransform::InvertColors(InvertColors),
    ]
}

#[test]
fn transform_invert_colors_flips_rgb_and_keeps_alpha() {
    let image = DecodedImage {
        width: 2,
        height: 1,
        rgba: vec![10, 20, 30, 40, 100, 150, 200, 250],
    };
    let inverted = invert_colors(&image);
    assert_eq!(inverted.width, 2);
    assert_eq!(inverted.height, 1);
    assert_eq!(inverted.rgba, vec![245, 235, 225, 40, 155, 105, 55, 250]);
}

#[test]
fn color_invert_colors_flips_rgb_and_keeps_alpha() {
    let image = DecodedImage::new(2, 1, vec![10, 20, 30, 40, 100, 150, 200, 250]).expect("valid image");
    let inverted = invert_colors(&image);
    assert_eq!(inverted.rgba(), vec![245, 235, 225, 40, 155, 105, 55, 250]);
}

#[test]
fn transform_inverse_of_rotate_left_is_rotate_right() {
    assert_eq!(
        ImageTransform::RotateLeft(RotateLeft).inverse(),
        Some(ImageTransform::RotateRight(RotateRight))
    );
    assert_eq!(
        ImageTransform::RotateRight(RotateRight).inverse(),
        Some(ImageTransform::RotateLeft(RotateLeft))
    );
}

#[test]
fn geometry_inverse_of_rotate_left_is_rotate_right() {
    let inv = RotateLeft.inverse().expect("rotate left should have inverse");
    assert!(matches!(inv, ImageTransform::RotateRight(_)));
}

#[test]
fn self_inverse_transforms() {
    assert_eq!(
        ImageTransform::MirrorHorizontal(MirrorHorizontal).inverse(),
        Some(ImageTransform::MirrorHorizontal(MirrorHorizontal))
    );
    assert_eq!(
        ImageTransform::MirrorVertical(MirrorVertical).inverse(),
        Some(ImageTransform::MirrorVertical(MirrorVertical))
    );
    assert_eq!(
        ImageTransform::InvertColors(InvertColors).inverse(),
        Some(ImageTransform::InvertColors(InvertColors))
    );
}

#[test]
fn self_inverse_geometry_transforms() {
    let inv = MirrorHorizontal.inverse().expect("mirror horizontal should self-invert");
    assert!(matches!(inv, ImageTransform::MirrorHorizontal(_)));

    let inv = MirrorVertical.inverse().expect("mirror vertical should self-invert");
    assert!(matches!(inv, ImageTransform::MirrorVertical(_)));
}

#[test]
fn invert_is_self_inverse() {
    let inv = InvertColors.inverse().expect("invert should self-invert");
    assert!(matches!(inv, ImageTransform::InvertColors(_)));
}

#[test]
fn lossy_transforms_have_no_inverse() {
    assert_eq!(ImageTransform::Grayscale(Grayscale).inverse(), None);
    assert_eq!(ImageTransform::Sepia(Sepia).inverse(), None);
    assert_eq!(
        ImageTransform::RotateAny(RotateAny {
            angle_tenths: 125,
            interpolation: RotationInterpolation::Bilinear,
            expand: true,
        })
        .inverse(),
        None
    );
    assert_eq!(
        ImageTransform::Resize(Resize {
            width: 320,
            height: 240,
            interpolation: RotationInterpolation::Bilinear,
        })
        .inverse(),
        None
    );
    assert_eq!(
        ImageTransform::Skew(Skew {
            x_milli: 250,
            y_milli: 0,
            interpolation: RotationInterpolation::Bilinear,
            expand: true,
        })
        .inverse(),
        None
    );
    assert_eq!(
        ImageTransform::Translate(Translate {
            dx: 10,
            dy: -4,
            mode: TranslateMode::Crop,
            fill: [0, 0, 0, 0],
        })
        .inverse(),
        None
    );
    assert_eq!(
        ImageTransform::Crop(Crop {
            x: 3,
            y: 4,
            width: 20,
            height: 10,
        })
        .inverse(),
        None
    );
    assert_eq!(ImageTransform::Brightness(Brightness { delta: 10 }).inverse(), None);
    assert_eq!(ImageTransform::Brightness(Brightness { delta: -10 }).inverse(), None);
    assert_eq!(ImageTransform::Contrast(Contrast { delta: 10 }).inverse(), None);
    assert_eq!(ImageTransform::Contrast(Contrast { delta: -10 }).inverse(), None);
    assert_eq!(ImageTransform::ConvolutionPreset(ConvolutionFilter::Blur).inverse(), None);
    assert_eq!(ImageTransform::ConvolutionPreset(ConvolutionFilter::Sharpen).inverse(), None);
    assert_eq!(ImageTransform::ConvolutionPreset(ConvolutionFilter::EdgeDetect).inverse(), None);
    assert_eq!(ImageTransform::ConvolutionPreset(ConvolutionFilter::Emboss).inverse(), None);
    assert_eq!(
        ImageTransform::ConvolutionCustom(Kernel::new(vec![0, -1, 0, -1, 5, -1, 0, -1, 0], 3, 1, 0)).inverse(),
        None
    );
}

#[test]
fn apply_then_inverse_is_identity() {
    let image = image_3x2();
    for op in invertible_ops() {
        let inv = op.inverse().expect("reversible transform should have an inverse");
        let transformed = apply_invertible(&image, &op);
        let restored = apply_invertible(&transformed, &inv);
        assert_eq!(restored.width, image.width, "width mismatch for {op:?}");
        assert_eq!(restored.height, image.height, "height mismatch for {op:?}");
        assert_eq!(restored.rgba, image.rgba, "pixel data mismatch for {op:?}");
    }
}

#[test]
fn geometry_apply_then_inverse_is_identity_for_invertible_ops() {
    let image = DecodedImage::new(3, 2, image_3x2().rgba).expect("valid image");
    let ops: Vec<ImageTransform> = vec![
        ImageTransform::RotateLeft(RotateLeft),
        ImageTransform::RotateRight(RotateRight),
        ImageTransform::MirrorHorizontal(MirrorHorizontal),
        ImageTransform::MirrorVertical(MirrorVertical),
    ];
    for op in ops {
        let inv = op.inverse().expect("reversible transform should have inverse");
        let transformed = apply_invertible(&image, &op);
        let restored = apply_invertible(&transformed, &inv);
        assert_eq!(restored.rgba(), image.rgba());
    }
}

#[test]
fn dispatch_apply_then_inverse_is_identity_for_invertible_ops() {
    let image = image_3x2();
    for op in invertible_ops() {
        let inv = op.inverse().expect("reversible transform should have inverse");
        let transformed = apply_invertible(&image, &op);
        let restored = apply_invertible(&transformed, &inv);
        assert_eq!(restored.rgba, image.rgba);
    }
}

#[test]
fn apply_then_inverse_is_identity_for_invert() {
    let image = DecodedImage::new(2, 1, vec![10, 20, 30, 255, 40, 50, 60, 255]).expect("valid image");
    let ops: Vec<ImageTransform> = vec![ImageTransform::InvertColors(InvertColors)];
    for op in ops {
        let inv = op.inverse().expect("invert should have inverse");
        let transformed = apply_invertible(&image, &op);
        let restored = apply_invertible(&transformed, &inv);
        assert_eq!(restored.rgba(), image.rgba());
    }
}

#[test]
fn brightness_positive_adds_and_clamps() {
    let image = DecodedImage {
        width: 2,
        height: 1,
        rgba: vec![100, 150, 200, 128, 10, 20, 30, 255],
    };
    let result = brightness(&image, 80);
    assert_eq!(result.rgba[0], 180);
    assert_eq!(result.rgba[1], 230);
    assert_eq!(result.rgba[2], 255);
    assert_eq!(result.rgba[3], 128);
    assert_eq!(result.rgba[4], 90);
    assert_eq!(result.rgba[5], 100);
    assert_eq!(result.rgba[6], 110);
    assert_eq!(result.rgba[7], 255);
}

#[test]
fn brightness_negative_subtracts_and_clamps() {
    let image = DecodedImage {
        width: 1,
        height: 1,
        rgba: vec![30, 100, 200, 64],
    };
    let result = brightness(&image, -50);
    assert_eq!(result.rgba[0], 0);
    assert_eq!(result.rgba[1], 50);
    assert_eq!(result.rgba[2], 150);
    assert_eq!(result.rgba[3], 64);
}

#[test]
fn transform_brightness_zero_is_identity() {
    let image = DecodedImage {
        width: 1,
        height: 1,
        rgba: vec![42, 128, 200, 255],
    };
    let result = brightness(&image, 0);
    assert_eq!(result.rgba, image.rgba);
}

#[test]
fn color_brightness_zero_is_identity() {
    let image = DecodedImage::new(1, 1, vec![42, 128, 200, 255]).expect("valid image");
    let result = brightness(&image, Brightness { delta: 0 }.delta);
    assert_eq!(result.rgba(), image.rgba());
}

#[test]
fn smoke_construct_color_ops() {
    let _ = InvertColors;
    let _ = Grayscale;
    let _ = Sepia;
    let _ = Brightness { delta: 5 };
    let _ = Contrast { delta: -7 };
}

#[test]
fn transform_convolution_identity_kernel_preserves_image() {
    let image = DecodedImage {
        width: 3,
        height: 3,
        rgba: vec![
            10, 20, 30, 255, 40, 50, 60, 255, 70, 80, 90, 255, 100, 110, 120, 255, 130, 140, 150, 255, 160, 170, 180,
            255, 190, 200, 210, 255, 220, 230, 240, 255, 250, 240, 230, 255,
        ],
    };
    let kernel = Kernel::new(vec![0, 0, 0, 0, 1, 0, 0, 0, 0], 3, 1, 0);
    let result = apply_convolution(&image, &kernel);
    assert_eq!(result.rgba, image.rgba);
}

#[test]
fn convolution_convolution_identity_kernel_preserves_image() {
    let image = DecodedImage {
        width: 3,
        height: 3,
        rgba: vec![
            10, 20, 30, 255, 40, 50, 60, 255, 70, 80, 90, 255, 100, 110, 120, 255, 130, 140, 150, 255, 160, 170, 180,
            255, 190, 200, 210, 255, 220, 230, 240, 255, 250, 240, 230, 255,
        ],
    };
    let kernel = Kernel::new(vec![0, 0, 0, 0, 1, 0, 0, 0, 0], 3, 1, 0);
    let result = apply_convolution(&image, &kernel);
    assert_eq!(result.rgba, image.rgba);
}

#[test]
fn convolution_preserves_alpha() {
    let image = DecodedImage {
        width: 2,
        height: 2,
        rgba: vec![100, 100, 100, 42, 100, 100, 100, 99, 100, 100, 100, 200, 100, 100, 100, 0],
    };
    let kernel = Kernel::new(vec![1; 9], 3, 9, 0);
    let result = apply_convolution(&image, &kernel);
    assert_eq!(result.rgba[3], 42);
    assert_eq!(result.rgba[7], 99);
    assert_eq!(result.rgba[11], 200);
    assert_eq!(result.rgba[15], 0);
}

#[test]
fn convolution_uniform_image_unchanged_by_blur() {
    let image = DecodedImage {
        width: 4,
        height: 4,
        rgba: [120, 80, 200, 255].repeat(16),
    };
    let result = apply_convolution(&image, &ConvolutionFilter::Blur.kernel());
    assert_eq!(result.rgba, image.rgba);
}

#[test]
fn convolution_blur_reduces_contrast() {
    let image = DecodedImage {
        width: 3,
        height: 3,
        rgba: vec![
            0, 0, 0, 255, 0, 0, 0, 255, 0, 0, 0, 255, 0, 0, 0, 255, 255, 255, 255, 255, 0, 0, 0, 255, 0, 0, 0, 255,
            0, 0, 0, 255, 0, 0, 0, 255,
        ],
    };
    let result = apply_convolution(&image, &ConvolutionFilter::Blur.kernel());
    let center = (1 * 3 + 1) * 4;
    assert_eq!(result.rgba[center], 63);
    assert_eq!(result.rgba[center + 1], 63);
    assert_eq!(result.rgba[center + 2], 63);
}

#[test]
fn convolution_bias_offsets_result() {
    let image = DecodedImage {
        width: 1,
        height: 1,
        rgba: vec![50, 100, 200, 255],
    };
    let kernel = Kernel::new(vec![1], 1, 1, 128);
    let result = apply_convolution(&image, &kernel);
    assert_eq!(result.rgba[0], 178);
    assert_eq!(result.rgba[1], 228);
    assert_eq!(result.rgba[2], 255);
}

#[test]
fn convolution_clamps_negative_to_zero() {
    let image = DecodedImage {
        width: 3,
        height: 3,
        rgba: [100, 100, 100, 255].repeat(9),
    };
    let result = apply_convolution(&image, &ConvolutionFilter::EdgeDetect.kernel());
    for chunk in result.rgba.chunks_exact(4) {
        assert_eq!(chunk[0], 0);
        assert_eq!(chunk[1], 0);
        assert_eq!(chunk[2], 0);
    }
}

#[test]
fn custom_kernel_replay_cost_scales_with_size() {
    let k3 = Kernel::new(vec![0; 9], 3, 1, 0);
    let k5 = Kernel::new(vec![0; 25], 5, 1, 0);
    let c3 = ImageTransform::ConvolutionCustom(k3).replay_cost();
    let c5 = ImageTransform::ConvolutionCustom(k5).replay_cost();
    assert!(c5 > c3, "larger custom kernels should have higher replay cost");
}

#[test]
fn custom_kernel_applies_same_as_preset() {
    let image = DecodedImage {
        width: 4,
        height: 4,
        rgba: (0..64).collect(),
    };
    let preset_result = apply_convolution(&image, &ConvolutionFilter::Sharpen.kernel());
    let sharpen_kernel = ConvolutionFilter::Sharpen.kernel();
    let custom_result = apply_convolution(&image, &sharpen_kernel);
    assert_eq!(preset_result.rgba, custom_result.rgba);
}

#[test]
fn custom_identity_kernel_preserves_image() {
    let kernel = Kernel::new(vec![0, 0, 0, 0, 1, 0, 0, 0, 0], 3, 1, 0);
    let image = DecodedImage {
        width: 3,
        height: 3,
        rgba: vec![
            10, 20, 30, 255, 40, 50, 60, 255, 70, 80, 90, 255, 100, 110, 120, 255, 130, 140, 150, 255, 160, 170, 180,
            255, 190, 200, 210, 255, 220, 230, 240, 255, 250, 245, 235, 255,
        ],
    };
    let result = apply_convolution(&image, &kernel);
    assert_eq!(result.rgba, image.rgba);
}

#[test]
fn transform_blur_kernel_is_separable() {
    let kernel = ConvolutionFilter::Blur.kernel();
    let (col, row) = kernel.separable().expect("blur kernel should be separable");
    assert_eq!(col, vec![1, 2, 1]);
    assert_eq!(row, vec![1, 2, 1]);
}

#[test]
fn convolution_blur_kernel_is_separable() {
    let kernel = ConvolutionFilter::Blur.kernel();
    let (col, row) = kernel.separable().expect("blur kernel should be separable");
    assert_eq!(col, vec![1, 2, 1]);
    assert_eq!(row, vec![1, 2, 1]);
}

#[test]
fn sharpen_kernel_is_not_separable() {
    let kernel = ConvolutionFilter::Sharpen.kernel();
    assert!(kernel.separable().is_none(), "sharpen should not be separable");
}

#[test]
fn edge_detect_kernel_is_not_separable() {
    let kernel = ConvolutionFilter::EdgeDetect.kernel();
    assert!(kernel.separable().is_none(), "edge detect should not be separable");
}

#[test]
fn emboss_kernel_is_not_separable() {
    let kernel = ConvolutionFilter::Emboss.kernel();
    assert!(kernel.separable().is_none(), "emboss should not be separable");
}

#[test]
fn identity_1x1_kernel_is_separable() {
    let kernel = Kernel::new(vec![1], 1, 1, 0);
    let (col, row) = kernel.separable().expect("1x1 kernel should be separable");
    assert_eq!(col, vec![1]);
    assert_eq!(row, vec![1]);
}

#[test]
fn gaussian_5x5_is_separable() {
    let row_vec = vec![1, 4, 6, 4, 1];
    let mut weights = Vec::with_capacity(25);
    for &r in &row_vec {
        for &c in &row_vec {
            weights.push(r * c);
        }
    }
    let kernel = Kernel::new(weights, 5, 256, 0);
    let (col, row) = kernel.separable().expect("5x5 Gaussian should be separable");
    assert_eq!(col, vec![1, 4, 6, 4, 1]);
    assert_eq!(row, vec![1, 4, 6, 4, 1]);
}

#[test]
fn non_separable_arbitrary_kernel() {
    let kernel = Kernel::new(vec![1, 0, 1, 0, 1, 0, 1, 0, 1], 3, 1, 0);
    assert!(kernel.separable().is_none());
}

fn gradient_5x5() -> DecodedImage {
    DecodedImage {
        width: 5,
        height: 5,
        rgba: (0..25)
            .flat_map(|i| {
                let v = (i * 10) as u8;
                [v, v.wrapping_add(30), v.wrapping_add(60), 255]
            })
            .collect(),
    }
}

#[test]
fn transform_separable_and_2d_paths_produce_identical_results() {
    let image = gradient_5x5();
    let kernel = ConvolutionFilter::Blur.kernel();
    assert!(kernel.separable().is_some(), "precondition: blur is separable");
    let result_separable = apply_convolution(&image, &kernel);
    let result_2d = apply_convolution_2d(&image, &kernel);
    assert_eq!(result_separable.width, result_2d.width);
    assert_eq!(result_separable.height, result_2d.height);
    assert_eq!(
        result_separable.rgba, result_2d.rgba,
        "separable and 2D convolution paths must produce identical output"
    );
}

#[test]
fn convolution_separable_and_2d_paths_produce_identical_results() {
    let image = gradient_5x5();
    let kernel = ConvolutionFilter::Blur.kernel();
    let result_separable = apply_convolution(&image, &kernel);
    let result_2d = apply_convolution_2d(&image, &kernel);
    assert_eq!(result_separable.rgba, result_2d.rgba);
}

#[test]
fn replay_cost_invertible_is_zero() {
    for op in invertible_ops() {
        assert_eq!(op.replay_cost(), 0);
    }
}

#[test]
fn replay_cost_lossy_pixel_ops() {
    assert_eq!(ImageTransform::Grayscale(Grayscale).replay_cost(), 1);
    assert_eq!(ImageTransform::Sepia(Sepia).replay_cost(), 1);
    assert_eq!(ImageTransform::Brightness(Brightness { delta: 10 }).replay_cost(), 1);
    assert_eq!(ImageTransform::Contrast(Contrast { delta: -5 }).replay_cost(), 1);
}

#[test]
fn replay_cost_convolution_is_higher() {
    let cost = ImageTransform::ConvolutionPreset(ConvolutionFilter::Blur).replay_cost();
    assert!(cost > 1, "convolution should have higher cost than simple pixel ops");
    let rotate_cost = ImageTransform::RotateAny(RotateAny {
        angle_tenths: 333,
        interpolation: RotationInterpolation::Bilinear,
        expand: true,
    })
    .replay_cost();
    assert!(rotate_cost > 1, "arbitrary rotation should have higher cost than simple pixel ops");
}

fn rotate_any_cost(interpolation: RotationInterpolation) -> u32 {
    ImageTransform::RotateAny(RotateAny {
        angle_tenths: 123,
        interpolation,
        expand: true,
    })
    .replay_cost()
}

#[test]
fn transform_replay_cost_rotate_any_depends_on_interpolation() {
    let nearest = rotate_any_cost(RotationInterpolation::Nearest);
    let bilinear = rotate_any_cost(RotationInterpolation::Bilinear);
    let bicubic = rotate_any_cost(RotationInterpolation::Bicubic);
    assert!(bilinear > nearest, "bilinear rotation should be costlier than nearest");
    assert!(bicubic > bilinear, "bicubic rotation should be costlier than bilinear");
}

#[test]
fn geometry_replay_cost_rotate_any_depends_on_interpolation() {
    let nearest = RotateAny {
        angle_tenths: 123,
        interpolation: RotationInterpolation::Nearest,
        expand: true,
    }
    .replay_cost();
    let bilinear = RotateAny {
        angle_tenths: 123,
        interpolation: RotationInterpolation::Bilinear,
        expand: true,
    }
    .replay_cost();
    assert!(bilinear > nearest);
}

#[test]
fn replay_cost_resize_depends_on_interpolation() {
    let cost = |interpolation| {
        ImageTransform::Resize(Resize {
            width: 64,
            height: 64,
            interpolation,
        })
        .replay_cost()
    };
    let nearest = cost(RotationInterpolation::Nearest);
    let bilinear = cost(RotationInterpolation::Bilinear);
    let bicubic = cost(RotationInterpolation::Bicubic);
    assert!(bilinear > nearest, "bilinear resize should be costlier than nearest");
    assert!(bicubic > bilinear, "bicubic resize should be costlier than bilinear");
}

#[test]
fn replay_cost_skew_depends_on_interpolation() {
    let cost = |interpolation| {
        ImageTransform::Skew(Skew {
            x_milli: 200,
            y_milli: 0,
            interpolation,
            expand: true,
        })
        .replay_cost()
    };
    let nearest = cost(RotationInterpolation::Nearest);
    let bilinear = cost(RotationInterpolation::Bilinear);
    let bicubic = cost(RotationInterpolation::Bicubic);
    assert!(bilinear > nearest, "bilinear skew should be costlier than nearest");
    assert!(bicubic > bilinear, "bicubic skew should be costlier than bilinear");
}

#[test]
fn replay_cost_translate_is_low_nonzero() {
    let cost = ImageTransform::Translate(Translate {
        dx: 10,
        dy: -3,
        mode: TranslateMode::Crop,
        fill: [0, 0, 0, 0],
    })
    .replay_cost();
    assert_eq!(cost, 2);
}

#[test]
fn replay_cost_crop_is_one() {
    let cost = ImageTransform::Crop(Crop {
        x: 1,
        y: 1,
        width: 10,
        height: 8,
    })
    .replay_cost();
    assert_eq!(cost, 1);
}

#[test]
fn replay_cost_variants_stay_reasonable() {
    assert_eq!(ImageTransform::Grayscale(Grayscale).replay_cost(), 1);
    assert_eq!(
        ImageTransform::Translate(Translate {
            dx: 1,
            dy: -1,
            mode: TranslateMode::Crop,
            fill: [0, 0, 0, 0],
        })
        .replay_cost(),
        2
    );
    assert!(
        ImageTransform::RotateAny(RotateAny {
            angle_tenths: 123,
            interpolation: RotationInterpolation::Bicubic,
            expand: true,
        })
        .replay_cost()
            > 1
    );
}

#[test]
fn transform_translate_zero_is_identity() {
    let image = DecodedImage {
        width: 3,
        height: 2,
        rgba: vec![1, 2, 3, 255, 4, 5, 6, 255, 7, 8, 9, 255, 10, 11, 12, 255, 13, 14, 15, 255, 16, 17, 18, 255],
    };
    let out = translate_image(&image, 0, 0, TranslateMode::Crop, [0, 0, 0, 0]);
    assert_eq!(out.width, image.width);
    assert_eq!(out.height, image.height);
    assert_eq!(out.rgba, image.rgba);
}

#[test]
fn geometry_translate_zero_is_identity() {
    let image = DecodedImage::new(
        3,
        2,
        vec![1, 2, 3, 255, 4, 5, 6, 255, 7, 8, 9, 255, 10, 11, 12, 255, 13, 14, 15, 255, 16, 17, 18, 255],
    )
    .expect("valid image");
    let op = Translate {
        dx: 0,
        dy: 0,
        mode: TranslateMode::Crop,
        fill: [0, 0, 0, 0],
    };
    let out = translate_image(&image, op.dx, op.dy, op.mode, op.fill);
    assert_eq!(out.rgba(), image.rgba());
}

#[test]
fn translate_crop_right_uses_fill_on_left() {
    let image = DecodedImage {
        width: 2,
        height: 2,
        rgba: vec![10, 20, 30, 255, 40, 50, 60, 255, 70, 80, 90, 255, 100, 110, 120, 255],
    };
    let fill = [1, 2, 3, 4];
    let out = translate_image(&image, 1, 0, TranslateMode::Crop, fill);
    assert_eq!(out.width, 2);
    assert_eq!(out.height, 2);
    assert_eq!(out.rgba, vec![1, 2, 3, 4, 10, 20, 30, 255, 1, 2, 3, 4, 70, 80, 90, 255]);
}

#[test]
fn translate_expand_left_grows_canvas_and_keeps_all_pixels() {
    let image = DecodedImage {
        width: 2,
        height: 1,
        rgba: vec![10, 20, 30, 255, 40, 50, 60, 255],
    };
    let fill = [0, 0, 0, 0];
    let out = translate_image(&image, -1, 0, TranslateMode::Expand, fill);
    assert_eq!(out.width, 3);
    assert_eq!(out.height, 1);
    assert_eq!(out.rgba, vec![10, 20, 30, 255, 40, 50, 60, 255, 0, 0, 0, 0]);
}

#[test]
fn transform_crop_full_image_is_identity() {
    let image = DecodedImage {
        width: 2,
        height: 2,
        rgba: vec![10, 20, 30, 255, 40, 50, 60, 255, 70, 80, 90, 255, 100, 110, 120, 255],
    };
    let out = crop_image(&image, 0, 0, 2, 2);
    assert_eq!(out.width, image.width);
    assert_eq!(out.height, image.height);
    assert_eq!(out.rgba, image.rgba);
}

#[test]
fn geometry_crop_full_image_is_identity() {
    let image = DecodedImage::new(2, 2, vec![10, 20, 30, 255, 40, 50, 60, 255, 70, 80, 90, 255, 100, 110, 120, 255])
        .expect("valid image");
    let op = Crop {
        x: 0,
        y: 0,
        width: 2,
        height: 2,
    };
    let out = crop_image(&image, op.x, op.y, op.width, op.height);
    assert_eq!(out.rgba(), image.rgba());
}

#[test]
fn crop_center_region_extracts_expected_pixels() {
    let image = DecodedImage {
        width: 3,
        height: 2,
        rgba: vec![1, 0, 0, 255, 2, 0, 0, 255, 3, 0, 0, 255, 4, 0, 0, 255, 5, 0, 0, 255, 6, 0, 0, 255],
    };
    let out = crop_image(&image, 1, 0, 2, 2);
    assert_eq!(out.width, 2);
    assert_eq!(out.height, 2);
    assert_eq!(out.rgba, vec![2, 0, 0, 255, 3, 0, 0, 255, 5, 0, 0, 255, 6, 0, 0, 255]);
}

#[test]
fn crop_out_of_bounds_is_clamped() {
    let image = DecodedImage {
        width: 4,
        height: 3,
        rgba: (0..4 * 3 * 4).map(|v| v as u8).collect(),
    };
    let out = crop_image(&image, 3, 2, 10, 10);
    assert_eq!(out.width, 1);
    assert_eq!(out.height, 1);
}

#[test]
fn smoke_construct_geometry_ops() {
    let _ = RotateLeft;
    let _ = RotateRight;
    let _ = RotateAny {
        angle_tenths: 15,
        interpolation: RotationInterpolation::Nearest,
        expand: false,
    };
    let _ = Resize {
        width: 10,
        height: 10,
        interpolation: RotationInterpolation::Bilinear,
    };
    let _ = Skew {
        x_milli: 10,
        y_milli: 20,
        interpolation: RotationInterpolation::Bicubic,
        expand: true,
    };
    let _ = Translate {
        dx: 1,
        dy: 2,
        mode: TranslateMode::Crop,
        fill: [0, 0, 0, 0],
    };
    let _ = Crop {
        x: 0,
        y: 0,
        width: 1,
        height: 1,
    };
}

#[test]
fn remove_returns_error_for_out_of_bounds_index() {
    let mut pipeline = TransformPipeline::default();
    pipeline.push(ImageTransform::Brightness(Brightness { delta: 1 }));

    let err = pipeline.remove(1).expect_err("removing outside the pipeline length should fail");
    assert_eq!(err, PipelineError::IndexOutOfBounds { index: 1, len: 1 });
    assert_eq!(pipeline.len(), 1);
}

#[test]
fn remove_returns_removed_transform_when_index_is_valid() {
    let mut pipeline = TransformPipeline::default();
    let first = ImageTransform::Brightness(Brightness { delta: 1 });
    let second = ImageTransform::Grayscale(Grayscale);
    pipeline.push(first.clone());
    pipeline.push(second.clone());

    let removed = pipeline.remove(0).expect("removing a valid index should succeed");

    assert_eq!(removed, first);
    assert_eq!(pipeline.ops(), &[second]);
}

// Own tests.

// Pixel mapping of the quarter turns on a 3x2 image.
#[test]
fn rotations_map_pixels_as_documented() {
    let image = DecodedImage {
        width: 3,
        height: 2,
        rgba: (1..=6).flat_map(|v| [v, 0, 0, 255]).collect(),
    };
    // pixels: 1 2 3 / 4 5 6
    let left = rotate_left(&image);
    assert_eq!((left.width, left.height), (2, 3));
    let reds: Vec<u8> = left.rgba.chunks_exact(4).map(|p| p[0]).collect();
    assert_eq!(reds, vec![3, 6, 2, 5, 1, 4]);
    let right = rotate_right(&image);
    let reds: Vec<u8> = right.rgba.chunks_exact(4).map(|p| p[0]).collect();
    assert_eq!(reds, vec![4, 1, 5, 2, 6, 3]);
    let mh = mirror_horizontal(&image);
    let reds: Vec<u8> = mh.rgba.chunks_exact(4).map(|p| p[0]).collect();
    assert_eq!(reds, vec![3, 2, 1, 6, 5, 4]);
    let mv = mirror_vertical(&image);
    let reds: Vec<u8> = mv.rgba.chunks_exact(4).map(|p| p[0]).collect();
    assert_eq!(reds, vec![4, 5, 6, 1, 2, 3]);
}

// Translation down and right with a fill colour, and an expanding
// translation up.
#[test]
fn translate_moves_pixels_and_fills() {
    let image = DecodedImage {
        width: 2,
        height: 2,
        rgba: (1..=4).flat_map(|v| [v, 0, 0, 255]).collect(),
    };
    let out = translate_image(&image, 1, 1, TranslateMode::Crop, [9, 9, 9, 9]);
    let reds: Vec<u8> = out.rgba.chunks_exact(4).map(|p| p[0]).collect();
    assert_eq!(reds, vec![9, 9, 9, 1]);
    let out = translate_image(&image, 0, 1, TranslateMode::Expand, [0, 0, 0, 0]);
    assert_eq!((out.width, out.height), (2, 3));
    let reds: Vec<u8> = out.rgba.chunks_exact(4).map(|p| p[0]).collect();
    assert_eq!(reds, vec![0, 0, 1, 2, 3, 4]);
}

// An empty image is returned unchanged by crop and translate.
#[test]
fn crop_and_translate_keep_empty_images() {
    let empty = DecodedImage { width: 0, height: 5, rgba: vec![] };
    let c = crop_image(&empty, 1, 1, 2, 2);
    assert_eq!((c.width, c.height, c.rgba.len()), (0, 5, 0));
    let t = translate_image(&empty, 3, 3, TranslateMode::Expand, [1, 1, 1, 1]);
    assert_eq!((t.width, t.height, t.rgba.len()), (0, 5, 0));
}

// Sharpen on a gradient: an exact expected value of the 2-D sum with
// clamped borders.
#[test]
fn sharpen_exact_value_with_clamped_borders() {
    let image = DecodedImage {
        width: 2,
        height: 1,
        rgba: vec![10, 0, 0, 255, 20, 0, 0, 255],
    };
    let out = apply_convolution(&image, &ConvolutionFilter::Sharpen.kernel());
    // left pixel: 5*10 - (10 + 20 + 10 + 10) = 0; right: 5*20 - (10 + 20 + 20 + 20) = 30
    assert_eq!(out.rgba[0], 0);
    assert_eq!(out.rgba[4], 30);
}

// Division truncates toward zero on negative sums before the bias.
#[test]
fn convolution_divides_toward_zero() {
    let image = DecodedImage { width: 1, height: 1, rgba: vec![7, 0, 0, 1] };
    let kernel = Kernel::new(vec![-1], 1, 2, 10);
    let out = apply_convolution(&image, &kernel);
    // -7 / 2 = -3 (toward zero), + 10 = 7
    assert_eq!(out.rgba, vec![7, 10, 10, 1]);
}

#[test]
fn executor_config_and_checkpoint_policy() {
    let cfg = TransformPipelineExecutorConfig::new(3, 5);
    assert_eq!(cfg.checkpoint_cost_threshold, 3);
    assert_eq!(cfg.max_checkpoints, 5);
    let mut cost = 0;
    assert!(!cfg.should_checkpoint(1, &mut cost));
    assert_eq!(cost, 1);
    assert!(!cfg.should_checkpoint(0, &mut cost));
    assert_eq!(cost, 1);
    assert!(!cfg.should_checkpoint(1, &mut cost));
    assert!(cfg.should_checkpoint(1, &mut cost));
    assert_eq!(cost, 0);
    let off = TransformPipelineExecutorConfig::new(0, 0);
    let mut cost = 7;
    assert!(!off.should_checkpoint(100, &mut cost));
    assert_eq!(cost, 7);
    let mut cost = u32::MAX - 1;
    let big = TransformPipelineExecutorConfig::new(u32::MAX, 1);
    assert!(big.should_checkpoint(5, &mut cost));
    assert_eq!(cost, 0);
}

#[test]
fn pipeline_push_pop_clear() {
    let mut p = TransformPipeline::default();
    assert!(p.is_empty());
    p.push(ImageTransform::RotateLeft(RotateLeft));
    p.push(ImageTransform::InvertColors(InvertColors));
    assert_eq!(p.len(), 2);
    assert_eq!(p.pop(), Some(ImageTransform::InvertColors(InvertColors)));
    assert_eq!(p.len(), 1);
    p.clear();
    assert!(p.is_empty());
    assert_eq!(p.pop(), None);
}

fn solid(width: u32, height: u32, v: u8) -> DecodedImage {
    DecodedImage { width, height, rgba: vec![v; (width * height * 4) as usize] }
}

#[test]
fn checkpoint_cache_latest_before_picks_newest_usable() {
    let mut cache = CheckpointCache::new();
    assert!(cache.latest_before(10).is_none());
    cache.insert(4, solid(1, 1, 4));
    cache.insert(1, solid(1, 1, 1));
    cache.insert(7, solid(1, 1, 7));
    assert_eq!(cache.len(), 3);
    let (idx, img) = cache.latest_before(7).expect("a checkpoint below 7");
    assert_eq!(idx, 4);
    assert_eq!(img.rgba, vec![4, 4, 4, 4]);
    let (idx, _) = cache.latest_before(100).expect("a checkpoint below 100");
    assert_eq!(idx, 7);
    assert!(cache.latest_before(1).is_none());
}

#[test]
fn checkpoint_cache_insert_replaces_same_index() {
    let mut cache = CheckpointCache::new();
    cache.insert(2, solid(1, 1, 10));
    cache.insert(2, solid(1, 1, 20));
    assert_eq!(cache.len(), 1);
    let (idx, img) = cache.latest_before(3).expect("checkpoint 2");
    assert_eq!(idx, 2);
    assert_eq!(img.rgba, vec![20, 20, 20, 20]);
}

#[test]
fn checkpoint_cache_evicts_oldest_and_drops_tail() {
    let mut cache = CheckpointCache::new();
    for i in 0..5usize {
        cache.insert(i, solid(1, 1, i as u8));
    }
    cache.evict_to(3);
    assert_eq!(cache.len(), 3);
    assert!(cache.latest_before(2).is_none());
    assert_eq!(cache.latest_before(3).expect("checkpoint 2").0, 2);
    cache.drop_at_or_after(4);
    assert_eq!(cache.len(), 2);
    assert_eq!(cache.latest_before(100).expect("checkpoint 3").0, 3);
    cache.evict_to(0);
    assert_eq!(cache.len(), 0);
    cache.insert(9, solid(1, 1, 9));
    cache.clear();
    assert!(cache.latest_before(100).is_none());
}

#[test]
fn replay_progress_gates_checkpoints_after_a_failure() {
    let config = TransformPipelineExecutorConfig::new(5, 4);
    let mut progress = ReplayProgress::new();
    assert!(!progress.record_success(&config, 3));
    assert_eq!(progress.cost_since_checkpoint, 3);
    assert!(progress.record_success(&config, 3));
    assert_eq!(progress.cost_since_checkpoint, 0);
    progress.record_failure();
    assert!(!progress.record_success(&config, 10));
    assert_eq!(progress.cost_since_checkpoint, 0);
}

#[test]
fn replay_start_follows_the_newest_checkpoint_below_the_count() {
    let mut cache = CheckpointCache::new();
    assert_eq!(cache.replay_start(3).0, 0);
    cache.insert(1, solid(1, 1, 7));
    cache.insert(4, solid(1, 1, 9));
    let (start, image) = cache.replay_start(3);
    assert_eq!(start, 2);
    assert_eq!(image.expect("checkpoint").rgba(), &[7, 7, 7, 7]);
    assert_eq!(cache.replay_start(5).0, 5);
}

// Only the quarter turns, the mirrors and the inversion apply directly.
#[test]
fn apply_undoable_refuses_lossy_operations() {
    let image = image_3x2();
    assert!(apply_undoable(&image, &ImageTransform::Brightness(Brightness { delta: 5 })).is_none());
    assert!(apply_undoable(&image, &ImageTransform::Grayscale(Grayscale)).is_none());
    let turned = apply_undoable(&image, &ImageTransform::RotateLeft(RotateLeft)).expect("a quarter turn");
    assert_eq!((turned.width, turned.height), (2, 3));
}
