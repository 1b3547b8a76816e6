use bmp::raw::masks::{RgbMasks, RgbaMasks};
use bmp::runtime::transform::color::Brightness;
use bmp::runtime::transform::convolution::{ConvolutionFilter, Kernel};
use bmp::runtime::transform::geometry::{Crop, RotateLeft};
use bmp::runtime::transform::model::ImageTransform;

#[test]
fn rgb_masks_widen_with_zero_alpha_and_narrow_back() {
    let rgb = RgbMasks { red_mask: 0xF800, green_mask: 0x07E0, blue_mask: 0x001F };
    let rgba = RgbaMasks::from(rgb);
    assert_eq!(rgba, RgbaMasks { red_mask: 0xF800, green_mask: 0x07E0, blue_mask: 0x001F, alpha_mask: 0 });
    let with_alpha = RgbaMasks { red_mask: 0xFF0000, green_mask: 0xFF00, blue_mask: 0xFF, alpha_mask: 0xFF00_0000 };
    let narrowed: RgbMasks = with_alpha.into();
    assert_eq!(narrowed, RgbMasks { red_mask: 0xFF0000, green_mask: 0xFF00, blue_mask: 0xFF });
}

#[test]
fn operations_convert_into_pipeline_steps() {
    let step: ImageTransform = RotateLeft.into();
    assert_eq!(step, ImageTransform::RotateLeft(RotateLeft));
    let step = ImageTransform::from(Brightness { delta: -3 });
    assert_eq!(step, ImageTransform::Brightness(Brightness { delta: -3 }));
    let step: ImageTransform = ConvolutionFilter::Emboss.into();
    assert_eq!(step, ImageTransform::ConvolutionPreset(ConvolutionFilter::Emboss));
    let crop = Crop { x: 1, y: 2, width: 3, height: 4 };
    assert_eq!(ImageTransform::from(crop), ImageTransform::Crop(crop));
    let kernel = Kernel::new(vec![1], 1, 1, 0);
    assert_eq!(ImageTransform::from(kernel.clone()), ImageTransform::ConvolutionCustom(kernel));
}
