//! The transform model: every operation a pipeline can hold, what undoes
//! it, and how costly it is to replay.
use vstd::prelude::*;
use crate::runtime::decode::{DecodedImage, DecodedImageError};
use super::color::{Brightness, Contrast, Grayscale, InvertColors, Sepia, invert_colors, lemma_invert_twice, spec_invert};
use super::convolution::{ConvolutionFilter, Kernel};
use super::geometry::{
    Crop, MirrorHorizontal, MirrorVertical, Resize, RotateAny, RotateLeft, RotateRight, Skew, Translate,
    lemma_mirror_horizontal_twice, lemma_mirror_vertical_twice, lemma_rotate_left_then_right,
    lemma_rotate_right_then_left, mirror_horizontal, mirror_vertical, rotate_left, rotate_right, spec_mirror_h_px,
    spec_mirror_v_px, spec_rotate_left_px, spec_rotate_right_px,
};
use super::raster::spec_image;
use super::steganography::{EmbedSteganography, RemoveSteganography, StegError};

verus! {

/// Why a transform fails.
#[derive(Debug, Clone, Copy, PartialEq, Eq)]
pub enum TransformError {
    /// Embedding or removing a payload failed.
    Steganography(StegError),
    /// The result is not a valid image.
    InvalidImage(DecodedImageError),
}

/// One operation of a transform pipeline.
#[derive(Debug, Clone, PartialEq, Eq, Hash)]
pub enum ImageTransform {
    RotateLeft(RotateLeft),
    RotateRight(RotateRight),
    RotateAny(RotateAny),
    Resize(Resize),
    Skew(Skew),
    Translate(Translate),
    Crop(Crop),
    MirrorHorizontal(MirrorHorizontal),
    MirrorVertical(MirrorVertical),
    InvertColors(InvertColors),
    Grayscale(Grayscale),
    Sepia(Sepia),
    Brightness(Brightness),
    Contrast(Contrast),
    ConvolutionPreset(ConvolutionFilter),
    ConvolutionCustom(Kernel),
    EmbedSteganography(EmbedSteganography),
    RemoveSteganography(RemoveSteganography),
}

impl ImageTransform {
    /// The operation that undoes this one directly: the opposite quarter
    /// turn, or the same mirror or inversion; `None` for the operations
    /// that lose information.
    pub open spec fn spec_inverse(&self) -> Option<ImageTransform> {
        match *self {
            ImageTransform::RotateLeft(_) => Some(ImageTransform::RotateRight(RotateRight)),
            ImageTransform::RotateRight(_) => Some(ImageTransform::RotateLeft(RotateLeft)),
            ImageTransform::MirrorHorizontal(_) => Some(ImageTransform::MirrorHorizontal(MirrorHorizontal)),
            ImageTransform::MirrorVertical(_) => Some(ImageTransform::MirrorVertical(MirrorVertical)),
            ImageTransform::InvertColors(_) => Some(ImageTransform::InvertColors(InvertColors)),
            _ => None,
        }
    }

    /// A custom kernel is well formed and small enough to cost in `u32`.
    pub open spec fn spec_well_formed(&self) -> bool {
        match *self {
            ImageTransform::ConvolutionCustom(k) => k.spec_well_formed() && k.size * k.size <= u32::MAX,
            _ => true,
        }
    }

    /// The operation that undoes this one, if it can be undone directly.
    pub fn inverse(&self) -> (r: Option<ImageTransform>)
        ensures
            r == self.spec_inverse(),
    {
        match self {
            ImageTransform::RotateLeft(op) => op.inverse(),
            ImageTransform::RotateRight(op) => op.inverse(),
            ImageTransform::MirrorHorizontal(op) => op.inverse(),
            ImageTransform::MirrorVertical(op) => op.inverse(),
            ImageTransform::InvertColors(op) => op.inverse(),
            _ => None,
        }
    }

    /// The relative cost of replaying this operation, which decides where
    /// a replay cache places checkpoints: 0 for the operations that
    /// undo directly, 1 for cheap per-pixel ones, more for resampling and
    /// convolution.
    pub fn replay_cost(&self) -> (r: u32)
        requires
            self.spec_well_formed(),
        ensures
            self.spec_inverse() is Some ==> r == 0,
            match *self {
                ImageTransform::RotateAny(op) => r == super::geometry::spec_sampling_cost(op.interpolation, 3),
                ImageTransform::Resize(op) => r == super::geometry::spec_sampling_cost(op.interpolation, 2),
                ImageTransform::Skew(op) => r == super::geometry::spec_sampling_cost(op.interpolation, 3),
                ImageTransform::Translate(_) => r == 2,
                ImageTransform::Crop(_) => r == 1,
                ImageTransform::Grayscale(_) | ImageTransform::Sepia(_) | ImageTransform::Brightness(_)
                | ImageTransform::Contrast(_) => r == 1,
                ImageTransform::ConvolutionPreset(f) => r == (if f == ConvolutionFilter::Blur {
                    6u32
                } else {
                    9u32
                }),
                ImageTransform::ConvolutionCustom(k) => r == (if k.spec_separable() is Some {
                    2 * k.size
                } else {
                    k.size * k.size
                }),
                ImageTransform::EmbedSteganography(_) => r == 2,
                ImageTransform::RemoveSteganography(_) => r == 1,
                _ => r == 0,
            },
    {
        match self {
            ImageTransform::RotateLeft(_) => 0,
            ImageTransform::RotateRight(_) => 0,
            ImageTransform::RotateAny(op) => op.replay_cost(),
            ImageTransform::Resize(op) => op.replay_cost(),
            ImageTransform::Skew(op) => op.replay_cost(),
            ImageTransform::Translate(_) => 2,
            ImageTransform::Crop(_) => 1,
            ImageTransform::MirrorHorizontal(_) => 0,
            ImageTransform::MirrorVertical(_) => 0,
            ImageTransform::InvertColors(_) => 0,
            ImageTransform::Grayscale(_) => 1,
            ImageTransform::Sepia(_) => 1,
            ImageTransform::Brightness(_) => 1,
            ImageTransform::Contrast(_) => 1,
            ImageTransform::ConvolutionPreset(filter) => filter.replay_cost(),
            ImageTransform::ConvolutionCustom(kernel) => kernel.replay_cost(),
            ImageTransform::EmbedSteganography(_) => 2,
            ImageTransform::RemoveSteganography(_) => 1,
        }
    }
}

/// What an operation that can be undone directly does to a `w x h` image
/// with bytes `src`: the new width, height and bytes; other operations
/// leave it as it is.
pub open spec fn spec_apply_undoable(t: ImageTransform, w: int, h: int, src: Seq<u8>) -> (int, int, Seq<u8>) {
    match t {
        ImageTransform::RotateLeft(_) => (h, w, spec_image(h, w, spec_rotate_left_px(src, w, h))),
        ImageTransform::RotateRight(_) => (h, w, spec_image(h, w, spec_rotate_right_px(src, w, h))),
        ImageTransform::MirrorHorizontal(_) => (w, h, spec_image(w, h, spec_mirror_h_px(src, w, h))),
        ImageTransform::MirrorVertical(_) => (w, h, spec_image(w, h, spec_mirror_v_px(src, w, h))),
        ImageTransform::InvertColors(_) => (w, h, spec_invert(src)),
        _ => (w, h, src),
    }
}

/// Applies an operation that can be undone directly (a quarter turn, a
/// mirror or the color inversion); `None` for the other operations.
pub fn apply_undoable(image: &DecodedImage, t: &ImageTransform) -> (r: Option<DecodedImage>)
    requires
        image.spec_well_formed(),
    ensures
        r is Some <==> t.spec_inverse() is Some,
        r matches Some(out) ==> (out.width as int, out.height as int, out.rgba@) == spec_apply_undoable(
            *t,
            image.width as int,
            image.height as int,
            image.rgba@,
        ),
{
    match t {
        ImageTransform::RotateLeft(_) => Some(rotate_left(image)),
        ImageTransform::RotateRight(_) => Some(rotate_right(image)),
        ImageTransform::MirrorHorizontal(_) => Some(mirror_horizontal(image)),
        ImageTransform::MirrorVertical(_) => Some(mirror_vertical(image)),
        ImageTransform::InvertColors(_) => Some(invert_colors(image)),
        _ => None,
    }
}

/// Applying an operation that can be undone directly and then its inverse
/// gives the image back: same width, height and bytes.
pub proof fn lemma_apply_then_inverse(t: ImageTransform, w: int, h: int, src: Seq<u8>)
    requires
        t.spec_inverse() is Some,
        0 <= w,
        0 <= h,
        src.len() == w * h * 4,
    ensures
        spec_apply_undoable(
            t.spec_inverse()->0,
            spec_apply_undoable(t, w, h, src).0,
            spec_apply_undoable(t, w, h, src).1,
            spec_apply_undoable(t, w, h, src).2,
        ) == (w, h, src),
{
    match t {
        ImageTransform::RotateLeft(_) => lemma_rotate_left_then_right(src, w, h),
        ImageTransform::RotateRight(_) => lemma_rotate_right_then_left(src, w, h),
        ImageTransform::MirrorHorizontal(_) => lemma_mirror_horizontal_twice(src, w, h),
        ImageTransform::MirrorVertical(_) => lemma_mirror_vertical_twice(src, w, h),
        _ => lemma_invert_twice(src),
    }
}

/// Undoing an undo gives the operation back, for every operation that can
/// be undone directly.
pub proof fn lemma_inverse_involution(t: ImageTransform)
    requires
        t.spec_inverse() is Some,
    ensures
        t.spec_inverse()->0.spec_inverse() == Some(t),
{
}


impl From<RotateLeft> for ImageTransform {
    /// The operation as a pipeline step.
    fn from(value: RotateLeft) -> (r: ImageTransform) {
        ImageTransform::RotateLeft(value)
    }
}

impl vstd::std_specs::convert::FromSpecImpl<RotateLeft> for ImageTransform {
    open spec fn obeys_from_spec() -> bool {
        true
    }

    open spec fn from_spec(v: RotateLeft) -> ImageTransform {
        ImageTransform::RotateLeft(v)
    }
}

impl From<RotateRight> for ImageTransform {
    /// The operation as a pipeline step.
    fn from(value: RotateRight) -> (r: ImageTransform) {
        ImageTransform::RotateRight(value)
    }
}

impl vstd::std_specs::convert::FromSpecImpl<RotateRight> for ImageTransform {
    open spec fn obeys_from_spec() -> bool {
        true
    }

    open spec fn from_spec(v: RotateRight) -> ImageTransform {
        ImageTransform::RotateRight(v)
    }
}

impl From<RotateAny> for ImageTransform {
    /// The operation as a pipeline step.
    fn from(value: RotateAny) -> (r: ImageTransform) {
        ImageTransform::RotateAny(value)
    }
}

impl vstd::std_specs::convert::FromSpecImpl<RotateAny> for ImageTransform {
    open spec fn obeys_from_spec() -> bool {
        true
    }

    open spec fn from_spec(v: RotateAny) -> ImageTransform {
        ImageTransform::RotateAny(v)
    }
}

impl From<Resize> for ImageTransform {
    /// The operation as a pipeline step.
    fn from(value: Resize) -> (r: ImageTransform) {
        ImageTransform::Resize(value)
    }
}

impl vstd::std_specs::convert::FromSpecImpl<Resize> for ImageTransform {
    open spec fn obeys_from_spec() -> bool {
        true
    }

    open spec fn from_spec(v: Resize) -> ImageTransform {
        ImageTransform::Resize(v)
    }
}

impl From<Skew> for ImageTransform {
    /// The operation as a pipeline step.
    fn from(value: Skew) -> (r: ImageTransform) {
        ImageTransform::Skew(value)
    }
}

impl vstd::std_specs::convert::FromSpecImpl<Skew> for ImageTransform {
    open spec fn obeys_from_spec() -> bool {
        true
    }

    open spec fn from_spec(v: Skew) -> ImageTransform {
        ImageTransform::Skew(v)
    }
}

impl From<Translate> for ImageTransform {
    /// The operation as a pipeline step.
    fn from(value: Translate) -> (r: ImageTransform) {
        ImageTransform::Translate(value)
    }
}

impl vstd::std_specs::convert::FromSpecImpl<Translate> for ImageTransform {
    open spec fn obeys_from_spec() -> bool {
        true
    }

    open spec fn from_spec(v: Translate) -> ImageTransform {
        ImageTransform::Translate(v)
    }
}

impl From<Crop> for ImageTransform {
    /// The operation as a pipeline step.
    fn from(value: Crop) -> (r: ImageTransform) {
        ImageTransform::Crop(value)
    }
}

impl vstd::std_specs::convert::FromSpecImpl<Crop> for ImageTransform {
    open spec fn obeys_from_spec() -> bool {
        true
    }

    open spec fn from_spec(v: Crop) -> ImageTransform {
        ImageTransform::Crop(v)
    }
}

impl From<MirrorHorizontal> for ImageTransform {
    /// The operation as a pipeline step.
    fn from(value: MirrorHorizontal) -> (r: ImageTransform) {
        ImageTransform::MirrorHorizontal(value)
    }
}

impl vstd::std_specs::convert::FromSpecImpl<MirrorHorizontal> for ImageTransform {
    open spec fn obeys_from_spec() -> bool {
        true
    }

    open spec fn from_spec(v: MirrorHorizontal) -> ImageTransform {
        ImageTransform::MirrorHorizontal(v)
    }
}

impl From<MirrorVertical> for ImageTransform {
    /// The operation as a pipeline step.
    fn from(value: MirrorVertical) -> (r: ImageTransform) {
        ImageTransform::MirrorVertical(value)
    }
}

impl vstd::std_specs::convert::FromSpecImpl<MirrorVertical> for ImageTransform {
    open spec fn obeys_from_spec() -> bool {
        true
    }

    open spec fn from_spec(v: MirrorVertical) -> ImageTransform {
        ImageTransform::MirrorVertical(v)
    }
}

impl From<InvertColors> for ImageTransform {
    /// The operation as a pipeline step.
    fn from(value: InvertColors) -> (r: ImageTransform) {
        ImageTransform::InvertColors(value)
    }
}

impl vstd::std_specs::convert::FromSpecImpl<InvertColors> for ImageTransform {
    open spec fn obeys_from_spec() -> bool {
        true
    }

    open spec fn from_spec(v: InvertColors) -> ImageTransform {
        ImageTransform::InvertColors(v)
    }
}

impl From<Grayscale> for ImageTransform {
    /// The operation as a pipeline step.
    fn from(value: Grayscale) -> (r: ImageTransform) {
        ImageTransform::Grayscale(value)
    }
}

impl vstd::std_specs::convert::FromSpecImpl<Grayscale> for ImageTransform {
    open spec fn obeys_from_spec() -> bool {
        true
    }

    open spec fn from_spec(v: Grayscale) -> ImageTransform {
        ImageTransform::Grayscale(v)
    }
}

impl From<Sepia> for ImageTransform {
    /// The operation as a pipeline step.
    fn from(value: Sepia) -> (r: ImageTransform) {
        ImageTransform::Sepia(value)
    }
}

impl vstd::std_specs::convert::FromSpecImpl<Sepia> for ImageTransform {
    open spec fn obeys_from_spec() -> bool {
        true
    }

    open spec fn from_spec(v: Sepia) -> ImageTransform {
        ImageTransform::Sepia(v)
    }
}

impl From<Brightness> for ImageTransform {
    /// The operation as a pipeline step.
    fn from(value: Brightness) -> (r: ImageTransform) {
        ImageTransform::Brightness(value)
    }
}

impl vstd::std_specs::convert::FromSpecImpl<Brightness> for ImageTransform {
    open spec fn obeys_from_spec() -> bool {
        true
    }

    open spec fn from_spec(v: Brightness) -> ImageTransform {
        ImageTransform::Brightness(v)
    }
}

impl From<Contrast> for ImageTransform {
    /// The operation as a pipeline step.
    fn from(value: Contrast) -> (r: ImageTransform) {
        ImageTransform::Contrast(value)
    }
}

impl vstd::std_specs::convert::FromSpecImpl<Contrast> for ImageTransform {
    open spec fn obeys_from_spec() -> bool {
        true
    }

    open spec fn from_spec(v: Contrast) -> ImageTransform {
        ImageTransform::Contrast(v)
    }
}

impl From<ConvolutionFilter> for ImageTransform {
    /// The operation as a pipeline step.
    fn from(value: ConvolutionFilter) -> (r: ImageTransform) {
        ImageTransform::ConvolutionPreset(value)
    }
}

impl vstd::std_specs::convert::FromSpecImpl<ConvolutionFilter> for ImageTransform {
    open spec fn obeys_from_spec() -> bool {
        true
    }

    open spec fn from_spec(v: ConvolutionFilter) -> ImageTransform {
        ImageTransform::ConvolutionPreset(v)
    }
}

impl From<Kernel> for ImageTransform {
    /// The operation as a pipeline step.
    fn from(value: Kernel) -> (r: ImageTransform) {
        ImageTransform::ConvolutionCustom(value)
    }
}

impl vstd::std_specs::convert::FromSpecImpl<Kernel> for ImageTransform {
    open spec fn obeys_from_spec() -> bool {
        true
    }

    open spec fn from_spec(v: Kernel) -> ImageTransform {
        ImageTransform::ConvolutionCustom(v)
    }
}

impl From<EmbedSteganography> for ImageTransform {
    /// The operation as a pipeline step.
    fn from(value: EmbedSteganography) -> (r: ImageTransform) {
        ImageTransform::EmbedSteganography(value)
    }
}

impl vstd::std_specs::convert::FromSpecImpl<EmbedSteganography> for ImageTransform {
    open spec fn obeys_from_spec() -> bool {
        true
    }

    open spec fn from_spec(v: EmbedSteganography) -> ImageTransform {
        ImageTransform::EmbedSteganography(v)
    }
}

impl From<RemoveSteganography> for ImageTransform {
    /// The operation as a pipeline step.
    fn from(value: RemoveSteganography) -> (r: ImageTransform) {
        ImageTransform::RemoveSteganography(value)
    }
}

impl vstd::std_specs::convert::FromSpecImpl<RemoveSteganography> for ImageTransform {
    open spec fn obeys_from_spec() -> bool {
        true
    }

    open spec fn from_spec(v: RemoveSteganography) -> ImageTransform {
        ImageTransform::RemoveSteganography(v)
    }
}

} // verus!
