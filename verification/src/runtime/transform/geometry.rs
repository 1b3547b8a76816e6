//! Geometric transforms: quarter turns, mirrors, cropping and translation
//! move pixels without changing them and are verified here; the
//! resampling transforms (arbitrary rotation, resizing, skewing) are
//! described by their parameters and cost.
use vstd::prelude::*;
use crate::runtime::decode::DecodedImage;
use super::model::ImageTransform;
use super::raster::{
    lemma_image_index, lemma_row_of_image, lemma_row_push, push_bytes, push_pixel, spec_image, spec_px,
    spec_row,
};

verus! {

/// How pixels at fractional coordinates are sampled.
#[derive(Debug, Clone, Copy, PartialEq, Eq, Hash, Structural)]
pub enum RotationInterpolation {
    /// The closest pixel.
    Nearest,
    /// A weighted average of the four nearest pixels.
    Bilinear,
    /// A cubic filter over the sixteen nearest pixels.
    Bicubic,
}

/// How a translation treats the image bounds.
#[derive(Debug, Clone, Copy, PartialEq, Eq, Hash, Structural)]
pub enum TranslateMode {
    /// Keep the size; pixels moved out are lost.
    Crop,
    /// Grow the canvas so that every pixel stays.
    Expand,
}

/// A quarter turn counter-clockwise.
#[derive(Debug, Clone, Copy, PartialEq, Eq, Hash, Structural)]
pub struct RotateLeft;

/// A quarter turn clockwise.
#[derive(Debug, Clone, Copy, PartialEq, Eq, Hash, Structural)]
pub struct RotateRight;

/// A rotation by `angle_tenths` tenths of a degree.
#[derive(Debug, Clone, Copy, PartialEq, Eq, Hash, Structural)]
pub struct RotateAny {
    pub angle_tenths: i32,
    pub interpolation: RotationInterpolation,
    pub expand: bool,
}

/// A resampling to `width x height` (each at least 1).
#[derive(Debug, Clone, Copy, PartialEq, Eq, Hash, Structural)]
pub struct Resize {
    pub width: u32,
    pub height: u32,
    pub interpolation: RotationInterpolation,
}

/// A shear by `x_milli / 1000` and `y_milli / 1000`.
#[derive(Debug, Clone, Copy, PartialEq, Eq, Hash, Structural)]
pub struct Skew {
    pub x_milli: i16,
    pub y_milli: i16,
    pub interpolation: RotationInterpolation,
    pub expand: bool,
}

/// A shift by `(dx, dy)`; uncovered pixels take the colour `fill`.
#[derive(Debug, Clone, Copy, PartialEq, Eq, Hash)]
pub struct Translate {
    pub dx: i32,
    pub dy: i32,
    pub mode: TranslateMode,
    pub fill: [u8; 4],
}

/// The rectangle at `(x, y)` of `width x height` pixels, clamped to the
/// image.
#[derive(Debug, Clone, Copy, PartialEq, Eq, Hash, Structural)]
pub struct Crop {
    pub x: u32,
    pub y: u32,
    pub width: u32,
    pub height: u32,
}

/// Left and right swapped.
#[derive(Debug, Clone, Copy, PartialEq, Eq, Hash, Structural)]
pub struct MirrorHorizontal;

/// Top and bottom swapped.
#[derive(Debug, Clone, Copy, PartialEq, Eq, Hash, Structural)]
pub struct MirrorVertical;

/// The replay cost of a resampling transform: higher for the smoother
/// filters.
pub open spec fn spec_sampling_cost(interpolation: RotationInterpolation, nearest: u32) -> u32 {
    match interpolation {
        RotationInterpolation::Nearest => nearest,
        RotationInterpolation::Bilinear => (nearest + 2) as u32,
        RotationInterpolation::Bicubic => (nearest + 5) as u32,
    }
}

impl RotateLeft {
    /// Undone by a right turn.
    pub fn inverse(&self) -> (r: Option<ImageTransform>)
        ensures
            r == Some(ImageTransform::RotateRight(RotateRight)),
    {
        Some(ImageTransform::RotateRight(RotateRight))
    }
}

impl RotateRight {
    /// Undone by a left turn.
    pub fn inverse(&self) -> (r: Option<ImageTransform>)
        ensures
            r == Some(ImageTransform::RotateLeft(RotateLeft)),
    {
        Some(ImageTransform::RotateLeft(RotateLeft))
    }
}

impl MirrorHorizontal {
    /// Undone by itself.
    pub fn inverse(&self) -> (r: Option<ImageTransform>)
        ensures
            r == Some(ImageTransform::MirrorHorizontal(MirrorHorizontal)),
    {
        Some(ImageTransform::MirrorHorizontal(MirrorHorizontal))
    }
}

impl MirrorVertical {
    /// Undone by itself.
    pub fn inverse(&self) -> (r: Option<ImageTransform>)
        ensures
            r == Some(ImageTransform::MirrorVertical(MirrorVertical)),
    {
        Some(ImageTransform::MirrorVertical(MirrorVertical))
    }
}

impl RotateAny {
    /// The cost of replaying this rotation: 3, 5 or 8 by filter.
    pub fn replay_cost(&self) -> (r: u32)
        ensures
            r == spec_sampling_cost(self.interpolation, 3),
    {
        match self.interpolation {
            RotationInterpolation::Nearest => 3,
            RotationInterpolation::Bilinear => 5,
            RotationInterpolation::Bicubic => 8,
        }
    }
}

impl Resize {
    /// The cost of replaying this resize: 2, 4 or 7 by filter.
    pub fn replay_cost(&self) -> (r: u32)
        ensures
            r == spec_sampling_cost(self.interpolation, 2),
    {
        match self.interpolation {
            RotationInterpolation::Nearest => 2,
            RotationInterpolation::Bilinear => 4,
            RotationInterpolation::Bicubic => 7,
        }
    }
}

impl Skew {
    /// The cost of replaying this shear: 3, 5 or 8 by filter.
    pub fn replay_cost(&self) -> (r: u32)
        ensures
            r == spec_sampling_cost(self.interpolation, 3),
    {
        match self.interpolation {
            RotationInterpolation::Nearest => 3,
            RotationInterpolation::Bilinear => 5,
            RotationInterpolation::Bicubic => 8,
        }
    }
}

// -----------------------------------------------------------------------------
// Quarter turns
// -----------------------------------------------------------------------------

/// Pixel `(x, y)` of the left turn of a `w x h` image is pixel
/// `(w - 1 - y, x)` of the source; the result is `h` wide and `w` high.
pub open spec fn spec_rotate_left_px(src: Seq<u8>, w: int, h: int) -> spec_fn(int, int, int) -> u8 {
    |x: int, y: int, c: int| spec_px(src, w, w - 1 - y, x, c)
}

/// Pixel `(x, y)` of the right turn of a `w x h` image is pixel
/// `(y, h - 1 - x)` of the source; the result is `h` wide and `w` high.
pub open spec fn spec_rotate_right_px(src: Seq<u8>, w: int, h: int) -> spec_fn(int, int, int) -> u8 {
    |x: int, y: int, c: int| spec_px(src, w, y, h - 1 - x, c)
}

/// Pixel `(x, y)` of the horizontal mirror is pixel `(w - 1 - x, y)`.
pub open spec fn spec_mirror_h_px(src: Seq<u8>, w: int, h: int) -> spec_fn(int, int, int) -> u8 {
    |x: int, y: int, c: int| spec_px(src, w, w - 1 - x, y, c)
}

/// Pixel `(x, y)` of the vertical mirror is pixel `(x, h - 1 - y)`.
pub open spec fn spec_mirror_v_px(src: Seq<u8>, w: int, h: int) -> spec_fn(int, int, int) -> u8 {
    |x: int, y: int, c: int| spec_px(src, w, x, h - 1 - y, c)
}

/// Row `dst_y` of the left turn of `image`.
pub fn rotate_left_row(image: &DecodedImage, dst_y: usize) -> (row: Vec<u8>)
    requires
        image.spec_well_formed(),
        dst_y < image.width,
    ensures
        row@ == spec_row(
            image.height as int,
            dst_y as int,
            spec_rotate_left_px(image.rgba@, image.width as int, image.height as int),
        ),
{
    let src_w = image.width as usize;
    let src_h = image.height as usize;
    let ghost f = spec_rotate_left_px(image.rgba@, src_w as int, src_h as int);
    let src = image.rgba();
    let n = src.len();
    let x = src_w - 1 - dst_y;
    let mut row: Vec<u8> = Vec::new();
    let mut dst_x: usize = 0;
    while dst_x < src_h
        invariant
            image.spec_well_formed(),
            src_w == image.width,
            src_h == image.height,
            src@ == image.rgba@,
            n == src@.len(),
            x == src_w - 1 - dst_y,
            dst_y < src_w,
            f == spec_rotate_left_px(image.rgba@, src_w as int, src_h as int),
            dst_x <= src_h,
            row@ == spec_row(src_h as int, dst_y as int, f).subrange(0, dst_x * 4),
        decreases src_h - dst_x,
    {
        let y = dst_x;
        proof {
            lemma_image_index(src_w as int, src_h as int, x as int, y as int, 3);
        }
        let k = (y * src_w + x) * 4;
        push_pixel(&mut row, src, k);
        proof {
            lemma_row_push(src_h as int, dst_y as int, dst_x as int, f, src@.subrange(k as int, k + 4));
        }
        dst_x += 1;
    }
    row
}

/// Row `dst_y` of the right turn of `image`.
pub fn rotate_right_row(image: &DecodedImage, dst_y: usize) -> (row: Vec<u8>)
    requires
        image.spec_well_formed(),
        dst_y < image.width,
    ensures
        row@ == spec_row(
            image.height as int,
            dst_y as int,
            spec_rotate_right_px(image.rgba@, image.width as int, image.height as int),
        ),
{
    let src_w = image.width as usize;
    let src_h = image.height as usize;
    let ghost f = spec_rotate_right_px(image.rgba@, src_w as int, src_h as int);
    let src = image.rgba();
    let n = src.len();
    let x = dst_y;
    let mut row: Vec<u8> = Vec::new();
    let mut dst_x: usize = 0;
    while dst_x < src_h
        invariant
            image.spec_well_formed(),
            src_w == image.width,
            src_h == image.height,
            src@ == image.rgba@,
            n == src@.len(),
            x == dst_y,
            dst_y < src_w,
            f == spec_rotate_right_px(image.rgba@, src_w as int, src_h as int),
            dst_x <= src_h,
            row@ == spec_row(src_h as int, dst_y as int, f).subrange(0, dst_x * 4),
        decreases src_h - dst_x,
    {
        let y = src_h - 1 - dst_x;
        proof {
            lemma_image_index(src_w as int, src_h as int, x as int, y as int, 3);
        }
        let k = (y * src_w + x) * 4;
        push_pixel(&mut row, src, k);
        proof {
            lemma_row_push(src_h as int, dst_y as int, dst_x as int, f, src@.subrange(k as int, k + 4));
        }
        dst_x += 1;
    }
    row
}

/// Row `y` of the horizontal mirror of `image`.
pub fn mirror_horizontal_row(image: &DecodedImage, y: usize) -> (row: Vec<u8>)
    requires
        image.spec_well_formed(),
        y < image.height,
    ensures
        row@ == spec_row(
            image.width as int,
            y as int,
            spec_mirror_h_px(image.rgba@, image.width as int, image.height as int),
        ),
{
    let w = image.width as usize;
    let h = image.height as usize;
    let ghost f = spec_mirror_h_px(image.rgba@, w as int, h as int);
    let src = image.rgba();
    let n = src.len();
    let mut row: Vec<u8> = Vec::new();
    let mut dst_x: usize = 0;
    while dst_x < w
        invariant
            image.spec_well_formed(),
            w == image.width,
            h == image.height,
            src@ == image.rgba@,
            n == src@.len(),
            y < h,
            f == spec_mirror_h_px(image.rgba@, w as int, h as int),
            dst_x <= w,
            row@ == spec_row(w as int, y as int, f).subrange(0, dst_x * 4),
        decreases w - dst_x,
    {
        let x = w - 1 - dst_x;
        proof {
            lemma_image_index(w as int, h as int, x as int, y as int, 3);
        }
        let k = (y * w + x) * 4;
        push_pixel(&mut row, src, k);
        proof {
            lemma_row_push(w as int, y as int, dst_x as int, f, src@.subrange(k as int, k + 4));
        }
        dst_x += 1;
    }
    row
}

/// Row `y` of the vertical mirror of `image`.
pub fn mirror_vertical_row(image: &DecodedImage, y: usize) -> (row: Vec<u8>)
    requires
        image.spec_well_formed(),
        y < image.height,
    ensures
        row@ == spec_row(
            image.width as int,
            y as int,
            spec_mirror_v_px(image.rgba@, image.width as int, image.height as int),
        ),
{
    let w = image.width as usize;
    let h = image.height as usize;
    let ghost f = spec_mirror_v_px(image.rgba@, w as int, h as int);
    let src = image.rgba();
    let n = src.len();
    let sy = h - 1 - y;
    let mut row: Vec<u8> = Vec::new();
    let mut dst_x: usize = 0;
    while dst_x < w
        invariant
            image.spec_well_formed(),
            w == image.width,
            h == image.height,
            src@ == image.rgba@,
            n == src@.len(),
            y < h,
            sy == h - 1 - y,
            f == spec_mirror_v_px(image.rgba@, w as int, h as int),
            dst_x <= w,
            row@ == spec_row(w as int, y as int, f).subrange(0, dst_x * 4),
        decreases w - dst_x,
    {
        proof {
            lemma_image_index(w as int, h as int, dst_x as int, sy as int, 3);
        }
        let k = (sy * w + dst_x) * 4;
        push_pixel(&mut row, src, k);
        proof {
            lemma_row_push(w as int, y as int, dst_x as int, f, src@.subrange(k as int, k + 4));
        }
        dst_x += 1;
    }
    row
}

/// Rows `0..dy` of an image, then row `dy`, are rows `0..dy + 1`.
pub(crate) proof fn lemma_append_row(
    out: Seq<u8>,
    row: Seq<u8>,
    width: int,
    height: int,
    dy: int,
    f: spec_fn(int, int, int) -> u8,
)
    requires
        0 <= dy < height,
        0 <= width,
        out == spec_image(width, height, f).subrange(0, dy * width * 4),
        row == spec_row(width, dy, f),
    ensures
        out + row == spec_image(width, height, f).subrange(0, (dy + 1) * width * 4),
{
    lemma_row_of_image(width, height, dy, f);
    let img = spec_image(width, height, f);
    assert(img.subrange(0, dy * width * 4) + img.subrange(dy * width * 4, dy * width * 4 + width * 4)
        =~= img.subrange(0, (dy + 1) * width * 4));
}

/// All rows of an image are the image.
pub(crate) proof fn lemma_all_rows(width: int, height: int, f: spec_fn(int, int, int) -> u8)
    requires
        0 <= width,
        0 <= height,
    ensures
        spec_image(width, height, f).subrange(0, height * width * 4) == spec_image(width, height, f),
{
    assert(height * width * 4 == width * height * 4) by (nonlinear_arith);
    assert(spec_image(width, height, f).subrange(0, height * width * 4) =~= spec_image(width, height, f));
}

/// Turns `image` a quarter counter-clockwise: the result is `height`
/// wide and `width` high, and its pixel `(x, y)` is pixel
/// `(width - 1 - y, x)` of the source.
pub fn rotate_left(image: &DecodedImage) -> (r: DecodedImage)
    requires
        image.spec_well_formed(),
    ensures
        r.width == image.height,
        r.height == image.width,
        r.spec_well_formed(),
        r.rgba@ == spec_image(
            image.height as int,
            image.width as int,
            spec_rotate_left_px(image.rgba@, image.width as int, image.height as int),
        ),
{
    let dst_w = image.height as usize;
    let dst_h = image.width as usize;
    let ghost f = spec_rotate_left_px(image.rgba@, image.width as int, image.height as int);
    let mut out: Vec<u8> = Vec::new();
    let mut dy: usize = 0;
    while dy < dst_h
        invariant
            image.spec_well_formed(),
            dst_w == image.height,
            dst_h == image.width,
            f == spec_rotate_left_px(image.rgba@, image.width as int, image.height as int),
            dy <= dst_h,
            out@ == spec_image(dst_w as int, dst_h as int, f).subrange(0, dy * dst_w * 4),
        decreases dst_h - dy,
    {
        let mut row = rotate_left_row(image, dy);
        proof {
            lemma_append_row(out@, row@, dst_w as int, dst_h as int, dy as int, f);
        }
        out.append(&mut row);
        dy += 1;
    }
    proof {
        lemma_all_rows(dst_w as int, dst_h as int, f);
    }
    DecodedImage { width: image.height, height: image.width, rgba: out }
}

/// Turns `image` a quarter clockwise: the result is `height` wide and
/// `width` high, and its pixel `(x, y)` is pixel `(y, height - 1 - x)` of
/// the source.
pub fn rotate_right(image: &DecodedImage) -> (r: DecodedImage)
    requires
        image.spec_well_formed(),
    ensures
        r.width == image.height,
        r.height == image.width,
        r.spec_well_formed(),
        r.rgba@ == spec_image(
            image.height as int,
            image.width as int,
            spec_rotate_right_px(image.rgba@, image.width as int, image.height as int),
        ),
{
    let dst_w = image.height as usize;
    let dst_h = image.width as usize;
    let ghost f = spec_rotate_right_px(image.rgba@, image.width as int, image.height as int);
    let mut out: Vec<u8> = Vec::new();
    let mut dy: usize = 0;
    while dy < dst_h
        invariant
            image.spec_well_formed(),
            dst_w == image.height,
            dst_h == image.width,
            f == spec_rotate_right_px(image.rgba@, image.width as int, image.height as int),
            dy <= dst_h,
            out@ == spec_image(dst_w as int, dst_h as int, f).subrange(0, dy * dst_w * 4),
        decreases dst_h - dy,
    {
        let mut row = rotate_right_row(image, dy);
        proof {
            lemma_append_row(out@, row@, dst_w as int, dst_h as int, dy as int, f);
        }
        out.append(&mut row);
        dy += 1;
    }
    proof {
        lemma_all_rows(dst_w as int, dst_h as int, f);
    }
    DecodedImage { width: image.height, height: image.width, rgba: out }
}

/// Swaps left and right: pixel `(x, y)` of the result is pixel
/// `(width - 1 - x, y)` of the source.
pub fn mirror_horizontal(image: &DecodedImage) -> (r: DecodedImage)
    requires
        image.spec_well_formed(),
    ensures
        r.width == image.width,
        r.height == image.height,
        r.spec_well_formed(),
        r.rgba@ == spec_image(
            image.width as int,
            image.height as int,
            spec_mirror_h_px(image.rgba@, image.width as int, image.height as int),
        ),
{
    let w = image.width as usize;
    let h = image.height as usize;
    let ghost f = spec_mirror_h_px(image.rgba@, w as int, h as int);
    let mut out: Vec<u8> = Vec::new();
    let mut y: usize = 0;
    while y < h
        invariant
            image.spec_well_formed(),
            w == image.width,
            h == image.height,
            f == spec_mirror_h_px(image.rgba@, w as int, h as int),
            y <= h,
            out@ == spec_image(w as int, h as int, f).subrange(0, y * w * 4),
        decreases h - y,
    {
        let mut row = mirror_horizontal_row(image, y);
        proof {
            lemma_append_row(out@, row@, w as int, h as int, y as int, f);
        }
        out.append(&mut row);
        y += 1;
    }
    proof {
        lemma_all_rows(w as int, h as int, f);
    }
    DecodedImage { width: image.width, height: image.height, rgba: out }
}

/// Swaps top and bottom: pixel `(x, y)` of the result is pixel
/// `(x, height - 1 - y)` of the source.
pub fn mirror_vertical(image: &DecodedImage) -> (r: DecodedImage)
    requires
        image.spec_well_formed(),
    ensures
        r.width == image.width,
        r.height == image.height,
        r.spec_well_formed(),
        r.rgba@ == spec_image(
            image.width as int,
            image.height as int,
            spec_mirror_v_px(image.rgba@, image.width as int, image.height as int),
        ),
{
    let w = image.width as usize;
    let h = image.height as usize;
    let ghost f = spec_mirror_v_px(image.rgba@, w as int, h as int);
    let mut out: Vec<u8> = Vec::new();
    let mut y: usize = 0;
    while y < h
        invariant
            image.spec_well_formed(),
            w == image.width,
            h == image.height,
            f == spec_mirror_v_px(image.rgba@, w as int, h as int),
            y <= h,
            out@ == spec_image(w as int, h as int, f).subrange(0, y * w * 4),
        decreases h - y,
    {
        let mut row = mirror_vertical_row(image, y);
        proof {
            lemma_append_row(out@, row@, w as int, h as int, y as int, f);
        }
        out.append(&mut row);
        y += 1;
    }
    proof {
        lemma_all_rows(w as int, h as int, f);
    }
    DecodedImage { width: image.width, height: image.height, rgba: out }
}


/// Byte `i` of a `w x h` image is channel `i % 4` of pixel
/// `((i / 4) % w, (i / 4) / w)`.
pub(crate) proof fn lemma_decompose(i: int, w: int, h: int)
    requires
        0 <= i < w * h * 4,
        0 <= w,
        0 <= h,
    ensures
        0 < w,
        0 <= (i / 4) % w < w,
        0 <= (i / 4) / w < h,
        0 <= i % 4 < 4,
        (((i / 4) / w) * w + (i / 4) % w) * 4 + i % 4 == i,
{
    assert(w > 0) by (nonlinear_arith)
        requires
            0 <= i < w * h * 4,
            0 <= h,
            0 <= w,
    ;
    let p = i / 4;
    vstd::arithmetic::div_mod::lemma_fundamental_div_mod(i, 4);
    vstd::arithmetic::div_mod::lemma_fundamental_div_mod(p, w);
    assert(p < w * h) by (nonlinear_arith)
        requires
            p == i / 4,
            0 <= i < w * h * 4,
    ;
    assert(p / w < h) by (nonlinear_arith)
        requires
            0 <= p < w * h,
            w > 0,
            p == w * (p / w) + p % w,
            0 <= p % w,
    ;
    assert(p / w >= 0) by (nonlinear_arith)
        requires
            0 <= p,
            w > 0,
    ;
}

/// Turning left and then right gives the image back.
pub proof fn lemma_rotate_left_then_right(src: Seq<u8>, w: int, h: int)
    requires
        0 <= w,
        0 <= h,
        src.len() == w * h * 4,
    ensures
        spec_image(w, h, spec_rotate_right_px(spec_image(h, w, spec_rotate_left_px(src, w, h)), h, w))
            == src,
{
    let left = spec_image(h, w, spec_rotate_left_px(src, w, h));
    let back = spec_image(w, h, spec_rotate_right_px(left, h, w));
    assert(w * h * 4 == h * w * 4) by (nonlinear_arith);
    assert forall|i: int| 0 <= i < src.len() implies #[trigger] back[i] == src[i] by {
        lemma_decompose(i, w, h);
        let x = (i / 4) % w;
        let y = (i / 4) / w;
        lemma_image_index(h, w, y, w - 1 - x, i % 4);
    }
    assert(back =~= src);
}

/// Turning right and then left gives the image back.
pub proof fn lemma_rotate_right_then_left(src: Seq<u8>, w: int, h: int)
    requires
        0 <= w,
        0 <= h,
        src.len() == w * h * 4,
    ensures
        spec_image(w, h, spec_rotate_left_px(spec_image(h, w, spec_rotate_right_px(src, w, h)), h, w))
            == src,
{
    let right = spec_image(h, w, spec_rotate_right_px(src, w, h));
    let back = spec_image(w, h, spec_rotate_left_px(right, h, w));
    assert(w * h * 4 == h * w * 4) by (nonlinear_arith);
    assert forall|i: int| 0 <= i < src.len() implies #[trigger] back[i] == src[i] by {
        lemma_decompose(i, w, h);
        let x = (i / 4) % w;
        let y = (i / 4) / w;
        lemma_image_index(h, w, h - 1 - y, x, i % 4);
    }
    assert(back =~= src);
}

/// Mirroring left and right twice gives the image back.
pub proof fn lemma_mirror_horizontal_twice(src: Seq<u8>, w: int, h: int)
    requires
        0 <= w,
        0 <= h,
        src.len() == w * h * 4,
    ensures
        spec_image(w, h, spec_mirror_h_px(spec_image(w, h, spec_mirror_h_px(src, w, h)), w, h)) == src,
{
    let once = spec_image(w, h, spec_mirror_h_px(src, w, h));
    let back = spec_image(w, h, spec_mirror_h_px(once, w, h));
    assert forall|i: int| 0 <= i < src.len() implies #[trigger] back[i] == src[i] by {
        lemma_decompose(i, w, h);
        let x = (i / 4) % w;
        let y = (i / 4) / w;
        lemma_image_index(w, h, w - 1 - x, y, i % 4);
    }
    assert(back =~= src);
}

/// Mirroring top and bottom twice gives the image back.
pub proof fn lemma_mirror_vertical_twice(src: Seq<u8>, w: int, h: int)
    requires
        0 <= w,
        0 <= h,
        src.len() == w * h * 4,
    ensures
        spec_image(w, h, spec_mirror_v_px(spec_image(w, h, spec_mirror_v_px(src, w, h)), w, h)) == src,
{
    let once = spec_image(w, h, spec_mirror_v_px(src, w, h));
    let back = spec_image(w, h, spec_mirror_v_px(once, w, h));
    assert forall|i: int| 0 <= i < src.len() implies #[trigger] back[i] == src[i] by {
        lemma_decompose(i, w, h);
        let x = (i / 4) % w;
        let y = (i / 4) / w;
        lemma_image_index(w, h, x, h - 1 - y, i % 4);
    }
    assert(back =~= src);
}


// -----------------------------------------------------------------------------
// Cropping and translation
// -----------------------------------------------------------------------------

/// The rectangle a crop takes from a non-empty `w x h` image: its corner
/// clamped into the image, and its size at least 1 and at most what lies
/// right of and below the corner.
pub open spec fn spec_crop_rect(w: int, h: int, x: int, y: int, width: int, height: int) -> (int, int, int, int) {
    let x0 = if x < w - 1 { x } else { w - 1 };
    let y0 = if y < h - 1 { y } else { h - 1 };
    let want_w = if width < 1 { 1 } else { width };
    let want_h = if height < 1 { 1 } else { height };
    let out_w = if want_w < w - x0 { want_w } else { w - x0 };
    let out_h = if want_h < h - y0 { want_h } else { h - y0 };
    (x0, y0, out_w, out_h)
}

/// Pixel `(x, y)` of a crop at `(x0, y0)` is pixel `(x0 + x, y0 + y)`.
pub open spec fn spec_crop_px(src: Seq<u8>, w: int, x0: int, y0: int) -> spec_fn(int, int, int) -> u8 {
    |x: int, y: int, c: int| spec_px(src, w, x0 + x, y0 + y, c)
}

/// An image is its own crop at the origin.
proof fn lemma_crop_identity(src: Seq<u8>, w: int, h: int)
    requires
        0 <= w,
        0 <= h,
        src.len() == w * h * 4,
    ensures
        spec_image(w, h, spec_crop_px(src, w, 0, 0)) == src,
{
    let img = spec_image(w, h, spec_crop_px(src, w, 0, 0));
    assert forall|i: int| 0 <= i < src.len() implies #[trigger] img[i] == src[i] by {
        lemma_decompose(i, w, h);
    }
    assert(img =~= src);
}

/// Row `dy` of the crop of `out_w` pixels at `(x0, y0)`.
pub fn crop_row(image: &DecodedImage, x0: usize, y0: usize, out_w: usize, dy: usize) -> (row: Vec<u8>)
    requires
        image.spec_well_formed(),
        x0 + out_w <= image.width,
        y0 + dy < image.height,
    ensures
        row@ == spec_row(out_w as int, dy as int, spec_crop_px(image.rgba@, image.width as int, x0 as int, y0 as int)),
{
    let w = image.width as usize;
    let h = image.height as usize;
    let ghost f = spec_crop_px(image.rgba@, w as int, x0 as int, y0 as int);
    let src = image.rgba();
    let n = src.len();
    let sy = y0 + dy;
    let mut row: Vec<u8> = Vec::new();
    let mut dx: usize = 0;
    while dx < out_w
        invariant
            image.spec_well_formed(),
            w == image.width,
            h == image.height,
            src@ == image.rgba@,
            n == src@.len(),
            x0 + out_w <= w,
            sy == y0 + dy,
            sy < h,
            f == spec_crop_px(image.rgba@, w as int, x0 as int, y0 as int),
            dx <= out_w,
            row@ == spec_row(out_w as int, dy as int, f).subrange(0, dx * 4),
        decreases out_w - dx,
    {
        proof {
            lemma_image_index(w as int, h as int, (x0 + dx) as int, sy as int, 3);
        }
        let k = (sy * w + (x0 + dx)) * 4;
        push_pixel(&mut row, src, k);
        proof {
            lemma_row_push(out_w as int, dy as int, dx as int, f, src@.subrange(k as int, k + 4));
        }
        dx += 1;
    }
    row
}

/// A copy of `image`.
fn copy_image(image: &DecodedImage) -> (r: DecodedImage)
    ensures
        r.width == image.width,
        r.height == image.height,
        r.rgba@ == image.rgba@,
{
    DecodedImage {
        width: image.width,
        height: image.height,
        rgba: crate::runtime::encode::copy_bytes(image.rgba()),
    }
}

/// Cuts the rectangle that `spec_crop_rect` clamps into the image; an
/// empty image, or a rectangle covering the whole image, gives a copy.
pub fn crop_image(image: &DecodedImage, x: u32, y: u32, width: u32, height: u32) -> (r: DecodedImage)
    requires
        image.spec_well_formed(),
    ensures
        r.spec_well_formed(),
        image.width == 0 || image.height == 0 ==> r.width == image.width && r.height == image.height
            && r.rgba@ == image.rgba@,
        image.width > 0 && image.height > 0 ==> ({
            let (x0, y0, out_w, out_h) = spec_crop_rect(
                image.width as int,
                image.height as int,
                x as int,
                y as int,
                width as int,
                height as int,
            );
            &&& r.width == out_w
            &&& r.height == out_h
            &&& r.rgba@ == spec_image(out_w, out_h, spec_crop_px(image.rgba@, image.width as int, x0, y0))
        }),
{
    let src_w = image.width;
    let src_h = image.height;
    if src_w == 0 || src_h == 0 {
        return copy_image(image);
    }
    let x0 = if x < src_w - 1 { x } else { src_w - 1 };
    let y0 = if y < src_h - 1 { y } else { src_h - 1 };
    let max_w = src_w - x0;
    let max_h = src_h - y0;
    let want_w = if width < 1 { 1 } else { width };
    let want_h = if height < 1 { 1 } else { height };
    let out_w = if want_w < max_w { want_w } else { max_w };
    let out_h = if want_h < max_h { want_h } else { max_h };
    if x0 == 0 && y0 == 0 && out_w == src_w && out_h == src_h {
        proof {
            lemma_crop_identity(image.rgba@, src_w as int, src_h as int);
        }
        return copy_image(image);
    }
    let ghost f = spec_crop_px(image.rgba@, src_w as int, x0 as int, y0 as int);
    let ow = out_w as usize;
    let oh = out_h as usize;
    let mut out: Vec<u8> = Vec::new();
    let mut dy: usize = 0;
    while dy < oh
        invariant
            image.spec_well_formed(),
            src_w == image.width,
            src_h == image.height,
            x0 + ow <= src_w,
            y0 + oh <= src_h,
            ow == out_w,
            oh == out_h,
            f == spec_crop_px(image.rgba@, src_w as int, x0 as int, y0 as int),
            dy <= oh,
            out@ == spec_image(ow as int, oh as int, f).subrange(0, dy * ow * 4),
        decreases oh - dy,
    {
        let mut row = crop_row(image, x0 as usize, y0 as usize, ow, dy);
        proof {
            lemma_append_row(out@, row@, ow as int, oh as int, dy as int, f);
        }
        out.append(&mut row);
        dy += 1;
    }
    proof {
        lemma_all_rows(ow as int, oh as int, f);
    }
    DecodedImage { width: out_w, height: out_h, rgba: out }
}

/// The canvas of a translation of a non-empty `w x h` image: its size and
/// the offset of the source in it.
pub open spec fn spec_translate_canvas(w: int, h: int, dx: int, dy: int, mode: TranslateMode) -> (int, int, int, int) {
    match mode {
        TranslateMode::Crop => (w, h, 0, 0),
        TranslateMode::Expand => (
            w + (if dx < 0 { -dx } else { dx }),
            h + (if dy < 0 { -dy } else { dy }),
            if dx < 0 { -dx } else { 0 },
            if dy < 0 { -dy } else { 0 },
        ),
    }
}

/// Pixel `(x, y)` of a translation is pixel `(x - dx - xb, y - dy - yb)`
/// of the source where that lies inside it, and `fill` elsewhere.
pub open spec fn spec_translate_px(
    src: Seq<u8>,
    w: int,
    h: int,
    dx: int,
    dy: int,
    xb: int,
    yb: int,
    fill: Seq<u8>,
) -> spec_fn(int, int, int) -> u8 {
    |x: int, y: int, c: int|
        {
            let sx = x - dx - xb;
            let sy = y - dy - yb;
            if 0 <= sx < w && 0 <= sy < h {
                spec_px(src, w, sx, sy, c)
            } else {
                fill[c]
            }
        }
}

/// The translation's canvas fits the image limits, and its source
/// coordinates fit in `i32`.
pub open spec fn spec_translate_in_range(w: int, h: int, dx: int, dy: int, mode: TranslateMode) -> bool {
    let (dst_w, dst_h, xb, yb) = spec_translate_canvas(w, h, dx, dy, mode);
    &&& dx > i32::MIN
    &&& dy > i32::MIN
    &&& w <= i32::MAX
    &&& h <= i32::MAX
    &&& dst_w <= i32::MAX
    &&& dst_h <= i32::MAX
    &&& dst_w * dst_h * 4 <= usize::MAX
    &&& i32::MIN <= -dx - xb
    &&& dst_w - 1 - dx - xb <= i32::MAX
    &&& i32::MIN <= -dy - yb
    &&& dst_h - 1 - dy - yb <= i32::MAX
}

/// Row `y` of a translation.
pub fn translate_row(
    image: &DecodedImage,
    dx: i32,
    dy: i32,
    xb: i32,
    yb: i32,
    dst_w: usize,
    y: usize,
    fill: [u8; 4],
) -> (row: Vec<u8>)
    requires
        image.spec_well_formed(),
        image.width <= i32::MAX,
        image.height <= i32::MAX,
        dst_w <= i32::MAX,
        y <= i32::MAX,
        i32::MIN <= -dx - xb,
        dst_w - 1 - dx - xb <= i32::MAX,
        i32::MIN <= y - dy - yb <= i32::MAX,
    ensures
        row@ == spec_row(
            dst_w as int,
            y as int,
            spec_translate_px(
                image.rgba@,
                image.width as int,
                image.height as int,
                dx as int,
                dy as int,
                xb as int,
                yb as int,
                fill@,
            ),
        ),
{
    let w = image.width as usize;
    let h = image.height as usize;
    let ghost f = spec_translate_px(
        image.rgba@,
        w as int,
        h as int,
        dx as int,
        dy as int,
        xb as int,
        yb as int,
        fill@,
    );
    let src = image.rgba();
    let n = src.len();
    let src_y: i64 = y as i64 - dy as i64 - yb as i64;
    let mut row: Vec<u8> = Vec::new();
    let mut x: usize = 0;
    while x < dst_w
        invariant
            image.spec_well_formed(),
            w == image.width,
            h == image.height,
            src@ == image.rgba@,
            n == src@.len(),
            w <= i32::MAX,
            h <= i32::MAX,
            dst_w <= i32::MAX,
            src_y == y - dy - yb,
            f == spec_translate_px(
                image.rgba@,
                w as int,
                h as int,
                dx as int,
                dy as int,
                xb as int,
                yb as int,
                fill@,
            ),
            x <= dst_w,
            row@ == spec_row(dst_w as int, y as int, f).subrange(0, x * 4),
        decreases dst_w - x,
    {
        let src_x: i64 = x as i64 - dx as i64 - xb as i64;
        if src_x >= 0 && src_x < w as i64 && src_y >= 0 && src_y < h as i64 {
            let sx = src_x as usize;
            let sy = src_y as usize;
            proof {
                lemma_image_index(w as int, h as int, sx as int, sy as int, 3);
            }
            let k = (sy * w + sx) * 4;
            push_pixel(&mut row, src, k);
            proof {
                lemma_row_push(dst_w as int, y as int, x as int, f, src@.subrange(k as int, k + 4));
            }
        } else {
            push_bytes(&mut row, fill);
            proof {
                lemma_row_push(dst_w as int, y as int, x as int, f, fill@);
            }
        }
        x += 1;
    }
    row
}

/// Shifts `image` by `(dx, dy)`. `Crop` keeps the size; `Expand` grows the
/// canvas by `|dx|` and `|dy|`. Canvas pixels with no source pixel take
/// `fill`. An empty image gives a copy.
pub fn translate_image(image: &DecodedImage, dx: i32, dy: i32, mode: TranslateMode, fill: [u8; 4]) -> (r:
    DecodedImage)
    requires
        image.spec_well_formed(),
        image.width > 0 && image.height > 0 ==> spec_translate_in_range(
            image.width as int,
            image.height as int,
            dx as int,
            dy as int,
            mode,
        ),
    ensures
        r.spec_well_formed(),
        image.width == 0 || image.height == 0 ==> r.width == image.width && r.height == image.height
            && r.rgba@ == image.rgba@,
        image.width > 0 && image.height > 0 ==> ({
            let (dst_w, dst_h, xb, yb) = spec_translate_canvas(
                image.width as int,
                image.height as int,
                dx as int,
                dy as int,
                mode,
            );
            &&& r.width == dst_w
            &&& r.height == dst_h
            &&& r.rgba@ == spec_image(
                dst_w,
                dst_h,
                spec_translate_px(
                    image.rgba@,
                    image.width as int,
                    image.height as int,
                    dx as int,
                    dy as int,
                    xb,
                    yb,
                    fill@,
                ),
            )
        }),
{
    let src_w = image.width as usize;
    let src_h = image.height as usize;
    if src_w == 0 || src_h == 0 {
        return copy_image(image);
    }
    let (dst_w, dst_h, x_base, y_base): (usize, usize, i32, i32) = match mode {
        TranslateMode::Crop => (src_w, src_h, 0, 0),
        TranslateMode::Expand => {
            let adx: usize = if dx < 0 { (-dx) as usize } else { dx as usize };
            let ady: usize = if dy < 0 { (-dy) as usize } else { dy as usize };
            (src_w + adx, src_h + ady, if dx < 0 { -dx } else { 0 }, if dy < 0 { -dy } else { 0 })
        },
    };
    let ghost f = spec_translate_px(
        image.rgba@,
        src_w as int,
        src_h as int,
        dx as int,
        dy as int,
        x_base as int,
        y_base as int,
        fill@,
    );
    let mut out: Vec<u8> = Vec::new();
    let mut y: usize = 0;
    while y < dst_h
        invariant
            image.spec_well_formed(),
            src_w == image.width,
            src_h == image.height,
            src_w <= i32::MAX,
            src_h <= i32::MAX,
            dst_w <= i32::MAX,
            dst_h <= i32::MAX,
            i32::MIN <= -dx - x_base,
            dst_w - 1 - dx - x_base <= i32::MAX,
            i32::MIN <= -dy - y_base,
            dst_h - 1 - dy - y_base <= i32::MAX,
            f == spec_translate_px(
                image.rgba@,
                src_w as int,
                src_h as int,
                dx as int,
                dy as int,
                x_base as int,
                y_base as int,
                fill@,
            ),
            y <= dst_h,
            out@ == spec_image(dst_w as int, dst_h as int, f).subrange(0, y * dst_w * 4),
        decreases dst_h - y,
    {
        let mut row = translate_row(image, dx, dy, x_base, y_base, dst_w, y, fill);
        proof {
            lemma_append_row(out@, row@, dst_w as int, dst_h as int, y as int, f);
        }
        out.append(&mut row);
        y += 1;
    }
    proof {
        lemma_all_rows(dst_w as int, dst_h as int, f);
    }
    DecodedImage { width: dst_w as u32, height: dst_h as u32, rgba: out }
}

/// Cropping the whole image at the origin gives the image back.
pub proof fn lemma_crop_whole_image(src: Seq<u8>, w: int, h: int)
    requires
        0 < w,
        0 < h,
        src.len() == w * h * 4,
    ensures
        spec_crop_rect(w, h, 0, 0, w, h) == (0int, 0int, w, h),
        spec_image(w, h, spec_crop_px(src, w, 0, 0)) == src,
{
    lemma_crop_identity(src, w, h);
}

/// Translating by zero, in either mode, gives the image back.
pub proof fn lemma_translate_zero(src: Seq<u8>, w: int, h: int, mode: TranslateMode, fill: Seq<u8>)
    requires
        0 < w,
        0 < h,
        src.len() == w * h * 4,
    ensures
        spec_translate_canvas(w, h, 0, 0, mode) == (w, h, 0int, 0int),
        spec_image(w, h, spec_translate_px(src, w, h, 0, 0, 0, 0, fill)) == src,
{
    let img = spec_image(w, h, spec_translate_px(src, w, h, 0, 0, 0, 0, fill));
    assert forall|i: int| 0 <= i < src.len() implies #[trigger] img[i] == src[i] by {
        lemma_decompose(i, w, h);
    }
    assert(img =~= src);
}

} // verus!
