//! Colour transforms. Inverting and brightening work on each colour byte
//! of each whole pixel alone and are verified here; grayscale, sepia and
//! contrast weigh channels by real factors and are described by their
//! parameters and cost.
use vstd::prelude::*;
use crate::runtime::decode::DecodedImage;
use super::model::ImageTransform;

verus! {

/// Colour channels inverted; alpha kept.
#[derive(Debug, Clone, Copy, PartialEq, Eq, Hash, Structural)]
pub struct InvertColors;

/// Rec. 601 luma in the colour channels.
#[derive(Debug, Clone, Copy, PartialEq, Eq, Hash, Structural)]
pub struct Grayscale;

/// The classic sepia tone matrix.
#[derive(Debug, Clone, Copy, PartialEq, Eq, Hash, Structural)]
pub struct Sepia;

/// `delta` added to each colour channel, clamped to `0..=255`.
#[derive(Debug, Clone, Copy, PartialEq, Eq, Hash, Structural)]
pub struct Brightness {
    pub delta: i16,
}

/// Contrast scaled by `delta` around the middle grey.
#[derive(Debug, Clone, Copy, PartialEq, Eq, Hash, Structural)]
pub struct Contrast {
    pub delta: i16,
}

impl InvertColors {
    /// Undone by itself.
    pub fn inverse(&self) -> (r: Option<ImageTransform>)
        ensures
            r == Some(ImageTransform::InvertColors(InvertColors)),
    {
        Some(ImageTransform::InvertColors(InvertColors))
    }
}

/// Byte `i` lies in a colour channel (not alpha) of a whole pixel of a
/// buffer of `len` bytes.
pub open spec fn spec_is_colour_byte(len: int, i: int) -> bool {
    i < (len / 4) * 4 && i % 4 < 3
}

/// The colour bytes of whole pixels inverted (`255 - c`), every other
/// byte kept.
pub open spec fn spec_invert(src: Seq<u8>) -> Seq<u8> {
    Seq::new(
        src.len(),
        |i: int|
            if spec_is_colour_byte(src.len() as int, i) {
                (255 - src[i]) as u8
            } else {
                src[i]
            },
    )
}

/// `c + delta` clamped to `0..=255`.
pub open spec fn spec_add_clamped(c: u8, delta: i16) -> u8 {
    let v = c + delta;
    if v < 0 {
        0
    } else if v > 255 {
        255
    } else {
        v as u8
    }
}

/// The colour bytes of whole pixels shifted by `delta` and clamped, every
/// other byte kept.
pub open spec fn spec_brightness(src: Seq<u8>, delta: i16) -> Seq<u8> {
    Seq::new(
        src.len(),
        |i: int|
            if spec_is_colour_byte(src.len() as int, i) {
                spec_add_clamped(src[i], delta)
            } else {
                src[i]
            },
    )
}

/// `c + delta` clamped to `0..=255`.
fn add_clamped(c: u8, delta: i16) -> (r: u8)
    ensures
        r == spec_add_clamped(c, delta),
{
    let v: i32 = c as i32 + delta as i32;
    if v < 0 {
        0
    } else if v > 255 {
        255
    } else {
        v as u8
    }
}

/// Inverts the colour channels of every whole pixel: each becomes
/// `255 - c`; alpha is kept.
pub fn invert_colors(image: &DecodedImage) -> (r: DecodedImage)
    ensures
        r.width == image.width,
        r.height == image.height,
        r.rgba@ == spec_invert(image.rgba@),
{
    let mut out = crate::runtime::encode::copy_bytes(image.rgba());
    let len = out.len();
    let ghost src = image.rgba@;
    let whole = len / 4 * 4;
    let mut i: usize = 0;
    while i < whole
        invariant
            src == image.rgba@,
            len == src.len(),
            whole == (len / 4) * 4,
            out@.len() == len,
            i % 4 == 0,
            i <= (len / 4) * 4,
            forall|j: int| 0 <= j < i ==> out@[j] == spec_invert(src)[j],
            forall|j: int| i <= j < len ==> out@[j] == src[j],
        decreases len - i,
    {
        let r = out[i];
        out.set(i, 255 - r);
        let g = out[i + 1];
        out.set(i + 1, 255 - g);
        let b = out[i + 2];
        out.set(i + 2, 255 - b);
        i += 4;
    }
    proof {
        assert(out@ =~= spec_invert(src));
    }
    DecodedImage { width: image.width, height: image.height, rgba: out }
}

/// Adds `delta` to the colour channels of every whole pixel, clamping to
/// `0..=255`; alpha is kept.
pub fn brightness(image: &DecodedImage, delta: i16) -> (r: DecodedImage)
    ensures
        r.width == image.width,
        r.height == image.height,
        r.rgba@ == spec_brightness(image.rgba@, delta),
{
    let mut out = crate::runtime::encode::copy_bytes(image.rgba());
    let len = out.len();
    let ghost src = image.rgba@;
    let whole = len / 4 * 4;
    let mut i: usize = 0;
    while i < whole
        invariant
            src == image.rgba@,
            len == src.len(),
            whole == (len / 4) * 4,
            out@.len() == len,
            i % 4 == 0,
            i <= (len / 4) * 4,
            forall|j: int| 0 <= j < i ==> out@[j] == spec_brightness(src, delta)[j],
            forall|j: int| i <= j < len ==> out@[j] == src[j],
        decreases len - i,
    {
        let r = add_clamped(out[i], delta);
        out.set(i, r);
        let g = add_clamped(out[i + 1], delta);
        out.set(i + 1, g);
        let b = add_clamped(out[i + 2], delta);
        out.set(i + 2, b);
        i += 4;
    }
    proof {
        assert(out@ =~= spec_brightness(src, delta));
    }
    DecodedImage { width: image.width, height: image.height, rgba: out }
}

/// Inverting twice gives the image back.
pub proof fn lemma_invert_twice(src: Seq<u8>)
    ensures
        spec_invert(spec_invert(src)) == src,
{
    assert(spec_invert(spec_invert(src)) =~= src);
}

/// A brightness change of 0 keeps the image.
pub proof fn lemma_brightness_zero(src: Seq<u8>)
    ensures
        spec_brightness(src, 0) == src,
{
    assert(spec_brightness(src, 0) =~= src);
}

} // verus!
