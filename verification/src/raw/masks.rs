//! Bitfield color masks and their validation.
use vstd::prelude::*;
use vstd::std_specs::bits::u32_trailing_zeros;

use crate::raw::error::ColorMaskError;
use crate::raw::types::BitsPerPixel;

verus! {

/// Identifies which color channel a bitmask corresponds to.
#[derive(Debug, Clone, Copy, PartialEq, Eq, Structural)]
pub enum ColorMaskChannel {
    Red,
    Green,
    Blue,
    Alpha,
}

impl ColorMaskChannel {
    /// The lower-case name of the channel.
    pub open spec fn spec_name(self) -> Seq<char> {
        match self {
            ColorMaskChannel::Red => "red"@,
            ColorMaskChannel::Green => "green"@,
            ColorMaskChannel::Blue => "blue"@,
            ColorMaskChannel::Alpha => "alpha"@,
        }
    }

    /// The lower-case name of the channel.
    pub fn name(self) -> (r: &'static str)
        ensures
            r@ == self.spec_name(),
    {
        match self {
            ColorMaskChannel::Red => "red",
            ColorMaskChannel::Green => "green",
            ColorMaskChannel::Blue => "blue",
            ColorMaskChannel::Alpha => "alpha",
        }
    }
}

/// A mask paired with the channel it selects.
pub type ChannelMask = (u32, ColorMaskChannel);

/// A mask is contiguous when it is non-zero and its set bits form a single
/// run: shifted down to bit 0, it is of the form `0..01..1`.
pub open spec fn spec_contiguous(mask: u32) -> bool {
    let s = mask >> u32_trailing_zeros(mask);
    mask != 0 && (s == u32::MAX || s & ((s + 1) as u32) == 0)
}

/// Returns `true` if `mask` is non-zero and its set bits form one run.
pub fn check_bitmask_contiguous(mask: u32) -> (r: bool)
    ensures
        r == spec_contiguous(mask),
{
    if mask == 0 {
        return false;
    }
    let shifted = mask >> mask.trailing_zeros();
    if shifted == u32::MAX {
        return true;
    }
    (shifted & (shifted + 1)) == 0
}

/// The first index, from `i` on, of a non-zero mask that is not contiguous.
pub open spec fn spec_first_noncontiguous(s: Seq<ChannelMask>, i: int) -> Option<int>
    decreases s.len() - i,
{
    if i >= s.len() || i < 0 {
        None
    } else if s[i].0 != 0 && !spec_contiguous(s[i].0) {
        Some(i)
    } else {
        spec_first_noncontiguous(s, i + 1)
    }
}

/// The first pair `(i, j)` with `i < j`, in lexicographic order from `(i, j)`
/// on, whose masks share a bit.
pub open spec fn spec_first_overlap(s: Seq<ChannelMask>, i: int, j: int) -> Option<(int, int)>
    decreases s.len() - i, s.len() - j,
{
    if i >= s.len() || i < 0 {
        None
    } else if j >= s.len() {
        spec_first_overlap(s, i + 1, i + 2)
    } else if j <= i {
        None
    } else if s[i].0 & s[j].0 != 0 {
        Some((i, j))
    } else {
        spec_first_overlap(s, i, j + 1)
    }
}

/// Returns the first pair of masks that share at least one bit.
pub fn find_overlapping_masks(masks: &[ChannelMask]) -> (r: Option<(u32, ColorMaskChannel, u32, ColorMaskChannel)>)
    ensures
        match spec_first_overlap(masks@, 0, 1) {
            None => r is None,
            Some((i, j)) => r == Some((masks@[i].0, masks@[i].1, masks@[j].0, masks@[j].1)),
        },
{
    let n = masks.len();
    let mut i: usize = 0;
    while i < n
        invariant
            n == masks@.len(),
            i <= n,
            spec_first_overlap(masks@, 0, 1) == spec_first_overlap(masks@, i as int, i as int + 1),
        decreases n - i,
    {
        let mut j: usize = i + 1;
        while j < n
            invariant
                n == masks@.len(),
                i < n,
                i < j <= n,
                spec_first_overlap(masks@, 0, 1) == spec_first_overlap(masks@, i as int, j as int),
            decreases n - j,
        {
            let (mask_a, channel_a) = masks[i];
            let (mask_b, channel_b) = masks[j];
            if mask_a & mask_b != 0 {
                return Some((mask_a, channel_a, mask_b, channel_b));
            }
            j += 1;
        }
        i += 1;
    }
    None
}

/// The outcome of structural mask validation: the first non-zero,
/// non-contiguous mask is reported; otherwise the first overlapping pair.
pub open spec fn spec_validate_masks(s: Seq<ChannelMask>) -> Result<(), ColorMaskError> {
    match spec_first_noncontiguous(s, 0) {
        Some(i) => Err(ColorMaskError::NonContiguous { mask: s[i].0, channel: s[i].1 }),
        None => match spec_first_overlap(s, 0, 1) {
            Some((i, j)) => Err(
                ColorMaskError::Overlapping {
                    mask_a: s[i].0,
                    channel_a: s[i].1,
                    mask_b: s[j].0,
                    channel_b: s[j].1,
                },
            ),
            None => Ok(()),
        },
    }
}

/// Validates that each non-zero mask is contiguous and that no two overlap.
pub fn validate_masks(masks: &[ChannelMask]) -> (r: Result<(), ColorMaskError>)
    ensures
        r == spec_validate_masks(masks@),
{
    let n = masks.len();
    let mut i: usize = 0;
    while i < n
        invariant
            n == masks@.len(),
            i <= n,
            spec_first_noncontiguous(masks@, 0) == spec_first_noncontiguous(masks@, i as int),
        decreases n - i,
    {
        let (mask, channel) = masks[i];
        if mask != 0 && !check_bitmask_contiguous(mask) {
            return Err(ColorMaskError::NonContiguous { mask, channel });
        }
        i += 1;
    }
    match find_overlapping_masks(masks) {
        Some((mask_a, channel_a, mask_b, channel_b)) => Err(
            ColorMaskError::Overlapping { mask_a, channel_a, mask_b, channel_b },
        ),
        None => Ok(()),
    }
}

/// The mask of all bits a pixel of `bit_count` bits can hold (capped at 32).
pub open spec fn spec_pixel_mask(bit_count: u16) -> u32 {
    if bit_count == 0 {
        0
    } else if bit_count >= 32 {
        u32::MAX
    } else {
        u32::MAX >> ((32 - bit_count) as u32)
    }
}

/// The first index, from `i` on, of a mask with bits outside `pixel_mask`.
pub open spec fn spec_first_exceeding(s: Seq<ChannelMask>, pixel_mask: u32, i: int) -> Option<int>
    decreases s.len() - i,
{
    if i >= s.len() || i < 0 {
        None
    } else if s[i].0 & !pixel_mask != 0 {
        Some(i)
    } else {
        spec_first_exceeding(s, pixel_mask, i + 1)
    }
}

/// The outcome of validating masks against a bit depth: structural errors
/// first, then the first mask with bits beyond the pixel width.
pub open spec fn spec_validate_masks_for_bpp(s: Seq<ChannelMask>, bpp: BitsPerPixel) -> Result<(), ColorMaskError> {
    match spec_validate_masks(s) {
        Err(e) => Err(e),
        Ok(()) => match spec_first_exceeding(s, spec_pixel_mask(bpp.spec_bit_count()), 0) {
            Some(i) => Err(ColorMaskError::ExceedsBitDepth { mask: s[i].0, channel: s[i].1, bpp }),
            None => Ok(()),
        },
    }
}

/// Validates masks structurally and against the pixel bit depth `bpp`.
pub fn validate_masks_for_bpp(masks: &[ChannelMask], bpp: BitsPerPixel) -> (r: Result<(), ColorMaskError>)
    ensures
        r == spec_validate_masks_for_bpp(masks@, bpp),
{
    let structural = validate_masks(masks);
    if let Err(e) = structural {
        return Err(e);
    }
    let bit_count = bpp.bit_count();
    let pixel_mask: u32 = if bit_count == 0 {
        0
    } else if bit_count >= 32 {
        u32::MAX
    } else {
        u32::MAX >> ((32 - bit_count) as u32)
    };
    let n = masks.len();
    let mut i: usize = 0;
    while i < n
        invariant
            n == masks@.len(),
            i <= n,
            pixel_mask == spec_pixel_mask(bpp.spec_bit_count()),
            spec_validate_masks(masks@) == Ok::<(), ColorMaskError>(()),
            spec_first_exceeding(masks@, pixel_mask, 0) == spec_first_exceeding(masks@, pixel_mask, i as int),
        decreases n - i,
    {
        let (mask, channel) = masks[i];
        assert(masks@[i as int].0 == mask && masks@[i as int].1 == channel);
        if mask & !pixel_mask != 0 {
            return Err(ColorMaskError::ExceedsBitDepth { mask, channel, bpp });
        }
        i += 1;
    }
    Ok(())
}

/// A bitfield mask layout, either RGB or RGBA.
#[derive(Debug, Clone, Copy, PartialEq, Eq, Structural)]
pub enum ColorMasks {
    /// Red, green and blue masks.
    Rgb(RgbMasks),
    /// Red, green, blue and alpha masks.
    Rgba(RgbaMasks),
}

/// Bitfield channel masks without alpha.
#[derive(Debug, Clone, Copy, PartialEq, Eq, Structural)]
pub struct RgbMasks {
    pub red_mask: u32,
    pub green_mask: u32,
    pub blue_mask: u32,
}

/// Bitfield channel masks with alpha.
#[derive(Debug, Clone, Copy, PartialEq, Eq, Structural)]
pub struct RgbaMasks {
    pub red_mask: u32,
    pub green_mask: u32,
    pub blue_mask: u32,
    pub alpha_mask: u32,
}

impl RgbMasks {
    /// The masks paired with their channels, in red, green, blue order.
    pub open spec fn spec_channels(self) -> Seq<ChannelMask> {
        seq![
            (self.red_mask, ColorMaskChannel::Red),
            (self.green_mask, ColorMaskChannel::Green),
            (self.blue_mask, ColorMaskChannel::Blue),
        ]
    }

    /// The masks paired with their channels.
    pub fn as_slice(&self) -> (r: [ChannelMask; 3])
        ensures
            r@ == self.spec_channels(),
    {
        let r = [
            (self.red_mask, ColorMaskChannel::Red),
            (self.green_mask, ColorMaskChannel::Green),
            (self.blue_mask, ColorMaskChannel::Blue),
        ];
        assert(r@ =~= self.spec_channels());
        r
    }

    /// Validates these masks against the bit depth `bpp`.
    pub fn validate_for_bpp(&self, bpp: BitsPerPixel) -> (r: Result<(), ColorMaskError>)
        ensures
            r == spec_validate_masks_for_bpp(self.spec_channels(), bpp),
    {
        let arr = self.as_slice();
        validate_masks_for_bpp(&arr, bpp)
    }

    /// The same masks with a zero alpha mask.
    pub open spec fn spec_to_rgba(self) -> RgbaMasks {
        RgbaMasks {
            red_mask: self.red_mask,
            green_mask: self.green_mask,
            blue_mask: self.blue_mask,
            alpha_mask: 0,
        }
    }

    /// Widens to RGBA masks with a zero alpha mask.
    pub(crate) fn to_rgba(self) -> (r: RgbaMasks)
        ensures
            r == self.spec_to_rgba(),
    {
        RgbaMasks {
            red_mask: self.red_mask,
            green_mask: self.green_mask,
            blue_mask: self.blue_mask,
            alpha_mask: 0,
        }
    }

    /// The default RGB555 masks of 16-bit `BI_RGB` bitmaps.
    pub fn rgb555() -> (r: Self)
        ensures
            r == (RgbMasks { red_mask: 0x7C00, green_mask: 0x03E0, blue_mask: 0x001F }),
    {
        RgbMasks { red_mask: 0x0000_7C00, green_mask: 0x0000_03E0, blue_mask: 0x0000_001F }
    }

    /// The RGB565 masks commonly used with 16-bit `BI_BITFIELDS` bitmaps.
    pub fn rgb565() -> (r: Self)
        ensures
            r == (RgbMasks { red_mask: 0xF800, green_mask: 0x07E0, blue_mask: 0x001F }),
    {
        RgbMasks { red_mask: 0x0000_F800, green_mask: 0x0000_07E0, blue_mask: 0x0000_001F }
    }

    /// The default RGB888 masks of 32-bit `BI_RGB` bitmaps.
    pub fn rgb888() -> (r: Self)
        ensures
            r == (RgbMasks { red_mask: 0x00FF_0000, green_mask: 0x0000_FF00, blue_mask: 0x0000_00FF }),
    {
        RgbMasks { red_mask: 0x00FF_0000, green_mask: 0x0000_FF00, blue_mask: 0x0000_00FF }
    }
}

impl RgbaMasks {
    /// The masks paired with their channels, in red, green, blue, alpha order.
    pub open spec fn spec_channels(self) -> Seq<ChannelMask> {
        seq![
            (self.red_mask, ColorMaskChannel::Red),
            (self.green_mask, ColorMaskChannel::Green),
            (self.blue_mask, ColorMaskChannel::Blue),
            (self.alpha_mask, ColorMaskChannel::Alpha),
        ]
    }

    /// The masks paired with their channels.
    pub fn as_slice(&self) -> (r: [ChannelMask; 4])
        ensures
            r@ == self.spec_channels(),
    {
        let r = [
            (self.red_mask, ColorMaskChannel::Red),
            (self.green_mask, ColorMaskChannel::Green),
            (self.blue_mask, ColorMaskChannel::Blue),
            (self.alpha_mask, ColorMaskChannel::Alpha),
        ];
        assert(r@ =~= self.spec_channels());
        r
    }

    /// Validates these masks against the bit depth `bpp`.
    pub fn validate_for_bpp(&self, bpp: BitsPerPixel) -> (r: Result<(), ColorMaskError>)
        ensures
            r == spec_validate_masks_for_bpp(self.spec_channels(), bpp),
    {
        let arr = self.as_slice();
        validate_masks_for_bpp(&arr, bpp)
    }

    /// The same masks without the alpha mask.
    pub open spec fn spec_to_rgb(self) -> RgbMasks {
        RgbMasks { red_mask: self.red_mask, green_mask: self.green_mask, blue_mask: self.blue_mask }
    }

    /// Drops the alpha mask.
    pub(crate) fn to_rgb(self) -> (r: RgbMasks)
        ensures
            r == self.spec_to_rgb(),
    {
        RgbMasks { red_mask: self.red_mask, green_mask: self.green_mask, blue_mask: self.blue_mask }
    }
}


impl From<RgbMasks> for RgbaMasks {
    /// Widens to RGBA masks with a zero alpha mask.
    fn from(value: RgbMasks) -> (r: RgbaMasks) {
        value.to_rgba()
    }
}

impl vstd::std_specs::convert::FromSpecImpl<RgbMasks> for RgbaMasks {
    open spec fn obeys_from_spec() -> bool {
        true
    }

    open spec fn from_spec(v: RgbMasks) -> RgbaMasks {
        v.spec_to_rgba()
    }
}

impl From<RgbaMasks> for RgbMasks {
    /// Drops the alpha mask.
    fn from(value: RgbaMasks) -> (r: RgbMasks) {
        value.to_rgb()
    }
}

impl vstd::std_specs::convert::FromSpecImpl<RgbaMasks> for RgbMasks {
    open spec fn obeys_from_spec() -> bool {
        true
    }

    open spec fn from_spec(v: RgbaMasks) -> RgbMasks {
        v.spec_to_rgb()
    }
}

} // verus!
