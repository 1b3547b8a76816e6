//! Human-readable names of the transform operations, as shown in a
//! history list: fixed words with the operation's parameters written in
//! decimal (signed ones with an explicit sign) or, for colours, in
//! two-digit upper-case hexadecimal.
use vstd::prelude::*;
use vstd::string::StringExecFns;
use super::color::{Brightness, Contrast, Grayscale, InvertColors, Sepia};
use super::convolution::{ConvolutionFilter, Kernel};
use super::geometry::{
    Crop, MirrorHorizontal, MirrorVertical, Resize, RotateAny, RotateLeft, RotateRight, RotationInterpolation, Skew,
    Translate, TranslateMode,
};
use super::steganography::{EmbedSteganography, RemoveSteganography, StegConfig};

verus! {

/// The hexadecimal digit `d` (upper case), for `d < 16`.
pub open spec fn spec_digit(d: u8) -> Seq<char> {
    match d {
        0 => "0"@,
        1 => "1"@,
        2 => "2"@,
        3 => "3"@,
        4 => "4"@,
        5 => "5"@,
        6 => "6"@,
        7 => "7"@,
        8 => "8"@,
        9 => "9"@,
        10 => "A"@,
        11 => "B"@,
        12 => "C"@,
        13 => "D"@,
        14 => "E"@,
        _ => "F"@,
    }
}

/// `n` in decimal, without leading zeros.
pub open spec fn spec_decimal(n: nat) -> Seq<char>
    decreases n,
{
    if n < 10 {
        spec_digit(n as u8)
    } else {
        spec_decimal(n / 10) + spec_digit((n % 10) as u8)
    }
}

/// `v` in decimal with its sign always written: `+7`, `-12`, `+0`.
pub open spec fn spec_signed(v: int) -> Seq<char> {
    if v < 0 {
        "-"@ + spec_decimal((-v) as nat)
    } else {
        "+"@ + spec_decimal(v as nat)
    }
}

/// `v / 1000` with its sign and exactly three decimals: `+1.500`,
/// `-0.005`.
pub open spec fn spec_thousandths(v: int) -> Seq<char> {
    let a = if v < 0 {
        -v
    } else {
        v
    };
    (if v < 0 {
        "-"@
    } else {
        "+"@
    }) + spec_decimal((a / 1000) as nat) + "."@ + spec_digit(((a / 100) % 10) as u8) + spec_digit(
        ((a / 10) % 10) as u8,
    ) + spec_digit((a % 10) as u8)
}

/// `v / 10` with its sign and exactly one decimal: `+90.0`, `-12.5`,
/// `+0.0`.
pub open spec fn spec_tenths(v: int) -> Seq<char> {
    let a = if v < 0 {
        -v
    } else {
        v
    };
    (if v < 0 {
        "-"@
    } else {
        "+"@
    }) + spec_decimal((a / 10) as nat) + "."@ + spec_digit((a % 10) as u8)
}

/// A byte as two upper-case hexadecimal digits.
pub open spec fn spec_hex2(b: u8) -> Seq<char> {
    spec_digit(b / 16) + spec_digit(b % 16)
}

/// The hexadecimal digit `d`.
fn digit(d: u8) -> (r: &'static str)
    requires
        d < 16,
    ensures
        r@ == spec_digit(d),
{
    match d {
        0 => "0",
        1 => "1",
        2 => "2",
        3 => "3",
        4 => "4",
        5 => "5",
        6 => "6",
        7 => "7",
        8 => "8",
        9 => "9",
        10 => "A",
        11 => "B",
        12 => "C",
        13 => "D",
        14 => "E",
        _ => "F",
    }
}

/// Appends `n` in decimal.
fn push_decimal(s: &mut String, n: u64)
    ensures
        final(s)@ == old(s)@ + spec_decimal(n as nat),
    decreases n,
{
    if n >= 10 {
        push_decimal(s, n / 10);
        s.append(digit((n % 10) as u8));
        assert(s@ =~= old(s)@ + spec_decimal(n as nat));
    } else {
        s.append(digit(n as u8));
    }
}

/// Appends `v` in decimal with its sign.
fn push_signed(s: &mut String, v: i64)
    ensures
        final(s)@ == old(s)@ + spec_signed(v as int),
{
    if v < 0 {
        s.append("-");
        let a: u64 = if v == i64::MIN {
            0x8000_0000_0000_0000u64
        } else {
            (-v) as u64
        };
        push_decimal(s, a);
    } else {
        s.append("+");
        push_decimal(s, v as u64);
    }
    assert(s@ =~= old(s)@ + spec_signed(v as int));
}

/// Appends `v / 1000` with its sign and three decimals.
fn push_thousandths(s: &mut String, v: i32)
    ensures
        final(s)@ == old(s)@ + spec_thousandths(v as int),
{
    let a: u32 = if v < 0 {
        if v == i32::MIN {
            0x8000_0000u32
        } else {
            (-v) as u32
        }
    } else {
        v as u32
    };
    if v < 0 {
        s.append("-");
    } else {
        s.append("+");
    }
    push_decimal(s, (a / 1000) as u64);
    s.append(".");
    s.append(digit(((a / 100) % 10) as u8));
    s.append(digit(((a / 10) % 10) as u8));
    s.append(digit((a % 10) as u8));
    assert(s@ =~= old(s)@ + spec_thousandths(v as int));
}

/// Appends `v / 10` with its sign and one decimal.
fn push_tenths(s: &mut String, v: i32)
    ensures
        final(s)@ == old(s)@ + spec_tenths(v as int),
{
    let a: u32 = if v < 0 {
        if v == i32::MIN {
            0x8000_0000u32
        } else {
            (-v) as u32
        }
    } else {
        v as u32
    };
    if v < 0 {
        s.append("-");
    } else {
        s.append("+");
    }
    push_decimal(s, (a / 10) as u64);
    s.append(".");
    s.append(digit((a % 10) as u8));
    assert(s@ =~= old(s)@ + spec_tenths(v as int));
}

/// Appends a byte as two hexadecimal digits.
fn push_hex2(s: &mut String, b: u8)
    ensures
        final(s)@ == old(s)@ + spec_hex2(b),
{
    s.append(digit(b / 16));
    s.append(digit(b % 16));
    assert(s@ =~= old(s)@ + spec_hex2(b));
}

/// The four channel bit counts of a configuration: `R1G2B3A0`.
pub open spec fn spec_channels_label(c: StegConfig) -> Seq<char> {
    "R"@ + spec_decimal(c.r_bits as nat) + "G"@ + spec_decimal(c.g_bits as nat) + "B"@ + spec_decimal(
        c.b_bits as nat,
    ) + "A"@ + spec_decimal(c.a_bits as nat)
}

/// Appends the channel bit counts of a configuration.
fn push_channels(s: &mut String, c: StegConfig)
    ensures
        final(s)@ == old(s)@ + spec_channels_label(c),
{
    s.append("R");
    push_decimal(s, c.r_bits as u64);
    s.append("G");
    push_decimal(s, c.g_bits as u64);
    s.append("B");
    push_decimal(s, c.b_bits as u64);
    s.append("A");
    push_decimal(s, c.a_bits as u64);
    assert(s@ =~= old(s)@ + spec_channels_label(c));
}

impl RotationInterpolation {
    /// The filter's name.
    pub open spec fn spec_label(&self) -> Seq<char> {
        match *self {
            RotationInterpolation::Nearest => "Nearest"@,
            RotationInterpolation::Bilinear => "Bilinear"@,
            RotationInterpolation::Bicubic => "Bicubic"@,
        }
    }

    /// The filter's name.
    pub fn label(&self) -> (r: &'static str)
        ensures
            r@ == self.spec_label(),
    {
        match *self {
            RotationInterpolation::Nearest => "Nearest",
            RotationInterpolation::Bilinear => "Bilinear",
            RotationInterpolation::Bicubic => "Bicubic",
        }
    }
}

impl TranslateMode {
    /// The mode's name.
    pub open spec fn spec_label(&self) -> Seq<char> {
        match *self {
            TranslateMode::Crop => "Crop"@,
            TranslateMode::Expand => "Expand"@,
        }
    }

    /// The mode's name.
    pub fn label(&self) -> (r: &'static str)
        ensures
            r@ == self.spec_label(),
    {
        match *self {
            TranslateMode::Crop => "Crop",
            TranslateMode::Expand => "Expand",
        }
    }
}

/// The name of a canvas policy: `Expand` when the canvas grows, `Crop`
/// otherwise.
pub open spec fn spec_expand_label(expand: bool) -> Seq<char> {
    if expand {
        "Expand"@
    } else {
        "Crop"@
    }
}

impl RotateLeft {
    /// `Rotate Left`.
    pub fn label(&self) -> (r: String)
        ensures
            r@ == "Rotate Left"@,
    {
        String::from_str("Rotate Left")
    }
}

impl RotateRight {
    /// `Rotate Right`.
    pub fn label(&self) -> (r: String)
        ensures
            r@ == "Rotate Right"@,
    {
        String::from_str("Rotate Right")
    }
}

impl MirrorHorizontal {
    /// `Mirror Horizontal`.
    pub fn label(&self) -> (r: String)
        ensures
            r@ == "Mirror Horizontal"@,
    {
        String::from_str("Mirror Horizontal")
    }
}

impl MirrorVertical {
    /// `Mirror Vertical`.
    pub fn label(&self) -> (r: String)
        ensures
            r@ == "Mirror Vertical"@,
    {
        String::from_str("Mirror Vertical")
    }
}

impl InvertColors {
    /// `Invert Colors`.
    pub fn label(&self) -> (r: String)
        ensures
            r@ == "Invert Colors"@,
    {
        String::from_str("Invert Colors")
    }
}

impl Grayscale {
    /// `Grayscale`.
    pub fn label(&self) -> (r: String)
        ensures
            r@ == "Grayscale"@,
    {
        String::from_str("Grayscale")
    }
}

impl Sepia {
    /// `Sepia`.
    pub fn label(&self) -> (r: String)
        ensures
            r@ == "Sepia"@,
    {
        String::from_str("Sepia")
    }
}

impl Brightness {
    /// `Brightness` and the signed delta: `Brightness +10`.
    pub open spec fn spec_label(&self) -> Seq<char> {
        "Brightness "@ + spec_signed(self.delta as int)
    }

    /// `Brightness` and the signed delta.
    pub fn label(&self) -> (r: String)
        ensures
            r@ == self.spec_label(),
    {
        let mut s = String::from_str("Brightness ");
        push_signed(&mut s, self.delta as i64);
        s
    }
}

impl Contrast {
    /// `Contrast` and the signed delta: `Contrast -10`.
    pub open spec fn spec_label(&self) -> Seq<char> {
        "Contrast "@ + spec_signed(self.delta as int)
    }

    /// `Contrast` and the signed delta.
    pub fn label(&self) -> (r: String)
        ensures
            r@ == self.spec_label(),
    {
        let mut s = String::from_str("Contrast ");
        push_signed(&mut s, self.delta as i64);
        s
    }
}

impl ConvolutionFilter {
    /// The filter's name.
    pub open spec fn spec_label(&self) -> Seq<char> {
        match *self {
            ConvolutionFilter::Blur => "Blur"@,
            ConvolutionFilter::Sharpen => "Sharpen"@,
            ConvolutionFilter::EdgeDetect => "Edge Detect"@,
            ConvolutionFilter::Emboss => "Emboss"@,
        }
    }

    /// The filter's name.
    pub fn label(&self) -> (r: String)
        ensures
            r@ == self.spec_label(),
    {
        let name = match *self {
            ConvolutionFilter::Blur => "Blur",
            ConvolutionFilter::Sharpen => "Sharpen",
            ConvolutionFilter::EdgeDetect => "Edge Detect",
            ConvolutionFilter::Emboss => "Emboss",
        };
        String::from_str(name)
    }
}

impl Kernel {
    /// `Custom` and the kernel's size: `Custom 3x3`.
    pub open spec fn spec_label(&self) -> Seq<char> {
        "Custom "@ + spec_decimal(self.size as nat) + "x"@ + spec_decimal(self.size as nat)
    }

    /// `Custom` and the kernel's size.
    pub fn label(&self) -> (r: String)
        ensures
            r@ == self.spec_label(),
    {
        let mut s = String::from_str("Custom ");
        push_decimal(&mut s, self.size as u64);
        s.append("x");
        push_decimal(&mut s, self.size as u64);
        assert(s@ =~= self.spec_label());
        s
    }
}

impl Resize {
    /// The target size and filter: `Resize to 640x480 (Bilinear)`.
    pub open spec fn spec_label(&self) -> Seq<char> {
        "Resize to "@ + spec_decimal(self.width as nat) + "x"@ + spec_decimal(self.height as nat) + " ("@
            + self.interpolation.spec_label() + ")"@
    }

    /// The target size and filter.
    pub fn label(&self) -> (r: String)
        ensures
            r@ == self.spec_label(),
    {
        let mut s = String::from_str("Resize to ");
        push_decimal(&mut s, self.width as u64);
        s.append("x");
        push_decimal(&mut s, self.height as u64);
        s.append(" (");
        s.append(self.interpolation.label());
        s.append(")");
        assert(s@ =~= self.spec_label());
        s
    }
}

impl RotateAny {
    /// The angle in degrees with one decimal, the filter and the canvas
    /// policy: `Rotate -12.5 deg (Bilinear, Expand)`.
    pub open spec fn spec_label(&self) -> Seq<char> {
        "Rotate "@ + spec_tenths(self.angle_tenths as int) + " deg ("@ + self.interpolation.spec_label() + ", "@
            + spec_expand_label(self.expand) + ")"@
    }

    /// The angle, the filter and the canvas policy, for angles within ten
    /// full turns.
    pub fn label(&self) -> (r: String)
        requires
            -36000 <= self.angle_tenths <= 36000,
        ensures
            r@ == self.spec_label(),
    {
        let mut s = String::from_str("Rotate ");
        push_tenths(&mut s, self.angle_tenths);
        s.append(" deg (");
        s.append(self.interpolation.label());
        s.append(", ");
        if self.expand {
            s.append("Expand");
        } else {
            s.append("Crop");
        }
        s.append(")");
        assert(s@ =~= self.spec_label());
        s
    }
}

impl Skew {
    /// The two shear factors with three decimals, the filter and the
    /// canvas policy: `Skew x=+0.250, y=-0.100 (Nearest, Crop)`.
    pub open spec fn spec_label(&self) -> Seq<char> {
        "Skew x="@ + spec_thousandths(self.x_milli as int) + ", y="@ + spec_thousandths(self.y_milli as int)
            + " ("@ + self.interpolation.spec_label() + ", "@ + spec_expand_label(self.expand) + ")"@
    }

    /// The two shear factors, the filter and the canvas policy.
    pub fn label(&self) -> (r: String)
        ensures
            r@ == self.spec_label(),
    {
        let mut s = String::from_str("Skew x=");
        push_thousandths(&mut s, self.x_milli as i32);
        s.append(", y=");
        push_thousandths(&mut s, self.y_milli as i32);
        s.append(" (");
        s.append(self.interpolation.label());
        s.append(", ");
        if self.expand {
            s.append("Expand");
        } else {
            s.append("Crop");
        }
        s.append(")");
        assert(s@ =~= self.spec_label());
        s
    }
}

impl Translate {
    /// The signed offsets, the mode and the fill colour in hexadecimal:
    /// `Translate dx=-12, dy=+7 (Expand, fill #10203040)`.
    pub open spec fn spec_label(&self) -> Seq<char> {
        "Translate dx="@ + spec_signed(self.dx as int) + ", dy="@ + spec_signed(self.dy as int) + " ("@
            + self.mode.spec_label() + ", fill #"@ + spec_hex2(self.fill[0]) + spec_hex2(self.fill[1])
            + spec_hex2(self.fill[2]) + spec_hex2(self.fill[3]) + ")"@
    }

    /// The signed offsets, the mode and the fill colour.
    pub fn label(&self) -> (r: String)
        ensures
            r@ == self.spec_label(),
    {
        let mut s = String::from_str("Translate dx=");
        push_signed(&mut s, self.dx as i64);
        s.append(", dy=");
        push_signed(&mut s, self.dy as i64);
        s.append(" (");
        s.append(self.mode.label());
        s.append(", fill #");
        push_hex2(&mut s, self.fill[0]);
        push_hex2(&mut s, self.fill[1]);
        push_hex2(&mut s, self.fill[2]);
        push_hex2(&mut s, self.fill[3]);
        s.append(")");
        assert(s@ =~= self.spec_label());
        s
    }
}

impl Crop {
    /// The origin and size: `Crop x=12, y=7, 100x80`.
    pub open spec fn spec_label(&self) -> Seq<char> {
        "Crop x="@ + spec_decimal(self.x as nat) + ", y="@ + spec_decimal(self.y as nat) + ", "@ + spec_decimal(
            self.width as nat,
        ) + "x"@ + spec_decimal(self.height as nat)
    }

    /// The origin and size.
    pub fn label(&self) -> (r: String)
        ensures
            r@ == self.spec_label(),
    {
        let mut s = String::from_str("Crop x=");
        push_decimal(&mut s, self.x as u64);
        s.append(", y=");
        push_decimal(&mut s, self.y as u64);
        s.append(", ");
        push_decimal(&mut s, self.width as u64);
        s.append("x");
        push_decimal(&mut s, self.height as u64);
        assert(s@ =~= self.spec_label());
        s
    }
}

impl EmbedSteganography {
    /// The payload size and channel bits:
    /// `Embed Steganography (5 bytes, R1G1B1A0)`.
    pub open spec fn spec_label(&self) -> Seq<char> {
        "Embed Steganography ("@ + spec_decimal(self.payload@.len()) + " bytes, "@ + spec_channels_label(
            self.config,
        ) + ")"@
    }

    /// The payload size and channel bits.
    pub fn label(&self) -> (r: String)
        ensures
            r@ == self.spec_label(),
    {
        let mut s = String::from_str("Embed Steganography (");
        push_decimal(&mut s, self.payload.len() as u64);
        s.append(" bytes, ");
        push_channels(&mut s, self.config);
        s.append(")");
        assert(s@ =~= self.spec_label());
        s
    }
}

impl RemoveSteganography {
    /// The channel bits: `Remove Steganography (R1G1B1A0)`.
    pub open spec fn spec_label(&self) -> Seq<char> {
        "Remove Steganography ("@ + spec_channels_label(self.config) + ")"@
    }

    /// The channel bits.
    pub fn label(&self) -> (r: String)
        ensures
            r@ == self.spec_label(),
    {
        let mut s = String::from_str("Remove Steganography (");
        push_channels(&mut s, self.config);
        s.append(")");
        assert(s@ =~= self.spec_label());
        s
    }
}

} // verus!
