//! LSB steganography: embedding and extracting byte payloads in the low
//! bits of image channels.
//!
//! A payload is preceded by an 80-bit header stored with the same channel
//! configuration it describes: the magic "STEG" (32 bits), a 3-bit version
//! (0), the 13-bit base-9 channel configuration `r + 9g + 81b + 729a`, and
//! the payload length in bytes (32 bits). Values are stored least
//! significant bit first. Bits are visited pixel by pixel (row-major), in
//! red, green, blue, alpha order within a pixel, low bit first within a
//! channel, skipping channels configured with zero bits.
use vstd::prelude::*;
use vstd::arithmetic::div_mod::lemma_fundamental_div_mod_converse;
use crate::runtime::decode::DecodedImage;

verus! {

/// Per-channel LSB depths: 0 skips a channel, 1 to 8 use that many low
/// bits of it.
#[derive(Debug, Clone, Copy, PartialEq, Eq, Hash, Structural)]
pub struct StegConfig {
    pub r_bits: u8,
    pub g_bits: u8,
    pub b_bits: u8,
    pub a_bits: u8,
}

/// The metadata of a detected header.
#[derive(Debug, Clone, Copy, PartialEq, Eq, Structural)]
pub struct StegInfo {
    pub config: StegConfig,
    pub version: u8,
    pub payload_len: u32,
}

/// Reasons why embedding or extraction fails.
#[derive(Debug, Clone, Copy, PartialEq, Eq)]
pub enum StegError {
    /// The image cannot hold the header and payload.
    InsufficientCapacity { required: u64, capacity: u64 },
    /// No header was found.
    NotFound,
    /// The header's payload length exceeds the image capacity.
    PayloadTooLarge { payload_len: u32 },
    /// The header's version is not 0.
    UnsupportedVersion(u8),
    /// All channels are configured with 0 bits.
    NoChannels,
    /// A size computation overflowed.
    ArithmeticOverflow(&'static str),
}

/// An operation that hides a payload in an image.
#[derive(Debug, Clone, PartialEq, Eq, Hash)]
pub struct EmbedSteganography {
    pub config: StegConfig,
    pub payload: Vec<u8>,
}

/// An operation that clears a hidden payload from an image.
#[derive(Debug, Clone, Copy, PartialEq, Eq, Hash, Structural)]
pub struct RemoveSteganography {
    pub config: StegConfig,
}

/// Number of bits in the header.
pub const HEADER_BITS: u64 = 80;

/// The magic "STEG" read as a little-endian `u32`.
pub const MAGIC: u32 = 0x4745_5453;

impl StegConfig {
    /// Every channel uses at most 8 bits.
    pub open spec fn spec_valid(self) -> bool {
        self.r_bits <= 8 && self.g_bits <= 8 && self.b_bits <= 8 && self.a_bits <= 8
    }

    /// Bits carried per pixel.
    pub open spec fn spec_bits_per_pixel(self) -> int {
        self.r_bits + self.g_bits + self.b_bits + self.a_bits
    }

    /// Total bits contributed by this configuration per pixel.
    pub fn bits_per_pixel(self) -> (r: u8)
        requires
            self.spec_bits_per_pixel() <= 255,
        ensures
            r == self.spec_bits_per_pixel(),
    {
        self.r_bits + self.g_bits + self.b_bits + self.a_bits
    }

    /// The steganography capacity of a `width * height` image in bits,
    /// header included, saturating at `u64::MAX`.
    pub open spec fn spec_total_bits(self, width: u32, height: u32) -> int {
        let t = width as int * height as int * self.spec_bits_per_pixel();
        if t > u64::MAX {
            u64::MAX as int
        } else {
            t
        }
    }

    /// Total bits available in a `width * height` image, header included.
    pub fn total_bits(self, width: u32, height: u32) -> (r: u64)
        requires
            self.spec_bits_per_pixel() <= 255,
        ensures
            r == self.spec_total_bits(width, height),
    {
        let w = width as u64;
        let h = height as u64;
        assert(w * h <= 0xFFFF_FFFE_0000_0001u64) by (nonlinear_arith)
            requires
                w <= 0xFFFF_FFFF,
                h <= 0xFFFF_FFFF,
        ;
        let pixels = w * h;
        match pixels.checked_mul(self.bits_per_pixel() as u64) {
            Some(t) => t,
            None => u64::MAX,
        }
    }

    /// The largest payload in bytes that fits beside the header in a
    /// `width * height` image; 0 if even the header does not fit.
    pub fn capacity_bytes(self, width: u32, height: u32) -> (r: u64)
        requires
            self.spec_bits_per_pixel() <= 255,
        ensures
            r == (if self.spec_total_bits(width, height) < 80 {
                0
            } else {
                (self.spec_total_bits(width, height) - 80) / 8
            }),
    {
        let total = self.total_bits(width, height);
        if total < HEADER_BITS {
            0
        } else {
            (total - HEADER_BITS) / 8
        }
    }

    /// The base-9 code `r + 9g + 81b + 729a` of a valid configuration.
    pub open spec fn spec_code(self) -> int {
        self.r_bits + 9 * self.g_bits + 81 * self.b_bits + 729 * self.a_bits
    }

    /// Encodes the four channel depths as a base-9 integer below 6561.
    pub fn encode_config_bits(self) -> (r: u16)
        requires
            self.spec_valid(),
        ensures
            r == self.spec_code(),
            r < 6561,
    {
        self.r_bits as u16 + self.g_bits as u16 * 9 + self.b_bits as u16 * 81 + self.a_bits as u16 * 729
    }

    /// The configuration with base-9 code `raw`, if `raw < 6561`.
    pub open spec fn spec_decode(raw: u16) -> Option<StegConfig> {
        if raw >= 6561 {
            None
        } else {
            Some(
                StegConfig {
                    r_bits: (raw % 9) as u8,
                    g_bits: ((raw / 9) % 9) as u8,
                    b_bits: ((raw / 81) % 9) as u8,
                    a_bits: (raw / 729) as u8,
                },
            )
        }
    }

    /// Decodes a base-9 channel configuration; `None` for `raw >= 6561`.
    pub fn decode_config_bits(raw: u16) -> (r: Option<StegConfig>)
        ensures
            r == Self::spec_decode(raw),
            r is Some ==> r->0.spec_valid() && r->0.spec_code() == raw,
    {
        if raw >= 6561 {
            return None;
        }
        proof {
            lemma_code_config_roundtrip(raw);
        }
        let r = (raw % 9) as u8;
        let g = ((raw / 9) % 9) as u8;
        let b = ((raw / 81) % 9) as u8;
        let a = (raw / 729) as u8;
        if r > 8 || g > 8 || b > 8 || a > 8 {
            return None;
        }
        Some(StegConfig { r_bits: r, g_bits: g, b_bits: b, a_bits: a })
    }
}

/// Encoding a valid configuration and decoding the code gives it back.
pub proof fn lemma_config_code_roundtrip(config: StegConfig)
    requires
        config.spec_valid(),
    ensures
        0 <= config.spec_code() < 6561,
        StegConfig::spec_decode(config.spec_code() as u16) == Some(config),
{
    let r = config.r_bits as int;
    let g = config.g_bits as int;
    let b = config.b_bits as int;
    let a = config.a_bits as int;
    let raw = config.spec_code();
    lemma_base9_digits(raw, r, g, b, a);
}

/// The base-9 digits of `r + 9g + 81b + 729a` for digits below 9.
proof fn lemma_base9_digits(raw: int, r: int, g: int, b: int, a: int)
    requires
        0 <= r < 9,
        0 <= g < 9,
        0 <= b < 9,
        0 <= a < 9,
        raw == r + 9 * g + 81 * b + 729 * a,
    ensures
        0 <= raw < 6561,
        raw % 9 == r,
        (raw / 9) % 9 == g,
        (raw / 81) % 9 == b,
        raw / 729 == a,
{
    lemma_fundamental_div_mod_converse(raw, 9, g + 9 * b + 81 * a, r);
    lemma_fundamental_div_mod_converse(raw / 9, 9, b + 9 * a, g);
    lemma_fundamental_div_mod_converse(raw, 81, b + 9 * a, r + 9 * g);
    lemma_fundamental_div_mod_converse(raw / 81, 9, a, b);
    lemma_fundamental_div_mod_converse(raw, 729, a, r + 9 * g + 81 * b);
}

/// Every code below 6561 decodes to a valid configuration that encodes
/// back to it.
pub proof fn lemma_code_config_roundtrip(raw: u16)
    requires
        raw < 6561,
    ensures
        StegConfig::spec_decode(raw) is Some,
        StegConfig::spec_decode(raw)->0.spec_valid(),
        StegConfig::spec_decode(raw)->0.spec_code() == raw,
{
    let x = raw as int;
    let r = x % 9;
    let q1 = x / 9;
    let g = q1 % 9;
    let q2 = q1 / 9;
    let b = q2 % 9;
    let a = q2 / 9;
    vstd::arithmetic::div_mod::lemma_fundamental_div_mod(x, 9);
    vstd::arithmetic::div_mod::lemma_fundamental_div_mod(q1, 9);
    vstd::arithmetic::div_mod::lemma_fundamental_div_mod(q2, 9);
    assert(x == r + 9 * g + 81 * b + 729 * a);
    assert(0 <= a < 9);
    lemma_base9_digits(x, r, g, b, a);
}

// -----------------------------------------------------------------------------
// The bit stream
// -----------------------------------------------------------------------------

/// Bits of channel `c` (0 red, 1 green, 2 blue, 3 alpha).
pub open spec fn spec_channel_bits(config: StegConfig, c: int) -> int {
    if c == 0 {
        config.r_bits as int
    } else if c == 1 {
        config.g_bits as int
    } else if c == 2 {
        config.b_bits as int
    } else if c == 3 {
        config.a_bits as int
    } else {
        0
    }
}

/// The first channel at or after `c` that carries bits; 4 if none.
pub open spec fn spec_next_active(config: StegConfig, c: int) -> int
    decreases 4 - c,
{
    if c >= 4 {
        4
    } else if spec_channel_bits(config, c) > 0 {
        c
    } else {
        spec_next_active(config, c + 1)
    }
}

/// A stream position: pixel, channel, bit.
pub type Slot = (int, int, int);

/// The first active channel at or after `c` of pixel `p`, or the first
/// active channel of the next pixel.
pub open spec fn spec_skip(config: StegConfig, p: int, c: int) -> (int, int) {
    if spec_next_active(config, c) < 4 {
        (p, spec_next_active(config, c))
    } else {
        (p + 1, spec_next_active(config, 0))
    }
}

/// The first stream position.
pub open spec fn spec_start(config: StegConfig) -> Slot {
    let (p, c) = spec_skip(config, 0, 0);
    (p, c, 0)
}

/// The stream position after `s`.
pub open spec fn spec_advance(config: StegConfig, s: Slot) -> Slot {
    if s.2 + 1 >= spec_channel_bits(config, s.1) {
        let (p, c) = spec_skip(config, s.0, s.1 + 1);
        (p, c, 0)
    } else {
        (s.0, s.1, s.2 + 1)
    }
}

/// The stream position `i` steps after `s`.
pub open spec fn spec_iter(config: StegConfig, s: Slot, i: nat) -> Slot
    decreases i,
{
    if i == 0 {
        s
    } else {
        spec_advance(config, spec_iter(config, s, (i - 1) as nat))
    }
}

/// A position is a bit of an active channel.
pub open spec fn spec_valid_slot(config: StegConfig, s: Slot) -> bool {
    s.0 >= 0 && 0 <= s.1 < 4 && 0 <= s.2 < spec_channel_bits(config, s.1)
}

/// The order of positions: pixel, then channel, then bit.
pub open spec fn spec_key(s: Slot) -> int {
    s.0 * 32 + s.1 * 8 + s.2
}

/// The bit of `rgba` at key `k`: bit `k % 8` of channel `(k / 8) % 4` of
/// pixel `k / 32`.
pub open spec fn spec_key_bit(rgba: Seq<u8>, k: int) -> u8 {
    (rgba[(k / 32) * 4 + (k % 32) / 8] >> ((k % 8) as u8)) & 1u8
}

/// The first active channel exists when some channel carries bits.
proof fn lemma_next_active(config: StegConfig, c: int)
    requires
        0 <= c <= 4,
    ensures
        c <= spec_next_active(config, c) <= 4,
        spec_next_active(config, c) < 4 ==> spec_channel_bits(config, spec_next_active(config, c)) > 0,
        forall|d: int| c <= d < spec_next_active(config, c) ==> spec_channel_bits(config, d) == 0,
        c == 0 && config.spec_bits_per_pixel() > 0 ==> spec_next_active(config, c) < 4,
    decreases 4 - c,
{
    if c < 4 {
        lemma_next_active(config, c + 1);
    }
    if c == 0 && spec_next_active(config, c) == 4 {
        assert(spec_channel_bits(config, 0) == 0);
        assert(spec_channel_bits(config, 1) == 0);
        assert(spec_channel_bits(config, 2) == 0);
        assert(spec_channel_bits(config, 3) == 0);
    }
}

/// Advancing from a valid position gives a valid position with a larger
/// key.
proof fn lemma_advance(config: StegConfig, s: Slot)
    requires
        config.spec_valid(),
        config.spec_bits_per_pixel() > 0,
        spec_valid_slot(config, s),
    ensures
        spec_valid_slot(config, spec_advance(config, s)),
        spec_key(spec_advance(config, s)) > spec_key(s),
        spec_advance(config, s).0 >= s.0,
{
    lemma_next_active(config, s.1 + 1);
    lemma_next_active(config, 0);
}

/// The start position is valid.
proof fn lemma_start(config: StegConfig)
    requires
        config.spec_valid(),
        config.spec_bits_per_pixel() > 0,
    ensures
        spec_valid_slot(config, spec_start(config)),
        spec_start(config).0 == 0,
{
    lemma_next_active(config, 0);
}

/// Positions stepped from a valid one are valid, with keys increasing in
/// the number of steps.
proof fn lemma_iter(config: StegConfig, s: Slot, i: nat)
    requires
        config.spec_valid(),
        config.spec_bits_per_pixel() > 0,
        spec_valid_slot(config, s),
    ensures
        spec_valid_slot(config, spec_iter(config, s, i)),
        spec_key(spec_iter(config, s, i)) >= spec_key(s) + i,
    decreases i,
{
    if i > 0 {
        lemma_iter(config, s, (i - 1) as nat);
        lemma_advance(config, spec_iter(config, s, (i - 1) as nat));
    }
}

/// Stepping `a` then `b` times is stepping `a + b` times.
proof fn lemma_iter_add(config: StegConfig, s: Slot, a: nat, b: nat)
    ensures
        spec_iter(config, spec_iter(config, s, a), b) == spec_iter(config, s, a + b),
    decreases b,
{
    if b > 0 {
        lemma_iter_add(config, s, a, (b - 1) as nat);
    }
}

/// Later positions have larger keys.
proof fn lemma_iter_monotone(config: StegConfig, s: Slot, i: nat, j: nat)
    requires
        config.spec_valid(),
        config.spec_bits_per_pixel() > 0,
        spec_valid_slot(config, s),
        i < j,
    ensures
        spec_key(spec_iter(config, s, i)) < spec_key(spec_iter(config, s, j)),
{
    lemma_iter(config, s, i);
    lemma_iter(config, spec_iter(config, s, i), (j - i) as nat);
    lemma_iter_add(config, s, i, (j - i) as nat);
}


/// Bits carried by the channels before channel `c` of a pixel.
pub open spec fn spec_prefix(config: StegConfig, c: int) -> int {
    if c <= 0 {
        0
    } else if c == 1 {
        config.r_bits as int
    } else if c == 2 {
        config.r_bits + config.g_bits
    } else if c == 3 {
        config.r_bits + config.g_bits + config.b_bits
    } else {
        config.spec_bits_per_pixel()
    }
}

/// The index of a position among the positions of its pixel.
pub open spec fn spec_rank(config: StegConfig, s: Slot) -> int {
    spec_prefix(config, s.1) + s.2
}

/// The `m`-th position of the stream.
pub open spec fn spec_pos(config: StegConfig, m: nat) -> Slot {
    spec_iter(config, spec_start(config), m)
}

/// The bit of `rgba` at the `m`-th stream position.
pub open spec fn spec_bit_at(rgba: Seq<u8>, config: StegConfig, m: int) -> u8 {
    spec_key_bit(rgba, spec_key(spec_pos(config, m as nat)))
}

/// The value of the `n` stream bits from position `m`, the first bit
/// lowest.
pub open spec fn spec_read(rgba: Seq<u8>, config: StegConfig, m: int, n: nat) -> u64
    decreases n,
{
    if n == 0 {
        0
    } else {
        spec_read(rgba, config, m, (n - 1) as nat) | ((spec_bit_at(rgba, config, m + n - 1) as u64) << ((n
            - 1) as u64))
    }
}

/// Bit `i` of `v`.
pub open spec fn spec_bit(v: u64, i: int) -> u8 {
    ((v >> (i as u64)) & 1) as u8
}

/// Key `k` is the key of one of the stream positions `lo..hi`.
pub open spec fn spec_on_stream(config: StegConfig, lo: int, hi: int, k: int) -> bool {
    exists|j: nat| lo <= j < hi && spec_key(#[trigger] spec_pos(config, j)) == k
}

/// Advancing moves one rank up within a pixel, or to rank 0 of the next
/// pixel after its last position.
proof fn lemma_advance_rank(config: StegConfig, s: Slot)
    requires
        config.spec_valid(),
        config.spec_bits_per_pixel() > 0,
        spec_valid_slot(config, s),
    ensures
        0 <= spec_rank(config, s) < config.spec_bits_per_pixel(),
        spec_valid_slot(config, spec_advance(config, s)),
        spec_rank(config, s) + 1 < config.spec_bits_per_pixel() ==> spec_advance(config, s).0 == s.0
            && spec_rank(config, spec_advance(config, s)) == spec_rank(config, s) + 1,
        spec_rank(config, s) + 1 >= config.spec_bits_per_pixel() ==> spec_advance(config, s).0 == s.0
            + 1 && spec_rank(config, spec_advance(config, s)) == 0,
{
    lemma_advance(config, s);
    lemma_first_active_prefix(config);
    let c = s.1;
    let b = spec_channel_bits(config, c);
    assert(spec_prefix(config, c + 1) == spec_prefix(config, c) + b);
    assert(spec_prefix(config, c + 1) <= config.spec_bits_per_pixel());
    if s.2 + 1 >= b {
        let na = spec_next_active(config, c + 1);
        lemma_next_active(config, c + 1);
        lemma_prefix_skip(config, c + 1, na);
        if na < 4 {
            assert(spec_prefix(config, na) + spec_channel_bits(config, na) <= config.spec_bits_per_pixel());
        } else {
            assert(spec_prefix(config, 4) == config.spec_bits_per_pixel());
        }
    }
}

/// Channels without bits do not change the prefix.
proof fn lemma_prefix_skip(config: StegConfig, c: int, d: int)
    requires
        0 <= c <= d <= 4,
        forall|e: int| c <= e < d ==> spec_channel_bits(config, e) == 0,
    ensures
        spec_prefix(config, d) == spec_prefix(config, c),
{
    if c <= 0 && 0 < d {
        assert(spec_channel_bits(config, 0) == 0);
    }
    if c <= 1 && 1 < d {
        assert(spec_channel_bits(config, 1) == 0);
    }
    if c <= 2 && 2 < d {
        assert(spec_channel_bits(config, 2) == 0);
    }
    if c <= 3 && 3 < d {
        assert(spec_channel_bits(config, 3) == 0);
    }
}

/// The first active channel has rank 0.
proof fn lemma_first_active_prefix(config: StegConfig)
    ensures
        spec_prefix(config, spec_next_active(config, 0)) == 0,
{
    lemma_next_active(config, 0);
    lemma_prefix_skip(config, 0, spec_next_active(config, 0));
}

/// The `m`-th position lies in pixel `m / bpp`, at rank `m % bpp`.
proof fn lemma_pos(config: StegConfig, m: nat)
    requires
        config.spec_valid(),
        config.spec_bits_per_pixel() > 0,
    ensures
        spec_valid_slot(config, spec_pos(config, m)),
        0 <= spec_rank(config, spec_pos(config, m)) < config.spec_bits_per_pixel(),
        spec_pos(config, m).0 * config.spec_bits_per_pixel() + spec_rank(config, spec_pos(config, m))
            == m,
    decreases m,
{
    let b = config.spec_bits_per_pixel();
    if m == 0 {
        lemma_start(config);
        lemma_first_active_prefix(config);
    } else {
        let q = spec_pos(config, (m - 1) as nat);
        lemma_pos(config, (m - 1) as nat);
        lemma_advance_rank(config, q);
        let p = q.0;
        assert((p + 1) * b == p * b + b) by (nonlinear_arith);
    }
}

/// The `j`-th position lies in the first `total` pixels exactly when
/// `j < total * bpp`.
proof fn lemma_pos_bound(config: StegConfig, j: nat, total: int)
    requires
        config.spec_valid(),
        config.spec_bits_per_pixel() > 0,
        total >= 0,
    ensures
        (spec_pos(config, j).0 < total) == (j < total * config.spec_bits_per_pixel()),
{
    lemma_pos(config, j);
    let p = spec_pos(config, j).0;
    let r = spec_rank(config, spec_pos(config, j));
    let b = config.spec_bits_per_pixel();
    assert((p < total) == (j < total * b)) by (nonlinear_arith)
        requires
            p >= 0,
            b > 0,
            0 <= r < b,
            p * b + r == j,
            total >= 0,
    ;
}

/// Later stream positions have larger keys.
proof fn lemma_pos_keys(config: StegConfig, i: nat, j: nat)
    requires
        config.spec_valid(),
        config.spec_bits_per_pixel() > 0,
        i < j,
    ensures
        spec_key(spec_pos(config, i)) < spec_key(spec_pos(config, j)),
{
    lemma_start(config);
    lemma_iter_monotone(config, spec_start(config), i, j);
}

/// A cursor walking the bit stream of a configuration.
pub struct BitCursor {
    config: StegConfig,
    pixel_idx: usize,
    channel: u8,
    bit_in_channel: u8,
}

impl BitCursor {
    /// The configuration walked.
    pub closed spec fn spec_config(&self) -> StegConfig {
        self.config
    }

    /// The current position.
    pub closed spec fn spec_slot(&self) -> Slot {
        (self.pixel_idx as int, self.channel as int, self.bit_in_channel as int)
    }

    /// The position is valid for a valid configuration that carries bits.
    pub open spec fn wf(&self) -> bool {
        &&& self.spec_config().spec_valid()
        &&& self.spec_config().spec_bits_per_pixel() > 0
        &&& spec_valid_slot(self.spec_config(), self.spec_slot())
    }

    /// A cursor at the first stream position.
    pub fn new(config: StegConfig) -> (c: BitCursor)
        requires
            config.spec_valid(),
            config.spec_bits_per_pixel() > 0,
        ensures
            c.wf(),
            c.spec_config() == config,
            c.spec_slot() == spec_start(config),
    {
        proof {
            lemma_start(config);
        }
        let mut s = BitCursor { config, pixel_idx: 0, channel: 0, bit_in_channel: 0 };
        s.skip_empty_channels();
        s
    }

    /// Whether the cursor has left the first `total_pixels` pixels.
    pub fn check_exhausted(&self, total_pixels: usize) -> (r: bool)
        ensures
            r == (self.spec_slot().0 >= total_pixels),
    {
        self.pixel_idx >= total_pixels
    }

    /// The bits of the current channel.
    fn current_channel_bits(&self) -> (r: u8)
        requires
            self.channel <= 4,
        ensures
            r == spec_channel_bits(self.config, self.channel as int),
    {
        match self.channel {
            0 => self.config.r_bits,
            1 => self.config.g_bits,
            2 => self.config.b_bits,
            3 => self.config.a_bits,
            _ => 0,
        }
    }

    /// Moves to the first active channel at or after the current one,
    /// continuing in the next pixel if there is none.
    fn skip_empty_channels(&mut self)
        requires
            old(self).config.spec_valid(),
            old(self).config.spec_bits_per_pixel() > 0,
            old(self).channel <= 4,
            old(self).pixel_idx < usize::MAX,
        ensures
            final(self).config == old(self).config,
            final(self).bit_in_channel == old(self).bit_in_channel,
            (final(self).pixel_idx as int, final(self).channel as int) == spec_skip(
                old(self).config,
                old(self).pixel_idx as int,
                old(self).channel as int,
            ),
    {
        proof {
            lemma_next_active(self.config, self.channel as int);
            lemma_next_active(self.config, 0);
        }
        let mut c = self.channel;
        while c < 4 && self.current_channel_bits_of(c) == 0
            invariant
                self.config == old(self).config,
                self.channel == old(self).channel,
                self.pixel_idx == old(self).pixel_idx,
                self.bit_in_channel == old(self).bit_in_channel,
                old(self).channel <= c <= 4,
                spec_next_active(self.config, c as int) == spec_next_active(self.config, old(self).channel as int),
            decreases 4 - c,
        {
            c += 1;
        }
        if c < 4 {
            self.channel = c;
        } else {
            let mut d: u8 = 0;
            while d < 4 && self.current_channel_bits_of(d) == 0
                invariant
                    self.config == old(self).config,
                    d <= 4,
                    spec_next_active(self.config, d as int) == spec_next_active(self.config, 0),
                decreases 4 - d,
            {
                d += 1;
            }
            self.channel = d;
            self.pixel_idx += 1;
        }
    }

    /// The bits of channel `c` of this cursor's configuration.
    fn current_channel_bits_of(&self, c: u8) -> (r: u8)
        requires
            c < 4,
        ensures
            r == spec_channel_bits(self.config, c as int),
    {
        match c {
            0 => self.config.r_bits,
            1 => self.config.g_bits,
            2 => self.config.b_bits,
            _ => self.config.a_bits,
        }
    }

    /// Moves to the next stream position.
    pub fn advance(&mut self)
        requires
            old(self).wf(),
            old(self).spec_slot().0 < usize::MAX,
        ensures
            final(self).wf(),
            final(self).spec_config() == old(self).spec_config(),
            final(self).spec_slot() == spec_advance(old(self).spec_config(), old(self).spec_slot()),
    {
        proof {
            lemma_advance(self.config, self.spec_slot());
        }
        self.bit_in_channel += 1;
        if self.bit_in_channel >= self.current_channel_bits() {
            self.bit_in_channel = 0;
            self.channel += 1;
            self.skip_empty_channels();
        }
    }

    /// The index of the current channel byte in an RGBA buffer.
    fn byte_idx(&self) -> (r: usize)
        requires
            self.channel < 4,
            self.pixel_idx * 4 + 4 <= usize::MAX,
        ensures
            r == self.pixel_idx * 4 + self.channel,
    {
        self.pixel_idx * 4 + self.channel as usize
    }
}

/// The byte and bit a key names.
proof fn lemma_key_parts(s: Slot)
    requires
        s.0 >= 0,
        0 <= s.1 < 4,
        0 <= s.2 < 8,
    ensures
        spec_key(s) / 32 == s.0,
        (spec_key(s) % 32) / 8 == s.1,
        spec_key(s) % 8 == s.2,
{
    let k = spec_key(s);
    vstd::arithmetic::div_mod::lemma_fundamental_div_mod_converse(k, 32, s.0, s.1 * 8 + s.2);
    vstd::arithmetic::div_mod::lemma_fundamental_div_mod_converse(k % 32, 8, s.1, s.2);
    vstd::arithmetic::div_mod::lemma_fundamental_div_mod_converse(k, 8, s.0 * 4 + s.1, s.2);
}

/// Reads the bit at the cursor.
pub fn read_bit(rgba: &[u8], cursor: &BitCursor) -> (r: u8)
    requires
        cursor.wf(),
        cursor.spec_slot().0 * 4 + 4 <= rgba@.len(),
    ensures
        r == spec_key_bit(rgba@, spec_key(cursor.spec_slot())),
        r <= 1,
{
    proof {
        lemma_key_parts(cursor.spec_slot());
    }
    let _n = rgba.len();
    let byte = rgba[cursor.byte_idx()];
    let bit = cursor.bit_in_channel;
    let r = (byte >> bit) & 1;
    assert(r <= 1) by (bit_vector)
        requires
            r == (byte >> bit) & 1,
    ;
    r
}

/// Sets the bit at the cursor to the low bit of `bit`.
#[verifier::spinoff_prover]
pub fn write_bit(rgba: &mut Vec<u8>, cursor: &BitCursor, bit: u8)
    requires
        cursor.wf(),
        cursor.spec_slot().0 * 4 + 4 <= old(rgba)@.len(),
    ensures
        final(rgba)@.len() == old(rgba)@.len(),
        spec_key_bit(final(rgba)@, spec_key(cursor.spec_slot())) == bit & 1,
        forall|k: int|
            0 <= k < old(rgba)@.len() * 8 && k != spec_key(cursor.spec_slot()) ==> #[trigger] spec_key_bit(
                final(rgba)@,
                k,
            ) == spec_key_bit(old(rgba)@, k),
{
    proof {
        lemma_key_parts(cursor.spec_slot());
    }
    let _n = rgba.len();
    let idx = cursor.byte_idx();
    let b = cursor.bit_in_channel;
    let old_byte = rgba[idx];
    let mask = !(1u8 << b);
    let new_byte = (old_byte & mask) | ((bit & 1) << b);
    rgba.set(idx, new_byte);
    proof {
        assert((new_byte >> b) & 1 == bit & 1) by (bit_vector)
            requires
                b < 8,
                new_byte == (old_byte & !(1u8 << b)) | ((bit & 1) << b),
        ;
        assert forall|t: u8| t < 8 && t != b implies (new_byte >> t) & 1 == (old_byte >> t) & 1 by {
            assert((new_byte >> t) & 1 == (old_byte >> t) & 1) by (bit_vector)
                requires
                    b < 8,
                    t < 8,
                    t != b,
                    new_byte == (old_byte & !(1u8 << b)) | ((bit & 1) << b),
            ;
        }
        let key = spec_key(cursor.spec_slot());
        assert forall|k: int| 0 <= k < old(rgba)@.len() * 8 && k != key implies #[trigger] spec_key_bit(
            rgba@,
            k,
        ) == spec_key_bit(old(rgba)@, k) by {
            let j = (k / 32) * 4 + (k % 32) / 8;
            if j == idx {
                let t = (k % 8) as u8;
                assert(k == (k / 32) * 32 + ((k % 32) / 8) * 8 + k % 8);
                assert(key == (key / 32) * 32 + ((key % 32) / 8) * 8 + key % 8);
                assert(t != b);
            }
        }
    }
}


/// The capacity in stream bits of the first `total` pixels.
pub open spec fn spec_capacity(config: StegConfig, total: int) -> int {
    total * config.spec_bits_per_pixel()
}

/// Reads `n` stream bits from the cursor, the first bit lowest, and
/// advances past them; `None` if the image ends first.
fn read_bits(rgba: &[u8], cursor: &mut BitCursor, n: u8, total_pixels: usize, Ghost(m): Ghost<nat>) -> (r:
    Option<u64>)
    requires
        old(cursor).wf(),
        old(cursor).spec_slot() == spec_pos(old(cursor).spec_config(), m),
        n <= 64,
        total_pixels * 4 <= rgba@.len(),
    ensures
        final(cursor).wf(),
        final(cursor).spec_config() == old(cursor).spec_config(),
        r is Some == (n == 0 || m + n <= spec_capacity(old(cursor).spec_config(), total_pixels as int)),
        r is Some ==> r->0 == spec_read(rgba@, old(cursor).spec_config(), m as int, n as nat)
            && final(cursor).spec_slot() == spec_pos(old(cursor).spec_config(), (m + n) as nat),
{
    let ghost config = cursor.spec_config();
    let mut value: u64 = 0;
    let mut i: u8 = 0;
    while i < n
        invariant
            cursor.wf(),
            cursor.spec_config() == config,
            config == old(cursor).spec_config(),
            cursor.spec_slot() == spec_pos(config, (m + i) as nat),
            i <= n <= 64,
            total_pixels * 4 <= rgba@.len(),
            i > 0 ==> m + i <= spec_capacity(config, total_pixels as int),
            value == spec_read(rgba@, config, m as int, i as nat),
        decreases n - i,
    {
        proof {
            lemma_pos_bound(config, (m + i) as nat, total_pixels as int);
        }
        if cursor.check_exhausted(total_pixels) {
            return None;
        }
        let bit = read_bit(rgba, cursor) as u64;
        value = value | (bit << (i as u64));
        cursor.advance();
        i += 1;
    }
    Some(value)
}

/// Advances the cursor past `n` stream bits; `None` if the image ends
/// first.
fn skip_bits(cursor: &mut BitCursor, n: u64, total_pixels: usize, Ghost(m): Ghost<nat>) -> (r: Option<()>)
    requires
        old(cursor).wf(),
        old(cursor).spec_slot() == spec_pos(old(cursor).spec_config(), m),
    ensures
        final(cursor).wf(),
        final(cursor).spec_config() == old(cursor).spec_config(),
        r is Some == (n == 0 || m + n <= spec_capacity(old(cursor).spec_config(), total_pixels as int)),
        r is Some ==> final(cursor).spec_slot() == spec_pos(old(cursor).spec_config(), (m + n) as nat),
{
    let ghost config = cursor.spec_config();
    let mut i: u64 = 0;
    while i < n
        invariant
            cursor.wf(),
            cursor.spec_config() == config,
            config == old(cursor).spec_config(),
            cursor.spec_slot() == spec_pos(config, (m + i) as nat),
            i <= n,
            i > 0 ==> m + i <= spec_capacity(config, total_pixels as int),
        decreases n - i,
    {
        proof {
            lemma_pos_bound(config, (m + i) as nat, total_pixels as int);
        }
        if cursor.check_exhausted(total_pixels) {
            return None;
        }
        cursor.advance();
        i += 1;
    }
    Some(())
}

/// Writes the low `n` bits of `value` to the stream from the cursor, the
/// lowest first, and advances past them; `false` if the image ends first.
/// Only the bits of the stream positions passed change.
fn write_bits(
    rgba: &mut Vec<u8>,
    cursor: &mut BitCursor,
    value: u64,
    n: u8,
    total_pixels: usize,
    Ghost(m): Ghost<nat>,
) -> (ok: bool)
    requires
        old(cursor).wf(),
        old(cursor).spec_slot() == spec_pos(old(cursor).spec_config(), m),
        n <= 64,
        total_pixels * 4 <= old(rgba)@.len(),
    ensures
        final(cursor).wf(),
        final(cursor).spec_config() == old(cursor).spec_config(),
        final(rgba)@.len() == old(rgba)@.len(),
        ok == (n == 0 || m + n <= spec_capacity(old(cursor).spec_config(), total_pixels as int)),
        ok ==> final(cursor).spec_slot() == spec_pos(old(cursor).spec_config(), (m + n) as nat),
        ok ==> forall|j: int|
            m <= j < m + n ==> #[trigger] spec_bit_at(final(rgba)@, old(cursor).spec_config(), j)
                == spec_bit(value, j - m),
        forall|k: int|
            0 <= k < old(rgba)@.len() * 8 && !spec_on_stream(old(cursor).spec_config(), m as int, m + n, k)
                ==> #[trigger] spec_key_bit(final(rgba)@, k) == spec_key_bit(old(rgba)@, k),
{
    let ghost config = cursor.spec_config();
    let mut i: u8 = 0;
    while i < n
        invariant
            cursor.wf(),
            cursor.spec_config() == config,
            config == old(cursor).spec_config(),
            cursor.spec_slot() == spec_pos(config, (m + i) as nat),
            i <= n <= 64,
            total_pixels * 4 <= old(rgba)@.len(),
            rgba@.len() == old(rgba)@.len(),
            i > 0 ==> m + i <= spec_capacity(config, total_pixels as int),
            forall|j: int| m <= j < m + i ==> #[trigger] spec_bit_at(rgba@, config, j) == spec_bit(value, j - m),
            forall|k: int|
                0 <= k < old(rgba)@.len() * 8 && !spec_on_stream(config, m as int, m + i, k)
                    ==> #[trigger] spec_key_bit(rgba@, k) == spec_key_bit(old(rgba)@, k),
        decreases n - i,
    {
        proof {
            lemma_pos_bound(config, (m + i) as nat, total_pixels as int);
        }
        if cursor.check_exhausted(total_pixels) {
            return false;
        }
        let ghost before = rgba@;
        let raw = (value >> (i as u64)) & 1;
        let bit = raw as u8;
        assert(bit & 1 == bit) by (bit_vector)
            requires
                raw == (value >> (i as u64)) & 1,
                bit == raw as u8,
        ;
        write_bit(rgba, cursor, bit);
        proof {
            let here = spec_key(spec_pos(config, (m + i) as nat));
            assert forall|j: int| m <= j < m + i + 1 implies #[trigger] spec_bit_at(rgba@, config, j) == spec_bit(
                value,
                j - m,
            ) by {
                if j < m + i {
                    lemma_pos_keys(config, j as nat, (m + i) as nat);
                    lemma_pos(config, j as nat);
                    let s = spec_pos(config, j as nat);
                    assert(spec_key(s) < before.len() * 8) by {
                        lemma_pos_bound(config, j as nat, total_pixels as int);
                    }
                    assert(spec_key_bit(rgba@, spec_key(s)) == spec_key_bit(before, spec_key(s)));
                    assert(spec_bit_at(before, config, j) == spec_bit(value, j - m));
                } else {
                    assert(j == m + i);
                    assert(spec_bit(value, j - m) == bit);
                    assert(spec_bit_at(rgba@, config, j) == bit);
                }
            }
            assert forall|k: int|
                0 <= k < old(rgba)@.len() * 8 && !spec_on_stream(config, m as int, m + i + 1, k) implies #[trigger] spec_key_bit(
                rgba@,
                k,
            ) == spec_key_bit(old(rgba)@, k) by {
                assert(!spec_on_stream(config, m as int, m + i, k));
                assert(spec_pos(config, (m + i) as nat) == spec_pos(config, (m + i) as nat));
                assert(k != here);
                assert(spec_key_bit(rgba@, k) == spec_key_bit(before, k));
            }
        }
        cursor.advance();
        i += 1;
    }
    true
}


/// Reading `k` stream bits that hold the low bits of `v` gives the low `k`
/// bits of `v`.
proof fn lemma_read_prefix(rgba: Seq<u8>, config: StegConfig, m: int, k: nat, v: u64)
    requires
        k <= 32,
        forall|i: int| 0 <= i < k ==> #[trigger] spec_bit_at(rgba, config, m + i) == spec_bit(v, i),
    ensures
        spec_read(rgba, config, m, k) == v & !(0xFFFF_FFFF_FFFF_FFFFu64 << (k as u64)),
    decreases k,
{
    if k == 0 {
        assert(v & !(0xFFFF_FFFF_FFFF_FFFFu64 << 0u64) == 0) by (bit_vector);
    } else {
        let a = (k - 1) as u64;
        let a1 = k as u64;
        lemma_read_prefix(rgba, config, m, (k - 1) as nat, v);
        let low = spec_read(rgba, config, m, (k - 1) as nat);
        let b = spec_bit_at(rgba, config, m + a);
        assert(b == spec_bit(v, a as int));
        assert((b as u64) == (v >> a) & 1) by (bit_vector)
            requires
                b == ((v >> a) & 1) as u8,
        ;
        assert(low | ((b as u64) << a) == v & !(0xFFFF_FFFF_FFFF_FFFFu64 << a1)) by (bit_vector)
            requires
                a < 32,
                a1 == a + 1,
                low == v & !(0xFFFF_FFFF_FFFF_FFFFu64 << a),
                (b as u64) == (v >> a) & 1,
        ;
    }
}

/// Reading `n` stream bits that hold the bits of a value below `2^n` gives
/// the value back.
proof fn lemma_read_value(rgba: Seq<u8>, config: StegConfig, m: int, n: nat, v: u64)
    requires
        n <= 32,
        v >> (n as u64) == 0,
        forall|i: int| 0 <= i < n ==> #[trigger] spec_bit_at(rgba, config, m + i) == spec_bit(v, i),
    ensures
        spec_read(rgba, config, m, n) == v,
{
    lemma_read_prefix(rgba, config, m, n, v);
    let nn = n as u64;
    assert(v & !(0xFFFF_FFFF_FFFF_FFFFu64 << nn) == v) by (bit_vector)
        requires
            nn <= 32,
            v >> nn == 0,
    ;
}


/// Bit `j` of the header of a payload of `len` bytes: the magic, the
/// version 0, the configuration code and the length.
pub open spec fn spec_header_bit(config: StegConfig, len: u32, j: int) -> u8 {
    if j < 32 {
        spec_bit(MAGIC as u64, j)
    } else if j < 35 {
        spec_bit(0, j - 32)
    } else if j < 48 {
        spec_bit(config.spec_code() as u64, j - 35)
    } else {
        spec_bit(len as u64, j - 48)
    }
}

/// Bit `j` of the stream that embedding `payload` writes: the header, then
/// each payload byte, low bit first.
pub open spec fn spec_message_bit(config: StegConfig, payload: Seq<u8>, j: int) -> u8 {
    if j < 80 {
        spec_header_bit(config, payload.len() as u32, j)
    } else {
        spec_bit(payload[(j - 80) / 8] as u64, (j - 80) % 8)
    }
}

/// `new` is `old` with stream positions `0..upto` set to `bits` and every
/// other bit unchanged.
pub open spec fn spec_stream_written(
    old: Seq<u8>,
    new: Seq<u8>,
    config: StegConfig,
    bits: spec_fn(int) -> u8,
    upto: int,
) -> bool {
    &&& new.len() == old.len()
    &&& forall|j: int| 0 <= j < upto ==> #[trigger] spec_bit_at(new, config, j) == bits(j)
    &&& forall|k: int|
        0 <= k < old.len() * 8 && !spec_on_stream(config, 0, upto, k) ==> #[trigger] spec_key_bit(new, k)
            == spec_key_bit(old, k)
}

/// Writing the positions `m..m + n` after the positions `0..m` extends a
/// written prefix.
proof fn lemma_extend_written(
    old: Seq<u8>,
    mid: Seq<u8>,
    new: Seq<u8>,
    config: StegConfig,
    bits: spec_fn(int) -> u8,
    m: nat,
    n: nat,
    total: int,
)
    requires
        config.spec_valid(),
        config.spec_bits_per_pixel() > 0,
        spec_stream_written(old, mid, config, bits, m as int),
        m + n <= spec_capacity(config, total),
        0 <= total,
        total * 4 <= old.len(),
        new.len() == mid.len(),
        forall|j: int| m <= j < m + n ==> #[trigger] spec_bit_at(new, config, j) == bits(j),
        forall|k: int|
            0 <= k < mid.len() * 8 && !spec_on_stream(config, m as int, (m + n) as int, k) ==> #[trigger] spec_key_bit(
                new,
                k,
            ) == spec_key_bit(mid, k),
    ensures
        spec_stream_written(old, new, config, bits, (m + n) as int),
{
    assert forall|j: int| 0 <= j < m + n implies #[trigger] spec_bit_at(new, config, j) == bits(j) by {
        if j < m {
            let key = spec_key(spec_pos(config, j as nat));
            if spec_on_stream(config, m as int, (m + n) as int, key) {
                let jj = choose|jj: nat| m <= jj < m + n && spec_key(#[trigger] spec_pos(config, jj)) == key;
                lemma_pos_keys(config, j as nat, jj);
            }
            lemma_pos_bound(config, j as nat, total);
            lemma_pos(config, j as nat);
            assert(key < mid.len() * 8);
            assert(spec_key_bit(new, key) == spec_key_bit(mid, key));
            assert(spec_bit_at(mid, config, j) == bits(j));
        }
    }
    assert forall|k: int|
        0 <= k < old.len() * 8 && !spec_on_stream(config, 0, (m + n) as int, k) implies #[trigger] spec_key_bit(new, k)
        == spec_key_bit(old, k) by {
        if spec_on_stream(config, m as int, (m + n) as int, k) {
            let jj = choose|jj: nat| m <= jj < m + n && spec_key(#[trigger] spec_pos(config, jj)) == k;
            assert(spec_pos(config, jj) == spec_pos(config, jj));
        }
        if spec_on_stream(config, 0, m as int, k) {
            let jj = choose|jj: nat| 0 <= jj < m && spec_key(#[trigger] spec_pos(config, jj)) == k;
            assert(spec_pos(config, jj) == spec_pos(config, jj));
        }
        assert(spec_key_bit(new, k) == spec_key_bit(mid, k));
        assert(spec_key_bit(mid, k) == spec_key_bit(old, k));
    }
}

/// Writes the header of a `payload_len`-byte payload at the start of the
/// stream; `false` if the image holds fewer than 80 stream bits.
fn write_header(
    rgba: &mut Vec<u8>,
    cursor: &mut BitCursor,
    config: StegConfig,
    payload_len: u32,
    total_pixels: usize,
) -> (ok: bool)
    requires
        old(cursor).wf(),
        old(cursor).spec_config() == config,
        old(cursor).spec_slot() == spec_pos(config, 0),
        total_pixels * 4 <= old(rgba)@.len(),
    ensures
        final(cursor).wf(),
        final(cursor).spec_config() == config,
        final(rgba)@.len() == old(rgba)@.len(),
        ok == (80 <= spec_capacity(config, total_pixels as int)),
        ok ==> final(cursor).spec_slot() == spec_pos(config, 80),
        ok ==> spec_stream_written(
            old(rgba)@,
            final(rgba)@,
            config,
            |j: int| spec_header_bit(config, payload_len, j),
            80,
        ),
{
    let ghost bits = |j: int| spec_header_bit(config, payload_len, j);
    let ghost start = rgba@;
    proof {
        assert(spec_stream_written(start, rgba@, config, bits, 0));
    }
    let ghost before = rgba@;
    if !write_bits(rgba, cursor, MAGIC as u64, 32, total_pixels, Ghost(0)) {
        return false;
    }
    proof {
        lemma_extend_written(start, before, rgba@, config, bits, 0, 32, total_pixels as int);
    }
    let ghost before = rgba@;
    if !write_bits(rgba, cursor, 0, 3, total_pixels, Ghost(32)) {
        return false;
    }
    proof {
        lemma_extend_written(start, before, rgba@, config, bits, 32, 3, total_pixels as int);
    }
    let code = config.encode_config_bits() as u64;
    let ghost before = rgba@;
    if !write_bits(rgba, cursor, code, 13, total_pixels, Ghost(35)) {
        return false;
    }
    proof {
        lemma_extend_written(start, before, rgba@, config, bits, 35, 13, total_pixels as int);
    }
    let ghost before = rgba@;
    if !write_bits(rgba, cursor, payload_len as u64, 32, total_pixels, Ghost(48)) {
        return false;
    }
    proof {
        lemma_extend_written(start, before, rgba@, config, bits, 48, 32, total_pixels as int);
    }
    true
}


/// The header an image holds for `config`: the magic, version 0, the code
/// of `config` itself, and a payload length that fits in the stream bits
/// after the header; `None` otherwise.
pub open spec fn spec_try_read_header(rgba: Seq<u8>, config: StegConfig) -> Option<StegInfo> {
    let cap = spec_capacity(config, (rgba.len() / 4) as int);
    let len = spec_read(rgba, config, 48, 32) as u32;
    if cap < 80 {
        None
    } else if spec_read(rgba, config, 0, 8) as u8 != 0x53u8 || spec_read(rgba, config, 8, 8) as u8 != 0x54u8
        || spec_read(rgba, config, 16, 8) as u8 != 0x45u8 || spec_read(rgba, config, 24, 8) as u8 != 0x47u8 {
        None
    } else if spec_read(rgba, config, 32, 3) as u8 != 0 {
        None
    } else if StegConfig::spec_decode(spec_read(rgba, config, 35, 13) as u16) != Some(config) {
        None
    } else if len as int * 8 > cap - 80 {
        None
    } else {
        Some(StegInfo { config, version: 0, payload_len: len })
    }
}

/// Reads and checks the header that `config` would have written; `None`
/// on any mismatch, returning as soon as a magic byte differs.
fn try_read_header(image: &DecodedImage, config: StegConfig) -> (r: Option<StegInfo>)
    requires
        config.spec_valid(),
        config.spec_bits_per_pixel() > 0,
    ensures
        r == spec_try_read_header(image.rgba@, config),
{
    let rgba = image.rgba();
    let total_pixels = image.pixel_count();
    let mut cursor = BitCursor::new(config);
    let s = match read_bits(rgba, &mut cursor, 8, total_pixels, Ghost(0)) {
        Some(v) => v as u8,
        None => return None,
    };
    if s != 0x53 {
        return None;
    }
    let t = match read_bits(rgba, &mut cursor, 8, total_pixels, Ghost(8)) {
        Some(v) => v as u8,
        None => return None,
    };
    if t != 0x54 {
        return None;
    }
    let e = match read_bits(rgba, &mut cursor, 8, total_pixels, Ghost(16)) {
        Some(v) => v as u8,
        None => return None,
    };
    if e != 0x45 {
        return None;
    }
    let g = match read_bits(rgba, &mut cursor, 8, total_pixels, Ghost(24)) {
        Some(v) => v as u8,
        None => return None,
    };
    if g != 0x47 {
        return None;
    }
    let version = match read_bits(rgba, &mut cursor, 3, total_pixels, Ghost(32)) {
        Some(v) => v as u8,
        None => return None,
    };
    if version != 0 {
        return None;
    }
    let config_raw = match read_bits(rgba, &mut cursor, 13, total_pixels, Ghost(35)) {
        Some(v) => v as u16,
        None => return None,
    };
    let decoded = match StegConfig::decode_config_bits(config_raw) {
        Some(c) => c,
        None => return None,
    };
    if decoded != config {
        return None;
    }
    let payload_len = match read_bits(rgba, &mut cursor, 32, total_pixels, Ghost(48)) {
        Some(v) => v as u32,
        None => return None,
    };
    let bpp = config.bits_per_pixel() as u128;
    let tp = total_pixels as u128;
    assert(tp * bpp <= 0xFFFF_FFFF_FFFF_FFFFu128 * 255) by (nonlinear_arith)
        requires
            tp <= 0xFFFF_FFFF_FFFF_FFFFu128,
            bpp <= 255,
    ;
    let total_bits: u128 = tp * bpp;
    let remaining_bits = total_bits - HEADER_BITS as u128;
    if payload_len as u128 * 8 > remaining_bits {
        return None;
    }
    Some(StegInfo { config, version, payload_len })
}

/// The header found for the configuration with base-9 code `code`.
pub open spec fn spec_header_for_code(rgba: Seq<u8>, code: u16) -> Option<StegInfo> {
    match StegConfig::spec_decode(code) {
        Some(config) => spec_try_read_header(rgba, config),
        None => None,
    }
}

/// Searches every configuration that carries bits, in increasing order of
/// code, for a valid header; returns the first one found.
pub fn detect(image: &DecodedImage) -> (r: Option<StegInfo>)
    ensures
        match r {
            Some(info) => exists|code: u16|
                1 <= code < 6561 && spec_header_for_code(image.rgba@, code) == Some(info) && forall|d: u16|
                    1 <= d < code ==> spec_header_for_code(image.rgba@, d) is None,
            None => forall|code: u16| 1 <= code < 6561 ==> spec_header_for_code(image.rgba@, code) is None,
        },
{
    let mut code: u16 = 1;
    while code < 6561
        invariant
            1 <= code <= 6561,
            forall|d: u16| 1 <= d < code ==> spec_header_for_code(image.rgba@, d) is None,
        decreases 6561 - code,
    {
        proof {
            lemma_code_config_roundtrip(code);
        }
        let config = match StegConfig::decode_config_bits(code) {
            Some(c) => c,
            None => return None,
        };
        if let Some(info) = try_read_header(image, config) {
            assert(spec_header_for_code(image.rgba@, code) == Some(info));
            return Some(info);
        }
        code += 1;
    }
    None
}


/// Why embedding a `len`-byte payload in an image of `total` pixels fails,
/// if it does.
pub open spec fn spec_embed_error(total: int, config: StegConfig, len: int) -> Option<StegError> {
    let cap = spec_capacity(config, total);
    if config.spec_bits_per_pixel() == 0 {
        Some(StegError::NoChannels)
    } else if len > u32::MAX {
        Some(StegError::ArithmeticOverflow("payload length cast"))
    } else if cap > u64::MAX {
        Some(StegError::ArithmeticOverflow("available bits"))
    } else if 80 + 8 * len > cap {
        Some(StegError::InsufficientCapacity { required: (80 + 8 * len) as u64, capacity: cap as u64 })
    } else {
        None
    }
}

/// Hides `payload` in a copy of `image`: the header and then the payload
/// bytes take the first `80 + 8 * len` stream positions of `config`, and
/// every other bit is kept.
pub fn embed(image: &DecodedImage, config: StegConfig, payload: &[u8]) -> (r: Result<DecodedImage, StegError>)
    requires
        config.spec_valid(),
    ensures
        match r {
            Ok(out) => spec_embed_error((image.rgba@.len() / 4) as int, config, payload@.len() as int) is None
                && out.width == image.width && out.height == image.height && spec_stream_written(
                image.rgba@,
                out.rgba@,
                config,
                |j: int| spec_message_bit(config, payload@, j),
                (80 + 8 * payload@.len()) as int,
            ),
            Err(e) => spec_embed_error((image.rgba@.len() / 4) as int, config, payload@.len() as int) == Some(e),
        },
{
    if config.bits_per_pixel() == 0 {
        return Err(StegError::NoChannels);
    }
    let total_pixels = image.pixel_count();
    if payload.len() > 0xFFFF_FFFF {
        return Err(StegError::ArithmeticOverflow("payload length cast"));
    }
    let payload_len_u32 = payload.len() as u32;
    let payload_bits = payload_len_u32 as u64 * 8;
    let required_bits = HEADER_BITS + payload_bits;
    let available_bits = match (total_pixels as u64).checked_mul(config.bits_per_pixel() as u64) {
        Some(a) => a,
        None => return Err(StegError::ArithmeticOverflow("available bits")),
    };
    if required_bits > available_bits {
        return Err(StegError::InsufficientCapacity { required: required_bits, capacity: available_bits });
    }
    let mut rgba = crate::runtime::encode::copy_bytes(image.rgba());
    let ghost source = rgba@;
    let ghost bits = |j: int| spec_message_bit(config, payload@, j);
    let mut cursor = BitCursor::new(config);
    if !write_header(&mut rgba, &mut cursor, config, payload_len_u32, total_pixels) {
        return Err(StegError::InsufficientCapacity { required: required_bits, capacity: available_bits });
    }
    proof {
        let hbits = |j: int| spec_header_bit(config, payload_len_u32, j);
        assert forall|j: int| 0 <= j < 80 implies #[trigger] spec_bit_at(rgba@, config, j) == bits(j) by {
            assert(spec_bit_at(rgba@, config, j) == hbits(j));
        }
    }
    let mut t: usize = 0;
    while t < payload.len()
        invariant
            config.spec_valid(),
            config.spec_bits_per_pixel() > 0,
            cursor.wf(),
            cursor.spec_config() == config,
            cursor.spec_slot() == spec_pos(config, (80 + 8 * t) as nat),
            t <= payload@.len(),
            80 + 8 * payload@.len() <= spec_capacity(config, total_pixels as int),
            total_pixels == source.len() / 4,
            source == image.rgba@,
            bits == (|j: int| spec_message_bit(config, payload@, j)),
            spec_stream_written(source, rgba@, config, bits, 80 + 8 * t),
        decreases payload.len() - t,
    {
        let ghost before = rgba@;
        let ghost m = (80 + 8 * t) as nat;
        if !write_bits(&mut rgba, &mut cursor, payload[t] as u64, 8, total_pixels, Ghost(m)) {
            return Err(StegError::InsufficientCapacity { required: required_bits, capacity: available_bits });
        }
        proof {
            assert forall|j: int| m <= j < m + 8 implies #[trigger] spec_bit_at(rgba@, config, j) == bits(j) by {
                vstd::arithmetic::div_mod::lemma_fundamental_div_mod_converse(j - 80, 8, t as int, j - m);
            }
            lemma_extend_written(source, before, rgba@, config, bits, m, 8, total_pixels as int);
        }
        t += 1;
    }
    Ok(DecodedImage { width: image.width, height: image.height, rgba })
}

/// The number of stream bits a valid header of `config` covers together
/// with its payload; `None` when `config` carries no bits or no valid
/// header is present.
pub open spec fn spec_remove_range(rgba: Seq<u8>, config: StegConfig) -> Option<int> {
    if config.spec_bits_per_pixel() == 0 {
        None
    } else {
        match spec_try_read_header(rgba, config) {
            Some(info) => Some(80 + 8 * info.payload_len),
            None => None,
        }
    }
}

/// Clears the header and payload that `config` finds in `image`: exactly
/// their stream bits become 0. Without a valid header the image is
/// returned unchanged.
pub fn remove(image: &DecodedImage, config: StegConfig) -> (r: DecodedImage)
    requires
        config.spec_valid(),
    ensures
        r.width == image.width,
        r.height == image.height,
        match spec_remove_range(image.rgba@, config) {
            None => r.rgba@ == image.rgba@,
            Some(n) => spec_stream_written(image.rgba@, r.rgba@, config, |j: int| 0u8, n),
        },
{
    if config.bits_per_pixel() == 0 {
        return DecodedImage { width: image.width, height: image.height, rgba: crate::runtime::encode::copy_bytes(image.rgba()) };
    }
    let info = match try_read_header(image, config) {
        Some(info) => info,
        None => {
            return DecodedImage { width: image.width, height: image.height, rgba: crate::runtime::encode::copy_bytes(image.rgba()) };
        },
    };
    let mut rgba = crate::runtime::encode::copy_bytes(image.rgba());
    let ghost source = rgba@;
    let ghost zero = |j: int| 0u8;
    let total_pixels = image.pixel_count();
    let bits_to_clear: u64 = HEADER_BITS + info.payload_len as u64 * 8;
    let mut cursor = BitCursor::new(config);
    let mut i: u64 = 0;
    while i < bits_to_clear
        invariant
            config.spec_valid(),
            config.spec_bits_per_pixel() > 0,
            cursor.wf(),
            cursor.spec_config() == config,
            cursor.spec_slot() == spec_pos(config, i as nat),
            i <= bits_to_clear,
            bits_to_clear <= spec_capacity(config, total_pixels as int),
            total_pixels == source.len() / 4,
            zero == (|j: int| 0u8),
            spec_stream_written(source, rgba@, config, zero, i as int),
        ensures
            i == bits_to_clear,
            spec_stream_written(source, rgba@, config, zero, i as int),
        decreases bits_to_clear - i,
    {
        proof {
            lemma_pos_bound(config, i as nat, total_pixels as int);
        }
        if cursor.check_exhausted(total_pixels) {
            break;
        }
        let ghost before = rgba@;
        write_bit(&mut rgba, &cursor, 0);
        proof {
            let here = spec_key(spec_pos(config, i as nat));
            assert forall|k: int|
                0 <= k < before.len() * 8 && !spec_on_stream(config, i as int, i + 1, k) implies #[trigger] spec_key_bit(
                rgba@,
                k,
            ) == spec_key_bit(before, k) by {
                assert(spec_pos(config, i as nat) == spec_pos(config, i as nat));
                assert(k != here);
            }
            assert(spec_bit_at(rgba@, config, i as int) == zero(i as int)) by {
                assert(0u8 & 1 == 0) by (bit_vector);
            }
            lemma_extend_written(source, before, rgba@, config, zero, i as nat, 1, total_pixels as int);
        }
        cursor.advance();
        i += 1;
    }
    DecodedImage { width: image.width, height: image.height, rgba }
}

/// The payload `info` describes, or why it cannot be extracted.
pub open spec fn spec_extract(rgba: Seq<u8>, info: StegInfo) -> Result<Seq<u8>, StegError> {
    let config = info.config;
    let cap = spec_capacity(config, (rgba.len() / 4) as int);
    if config.spec_bits_per_pixel() == 0 {
        Err(StegError::NoChannels)
    } else if cap > u64::MAX {
        Err(StegError::ArithmeticOverflow("total bits"))
    } else if 80 + 8 * info.payload_len > cap {
        Err(StegError::PayloadTooLarge { payload_len: info.payload_len })
    } else {
        Ok(Seq::new(info.payload_len as nat, |t: int| spec_read(rgba, config, 80 + 8 * t, 8) as u8))
    }
}

/// Reads the payload that `info` describes: `info.payload_len` bytes from
/// the stream bits after the header.
pub fn extract(image: &DecodedImage, info: &StegInfo) -> (r: Result<Vec<u8>, StegError>)
    requires
        info.config.spec_valid(),
    ensures
        match r {
            Ok(v) => spec_extract(image.rgba@, *info) == Ok::<Seq<u8>, StegError>(v@),
            Err(e) => spec_extract(image.rgba@, *info) == Err::<Seq<u8>, StegError>(e),
        },
{
    let config = info.config;
    if config.bits_per_pixel() == 0 {
        return Err(StegError::NoChannels);
    }
    let total_pixels = image.pixel_count();
    let total_bits = match (total_pixels as u64).checked_mul(config.bits_per_pixel() as u64) {
        Some(t) => t,
        None => return Err(StegError::ArithmeticOverflow("total bits")),
    };
    let remaining_bits = if total_bits >= HEADER_BITS {
        total_bits - HEADER_BITS
    } else {
        0
    };
    let payload_bits = info.payload_len as u64 * 8;
    if payload_bits > remaining_bits {
        return Err(StegError::PayloadTooLarge { payload_len: info.payload_len });
    }
    let mut cursor = BitCursor::new(config);
    if skip_bits(&mut cursor, HEADER_BITS, total_pixels, Ghost(0)).is_none() {
        return Err(StegError::PayloadTooLarge { payload_len: info.payload_len });
    }
    let rgba = image.rgba();
    let mut payload: Vec<u8> = Vec::with_capacity(info.payload_len as usize);
    let mut t: u32 = 0;
    while t < info.payload_len
        invariant
            config == info.config,
            config.spec_valid(),
            config.spec_bits_per_pixel() > 0,
            cursor.wf(),
            cursor.spec_config() == config,
            cursor.spec_slot() == spec_pos(config, (80 + 8 * t) as nat),
            t <= info.payload_len,
            80 + 8 * info.payload_len <= spec_capacity(config, total_pixels as int),
            total_pixels == rgba@.len() / 4,
            rgba@ == image.rgba@,
            payload@.len() == t,
            forall|u: int| 0 <= u < t ==> payload@[u] == spec_read(rgba@, config, 80 + 8 * u, 8) as u8,
        decreases info.payload_len - t,
    {
        let byte = match read_bits(rgba, &mut cursor, 8, total_pixels, Ghost((80 + 8 * t) as nat)) {
            Some(v) => v as u8,
            None => return Err(StegError::PayloadTooLarge { payload_len: info.payload_len }),
        };
        payload.push(byte);
        t += 1;
    }
    proof {
        assert(payload@ =~= Seq::new(info.payload_len as nat, |u: int| spec_read(rgba@, config, 80 + 8 * u, 8) as u8));
    }
    Ok(payload)
}


/// The bytes of the magic, bit by bit.
proof fn lemma_magic_bits(i: u64, i8: u64, i16: u64, i24: u64)
    by (bit_vector)
    requires
        i < 8,
        i8 == i + 8,
        i16 == i + 16,
        i24 == i + 24,
    ensures
        (0x4745_5453u64 >> i) & 1 == (0x53u64 >> i) & 1,
        (0x4745_5453u64 >> i8) & 1 == (0x54u64 >> i) & 1,
        (0x4745_5453u64 >> i16) & 1 == (0x45u64 >> i) & 1,
        (0x4745_5453u64 >> i24) & 1 == (0x47u64 >> i) & 1,
{
}

/// Reading back one byte of the magic.
proof fn lemma_read_magic_byte(out: Seq<u8>, config: StegConfig, payload: Seq<u8>, b: int, v: u64)
    requires
        0 <= b < 4,
        v == (if b == 0 {
            0x53u64
        } else if b == 1 {
            0x54u64
        } else if b == 2 {
            0x45u64
        } else {
            0x47u64
        }),
        forall|j: int| 0 <= j < 32 ==> #[trigger] spec_bit_at(out, config, j) == spec_message_bit(config, payload, j),
    ensures
        spec_read(out, config, 8 * b, 8) == v,
{
    assert forall|i: int| 0 <= i < 8 implies #[trigger] spec_bit_at(out, config, 8 * b + i) == spec_bit(v, i) by {
        lemma_magic_bits(i as u64, (i + 8) as u64, (i + 16) as u64, (i + 24) as u64);
        assert(spec_bit_at(out, config, 8 * b + i) == spec_message_bit(config, payload, 8 * b + i));
    }
    assert(v >> 8u64 == 0) by (bit_vector)
        requires
            v < 256,
    ;
    lemma_read_value(out, config, 8 * b, 8, v);
}

/// What embedding writes reads back: the header is found for the
/// configuration used, with version 0 and the payload's length, so the
/// search in `detect` finds a header; and extracting with that header
/// gives the payload.
pub proof fn lemma_embed_extract_roundtrip(source: Seq<u8>, out: Seq<u8>, config: StegConfig, payload: Seq<u8>)
    requires
        config.spec_valid(),
        spec_embed_error((source.len() / 4) as int, config, payload.len() as int) is None,
        spec_stream_written(
            source,
            out,
            config,
            |j: int| spec_message_bit(config, payload, j),
            (80 + 8 * payload.len()) as int,
        ),
    ensures
        spec_try_read_header(out, config) == Some(
            StegInfo { config, version: 0, payload_len: payload.len() as u32 },
        ),
        1 <= config.spec_code() < 6561,
        spec_header_for_code(out, config.spec_code() as u16) == Some(
            StegInfo { config, version: 0, payload_len: payload.len() as u32 },
        ),
        spec_extract(out, StegInfo { config, version: 0, payload_len: payload.len() as u32 }) == Ok::<
            Seq<u8>,
            StegError,
        >(payload),
{
    let bits = |j: int| spec_message_bit(config, payload, j);
    let len = payload.len() as u32;
    assert forall|j: int| 0 <= j < 80 + 8 * payload.len() implies #[trigger] spec_bit_at(out, config, j)
        == spec_message_bit(config, payload, j) by {
        assert(spec_bit_at(out, config, j) == bits(j));
    }
    lemma_read_magic_byte(out, config, payload, 0, 0x53u64);
    lemma_read_magic_byte(out, config, payload, 1, 0x54u64);
    lemma_read_magic_byte(out, config, payload, 2, 0x45u64);
    lemma_read_magic_byte(out, config, payload, 3, 0x47u64);
    assert(0u64 >> 3u64 == 0) by (bit_vector);
    assert forall|i: int| 0 <= i < 3 implies #[trigger] spec_bit_at(out, config, 32 + i) == spec_bit(0, i) by {
        assert(spec_bit_at(out, config, 32 + i) == spec_message_bit(config, payload, 32 + i));
    }
    lemma_read_value(out, config, 32, 3, 0);
    let code = config.spec_code() as u64;
    lemma_config_code_roundtrip(config);
    assert(code >> 13u64 == 0) by (bit_vector)
        requires
            code < 6561,
    ;
    assert forall|i: int| 0 <= i < 13 implies #[trigger] spec_bit_at(out, config, 35 + i) == spec_bit(code, i) by {
        assert(spec_bit_at(out, config, 35 + i) == spec_message_bit(config, payload, 35 + i));
    }
    lemma_read_value(out, config, 35, 13, code);
    let lv = len as u64;
    assert(lv >> 32u64 == 0) by (bit_vector)
        requires
            lv == len as u64,
    ;
    assert forall|i: int| 0 <= i < 32 implies #[trigger] spec_bit_at(out, config, 48 + i) == spec_bit(lv, i) by {
        assert(spec_bit_at(out, config, 48 + i) == spec_message_bit(config, payload, 48 + i));
    }
    lemma_read_value(out, config, 48, 32, lv);
    assert(len as int == payload.len());
    let extracted = Seq::new(len as nat, |t: int| spec_read(out, config, 80 + 8 * t, 8) as u8);
    assert forall|t: int| 0 <= t < payload.len() implies #[trigger] extracted[t] == payload[t] by {
        let v = payload[t] as u64;
        let x = payload[t];
        assert(v >> 8u64 == 0) by (bit_vector)
            requires
                v == x as u64,
        ;
        assert forall|i: int| 0 <= i < 8 implies #[trigger] spec_bit_at(out, config, (80 + 8 * t) + i) == spec_bit(
            v,
            i,
        ) by {
            let j = 80 + 8 * t + i;
            vstd::arithmetic::div_mod::lemma_fundamental_div_mod_converse(j - 80, 8, t, i);
            assert(spec_bit_at(out, config, j) == spec_message_bit(config, payload, j));
        }
        lemma_read_value(out, config, 80 + 8 * t, 8, v);
        assert((v as u8) == x) by (bit_vector)
            requires
                v == x as u64,
        ;
    }
    assert(extracted =~= payload);
    assert(config.spec_code() >= 1) by {
        assert(config.spec_bits_per_pixel() != 0);
    }
}


/// Once `remove` has cleared a payload, the configuration it was found
/// with finds no header any more: the magic now reads as zero bits.
pub proof fn lemma_remove_clears_header(source: Seq<u8>, out: Seq<u8>, config: StegConfig)
    requires
        config.spec_valid(),
        spec_remove_range(source, config) is Some,
        spec_stream_written(source, out, config, |j: int| 0u8, spec_remove_range(source, config)->0),
    ensures
        spec_try_read_header(out, config) is None,
{
    let n = spec_remove_range(source, config)->0;
    assert(n >= 80);
    assert forall|i: int| 0 <= i < 8 implies #[trigger] spec_bit_at(out, config, 0 + i) == spec_bit(0, i) by {
        assert(spec_bit_at(out, config, i) == (|j: int| 0u8)(i));
        let k = i as u64;
        assert((0u64 >> k) & 1 == 0) by (bit_vector);
    }
    assert(0u64 >> 8u64 == 0) by (bit_vector);
    lemma_read_value(out, config, 0, 8, 0);
}

} // verus!
