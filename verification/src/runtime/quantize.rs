//! Wu color quantization over a 3D RGB histogram.
//!
//! Colors are binned on a 32x32x32 grid (5 bits per channel). Starting from
//! one box covering the grid, the box with the largest color variance is
//! repeatedly split at the cut that best separates its colors, until the
//! palette is full or no box can be split usefully. Each box becomes one
//! palette entry, the rounded mean of the pixels in it, and every pixel is
//! mapped to the box of its bin.
//!
//! Variances and split scores are compared exactly, as fractions of
//! integers, so the palette and the indices are a function of the pixels'
//! colors (`spec_wu_palette_len`, `spec_wu_indices`); alpha plays no part.
//! When the pixels occupy at most `max_colors` bins, every occupied bin
//! ends in a box of its own, so pixels of different bins get different
//! entries.
use vstd::prelude::*;
use vstd::arithmetic::div_mod::lemma_fundamental_div_mod_converse;

verus! {

/// Side length of the histogram grid, including the empty zero border.
pub const SIDE: usize = 33;

/// Number of histogram cells (`SIDE^3`).
pub const HISTOGRAM_SIZE: usize = 35937;

/// Largest number of pixels the quantizer accepts.
pub const MAX_QUANTIZE_PIXELS: usize = 0xFFFF_FFFF;

/// Reasons why quantization cannot run.
#[derive(Debug, Clone, Copy, PartialEq, Eq, Hash)]
pub enum QuantizeError {
    /// The palette size is outside `2..=256`.
    InvalidMaxColors(usize),
}

/// The linear index of histogram cell `(r, g, b)`.
pub open spec fn spec_histogram_index(r: int, g: int, b: int) -> int {
    (r * 33 + g) * 33 + b
}

/// Flattens a histogram coordinate.
fn histogram_index(r: usize, g: usize, b: usize) -> (i: usize)
    requires
        r < 33,
        g < 33,
        b < 33,
    ensures
        i == spec_histogram_index(r as int, g as int, b as int),
        i < 35937,
{
    (r * 33 + g) * 33 + b
}

/// The histogram bin of a channel value: its top 5 bits, plus one for the
/// border.
pub open spec fn spec_bin(v: u8) -> int {
    (v >> 3u8) as int + 1
}

/// Per-cell pixel statistics: counts, channel sums and sums of squared
/// channel values.
struct Histogram {
    weight: Vec<u64>,
    red: Vec<u64>,
    green: Vec<u64>,
    blue: Vec<u64>,
    sum_squares: Vec<u64>,
}

impl Histogram {
    /// Every table covers the grid, and each cell holds the statistics of
    /// at most `n` pixels.
    spec fn wf(&self, n: int) -> bool {
        &&& self.weight@.len() == 35937
        &&& self.red@.len() == 35937
        &&& self.green@.len() == 35937
        &&& self.blue@.len() == 35937
        &&& self.sum_squares@.len() == 35937
        &&& 0 <= n <= 0xFFFF_FFFF
        &&& forall|c: int|
            0 <= c < 35937 ==> {
                &&& #[trigger] self.weight@[c] <= n
                &&& self.red@[c] <= 255 * n
                &&& self.green@[c] <= 255 * n
                &&& self.blue@[c] <= 255 * n
                &&& self.sum_squares@[c] <= 195075 * n
            }
    }
}

/// A channel's bin lies on the grid, off the border.
proof fn lemma_bin_range(v: u8)
    ensures
        1 <= spec_bin(v) <= 32,
{
    assert((v >> 3u8) < 32) by (bit_vector);
}

/// The histogram cell of pixel `i`.
pub open spec fn spec_pixel_cell(rgba: Seq<u8>, i: int) -> int {
    let (r, g, b) = spec_pixel_bin(rgba, i);
    spec_histogram_index(r, g, b)
}

/// The statistics of one pixel: a count of one, its channels and the sum
/// of their squares.
spec fn spec_pixel_sums(rgba: Seq<u8>, i: int) -> Sums {
    let r = rgba[4 * i] as int;
    let g = rgba[4 * i + 1] as int;
    let b = rgba[4 * i + 2] as int;
    (1, r, g, b, r * r + g * g + b * b)
}

/// The statistics of the pixels among the first `m` that fall in cell `c`.
spec fn spec_cell_pixels(rgba: Seq<u8>, c: int, m: int) -> Sums
    decreases m,
{
    if m <= 0 {
        spec_no_sums()
    } else if spec_pixel_cell(rgba, m - 1) == c {
        spec_add_sums(spec_cell_pixels(rgba, c, m - 1), spec_pixel_sums(rgba, m - 1))
    } else {
        spec_cell_pixels(rgba, c, m - 1)
    }
}

/// The five tables' entries for cell `c`.
spec fn spec_cell_at(h: Histogram, c: int) -> Sums {
    (h.weight@[c] as int, h.red@[c] as int, h.green@[c] as int, h.blue@[c] as int, h.sum_squares@[c] as int)
}

impl View for Histogram {
    type V = Seq<Sums>;

    /// The statistics of every cell.
    closed spec fn view(&self) -> Seq<Sums> {
        Seq::new(35937, |c: int| spec_cell_at(*self, c))
    }
}

/// The histogram of `rgba`: the statistics of the pixels of each cell.
spec fn spec_histogram(rgba: Seq<u8>) -> Seq<Sums> {
    Seq::new(35937, |c: int| spec_cell_pixels(rgba, c, (rgba.len() / 4) as int))
}

/// Bins every pixel of `rgba` (alpha ignored): each cell holds the count,
/// channel sums and sum of squared channels of the pixels that fall in it.
fn build_histogram(rgba: &[u8]) -> (h: Histogram)
    requires
        rgba@.len() / 4 <= MAX_QUANTIZE_PIXELS,
    ensures
        h.wf((rgba@.len() / 4) as int),
        forall|c: int|
            0 <= c < 35937 ==> #[trigger] spec_cell_at(h, c) == spec_cell_pixels(rgba@, c, (rgba@.len() / 4) as int),
        h@ == spec_histogram(rgba@),
{
    let mut h = Histogram {
        weight: vec![0u64; HISTOGRAM_SIZE],
        red: vec![0u64; HISTOGRAM_SIZE],
        green: vec![0u64; HISTOGRAM_SIZE],
        blue: vec![0u64; HISTOGRAM_SIZE],
        sum_squares: vec![0u64; HISTOGRAM_SIZE],
    };
    let n = rgba.len() / 4;
    let mut i: usize = 0;
    while i < n
        invariant
            n == rgba@.len() / 4,
            rgba@.len() <= usize::MAX,
            n <= MAX_QUANTIZE_PIXELS,
            i <= n,
            h.wf(i as int),
            forall|c: int| 0 <= c < 35937 ==> #[trigger] spec_cell_at(h, c) == spec_cell_pixels(rgba@, c, i as int),
        decreases n - i,
    {
        let r_u8 = rgba[i * 4];
        let g_u8 = rgba[i * 4 + 1];
        let b_u8 = rgba[i * 4 + 2];
        assert((r_u8 >> 3u8) < 32 && (g_u8 >> 3u8) < 32 && (b_u8 >> 3u8) < 32) by (bit_vector);
        let r = (r_u8 >> 3) as usize + 1;
        let g = (g_u8 >> 3) as usize + 1;
        let b = (b_u8 >> 3) as usize + 1;
        let idx = histogram_index(r, g, b);
        let ghost old_h = h;
        let rr = r_u8 as u64;
        let gg = g_u8 as u64;
        let bb = b_u8 as u64;
        assert(rr * rr + gg * gg + bb * bb <= 195075) by (nonlinear_arith)
            requires
                rr <= 255,
                gg <= 255,
                bb <= 255,
        ;
        let w0 = h.weight[idx];
        let r0 = h.red[idx];
        let g0 = h.green[idx];
        let b0 = h.blue[idx];
        let s0 = h.sum_squares[idx];
        h.weight.set(idx, w0 + 1);
        h.red.set(idx, r0 + rr);
        h.green.set(idx, g0 + gg);
        h.blue.set(idx, b0 + bb);
        h.sum_squares.set(idx, s0 + rr * rr + gg * gg + bb * bb);
        i += 1;
        assert forall|c: int| 0 <= c < 35937 implies {
            &&& #[trigger] h.weight@[c] <= i
            &&& h.red@[c] <= 255 * i
            &&& h.green@[c] <= 255 * i
            &&& h.blue@[c] <= 255 * i
            &&& h.sum_squares@[c] <= 195075 * i
        } by {
            assert(old_h.weight@[c] <= i - 1);
        }
        assert(spec_pixel_cell(rgba@, i - 1) == idx);
        assert forall|c: int| 0 <= c < 35937 implies #[trigger] spec_cell_at(h, c) == spec_cell_pixels(
            rgba@,
            c,
            i as int,
        ) by {
            assert(spec_cell_at(old_h, c) == spec_cell_pixels(rgba@, c, i - 1));
        }
    }
    assert(h@ =~= spec_histogram(rgba@));
    h
}

/// A box of the histogram grid: `(r0, r1] x (g0, g1] x (b0, b1]`.
#[derive(Clone, Copy)]
struct Cube {
    r0: usize,
    r1: usize,
    g0: usize,
    g1: usize,
    b0: usize,
    b1: usize,
}

impl Cube {
    /// A non-empty box inside the grid.
    spec fn wf(self) -> bool {
        &&& self.r0 < self.r1 <= 32
        &&& self.g0 < self.g1 <= 32
        &&& self.b0 < self.b1 <= 32
    }

    /// The box covering the whole grid.
    fn full() -> (c: Cube)
        ensures
            c.wf(),
            c == (Cube { r0: 0, r1: 32, g0: 0, g1: 32, b0: 0, b1: 32 }),
    {
        Cube { r0: 0, r1: 32, g0: 0, g1: 32, b0: 0, b1: 32 }
    }

    /// Whether the box has an axis it can be cut along.
    spec fn spec_can_split(self) -> bool {
        self.r1 > self.r0 + 1 || self.g1 > self.g0 + 1 || self.b1 > self.b0 + 1
    }

    /// Returns whether the box has an axis it can be cut along.
    fn can_split(self) -> (r: bool)
        requires
            self.wf(),
        ensures
            r == self.spec_can_split(),
    {
        self.r1 > self.r0 + 1 || self.g1 > self.g0 + 1 || self.b1 > self.b0 + 1
    }
}

/// The statistics of the pixels in a box.
#[derive(Clone, Copy)]
struct BoxStats {
    weight: u64,
    red: u64,
    green: u64,
    blue: u64,
    squares: u128,
}

impl BoxStats {
    /// The sums of at most `32^3` cells of a histogram of at most `n`
    /// pixels.
    spec fn bounded(self, n: int) -> bool {
        &&& self.weight <= 32768 * n
        &&& self.red <= 32768 * 255 * n
        &&& self.green <= 32768 * 255 * n
        &&& self.blue <= 32768 * 255 * n
        &&& self.squares <= 32768 * 195075 * n
    }
}

/// Running sums over pixels: count, red, green and blue sums, and the sum
/// of squared channel values.
type Sums = (int, int, int, int, int);

/// Componentwise sum.
spec fn spec_add_sums(a: Sums, b: Sums) -> Sums {
    (a.0 + b.0, a.1 + b.1, a.2 + b.2, a.3 + b.3, a.4 + b.4)
}

/// The sums of no pixels.
spec fn spec_no_sums() -> Sums {
    (0, 0, 0, 0, 0)
}

impl BoxStats {
    /// The statistics as mathematical integers.
    spec fn spec_sums(self) -> Sums {
        (self.weight as int, self.red as int, self.green as int, self.blue as int, self.squares as int)
    }
}

/// The statistics of histogram cell `(r, g, b)`.
spec fn spec_cell(h: Seq<Sums>, r: int, g: int, b: int) -> Sums {
    let c = spec_histogram_index(r, g, b);
    if 0 <= c < h.len() {
        h[c]
    } else {
        spec_no_sums()
    }
}

/// No cell has a negative pixel count.
spec fn spec_counts_nonneg(h: Seq<Sums>) -> bool {
    forall|c: int| 0 <= c < h.len() ==> #[trigger] h[c].0 >= 0
}

/// The statistics of the cells `(r, g, b)` with `b` in `(b0, b1]`.
spec fn spec_line(h: Seq<Sums>, r: int, g: int, b0: int, b1: int) -> Sums
    decreases b1 - b0,
{
    if b1 <= b0 {
        spec_no_sums()
    } else {
        spec_add_sums(spec_line(h, r, g, b0, b1 - 1), spec_cell(h, r, g, b1))
    }
}

/// The statistics of the cells `(r, g, b)` with `g` in `(g0, g1]` and `b`
/// in `(b0, b1]`.
spec fn spec_plane(h: Seq<Sums>, r: int, g0: int, g1: int, b0: int, b1: int) -> Sums
    decreases g1 - g0,
{
    if g1 <= g0 {
        spec_no_sums()
    } else {
        spec_add_sums(spec_plane(h, r, g0, g1 - 1, b0, b1), spec_line(h, r, g1, b0, b1))
    }
}

/// The statistics of the cells in `(r0, r1] x (g0, g1] x (b0, b1]`.
spec fn spec_block(h: Seq<Sums>, r0: int, r1: int, g0: int, g1: int, b0: int, b1: int) -> Sums
    decreases r1 - r0,
{
    if r1 <= r0 {
        spec_no_sums()
    } else {
        spec_add_sums(spec_block(h, r0, r1 - 1, g0, g1, b0, b1), spec_plane(h, r1, g0, g1, b0, b1))
    }
}

/// The statistics of the cells of a box.
spec fn spec_box(h: Seq<Sums>, cube: Cube) -> Sums {
    spec_block(h, cube.r0 as int, cube.r1 as int, cube.g0 as int, cube.g1 as int, cube.b0 as int, cube.b1 as int)
}

/// Adds the statistics of one histogram cell.
fn add_cell(s: BoxStats, h: &Histogram, c: usize, Ghost(n): Ghost<int>, Ghost(k): Ghost<int>) -> (t: BoxStats)
    requires
        h.wf(n),
        c < 35937,
        0 <= k < 32768,
        s.weight <= k * n,
        s.red <= k * 255 * n,
        s.green <= k * 255 * n,
        s.blue <= k * 255 * n,
        s.squares <= k * 195075 * n,
    ensures
        t.spec_sums() == spec_add_sums(
            s.spec_sums(),
            (
                h.weight@[c as int] as int,
                h.red@[c as int] as int,
                h.green@[c as int] as int,
                h.blue@[c as int] as int,
                h.sum_squares@[c as int] as int,
            ),
        ),
        t.weight <= (k + 1) * n,
        t.red <= (k + 1) * 255 * n,
        t.green <= (k + 1) * 255 * n,
        t.blue <= (k + 1) * 255 * n,
        t.squares <= (k + 1) * 195075 * n,
{
    proof {
        assert((k + 1) * n == k * n + n) by (nonlinear_arith);
        assert((k + 1) * 255 * n == k * 255 * n + 255 * n) by (nonlinear_arith);
        assert((k + 1) * 195075 * n == k * 195075 * n + 195075 * n) by (nonlinear_arith);
        assert((k + 1) * n <= 32768 * 0xFFFF_FFFFint) by (nonlinear_arith)
            requires
                0 <= k < 32768,
                0 <= n <= 0xFFFF_FFFF,
        ;
        assert((k + 1) * 255 * n <= 32768 * 255 * 0xFFFF_FFFFint) by (nonlinear_arith)
            requires
                0 <= k < 32768,
                0 <= n <= 0xFFFF_FFFF,
        ;
        assert((k + 1) * 195075 * n <= 32768 * 195075 * 0xFFFF_FFFFint) by (nonlinear_arith)
            requires
                0 <= k < 32768,
                0 <= n <= 0xFFFF_FFFF,
        ;
    }
    BoxStats {
        weight: s.weight + h.weight[c],
        red: s.red + h.red[c],
        green: s.green + h.green[c],
        blue: s.blue + h.blue[c],
        squares: s.squares + h.sum_squares[c] as u128,
    }
}

/// Sums the statistics of the cells in `cube`.
fn box_stats(cube: Cube, h: &Histogram, Ghost(n): Ghost<int>) -> (s: BoxStats)
    requires
        cube.wf(),
        h.wf(n),
    ensures
        s.spec_sums() == spec_box(h@, cube),
        s.bounded(n),
{
    let mut s = BoxStats { weight: 0, red: 0, green: 0, blue: 0, squares: 0 };
    let ghost mut k: int = 0;
    let mut r = cube.r0 + 1;
    while r <= cube.r1
        invariant
            cube.wf(),
            h.wf(n),
            cube.r0 + 1 <= r <= cube.r1 + 1,
            k == (r - cube.r0 - 1) * 1024,
            s.spec_sums() == spec_block(h@, cube.r0 as int, r - 1, cube.g0 as int, cube.g1 as int, cube.b0 as int, cube.b1 as int),
            s.weight <= k * n,
            s.red <= k * 255 * n,
            s.green <= k * 255 * n,
            s.blue <= k * 255 * n,
            s.squares <= k * 195075 * n,
        decreases cube.r1 + 1 - r,
    {
        let ghost k0 = k;
        let mut g = cube.g0 + 1;
        while g <= cube.g1
            invariant
                cube.wf(),
                h.wf(n),
                r <= cube.r1,
                cube.r0 + 1 <= r,
                k0 == (r - cube.r0 - 1) * 1024,
                cube.g0 + 1 <= g <= cube.g1 + 1,
                k0 <= k <= k0 + (g - cube.g0 - 1) * 32,
                s.spec_sums() == spec_add_sums(
                    spec_block(h@, cube.r0 as int, r - 1, cube.g0 as int, cube.g1 as int, cube.b0 as int, cube.b1 as int),
                    spec_plane(h@, r as int, cube.g0 as int, g - 1, cube.b0 as int, cube.b1 as int),
                ),
                s.weight <= k * n,
                s.red <= k * 255 * n,
                s.green <= k * 255 * n,
                s.blue <= k * 255 * n,
                s.squares <= k * 195075 * n,
            decreases cube.g1 + 1 - g,
        {
            let mut b = cube.b0 + 1;
            let ghost kg = k;
            while b <= cube.b1
                invariant
                    cube.wf(),
                    h.wf(n),
                    r <= cube.r1,
                    g <= cube.g1,
                    cube.r0 + 1 <= r,
                    cube.g0 + 1 <= g,
                    k0 == (r - cube.r0 - 1) * 1024,
                    k0 <= kg <= k0 + (g - cube.g0 - 1) * 32,
                    cube.b0 + 1 <= b <= cube.b1 + 1,
                    k == kg + (b - cube.b0 - 1),
                    s.spec_sums() == spec_add_sums(
                        spec_add_sums(
                            spec_block(h@, cube.r0 as int, r - 1, cube.g0 as int, cube.g1 as int, cube.b0 as int, cube.b1 as int),
                            spec_plane(h@, r as int, cube.g0 as int, g - 1, cube.b0 as int, cube.b1 as int),
                        ),
                        spec_line(h@, r as int, g as int, cube.b0 as int, b - 1),
                    ),
                    s.weight <= k * n,
                    s.red <= k * 255 * n,
                    s.green <= k * 255 * n,
                    s.blue <= k * 255 * n,
                    s.squares <= k * 195075 * n,
                decreases cube.b1 + 1 - b,
            {
                let c = histogram_index(r, g, b);
                s = add_cell(s, h, c, Ghost(n), Ghost(k));
                proof {
                    k = k + 1;
                }
                b += 1;
            }
            g += 1;
        }
        proof {
            let kk = k;
            assert(kk <= (r + 1 - cube.r0 - 1) * 1024);
            assert(s.weight <= (r + 1 - cube.r0 - 1) * 1024 * n) by (nonlinear_arith)
                requires
                    s.weight <= kk * n,
                    kk <= (r + 1 - cube.r0 - 1) * 1024,
                    n >= 0,
            ;
            assert(s.red <= (r + 1 - cube.r0 - 1) * 1024 * 255 * n) by (nonlinear_arith)
                requires
                    s.red <= kk * 255 * n,
                    kk <= (r + 1 - cube.r0 - 1) * 1024,
                    n >= 0,
            ;
            assert(s.green <= (r + 1 - cube.r0 - 1) * 1024 * 255 * n) by (nonlinear_arith)
                requires
                    s.green <= kk * 255 * n,
                    kk <= (r + 1 - cube.r0 - 1) * 1024,
                    n >= 0,
            ;
            assert(s.blue <= (r + 1 - cube.r0 - 1) * 1024 * 255 * n) by (nonlinear_arith)
                requires
                    s.blue <= kk * 255 * n,
                    kk <= (r + 1 - cube.r0 - 1) * 1024,
                    n >= 0,
            ;
            assert(s.squares <= (r + 1 - cube.r0 - 1) * 1024 * 195075 * n) by (nonlinear_arith)
                requires
                    s.squares <= kk * 195075 * n,
                    kk <= (r + 1 - cube.r0 - 1) * 1024,
                    n >= 0,
            ;
            k = (r + 1 - cube.r0 - 1) * 1024;
        }
        r += 1;
    }
    proof {
        let kk = k;
        assert(kk <= 32768);
        assert(s.weight <= 32768 * n) by (nonlinear_arith)
            requires
                s.weight <= kk * n,
                kk <= 32768,
                n >= 0,
        ;
        assert(s.red <= 32768 * 255 * n) by (nonlinear_arith)
            requires
                s.red <= kk * 255 * n,
                kk <= 32768,
                n >= 0,
        ;
        assert(s.green <= 32768 * 255 * n) by (nonlinear_arith)
            requires
                s.green <= kk * 255 * n,
                kk <= 32768,
                n >= 0,
        ;
        assert(s.blue <= 32768 * 255 * n) by (nonlinear_arith)
            requires
                s.blue <= kk * 255 * n,
                kk <= 32768,
                n >= 0,
        ;
        assert(s.squares <= 32768 * 195075 * n) by (nonlinear_arith)
            requires
                s.squares <= kk * 195075 * n,
                kk <= 32768,
                n >= 0,
        ;
    }
    s
}

/// Compares `n1 / d1 > n2 / d2` exactly, by continued-fraction steps
/// (no products, so no overflow).
fn frac_gt(n1: u128, d1: u128, n2: u128, d2: u128) -> (r: bool)
    requires
        d1 > 0,
        d2 > 0,
    ensures
        r == (n1 * d2 > n2 * d1),
    decreases d1 + d2,
{
    let q1 = n1 / d1;
    let q2 = n2 / d2;
    let r1 = n1 % d1;
    let r2 = n2 % d2;
    proof {
        lemma_frac_step(n1 as int, d1 as int, n2 as int, d2 as int, q1 as int, q2 as int, r1 as int, r2 as int);
    }
    if q1 != q2 {
        return q1 > q2;
    }
    if r2 == 0 {
        return r1 > 0;
    }
    if r1 == 0 {
        return false;
    }
    frac_gt(d2, r2, d1, r1)
}

/// The facts behind one continued-fraction step.
proof fn lemma_frac_step(n1: int, d1: int, n2: int, d2: int, q1: int, q2: int, r1: int, r2: int)
    requires
        d1 > 0,
        d2 > 0,
        n1 >= 0,
        n2 >= 0,
        q1 == n1 / d1,
        q2 == n2 / d2,
        r1 == n1 % d1,
        r2 == n2 % d2,
    ensures
        q1 > q2 ==> n1 * d2 > n2 * d1,
        q1 < q2 ==> !(n1 * d2 > n2 * d1),
        q1 == q2 ==> (n1 * d2 > n2 * d1 <==> d2 * r1 > d1 * r2),
        q1 == q2 && r2 == 0 ==> (n1 * d2 > n2 * d1 <==> r1 > 0),
        q1 == q2 && r1 == 0 && r2 > 0 ==> !(n1 * d2 > n2 * d1),
{
    vstd::arithmetic::div_mod::lemma_fundamental_div_mod(n1, d1);
    vstd::arithmetic::div_mod::lemma_fundamental_div_mod(n2, d2);
    assert(0 <= r1 < d1 && 0 <= r2 < d2);
    assert(n1 == d1 * q1 + r1 && n2 == d2 * q2 + r2);
    if q1 > q2 {
        assert(n1 * d2 > n2 * d1) by (nonlinear_arith)
            requires
                n1 == d1 * q1 + r1,
                n2 == d2 * q2 + r2,
                0 <= r1 < d1,
                0 <= r2 < d2,
                q1 >= q2 + 1,
                d1 > 0,
                d2 > 0,
        ;
    } else if q1 < q2 {
        assert(n2 * d1 > n1 * d2) by (nonlinear_arith)
            requires
                n1 == d1 * q1 + r1,
                n2 == d2 * q2 + r2,
                0 <= r1 < d1,
                0 <= r2 < d2,
                q2 >= q1 + 1,
                d1 > 0,
                d2 > 0,
        ;
    } else {
        assert(n1 * d2 - n2 * d1 == d2 * r1 - d1 * r2) by (nonlinear_arith)
            requires
                n1 == d1 * q1 + r1,
                n2 == d2 * q2 + r2,
                q1 == q2,
        ;
        assert(r2 == 0 ==> (d2 * r1 > d1 * r2 <==> r1 > 0)) by (nonlinear_arith)
            requires
                d2 > 0,
                r1 >= 0,
        ;
        assert(r1 == 0 && r2 > 0 ==> !(d2 * r1 > d1 * r2)) by (nonlinear_arith)
            requires
                d1 > 0,
        ;
    }
}

/// A signed fraction `num / den` with a positive denominator.
#[derive(Clone, Copy)]
struct Ratio {
    num: i128,
    den: u128,
}

impl Ratio {
    /// The denominator is positive and both parts are far from overflow.
    spec fn wf(self) -> bool {
        &&& self.den > 0
        &&& -0x1000_0000_0000_0000_0000_0000_0000_0000 < self.num < 0x1000_0000_0000_0000_0000_0000_0000_0000
    }
}

/// Compares two fractions exactly.
fn ratio_gt(a: Ratio, b: Ratio) -> (r: bool)
    requires
        a.wf(),
        b.wf(),
    ensures
        r == (a.num * b.den > b.num * a.den),
{
    if a.num >= 0 && b.num < 0 {
        assert(a.num * b.den >= 0) by (nonlinear_arith)
            requires
                a.num >= 0,
                b.den > 0,
        ;
        assert(b.num * a.den < 0) by (nonlinear_arith)
            requires
                b.num < 0,
                a.den > 0,
        ;
        true
    } else if a.num < 0 && b.num >= 0 {
        assert(a.num * b.den < 0) by (nonlinear_arith)
            requires
                a.num < 0,
                b.den > 0,
        ;
        assert(b.num * a.den >= 0) by (nonlinear_arith)
            requires
                b.num >= 0,
                a.den > 0,
        ;
        false
    } else if a.num >= 0 {
        frac_gt(a.num as u128, a.den, b.num as u128, b.den)
    } else {
        let r = frac_gt((-b.num) as u128, b.den, (-a.num) as u128, a.den);
        assert((-b.num) * a.den == -(b.num * a.den)) by (nonlinear_arith);
        assert((-a.num) * b.den == -(a.num * b.den)) by (nonlinear_arith);
        r
    }
}

impl BoxStats {
    /// Sums of at most `k` cells of a histogram of at most `n` pixels.
    spec fn within(self, k: int, n: int) -> bool {
        &&& self.weight <= k * n
        &&& self.red <= k * 255 * n
        &&& self.green <= k * 255 * n
        &&& self.blue <= k * 255 * n
        &&& self.squares <= k * 195075 * n
    }
}

/// The bound on cell counts used for the statistics of split candidates.
pub open spec fn spec_max_cells() -> int {
    1048576
}

/// Adds two box statistics.
fn add_stats(a: BoxStats, b: BoxStats, Ghost(ka): Ghost<int>, Ghost(kb): Ghost<int>, Ghost(n): Ghost<int>) -> (t: BoxStats)
    requires
        0 <= ka,
        0 <= kb,
        ka + kb <= spec_max_cells(),
        0 <= n <= 0xFFFF_FFFF,
        a.within(ka, n),
        b.within(kb, n),
    ensures
        t.spec_sums() == spec_add_sums(a.spec_sums(), b.spec_sums()),
        t.within(ka + kb, n),
{
    proof {
        assert((ka + kb) * n == ka * n + kb * n) by (nonlinear_arith);
        assert((ka + kb) * 255 * n == ka * 255 * n + kb * 255 * n) by (nonlinear_arith);
        assert((ka + kb) * 195075 * n == ka * 195075 * n + kb * 195075 * n) by (nonlinear_arith);
        assert((ka + kb) * 255 * n <= 1048576 * 255 * 0xFFFF_FFFFint) by (nonlinear_arith)
            requires
                0 <= ka + kb <= 1048576,
                0 <= n <= 0xFFFF_FFFF,
        ;
        assert((ka + kb) * 195075 * n <= 1048576 * 195075 * 0xFFFF_FFFFint) by (nonlinear_arith)
            requires
                0 <= ka + kb <= 1048576,
                0 <= n <= 0xFFFF_FFFF,
        ;
        assert((ka + kb) * n <= 1048576 * 0xFFFF_FFFFint) by (nonlinear_arith)
            requires
                0 <= ka + kb <= 1048576,
                0 <= n <= 0xFFFF_FFFF,
        ;
    }
    BoxStats {
        weight: a.weight + b.weight,
        red: a.red + b.red,
        green: a.green + b.green,
        blue: a.blue + b.blue,
        squares: a.squares + b.squares,
    }
}

/// The sum of squared channel sums, `r^2 + g^2 + b^2`.
fn color_energy(s: BoxStats, Ghost(n): Ghost<int>) -> (e: u128)
    requires
        s.within(spec_max_cells(), n),
        0 <= n <= 0xFFFF_FFFF,
    ensures
        e == s.red as int * s.red as int + s.green as int * s.green as int + s.blue as int * s.blue as int,
        e <= 0x300_0000_0000_0000_0000_0000_0000_0000,
{
    let r = s.red as u128;
    let g = s.green as u128;
    let b = s.blue as u128;
    assert(s.red <= 0x1000_0000_0000_0000) by (nonlinear_arith)
        requires
            s.red <= 1048576 * 255 * n,
            0 <= n <= 0xFFFF_FFFF,
    ;
    assert(s.green <= 0x1000_0000_0000_0000) by (nonlinear_arith)
        requires
            s.green <= 1048576 * 255 * n,
            0 <= n <= 0xFFFF_FFFF,
    ;
    assert(s.blue <= 0x1000_0000_0000_0000) by (nonlinear_arith)
        requires
            s.blue <= 1048576 * 255 * n,
            0 <= n <= 0xFFFF_FFFF,
    ;
    assert(r * r <= 0x100_0000_0000_0000_0000_0000_0000_0000) by (nonlinear_arith)
        requires
            r <= 0x1000_0000_0000_0000,
    ;
    assert(g * g <= 0x100_0000_0000_0000_0000_0000_0000_0000) by (nonlinear_arith)
        requires
            g <= 0x1000_0000_0000_0000,
    ;
    assert(b * b <= 0x100_0000_0000_0000_0000_0000_0000_0000) by (nonlinear_arith)
        requires
            b <= 0x1000_0000_0000_0000,
    ;
    r * r + g * g + b * b
}

/// The within-box variance of `cube` as a fraction: `(squares * weight -
/// (r^2 + g^2 + b^2)) / weight`, and `0 / 1` for an empty box.
spec fn spec_variance(h: Seq<Sums>, cube: Cube) -> Ratio {
    let s = spec_box(h, cube);
    if s.0 == 0 {
        Ratio { num: 0, den: 1 }
    } else {
        Ratio { num: (s.4 * s.0 - spec_energy(s)) as i128, den: s.0 as u128 }
    }
}

/// The within-box variance (total squared color error) as an exact
/// fraction: `squares - (r^2 + g^2 + b^2) / weight`, zero for an empty box.
fn variance(cube: Cube, h: &Histogram, Ghost(n): Ghost<int>) -> (v: Ratio)
    requires
        cube.wf(),
        h.wf(n),
    ensures
        v.wf(),
        spec_box(h@, cube).0 == 0 ==> v.num == 0 && v.den == 1,
        spec_box(h@, cube).0 != 0 ==> v.num == spec_box(h@, cube).4 * spec_box(h@, cube).0 - spec_energy(
            spec_box(h@, cube),
        ) && v.den == spec_box(h@, cube).0,
        v == spec_variance(h@, cube),
{
    let s = box_stats(cube, h, Ghost(n));
    if s.weight == 0 {
        return Ratio { num: 0, den: 1 };
    }
    assert(s.within(spec_max_cells(), n)) by (nonlinear_arith)
        requires
            s.bounded(n),
            n >= 0,
    ;
    let e = color_energy(s, Ghost(n));
    let w = s.weight as u128;
    assert(s.squares <= 0x2_0000_0000_0000_0000) by (nonlinear_arith)
        requires
            s.squares <= 32768 * 195075 * n,
            0 <= n <= 0xFFFF_FFFF,
    ;
    assert(w <= 0x8000_0000_0000) by (nonlinear_arith)
        requires
            w <= 32768 * n,
            0 <= n <= 0xFFFF_FFFF,
    ;
    assert(s.squares * w <= 0x1_0000_0000_0000_0000_0000_0000_0000) by (nonlinear_arith)
        requires
            s.squares <= 0x2_0000_0000_0000_0000,
            w <= 0x8000_0000_0000,
    ;
    let t = s.squares * w;
    Ratio { num: t as i128 - e as i128, den: w }
}

/// A nonnegative score `q + num / den` with `num < den`.
#[derive(Clone, Copy)]
struct Score {
    q: u128,
    num: u128,
    den: u128,
}

impl Score {
    /// The fractional part is proper.
    spec fn wf(self) -> bool {
        self.den > 0 && self.num < self.den
    }

    /// The score as a numerator over `den`.
    spec fn spec_numerator(self) -> int {
        self.q * self.den + self.num
    }
}

/// Compares two scores exactly.
fn score_gt(a: Score, b: Score) -> (r: bool)
    requires
        a.wf(),
        b.wf(),
    ensures
        r == (a.spec_numerator() * b.den > b.spec_numerator() * a.den),
{
    proof {
        let an = a.spec_numerator();
        let bn = b.spec_numerator();
        assert(an / (a.den as int) == a.q && an % (a.den as int) == a.num) by {
            lemma_fundamental_div_mod_converse(an, a.den as int, a.q as int, a.num as int);
        }
        assert(bn / (b.den as int) == b.q && bn % (b.den as int) == b.num) by {
            lemma_fundamental_div_mod_converse(bn, b.den as int, b.q as int, b.num as int);
        }
        lemma_frac_step(an, a.den as int, bn, b.den as int, a.q as int, b.q as int, a.num as int, b.num as int);
    }
    if a.q != b.q {
        a.q > b.q
    } else {
        frac_gt(a.num, a.den, b.num, b.den)
    }
}

/// The split objective of two non-empty sides, `ea / wa + eb / wb`, where
/// `e` is the color energy and `w` the pixel count of a side.
fn split_score(ea: u128, wa: u128, eb: u128, wb: u128) -> (s: Score)
    requires
        0 < wa <= 0x10_0000_0000_0000,
        0 < wb <= 0x10_0000_0000_0000,
        ea <= 0x300_0000_0000_0000_0000_0000_0000_0000,
        eb <= 0x300_0000_0000_0000_0000_0000_0000_0000,
    ensures
        s.wf(),
        s.den == wa * wb,
        s.spec_numerator() == ea * wb + eb * wa,
{
    let qa = ea / wa;
    let ra = ea % wa;
    let qb = eb / wb;
    let rb = eb % wb;
    proof {
        vstd::arithmetic::div_mod::lemma_fundamental_div_mod(ea as int, wa as int);
        vstd::arithmetic::div_mod::lemma_fundamental_div_mod(eb as int, wb as int);
    }
    assert(ra * wb < wa * wb && rb * wa < wb * wa) by (nonlinear_arith)
        requires
            ra < wa,
            rb < wb,
            wa > 0,
            wb > 0,
    ;
    assert(wa * wb <= 0x1000_0000_0000_0000_0000_0000_0000) by (nonlinear_arith)
        requires
            0 < wa <= 0x10_0000_0000_0000,
            0 < wb <= 0x10_0000_0000_0000,
    ;
    assert(wb * wa == wa * wb) by (nonlinear_arith);
    let den = wa * wb;
    let num = ra * wb + rb * wa;
    assert(qa <= ea && qb <= eb) by (nonlinear_arith)
        requires
            qa == ea / wa,
            qb == eb / wb,
            wa > 0,
            wb > 0,
    ;
    let q = qa + qb;
    assert(ea * wb + eb * wa == q * den + num) by (nonlinear_arith)
        requires
            ea == wa * qa + ra,
            eb == wb * qb + rb,
            q == qa + qb,
            den == wa * wb,
            num == ra * wb + rb * wa,
    ;
    if num >= den {
        assert((q + 1) * den + (num - den) == q * den + num) by (nonlinear_arith);
        Score { q: q + 1, num: num - den, den }
    } else {
        Score { q, num, den }
    }
}

/// An axis of the color grid.
#[derive(Clone, Copy)]
enum Axis {
    Red,
    Green,
    Blue,
}

/// `cube` with its range along `axis` narrowed to `(lo, hi]`.
spec fn spec_with_range(cube: Cube, axis: Axis, lo: usize, hi: usize) -> Cube {
    match axis {
        Axis::Red => Cube { r0: lo, r1: hi, ..cube },
        Axis::Green => Cube { g0: lo, g1: hi, ..cube },
        Axis::Blue => Cube { b0: lo, b1: hi, ..cube },
    }
}

/// The range of `cube` along `axis`.
spec fn spec_range(cube: Cube, axis: Axis) -> (usize, usize) {
    match axis {
        Axis::Red => (cube.r0, cube.r1),
        Axis::Green => (cube.g0, cube.g1),
        Axis::Blue => (cube.b0, cube.b1),
    }
}

/// Narrows `cube` along `axis` to `(lo, hi]`.
fn with_range(cube: Cube, axis: Axis, lo: usize, hi: usize) -> (c: Cube)
    ensures
        c == spec_with_range(cube, axis, lo, hi),
{
    let mut c = cube;
    match axis {
        Axis::Red => {
            c.r0 = lo;
            c.r1 = hi;
        },
        Axis::Green => {
            c.g0 = lo;
            c.g1 = hi;
        },
        Axis::Blue => {
            c.b0 = lo;
            c.b1 = hi;
        },
    }
    c
}

/// Returns the range of `cube` along `axis`.
fn range(cube: Cube, axis: Axis) -> (r: (usize, usize))
    ensures
        r == spec_range(cube, axis),
{
    match axis {
        Axis::Red => (cube.r0, cube.r1),
        Axis::Green => (cube.g0, cube.g1),
        Axis::Blue => (cube.b0, cube.b1),
    }
}

/// Splitting the `b` range of a line at `m` splits its statistics.
proof fn lemma_line_split(h: Seq<Sums>, r: int, g: int, b0: int, m: int, b1: int)
    requires
        b0 <= m <= b1,
    ensures
        spec_line(h, r, g, b0, b1) == spec_add_sums(spec_line(h, r, g, b0, m), spec_line(h, r, g, m, b1)),
    decreases b1 - m,
{
    if b1 > m {
        lemma_line_split(h, r, g, b0, m, b1 - 1);
    }
}

/// Splitting the `g` range of a plane at `m` splits its statistics.
proof fn lemma_plane_split_g(h: Seq<Sums>, r: int, g0: int, m: int, g1: int, b0: int, b1: int)
    requires
        g0 <= m <= g1,
    ensures
        spec_plane(h, r, g0, g1, b0, b1) == spec_add_sums(
            spec_plane(h, r, g0, m, b0, b1),
            spec_plane(h, r, m, g1, b0, b1),
        ),
    decreases g1 - m,
{
    if g1 > m {
        lemma_plane_split_g(h, r, g0, m, g1 - 1, b0, b1);
    }
}

/// Splitting the `b` range of a plane at `m` splits its statistics.
proof fn lemma_plane_split_b(h: Seq<Sums>, r: int, g0: int, g1: int, b0: int, m: int, b1: int)
    requires
        b0 <= m <= b1,
    ensures
        spec_plane(h, r, g0, g1, b0, b1) == spec_add_sums(
            spec_plane(h, r, g0, g1, b0, m),
            spec_plane(h, r, g0, g1, m, b1),
        ),
    decreases g1 - g0,
{
    if g1 > g0 {
        lemma_plane_split_b(h, r, g0, g1 - 1, b0, m, b1);
        lemma_line_split(h, r, g1, b0, m, b1);
    }
}

/// Splitting the `r` range of a block at `m` splits its statistics.
proof fn lemma_block_split_r(h: Seq<Sums>, r0: int, m: int, r1: int, g0: int, g1: int, b0: int, b1: int)
    requires
        r0 <= m <= r1,
    ensures
        spec_block(h, r0, r1, g0, g1, b0, b1) == spec_add_sums(
            spec_block(h, r0, m, g0, g1, b0, b1),
            spec_block(h, m, r1, g0, g1, b0, b1),
        ),
    decreases r1 - m,
{
    if r1 > m {
        lemma_block_split_r(h, r0, m, r1 - 1, g0, g1, b0, b1);
    }
}

/// Splitting the `g` range of a block at `m` splits its statistics.
proof fn lemma_block_split_g(h: Seq<Sums>, r0: int, r1: int, g0: int, m: int, g1: int, b0: int, b1: int)
    requires
        g0 <= m <= g1,
    ensures
        spec_block(h, r0, r1, g0, g1, b0, b1) == spec_add_sums(
            spec_block(h, r0, r1, g0, m, b0, b1),
            spec_block(h, r0, r1, m, g1, b0, b1),
        ),
    decreases r1 - r0,
{
    if r1 > r0 {
        lemma_block_split_g(h, r0, r1 - 1, g0, m, g1, b0, b1);
        lemma_plane_split_g(h, r1, g0, m, g1, b0, b1);
    }
}

/// Splitting the `b` range of a block at `m` splits its statistics.
proof fn lemma_block_split_b(h: Seq<Sums>, r0: int, r1: int, g0: int, g1: int, b0: int, m: int, b1: int)
    requires
        b0 <= m <= b1,
    ensures
        spec_block(h, r0, r1, g0, g1, b0, b1) == spec_add_sums(
            spec_block(h, r0, r1, g0, g1, b0, m),
            spec_block(h, r0, r1, g0, g1, m, b1),
        ),
    decreases r1 - r0,
{
    if r1 > r0 {
        lemma_block_split_b(h, r0, r1 - 1, g0, g1, b0, m, b1);
        lemma_plane_split_b(h, r1, g0, g1, b0, m, b1);
    }
}

/// Cell counts are never negative, so neither is a line's count.
proof fn lemma_line_nonneg(h: Seq<Sums>, r: int, g: int, b0: int, b1: int)
    requires
        spec_counts_nonneg(h),
    ensures
        spec_line(h, r, g, b0, b1).0 >= 0,
    decreases b1 - b0,
{
    if b1 > b0 {
        lemma_line_nonneg(h, r, g, b0, b1 - 1);
    }
}

/// A plane's pixel count is never negative.
proof fn lemma_plane_nonneg(h: Seq<Sums>, r: int, g0: int, g1: int, b0: int, b1: int)
    requires
        spec_counts_nonneg(h),
    ensures
        spec_plane(h, r, g0, g1, b0, b1).0 >= 0,
    decreases g1 - g0,
{
    if g1 > g0 {
        lemma_plane_nonneg(h, r, g0, g1 - 1, b0, b1);
        lemma_line_nonneg(h, r, g1, b0, b1);
    }
}

/// A block's pixel count is never negative.
proof fn lemma_block_nonneg(h: Seq<Sums>, r0: int, r1: int, g0: int, g1: int, b0: int, b1: int)
    requires
        spec_counts_nonneg(h),
    ensures
        spec_block(h, r0, r1, g0, g1, b0, b1).0 >= 0,
    decreases r1 - r0,
{
    if r1 > r0 {
        lemma_block_nonneg(h, r0, r1 - 1, g0, g1, b0, b1);
        lemma_plane_nonneg(h, r1, g0, g1, b0, b1);
    }
}

/// Splitting a box along `axis` at `m` splits its statistics.
proof fn lemma_box_split(h: Seq<Sums>, cube: Cube, axis: Axis, a: usize, m: usize, c: usize)
    requires
        a <= m <= c,
    ensures
        spec_box(h, spec_with_range(cube, axis, a, c)) == spec_add_sums(
            spec_box(h, spec_with_range(cube, axis, a, m)),
            spec_box(h, spec_with_range(cube, axis, m, c)),
        ),
{
    match axis {
        Axis::Red => lemma_block_split_r(
            h,
            a as int,
            m as int,
            c as int,
            cube.g0 as int,
            cube.g1 as int,
            cube.b0 as int,
            cube.b1 as int,
        ),
        Axis::Green => lemma_block_split_g(
            h,
            cube.r0 as int,
            cube.r1 as int,
            a as int,
            m as int,
            c as int,
            cube.b0 as int,
            cube.b1 as int,
        ),
        Axis::Blue => lemma_block_split_b(
            h,
            cube.r0 as int,
            cube.r1 as int,
            cube.g0 as int,
            cube.g1 as int,
            a as int,
            m as int,
            c as int,
        ),
    }
}

/// A box's pixel count is never negative.
proof fn lemma_box_nonneg(h: Seq<Sums>, cube: Cube)
    requires
        spec_counts_nonneg(h),
    ensures
        spec_box(h, cube).0 >= 0,
{
    lemma_block_nonneg(h, cube.r0 as int, cube.r1 as int, cube.g0 as int, cube.g1 as int, cube.b0 as int, cube.b1 as int);
}

/// The part of `cube` below `cut` along `axis`.
spec fn spec_lower(cube: Cube, axis: Axis, cut: usize) -> Cube {
    spec_with_range(cube, axis, spec_range(cube, axis).0, cut)
}

/// The part of `cube` above `cut` along `axis`.
spec fn spec_upper(cube: Cube, axis: Axis, cut: usize) -> Cube {
    spec_with_range(cube, axis, cut, spec_range(cube, axis).1)
}

/// `r^2 + g^2 + b^2` of the channel sums.
spec fn spec_energy(t: Sums) -> int {
    t.1 * t.1 + t.2 * t.2 + t.3 * t.3
}

/// A cut strictly inside the range along `axis` that leaves pixels on
/// both sides.
spec fn spec_cut_valid(h: Seq<Sums>, cube: Cube, axis: Axis, cut: usize) -> bool {
    &&& spec_range(cube, axis).0 < cut < spec_range(cube, axis).1
    &&& spec_box(h, spec_lower(cube, axis, cut)).0 > 0
    &&& spec_box(h, spec_upper(cube, axis, cut)).0 > 0
}

/// The numerator of a cut's score `el / wl + eu / wu` over `wl * wu`.
spec fn spec_cut_num(h: Seq<Sums>, cube: Cube, axis: Axis, cut: usize) -> int {
    let l = spec_box(h, spec_lower(cube, axis, cut));
    let u = spec_box(h, spec_upper(cube, axis, cut));
    spec_energy(l) * u.0 + spec_energy(u) * l.0
}

/// The denominator of a cut's score, `wl * wu`.
spec fn spec_cut_den(h: Seq<Sums>, cube: Cube, axis: Axis, cut: usize) -> int {
    spec_box(h, spec_lower(cube, axis, cut)).0 * spec_box(h, spec_upper(cube, axis, cut)).0
}

/// The cut `c1` along `a1` scores strictly higher than `c2` along `a2`.
spec fn spec_beats(h: Seq<Sums>, cube: Cube, a1: Axis, c1: usize, a2: Axis, c2: usize) -> bool {
    spec_cut_num(h, cube, a1, c1) * spec_cut_den(h, cube, a2, c2) > spec_cut_num(h, cube, a2, c2) * spec_cut_den(
        h,
        cube,
        a1,
        c1,
    )
}

/// Comparisons of fractions with positive denominators chain.
proof fn lemma_frac_chain(n1: int, d1: int, n2: int, d2: int, n3: int, d3: int)
    requires
        d1 > 0,
        d2 > 0,
        d3 > 0,
    ensures
        n1 * d2 >= n2 * d1 && n2 * d3 >= n3 * d2 ==> n1 * d3 >= n3 * d1,
        n1 * d2 > n2 * d1 && n2 * d3 >= n3 * d2 ==> n1 * d3 > n3 * d1,
        n1 * d2 >= n2 * d1 && n2 * d3 > n3 * d2 ==> n1 * d3 > n3 * d1,
{
    assert(n1 * d2 >= n2 * d1 && n2 * d3 >= n3 * d2 ==> n1 * d3 * d2 >= n3 * d1 * d2) by (nonlinear_arith)
        requires
            d1 > 0,
            d2 > 0,
            d3 > 0,
    ;
    assert(n1 * d2 > n2 * d1 && n2 * d3 >= n3 * d2 ==> n1 * d3 * d2 > n3 * d1 * d2) by (nonlinear_arith)
        requires
            d1 > 0,
            d2 > 0,
            d3 > 0,
    ;
    assert(n1 * d2 >= n2 * d1 && n2 * d3 > n3 * d2 ==> n1 * d3 * d2 > n3 * d1 * d2) by (nonlinear_arith)
        requires
            d1 > 0,
            d2 > 0,
            d3 > 0,
    ;
    assert(n1 * d3 * d2 >= n3 * d1 * d2 ==> n1 * d3 >= n3 * d1) by (nonlinear_arith)
        requires
            d2 > 0,
    ;
    assert(n1 * d3 * d2 > n3 * d1 * d2 ==> n1 * d3 > n3 * d1) by (nonlinear_arith)
        requires
            d2 > 0,
    ;
}

/// Narrowing a box to its own range along an axis gives the box.
proof fn lemma_with_full_range(cube: Cube, axis: Axis)
    ensures
        spec_with_range(cube, axis, spec_range(cube, axis).0, spec_range(cube, axis).1) == cube,
{
}

/// A valid cut has a positive score denominator.
proof fn lemma_den_pos(h: Seq<Sums>, cube: Cube, axis: Axis, cut: usize)
    requires
        spec_cut_valid(h, cube, axis, cut),
    ensures
        spec_cut_den(h, cube, axis, cut) > 0,
{
    let wl = spec_box(h, spec_lower(cube, axis, cut)).0;
    let wu = spec_box(h, spec_upper(cube, axis, cut)).0;
    assert(wl * wu > 0) by (nonlinear_arith)
        requires
            wl > 0,
            wu > 0,
    ;
}

/// The cut at `c` scores `s` when `s` is the cut's score numerator over its
/// denominator.
spec fn spec_scores(h: Seq<Sums>, cube: Cube, axis: Axis, c: usize, s: Score) -> bool {
    &&& s.wf()
    &&& s.spec_numerator() == spec_cut_num(h, cube, axis, c)
    &&& s.den == spec_cut_den(h, cube, axis, c)
}

/// Searches the best cut of `cube` along `axis`: among the cuts that leave
/// pixels on both sides, the first one with the highest score
/// `el / wl + eu / wu` (`e` the squared channel sums and `w` the pixel count
/// of a side), with that score; `None` when no cut leaves pixels on both
/// sides.
fn maximize(cube: Cube, axis: Axis, h: &Histogram, Ghost(n): Ghost<int>) -> (r: Option<(usize, Score)>)
    requires
        cube.wf(),
        h.wf(n),
    ensures
        match r {
            Some((cut, s)) => {
                &&& spec_cut_valid(h@, cube, axis, cut)
                &&& spec_scores(h@, cube, axis, cut, s)
                &&& forall|c: usize|
                    #[trigger] spec_cut_valid(h@, cube, axis, c) && c < cut ==> spec_beats(h@, cube, axis, cut, axis, c)
                &&& forall|c: usize|
                    #[trigger] spec_cut_valid(h@, cube, axis, c) && c > cut ==> !spec_beats(
                        h@,
                        cube,
                        axis,
                        c,
                        axis,
                        cut,
                    )
            },
            None => forall|c: usize| !#[trigger] spec_cut_valid(h@, cube, axis, c),
        },
{
    let ghost hh = h@;
    let total = box_stats(cube, h, Ghost(n));
    let (lo, hi) = range(cube, axis);
    if total.weight == 0 {
        proof {
            lemma_with_full_range(cube, axis);
            assert(spec_counts_nonneg(hh)) by {
                assert forall|c: int| 0 <= c < hh.len() implies #[trigger] hh[c].0 >= 0 by {
                    assert(hh[c] == spec_cell_at(*h, c));
                }
            }
            assert forall|c: usize| !#[trigger] spec_cut_valid(hh, cube, axis, c) by {
                if lo < c < hi {
                    lemma_box_split(hh, cube, axis, lo, c, hi);
                    lemma_box_nonneg(hh, spec_lower(cube, axis, c));
                    lemma_box_nonneg(hh, spec_upper(cube, axis, c));
                }
            }
        }
        return None;
    }
    let start = lo + 1;
    let end = hi;
    if start >= end {
        return None;
    }
    // Statistics of each one-cell-thick slab along the axis.
    let mut slabs: Vec<BoxStats> = Vec::new();
    let mut p = lo;
    while p < hi
        invariant
            cube.wf(),
            h.wf(n),
            hh == h@,
            (lo, hi) == spec_range(cube, axis),
            lo <= p <= hi,
            slabs@.len() == p - lo,
            forall|i: int| 0 <= i < slabs@.len() ==> #[trigger] slabs@[i].within(32768, n),
            forall|i: int|
                0 <= i < slabs@.len() ==> (#[trigger] slabs@[i]).spec_sums() == spec_box(
                    hh,
                    spec_with_range(cube, axis, (lo + i) as usize, (lo + i + 1) as usize),
                ),
        decreases hi - p,
    {
        let slab = with_range(cube, axis, p, p + 1);
        let st = box_stats(slab, h, Ghost(n));
        slabs.push(st);
        p += 1;
    }
    let count = hi - lo;
    // Suffix sums: `upper[i]` holds slabs `i..count`.
    let zero = BoxStats { weight: 0, red: 0, green: 0, blue: 0, squares: 0 };
    let mut upper: Vec<BoxStats> = vec![zero; count + 1];
    let mut i = count;
    assert(zero.within(0, n));
    proof {
        lemma_box_split(hh, cube, axis, hi, hi, hi);
        assert(upper@[count as int] == zero);
    }
    while i > 0
        invariant
            0 <= n <= 0xFFFF_FFFF,
            hh == h@,
            (lo, hi) == spec_range(cube, axis),
            count == hi - lo,
            count == slabs@.len(),
            count <= 32,
            i <= count,
            upper@.len() == count + 1,
            forall|j: int| 0 <= j < slabs@.len() ==> #[trigger] slabs@[j].within(32768, n),
            forall|j: int|
                0 <= j < slabs@.len() ==> (#[trigger] slabs@[j]).spec_sums() == spec_box(
                    hh,
                    spec_with_range(cube, axis, (lo + j) as usize, (lo + j + 1) as usize),
                ),
            forall|j: int| i <= j <= count ==> #[trigger] upper@[j].within((count - j) * 32768, n),
            forall|j: int|
                i <= j <= count ==> (#[trigger] upper@[j]).spec_sums() == spec_box(
                    hh,
                    spec_with_range(cube, axis, (lo + j) as usize, hi),
                ),
        decreases i,
    {
        let next = add_stats(slabs[i - 1], upper[i], Ghost(32768), Ghost((count - i) * 32768), Ghost(n));
        proof {
            lemma_box_split(hh, cube, axis, (lo + i - 1) as usize, (lo + i) as usize, hi);
        }
        upper.set(i - 1, next);
        i -= 1;
    }
    let mut best: Option<(usize, Score)> = None;
    let mut lower = zero;
    let mut cut = start;
    proof {
        lemma_box_split(hh, cube, axis, lo, lo, hi);
    }
    while cut < end
        invariant
            0 <= n <= 0xFFFF_FFFF,
            hh == h@,
            (lo, hi) == spec_range(cube, axis),
            start == lo + 1,
            end == hi,
            count == hi - lo,
            count <= 32,
            count == slabs@.len(),
            upper@.len() == count + 1,
            start <= cut <= end,
            forall|j: int| 0 <= j < slabs@.len() ==> #[trigger] slabs@[j].within(32768, n),
            forall|j: int|
                0 <= j < slabs@.len() ==> (#[trigger] slabs@[j]).spec_sums() == spec_box(
                    hh,
                    spec_with_range(cube, axis, (lo + j) as usize, (lo + j + 1) as usize),
                ),
            forall|j: int| 0 <= j <= count ==> #[trigger] upper@[j].within((count - j) * 32768, n),
            forall|j: int|
                0 <= j <= count ==> (#[trigger] upper@[j]).spec_sums() == spec_box(
                    hh,
                    spec_with_range(cube, axis, (lo + j) as usize, hi),
                ),
            lower.within((cut - lo - 1) * 32768, n),
            lower.spec_sums() == spec_box(hh, spec_with_range(cube, axis, lo, (cut - 1) as usize)),
            match best {
                Some((b, bs)) => {
                    &&& start <= b < cut
                    &&& spec_cut_valid(hh, cube, axis, b)
                    &&& spec_scores(hh, cube, axis, b, bs)
                    &&& forall|c: usize|
                        start <= c < cut && #[trigger] spec_cut_valid(hh, cube, axis, c) && c < b ==> spec_beats(
                            hh,
                            cube,
                            axis,
                            b,
                            axis,
                            c,
                        )
                    &&& forall|c: usize|
                        start <= c < cut && #[trigger] spec_cut_valid(hh, cube, axis, c) && c > b ==> !spec_beats(
                            hh,
                            cube,
                            axis,
                            c,
                            axis,
                            b,
                        )
                },
                None => forall|c: usize| start <= c < cut ==> !#[trigger] spec_cut_valid(hh, cube, axis, c),
            },
        decreases end - cut,
    {
        lower = add_stats(lower, slabs[cut - lo - 1], Ghost((cut - lo - 1) * 32768), Ghost(32768), Ghost(n));
        let up = upper[cut - lo];
        proof {
            lemma_box_split(hh, cube, axis, lo, (cut - 1) as usize, cut);
            assert(lower.spec_sums() == spec_box(hh, spec_lower(cube, axis, cut)));
            assert(up.spec_sums() == spec_box(hh, spec_upper(cube, axis, cut)));
        }
        if lower.weight != 0 && up.weight != 0 {
            proof {
                assert((cut - lo) * 32768 <= spec_max_cells());
                assert(lower.within(spec_max_cells(), n)) by (nonlinear_arith)
                    requires
                        lower.within((cut - lo) * 32768, n),
                        (cut - lo) * 32768 <= 1048576,
                        n >= 0,
                ;
                assert(up.within(spec_max_cells(), n)) by (nonlinear_arith)
                    requires
                        up.within((count - (cut - lo)) * 32768, n),
                        (count - (cut - lo)) * 32768 <= 1048576,
                        n >= 0,
                ;
                assert(lower.weight <= 0x10_0000_0000_0000) by (nonlinear_arith)
                    requires
                        lower.weight <= 1048576 * n,
                        0 <= n <= 0xFFFF_FFFF,
                ;
                assert(up.weight <= 0x10_0000_0000_0000) by (nonlinear_arith)
                    requires
                        up.weight <= 1048576 * n,
                        0 <= n <= 0xFFFF_FFFF,
                ;
            }
            let el = color_energy(lower, Ghost(n));
            let eu = color_energy(up, Ghost(n));
            let score = split_score(el, lower.weight as u128, eu, up.weight as u128);
            assert(spec_cut_valid(hh, cube, axis, cut));
            assert(spec_scores(hh, cube, axis, cut, score));
            let ghost old_best = best;
            let better = match best {
                None => true,
                Some((_, b)) => score_gt(score, b),
            };
            if better {
                best = Some((cut, score));
            }
            proof {
                lemma_den_pos(hh, cube, axis, cut);
                match old_best {
                    None => {},
                    Some((b, bs)) => {
                        lemma_den_pos(hh, cube, axis, b);
                        if better {
                            assert(spec_beats(hh, cube, axis, cut, axis, b));
                            assert forall|c: usize|
                                start <= c < cut + 1 && #[trigger] spec_cut_valid(hh, cube, axis, c) && c < cut
                                    implies spec_beats(hh, cube, axis, cut, axis, c) by {
                                lemma_den_pos(hh, cube, axis, c);
                                lemma_frac_chain(
                                    spec_cut_num(hh, cube, axis, cut),
                                    spec_cut_den(hh, cube, axis, cut),
                                    spec_cut_num(hh, cube, axis, b),
                                    spec_cut_den(hh, cube, axis, b),
                                    spec_cut_num(hh, cube, axis, c),
                                    spec_cut_den(hh, cube, axis, c),
                                );
                            }
                        } else {
                            assert(!spec_beats(hh, cube, axis, cut, axis, b));
                        }
                    },
                }
            }
        } else {
            assert(!spec_cut_valid(hh, cube, axis, cut));
        }
        cut += 1;
    }
    best
}

/// The position of an axis in the search order red, green, blue.
spec fn spec_axis_index(a: Axis) -> int {
    match a {
        Axis::Red => 0,
        Axis::Green => 1,
        Axis::Blue => 2,
    }
}

/// Cut `c2` along `a2` comes before cut `c1` along `a1` in the search order:
/// axes in order red, green, blue, and cuts in increasing position.
spec fn spec_precedes(a2: Axis, c2: usize, a1: Axis, c1: usize) -> bool {
    spec_axis_index(a2) < spec_axis_index(a1) || (a2 == a1 && c2 < c1)
}

/// The cut `c` along `a` is the first of the highest-scoring valid cuts of
/// the box over all three axes: it beats every valid cut before it and no
/// valid cut after it beats it.
spec fn spec_best_cut(h: Seq<Sums>, cube: Cube, a: Axis, c: usize) -> bool {
    &&& spec_cut_valid(h, cube, a, c)
    &&& forall|a2: Axis, c2: usize|
        #[trigger] spec_cut_valid(h, cube, a2, c2) && !(a2 == a && c2 == c) ==> {
            &&& spec_precedes(a2, c2, a, c) ==> spec_beats(h, cube, a, c, a2, c2)
            &&& !spec_precedes(a2, c2, a, c) ==> !spec_beats(h, cube, a2, c2, a, c)
        }
}

/// Two distinct cuts are ordered one way or the other.
proof fn lemma_precedes_total(a1: Axis, c1: usize, a2: Axis, c2: usize)
    requires
        !(a1 == a2 && c1 == c2),
    ensures
        spec_precedes(a1, c1, a2, c2) != spec_precedes(a2, c2, a1, c1),
{
    match a1 {
        Axis::Red => match a2 {
            Axis::Red => {},
            _ => {},
        },
        Axis::Green => match a2 {
            Axis::Green => {},
            _ => {},
        },
        Axis::Blue => match a2 {
            Axis::Blue => {},
            _ => {},
        },
    }
}

/// A box has at most one best cut.
proof fn lemma_best_cut_unique(h: Seq<Sums>, cube: Cube, a1: Axis, c1: usize, a2: Axis, c2: usize)
    requires
        spec_best_cut(h, cube, a1, c1),
        spec_best_cut(h, cube, a2, c2),
    ensures
        a1 == a2 && c1 == c2,
{
    if !(a1 == a2 && c1 == c2) {
        lemma_precedes_total(a1, c1, a2, c2);
        assert(spec_cut_valid(h, cube, a1, c1));
        assert(spec_cut_valid(h, cube, a2, c2));
    }
}

/// The two parts of `cube` at its best cut; `None` when no cut leaves
/// pixels on both sides.
spec fn spec_split(h: Seq<Sums>, cube: Cube) -> Option<(Cube, Cube)> {
    if exists|a: Axis, c: usize| spec_cut_valid(h, cube, a, c) {
        let (a, c) = choose|a: Axis, c: usize| spec_best_cut(h, cube, a, c);
        Some((spec_lower(cube, a, c), spec_upper(cube, a, c)))
    } else {
        None
    }
}

/// Splits `cube` at the best cut over all axes: the first cut, with axes
/// searched in the order red, green, blue, of the highest score among the
/// cuts that leave pixels on both sides; the two parts below and above it.
/// `None` exactly when no cut leaves pixels on both sides.
fn split_cube(cube: Cube, h: &Histogram, Ghost(n): Ghost<int>) -> (r: Option<(Cube, Cube)>)
    requires
        cube.wf(),
        h.wf(n),
    ensures
        match r {
            Some((a, b)) => {
                &&& a.wf()
                &&& b.wf()
                &&& exists|ax: Axis, c: usize|
                    #[trigger] spec_best_cut(h@, cube, ax, c) && a == spec_lower(cube, ax, c) && b == spec_upper(
                        cube,
                        ax,
                        c,
                    )
            },
            None => forall|ax: Axis, c: usize| !#[trigger] spec_cut_valid(h@, cube, ax, c),
        },
        r == spec_split(h@, cube),
{
    let ghost hh = h@;
    let mut best_axis: Option<Axis> = None;
    let mut best_cut: usize = 0;
    let mut best_score = Score { q: 0, num: 0, den: 1 };
    let axes = [Axis::Red, Axis::Green, Axis::Blue];
    assert(spec_axis_index(axes@[0]) == 0 && spec_axis_index(axes@[1]) == 1 && spec_axis_index(axes@[2]) == 2);
    let mut k: usize = 0;
    while k < 3
        invariant
            cube.wf(),
            h.wf(n),
            hh == h@,
            k <= 3,
            axes@.len() == 3,
            spec_axis_index(axes@[0]) == 0 && spec_axis_index(axes@[1]) == 1 && spec_axis_index(axes@[2]) == 2,
            best_score.wf(),
            match best_axis {
                Some(a) => {
                    &&& spec_axis_index(a) < k
                    &&& spec_cut_valid(hh, cube, a, best_cut)
                    &&& spec_scores(hh, cube, a, best_cut, best_score)
                    &&& forall|a2: Axis, c2: usize|
                        spec_axis_index(a2) < k && #[trigger] spec_cut_valid(hh, cube, a2, c2) && !(a2 == a && c2
                            == best_cut) ==> {
                            &&& spec_precedes(a2, c2, a, best_cut) ==> spec_beats(hh, cube, a, best_cut, a2, c2)
                            &&& !spec_precedes(a2, c2, a, best_cut) ==> !spec_beats(hh, cube, a2, c2, a, best_cut)
                        }
                },
                None => forall|a2: Axis, c2: usize|
                    spec_axis_index(a2) < k ==> !#[trigger] spec_cut_valid(hh, cube, a2, c2),
            },
        decreases 3 - k,
    {
        let axis = axes[k];
        assert(spec_axis_index(axis) == k);
        let found = maximize(cube, axis, h, Ghost(n));
        if let Some((cut, score)) = found {
            let ghost old_axis = best_axis;
            let ghost old_cut = best_cut;
            let ghost old_score = best_score;
            let better = match best_axis {
                None => true,
                Some(_) => score_gt(score, best_score),
            };
            if better {
                best_score = score;
                best_axis = Some(axis);
                best_cut = cut;
            }
            proof {
                lemma_den_pos(hh, cube, axis, cut);
                match old_axis {
                    None => {
                        assert forall|a2: Axis, c2: usize|
                            spec_axis_index(a2) < k + 1 && #[trigger] spec_cut_valid(hh, cube, a2, c2) && !(a2
                                == axis && c2 == cut) implies {
                            &&& spec_precedes(a2, c2, axis, cut) ==> spec_beats(hh, cube, axis, cut, a2, c2)
                            &&& !spec_precedes(a2, c2, axis, cut) ==> !spec_beats(hh, cube, a2, c2, axis, cut)
                        } by {
                            assert(a2 == axis);
                        }
                    },
                    Some(a) => {
                        lemma_den_pos(hh, cube, a, old_cut);
                        if better {
                            assert(spec_beats(hh, cube, axis, cut, a, old_cut));
                            assert forall|a2: Axis, c2: usize|
                                spec_axis_index(a2) < k + 1 && #[trigger] spec_cut_valid(hh, cube, a2, c2) && !(a2
                                    == axis && c2 == cut) implies {
                                &&& spec_precedes(a2, c2, axis, cut) ==> spec_beats(hh, cube, axis, cut, a2, c2)
                                &&& !spec_precedes(a2, c2, axis, cut) ==> !spec_beats(hh, cube, a2, c2, axis, cut)
                            } by {
                                lemma_den_pos(hh, cube, a2, c2);
                                lemma_frac_chain(
                                    spec_cut_num(hh, cube, axis, cut),
                                    spec_cut_den(hh, cube, axis, cut),
                                    spec_cut_num(hh, cube, a, old_cut),
                                    spec_cut_den(hh, cube, a, old_cut),
                                    spec_cut_num(hh, cube, a2, c2),
                                    spec_cut_den(hh, cube, a2, c2),
                                );
                                if spec_axis_index(a2) == k {
                                    assert(a2 == axis);
                                }
                            }
                        } else {
                            assert(!spec_beats(hh, cube, axis, cut, a, old_cut));
                            assert forall|a2: Axis, c2: usize|
                                spec_axis_index(a2) < k + 1 && #[trigger] spec_cut_valid(hh, cube, a2, c2) && !(a2
                                    == a && c2 == old_cut) implies {
                                &&& spec_precedes(a2, c2, a, old_cut) ==> spec_beats(hh, cube, a, old_cut, a2, c2)
                                &&& !spec_precedes(a2, c2, a, old_cut) ==> !spec_beats(hh, cube, a2, c2, a, old_cut)
                            } by {
                                if spec_axis_index(a2) == k {
                                    assert(a2 == axis);
                                    lemma_den_pos(hh, cube, a2, c2);
                                    lemma_frac_chain(
                                        spec_cut_num(hh, cube, a, old_cut),
                                        spec_cut_den(hh, cube, a, old_cut),
                                        spec_cut_num(hh, cube, axis, cut),
                                        spec_cut_den(hh, cube, axis, cut),
                                        spec_cut_num(hh, cube, a2, c2),
                                        spec_cut_den(hh, cube, a2, c2),
                                    );
                                }
                            }
                        }
                    },
                }
            }
        } else {
            proof {
                assert forall|a2: Axis, c2: usize|
                    spec_axis_index(a2) == k implies !#[trigger] spec_cut_valid(hh, cube, a2, c2) by {
                    assert(a2 == axis);
                }
            }
        }
        k += 1;
    }
    let axis = match best_axis {
        Some(a) => a,
        None => {
            return None;
        },
    };
    let (lo, hi) = range(cube, axis);
    let first = with_range(cube, axis, lo, best_cut);
    let second = with_range(cube, axis, best_cut, hi);
    if box_stats(first, h, Ghost(n)).weight == 0 || box_stats(second, h, Ghost(n)).weight == 0 {
        return None;
    }
    assert(spec_best_cut(hh, cube, axis, best_cut));
    proof {
        let (a, c) = choose|a: Axis, c: usize| spec_best_cut(hh, cube, a, c);
        lemma_best_cut_unique(hh, cube, a, c, axis, best_cut);
    }
    Some((first, second))
}

/// The histogram bin of pixel `i`.
pub open spec fn spec_pixel_bin(rgba: Seq<u8>, i: int) -> (int, int, int) {
    (spec_bin(rgba[4 * i]), spec_bin(rgba[4 * i + 1]), spec_bin(rgba[4 * i + 2]))
}

/// The count and channel sums of the pixels among the first `m` that are
/// mapped to palette entry `k`.
pub open spec fn spec_class_stats(rgba: Seq<u8>, indices: Seq<u8>, k: int, m: int) -> (int, int, int, int)
    decreases m,
{
    if m <= 0 {
        (0, 0, 0, 0)
    } else {
        let (c, r, g, b) = spec_class_stats(rgba, indices, k, m - 1);
        if indices[m - 1] as int == k {
            (c + 1, r + rgba[4 * (m - 1)], g + rgba[4 * (m - 1) + 1], b + rgba[4 * (m - 1) + 2])
        } else {
            (c, r, g, b)
        }
    }
}

/// `sum / count` rounded to nearest.
pub open spec fn spec_round_mean(sum: int, count: int) -> u8 {
    ((sum + count / 2) / count) as u8
}

/// The opaque mean color of the pixels mapped to palette entry `k`;
/// black when there are none.
pub open spec fn spec_class_color(rgba: Seq<u8>, indices: Seq<u8>, k: int) -> Seq<u8> {
    let (c, r, g, b) = spec_class_stats(rgba, indices, k, indices.len() as int);
    if c == 0 {
        seq![0u8, 0u8, 0u8, 255u8]
    } else {
        seq![spec_round_mean(r, c), spec_round_mean(g, c), spec_round_mean(b, c), 255u8]
    }
}

/// What the quantization of `rgba` to at most `max_colors` colors is: one
/// palette entry per box that the splitting ends with, and one index per
/// pixel, the box its histogram bin falls in (so pixels of the same bin
/// share an index); each entry is the opaque rounded mean color of its
/// pixels, and there are between one and `max_colors` of them.
pub open spec fn spec_quantized(rgba: Seq<u8>, max_colors: usize, palette: Seq<[u8; 4]>, indices: Seq<u8>) -> bool {
    &&& 1 <= palette.len() <= max_colors
    &&& indices.len() == rgba.len() / 4
    &&& forall|i: int| 0 <= i < indices.len() ==> (#[trigger] indices[i] as int) < palette.len()
    &&& forall|i: int, j: int|
        0 <= i < indices.len() && 0 <= j < indices.len() && #[trigger] spec_pixel_bin(rgba, i)
            == #[trigger] spec_pixel_bin(rgba, j) ==> indices[i] == indices[j]
    &&& forall|k: int| 0 <= k < palette.len() ==> (#[trigger] palette[k])@ == spec_class_color(rgba, indices, k)
    &&& palette.len() == spec_wu_palette_len(rgba, max_colors as int)
    &&& indices == spec_wu_indices(rgba, max_colors as int)
}

/// The number of boxes among the first `m` that are still worth splitting.
spec fn spec_active_count(cubes: Seq<Cube>, vars: Seq<Ratio>, m: int) -> nat
    decreases m,
{
    if m <= 0 {
        0
    } else {
        spec_active_count(cubes, vars, m - 1) + if vars[m - 1].num > 0 && cubes[m - 1].spec_can_split() {
            1nat
        } else {
            0nat
        }
    }
}

/// Zeroing the variance of an active box lowers the active count by one.
proof fn lemma_active_count_zero(cubes: Seq<Cube>, vars: Seq<Ratio>, idx: int, m: int, z: Ratio)
    requires
        0 <= idx < vars.len(),
        z.num == 0,
        vars[idx].num > 0 && cubes[idx].spec_can_split(),
        m <= vars.len(),
    ensures
        idx < m ==> spec_active_count(cubes, vars.update(idx, z), m) + 1 == spec_active_count(cubes, vars, m),
        idx >= m ==> spec_active_count(cubes, vars.update(idx, z), m) == spec_active_count(cubes, vars, m),
    decreases m,
{
    if m > 0 {
        lemma_active_count_zero(cubes, vars, idx, m - 1, z);
    }
}

/// Box `i` is still worth splitting: its variance is positive and it has
/// an axis to cut along.
spec fn spec_active(cubes: Seq<Cube>, vars: Seq<Ratio>, i: int) -> bool {
    vars[i].num > 0 && cubes[i].spec_can_split()
}

/// `a > b` as fractions with positive denominators.
spec fn spec_ratio_gt(a: Ratio, b: Ratio) -> bool {
    a.num * b.den > b.num * a.den
}

/// Among the first `m` boxes, the last of those worth splitting whose
/// variance no earlier such box exceeds; `None` when none is worth
/// splitting.
spec fn spec_pick(cubes: Seq<Cube>, vars: Seq<Ratio>, m: int) -> Option<usize>
    decreases m,
{
    if m <= 0 {
        None
    } else {
        let p = spec_pick(cubes, vars, m - 1);
        if spec_active(cubes, vars, m - 1) {
            match p {
                None => Some((m - 1) as usize),
                Some(j) => if spec_ratio_gt(vars[j as int], vars[m - 1]) {
                    Some(j)
                } else {
                    Some((m - 1) as usize)
                },
            }
        } else {
            p
        }
    }
}

/// The picked box is one of the first `m` and worth splitting.
proof fn lemma_pick_active(cubes: Seq<Cube>, vars: Seq<Ratio>, m: int)
    requires
        m <= 256,
    ensures
        spec_pick(cubes, vars, m) matches Some(j) ==> 0 <= j < m && spec_active(cubes, vars, j as int),
    decreases m,
{
    if m > 0 {
        lemma_pick_active(cubes, vars, m - 1);
    }
}

/// The box picked for the next split is, among the boxes still worth
/// splitting, one of largest variance: no other such box has a strictly
/// larger variance, and every such box after it has a strictly smaller
/// one (the last of the largest is picked).
proof fn lemma_pick_is_largest(cubes: Seq<Cube>, vars: Seq<Ratio>, m: int)
    requires
        m <= 256,
        forall|k: int| 0 <= k < m ==> (#[trigger] vars[k]).den > 0,
    ensures
        spec_pick(cubes, vars, m) matches Some(j) ==> {
            &&& 0 <= j < m
            &&& spec_active(cubes, vars, j as int)
            &&& forall|k: int|
                0 <= k < m && #[trigger] spec_active(cubes, vars, k) ==> !(vars[k].num * vars[j as int].den
                    > vars[j as int].num * vars[k].den)
            &&& forall|k: int|
                j < k < m && #[trigger] spec_active(cubes, vars, k) ==> vars[j as int].num * vars[k].den
                    > vars[k].num * vars[j as int].den
        },
    decreases m,
{
    if m > 0 {
        lemma_pick_is_largest(cubes, vars, m - 1);
        lemma_pick_active(cubes, vars, m);
        let last = m - 1;
        if spec_active(cubes, vars, last) {
            match spec_pick(cubes, vars, last) {
                None => {
                    assert forall|k: int| 0 <= k < m && #[trigger] spec_active(cubes, vars, k) implies k == last by {
                        if k < last {
                            lemma_pick_none(cubes, vars, last, k);
                        }
                    }
                },
                Some(j) => {
                    let a = vars[last];
                    let b = vars[j as int];
                    if !spec_ratio_gt(b, a) {
                        assert forall|k: int| 0 <= k < m && #[trigger] spec_active(cubes, vars, k) implies !(
                        vars[k].num * a.den > a.num * vars[k].den) by {
                            if k < last {
                                let c = vars[k];
                                lemma_frac_chain(
                                    a.num as int,
                                    a.den as int,
                                    b.num as int,
                                    b.den as int,
                                    c.num as int,
                                    c.den as int,
                                );
                            }
                        }
                    }
                },
            }
        }
    }
}

/// The zero variance given to a box that has no useful cut.
spec fn spec_zero() -> Ratio {
    Ratio { num: 0, den: 1 }
}

/// The boxes the splitting ends with, starting from `cubes` with variances
/// `vars`: while there are fewer than `max` boxes and one is worth
/// splitting, the picked box is replaced by its two parts at its best cut,
/// or, when it has no cut that leaves pixels on both sides, its variance
/// is set to zero.
spec fn spec_run(h: Seq<Sums>, max: int, cubes: Seq<Cube>, vars: Seq<Ratio>) -> Seq<Cube>
    decreases max - cubes.len(), spec_active_count(cubes, vars, cubes.len() as int),
{
    if cubes.len() >= max || vars.len() != cubes.len() || max > 256 {
        cubes
    } else {
        match spec_pick(cubes, vars, cubes.len() as int) {
            None => cubes,
            Some(idx) => match spec_split(h, cubes[idx as int]) {
                Some((first, second)) => {
                    proof {
                        lemma_pick_active(cubes, vars, cubes.len() as int);
                    }
                    spec_run(
                        h,
                        max,
                        cubes.update(idx as int, first).push(second),
                        vars.update(idx as int, spec_variance(h, first)).push(spec_variance(h, second)),
                    )
                },
                None => {
                    proof {
                        lemma_pick_active(cubes, vars, cubes.len() as int);
                        lemma_active_count_zero(cubes, vars, idx as int, cubes.len() as int, spec_zero());
                    }
                    spec_run(h, max, cubes, vars.update(idx as int, spec_zero()))
                },
            },
        }
    }
}

/// Cell `c` lies in `cube`.
spec fn spec_in_cube(cube: Cube, c: int) -> bool {
    &&& cube.r0 < c / 1089 <= cube.r1
    &&& cube.g0 < (c / 33) % 33 <= cube.g1
    &&& cube.b0 < c % 33 <= cube.b1
}

/// The index of the last of the first `m` boxes that contains cell `c`;
/// `0` when none does.
spec fn spec_tag(cubes: Seq<Cube>, c: int, m: int) -> int
    decreases m,
{
    if m <= 0 {
        0
    } else if spec_in_cube(cubes[m - 1], c) {
        m - 1
    } else {
        spec_tag(cubes, c, m - 1)
    }
}

/// The full grid box.
spec fn spec_full_cube() -> Cube {
    Cube { r0: 0, r1: 32, g0: 0, g1: 32, b0: 0, b1: 32 }
}

/// The boxes that quantizing `rgba` to at most `max_colors` colors ends
/// with, starting from the full grid.
spec fn spec_wu_boxes(rgba: Seq<u8>, max_colors: int) -> Seq<Cube> {
    let h = spec_histogram(rgba);
    spec_run(h, max_colors, seq![spec_full_cube()], seq![spec_variance(h, spec_full_cube())])
}

/// The number of palette entries when `rgba` is quantized to at most
/// `max_colors` colors: the number of boxes the splitting ends with.
pub closed spec fn spec_wu_palette_len(rgba: Seq<u8>, max_colors: int) -> nat {
    spec_wu_boxes(rgba, max_colors).len()
}

/// The palette index of every pixel of `rgba` when quantized to at most
/// `max_colors` colors: the index of the box its histogram cell falls in.
pub closed spec fn spec_wu_indices(rgba: Seq<u8>, max_colors: int) -> Seq<u8> {
    let boxes = spec_wu_boxes(rgba, max_colors);
    Seq::new(rgba.len() / 4, |i: int| spec_tag(boxes, spec_pixel_cell(rgba, i), boxes.len() as int) as u8)
}

/// Quantizes the colors of an RGBA buffer (alpha ignored) to a palette of
/// at most `max_colors` opaque colors and one palette index per pixel.
pub fn quantize(rgba: &[u8], max_colors: usize) -> (r: Result<(Vec<[u8; 4]>, Vec<u8>), QuantizeError>)
    requires
        rgba@.len() / 4 <= MAX_QUANTIZE_PIXELS,
    ensures
        match r {
            Ok((palette, indices)) => 2 <= max_colors <= 256 && spec_quantized(rgba@, max_colors, palette@, indices@),
            Err(e) => !(2 <= max_colors <= 256) && e == QuantizeError::InvalidMaxColors(max_colors),
        },
        // Lossless when the occupied bins fit: pixels of different bins get
        // different entries.
        r matches Ok((palette, indices)) ==> (spec_occupied_cells(rgba@).len() <= max_colors ==> forall|i: int, j: int|
            #![trigger indices@[i], indices@[j]]
            0 <= i < indices@.len() && 0 <= j < indices@.len() && spec_pixel_bin(rgba@, i) != spec_pixel_bin(rgba@, j)
                ==> indices@[i] != indices@[j]),
{
    if max_colors < 2 || max_colors > 256 {
        return Err(QuantizeError::InvalidMaxColors(max_colors));
    }
    let ghost n = (rgba@.len() / 4) as int;
    let h = build_histogram(rgba);
    let full = Cube::full();
    let mut cubes: Vec<Cube> = Vec::new();
    cubes.push(full);
    let mut variances: Vec<Ratio> = Vec::new();
    variances.push(variance(full, &h, Ghost(n)));
    let mut done = false;
    proof {
        assert(cubes@ =~= seq![spec_full_cube()]);
        assert(variances@ =~= seq![spec_variance(h@, spec_full_cube())]);
        lemma_variance_spread(rgba@, full, variances@[0]);
        assert forall|i: int| 0 <= i < n implies spec_holds(rgba@, full, i) by {
            lemma_bin_range(rgba@[4 * i]);
            lemma_bin_range(rgba@[4 * i + 1]);
            lemma_bin_range(rgba@[4 * i + 2]);
        }
        assert forall|i: int| #[trigger] spec_is_pixel(rgba@, i) implies exists|k: int|
            0 <= k < cubes@.len() && #[trigger] spec_holds(rgba@, cubes@[k], i) by {
            assert(spec_holds(rgba@, cubes@[0], i));
        }
        assert(spec_partition(rgba@, cubes@));
        if n > 0 {
            assert forall|k: int| #[trigger] spec_is_box(cubes@, k) implies exists|i: int|
                0 <= i < n && #[trigger] spec_holds(rgba@, cubes@[k], i) by {
                assert(spec_holds(rgba@, cubes@[k], 0));
            }
        }
        assert(spec_var_ok(h@, cubes@[0], variances@[0]));
    }
    while cubes.len() < max_colors && !done
        invariant
            h.wf(n),
            n == rgba@.len() / 4,
            h@ == spec_histogram(rgba@),
            spec_partition(rgba@, cubes@),
            n > 0 ==> spec_all_hold(rgba@, cubes@),
            forall|k: int| 0 <= k < cubes@.len() ==> #[trigger] spec_var_ok(h@, cubes@[k], variances@[k]),
            spec_run(h@, max_colors as int, cubes@, variances@) == spec_wu_boxes(rgba@, max_colors as int),
            done ==> spec_pick(cubes@, variances@, cubes@.len() as int) is None,
            2 <= max_colors <= 256,
            1 <= cubes@.len() <= max_colors,
            variances@.len() == cubes@.len(),
            forall|i: int| 0 <= i < cubes@.len() ==> (#[trigger] cubes@[i]).wf(),
            forall|i: int| 0 <= i < variances@.len() ==> (#[trigger] variances@[i]).wf(),
        decreases max_colors - cubes@.len(), spec_active_count(cubes@, variances@, cubes@.len() as int), if done {
            0int
        } else {
            1int
        },
    {
        // The last box among those with the largest positive variance.
        let mut split_idx: Option<usize> = None;
        let mut i: usize = 0;
        while i < cubes.len()
            invariant
                i <= cubes@.len(),
                variances@.len() == cubes@.len(),
                forall|k: int| 0 <= k < cubes@.len() ==> (#[trigger] cubes@[k]).wf(),
                forall|k: int| 0 <= k < variances@.len() ==> (#[trigger] variances@[k]).wf(),
                cubes@.len() <= 256,
                split_idx == spec_pick(cubes@, variances@, i as int),
                match split_idx {
                    Some(j) => j < i && variances@[j as int].num > 0 && cubes@[j as int].spec_can_split(),
                    None => true,
                },
            decreases cubes@.len() - i,
        {
            if variances[i].num > 0 && cubes[i].can_split() {
                split_idx = match split_idx {
                    None => Some(i),
                    Some(j) => if ratio_gt(variances[j], variances[i]) {
                        Some(j)
                    } else {
                        Some(i)
                    },
                };
            }
            i += 1;
        }
        match split_idx {
            None => {
                done = true;
            },
            Some(idx) => {
                let cube = cubes[idx];
                match split_cube(cube, &h, Ghost(n)) {
                    Some((first, second)) => {
                        let v1 = variance(first, &h, Ghost(n));
                        let v2 = variance(second, &h, Ghost(n));
                        let ghost (oc, ov) = (cubes@, variances@);
                        proof {
                            let (a, c) = choose|a: Axis, c: usize|
                                #[trigger] spec_best_cut(h@, cube, a, c) && first == spec_lower(cube, a, c) && second
                                    == spec_upper(cube, a, c);
                            lemma_box_held(rgba@, first);
                            lemma_box_held(rgba@, second);
                            let wl = lemma_held_witness(
                                rgba@,
                                first.r0 as int,
                                first.r1 as int,
                                first.g0 as int,
                                first.g1 as int,
                                first.b0 as int,
                                first.b1 as int,
                                n,
                            );
                            let wu = lemma_held_witness(
                                rgba@,
                                second.r0 as int,
                                second.r1 as int,
                                second.g0 as int,
                                second.g1 as int,
                                second.b0 as int,
                                second.b1 as int,
                                n,
                            );
                            lemma_split_partition(rgba@, oc, idx as int, a, c, wl, wu);
                            lemma_variance_spread(rgba@, first, v1);
                            lemma_variance_spread(rgba@, second, v2);
                        }
                        cubes.set(idx, first);
                        variances.set(idx, v1);
                        cubes.push(second);
                        variances.push(v2);
                        proof {
                            assert(cubes@ == oc.update(idx as int, first).push(second));
                            assert(variances@ == ov.update(idx as int, spec_variance(h@, first)).push(
                                spec_variance(h@, second),
                            ));
                            assert(spec_run(h@, max_colors as int, oc, ov) == spec_run(
                                h@,
                                max_colors as int,
                                cubes@,
                                variances@,
                            ));
                            assert forall|k: int| 0 <= k < cubes@.len() implies #[trigger] spec_var_ok(
                                h@,
                                cubes@[k],
                                variances@[k],
                            ) by {
                                if k != idx && k < oc.len() {
                                    assert(spec_var_ok(h@, oc[k], ov[k]));
                                }
                            }
                        }
                    },
                    None => {
                        let z = Ratio { num: 0, den: 1 };
                        let ghost ov = variances@;
                        proof {
                            lemma_active_count_zero(cubes@, variances@, idx as int, cubes@.len() as int, z);
                        }
                        variances.set(idx, z);
                        proof {
                            assert(z == spec_zero());
                            assert(spec_run(h@, max_colors as int, cubes@, ov) == spec_run(
                                h@,
                                max_colors as int,
                                cubes@,
                                variances@,
                            ));
                            assert forall|k: int| 0 <= k < cubes@.len() implies #[trigger] spec_var_ok(
                                h@,
                                cubes@[k],
                                variances@[k],
                            ) by {
                                if k != idx {
                                    assert(spec_var_ok(h@, cubes@[k], ov[k]));
                                }
                            }
                        }
                    },
                }
            },
        }
    }
    proof {
        assert(spec_run(h@, max_colors as int, cubes@, variances@) == cubes@);
        if spec_occupied_cells(rgba@).len() <= max_colors && n > 0 {
            assert forall|k: int, i: int, j: int|
                0 <= k < cubes@.len() && 0 <= i < n && 0 <= j < n && #[trigger] spec_holds(rgba@, cubes@[k], i)
                    && #[trigger] spec_holds(rgba@, cubes@[k], j) implies spec_pixel_bin(rgba@, i) == spec_pixel_bin(
                rgba@,
                j,
            ) by {
                if spec_pixel_bin(rgba@, i) != spec_pixel_bin(rgba@, j) {
                    if cubes@.len() >= max_colors {
                        lemma_count(rgba@, cubes@, k, i, j);
                    } else {
                        lemma_pick_none(cubes@, variances@, cubes@.len() as int, k);
                        assert(spec_var_ok(h@, cubes@[k], variances@[k]));
                        lemma_two_bins(rgba@, cubes@[k], variances@[k], i, j);
                    }
                }
            }
        }
    }
    // Tag every histogram cell with the index of the last box containing it.
    let count = cubes.len();
    let mut tags: Vec<u8> = Vec::with_capacity(HISTOGRAM_SIZE);
    let mut c: usize = 0;
    while c < HISTOGRAM_SIZE
        invariant
            count == cubes@.len(),
            1 <= count <= 256,
            c <= 35937,
            tags@.len() == c,
            forall|q: int| 0 <= q < c ==> #[trigger] tags@[q] as int == spec_tag(cubes@, q, count as int),
            forall|q: int| 0 <= q < c ==> (#[trigger] tags@[q] as int) < count,
        decreases 35937 - c,
    {
        let r = c / 1089;
        let g = (c / 33) % 33;
        let b = c % 33;
        let mut t: usize = 0;
        let mut k: usize = 0;
        while k < count
            invariant
                count == cubes@.len(),
                1 <= count <= 256,
                k <= count,
                r == c / 1089,
                g == (c / 33) % 33,
                b == c % 33,
                t as int == spec_tag(cubes@, c as int, k as int),
                t < count,
            decreases count - k,
        {
            let cube = cubes[k];
            if cube.r0 < r && r <= cube.r1 && cube.g0 < g && g <= cube.g1 && cube.b0 < b && b <= cube.b1 {
                t = k;
            }
            k += 1;
        }
        tags.push(t as u8);
        c += 1;
    }
    // Map every pixel to the tag of its bin.
    let npix = rgba.len() / 4;
    let mut indices: Vec<u8> = Vec::with_capacity(npix);
    let mut i: usize = 0;
    while i < npix
        invariant
            npix == rgba@.len() / 4,
            rgba@.len() <= usize::MAX,
            i <= npix,
            tags@.len() == 35937,
            forall|c: int| 0 <= c < 35937 ==> (#[trigger] tags@[c] as int) < count,
            forall|q: int| 0 <= q < 35937 ==> #[trigger] tags@[q] as int == spec_tag(cubes@, q, count as int),
            indices@.len() == i,
            forall|j: int| 0 <= j < i ==> (#[trigger] indices@[j] as int) < count,
            forall|j: int|
                0 <= j < i ==> #[trigger] indices@[j] == tags@[spec_histogram_index(
                    spec_pixel_bin(rgba@, j).0,
                    spec_pixel_bin(rgba@, j).1,
                    spec_pixel_bin(rgba@, j).2,
                )],
        decreases npix - i,
    {
        let r_u8 = rgba[i * 4];
        let g_u8 = rgba[i * 4 + 1];
        let b_u8 = rgba[i * 4 + 2];
        assert((r_u8 >> 3u8) < 32 && (g_u8 >> 3u8) < 32 && (b_u8 >> 3u8) < 32) by (bit_vector);
        let c = histogram_index((r_u8 >> 3) as usize + 1, (g_u8 >> 3) as usize + 1, (b_u8 >> 3) as usize + 1);
        indices.push(tags[c]);
        i += 1;
    }
    assert forall|a: int, b: int|
        0 <= a < indices@.len() && 0 <= b < indices@.len() && #[trigger] spec_pixel_bin(rgba@, a)
            == #[trigger] spec_pixel_bin(rgba@, b) implies indices@[a] == indices@[b] by {
        assert(indices@[a] == tags@[spec_histogram_index(
            spec_pixel_bin(rgba@, a).0,
            spec_pixel_bin(rgba@, a).1,
            spec_pixel_bin(rgba@, a).2,
        )]);
        assert(indices@[b] == tags@[spec_histogram_index(
            spec_pixel_bin(rgba@, b).0,
            spec_pixel_bin(rgba@, b).1,
            spec_pixel_bin(rgba@, b).2,
        )]);
    }
    proof {
        assert(cubes@ == spec_wu_boxes(rgba@, max_colors as int));
        assert forall|j: int| 0 <= j < npix implies #[trigger] indices@[j] == spec_tag(
            cubes@,
            spec_pixel_cell(rgba@, j),
            count as int,
        ) as u8 by {
            let q = spec_pixel_cell(rgba@, j);
            lemma_bin_range(rgba@[4 * j]);
            lemma_bin_range(rgba@[4 * j + 1]);
            lemma_bin_range(rgba@[4 * j + 2]);
            assert(0 <= q < 35937);
            assert(tags@[q] as int == spec_tag(cubes@, q, count as int));
        }
        assert(indices@ =~= spec_wu_indices(rgba@, max_colors as int));
        if spec_occupied_cells(rgba@).len() <= max_colors {
            assert forall|i: int, j: int|
                #![trigger indices@[i], indices@[j]]
                0 <= i < indices@.len() && 0 <= j < indices@.len() && spec_pixel_bin(rgba@, i) != spec_pixel_bin(
                    rgba@,
                    j,
                ) implies indices@[i] != indices@[j] by {
                assert(spec_is_pixel(rgba@, i));
                assert(spec_is_pixel(rgba@, j));
                let ki = choose|k: int| 0 <= k < cubes@.len() && #[trigger] spec_holds(rgba@, cubes@[k], i);
                let kj = choose|k: int| 0 <= k < cubes@.len() && #[trigger] spec_holds(rgba@, cubes@[k], j);
                lemma_tag_of(rgba@, cubes@, i, ki, count as int);
                lemma_tag_of(rgba@, cubes@, j, kj, count as int);
                if ki == kj {
                    assert(spec_holds(rgba@, cubes@[ki], j));
                    assert(spec_pixel_bin(rgba@, i) == spec_pixel_bin(rgba@, j));
                }
            }
        }
    }
    // The palette: the rounded mean color of the pixels of each entry.
    let mut cnt: Vec<u64> = vec![0u64; count];
    let mut sr: Vec<u64> = vec![0u64; count];
    let mut sg: Vec<u64> = vec![0u64; count];
    let mut sb: Vec<u64> = vec![0u64; count];
    assert forall|k: int| 0 <= k < count implies cnt@[k] as int == spec_class_stats(rgba@, indices@, k, 0).0
        && sr@[k] as int == spec_class_stats(rgba@, indices@, k, 0).1 && sg@[k] as int == spec_class_stats(
        rgba@,
        indices@,
        k,
        0,
    ).2 && sb@[k] as int == spec_class_stats(rgba@, indices@, k, 0).3 by {}
    let mut i: usize = 0;
    while i < npix
        invariant
            npix == rgba@.len() / 4,
            rgba@.len() <= usize::MAX,
            npix <= MAX_QUANTIZE_PIXELS,
            i <= npix,
            indices@.len() == npix,
            forall|j: int| 0 <= j < npix ==> (#[trigger] indices@[j] as int) < count,
            cnt@.len() == count,
            sr@.len() == count,
            sg@.len() == count,
            sb@.len() == count,
            forall|k: int|
                0 <= k < count ==> {
                    &&& #[trigger] cnt@[k] as int == spec_class_stats(rgba@, indices@, k, i as int).0
                    &&& sr@[k] as int == spec_class_stats(rgba@, indices@, k, i as int).1
                    &&& sg@[k] as int == spec_class_stats(rgba@, indices@, k, i as int).2
                    &&& sb@[k] as int == spec_class_stats(rgba@, indices@, k, i as int).3
                    &&& cnt@[k] <= i
                    &&& sr@[k] <= 255 * cnt@[k]
                    &&& sg@[k] <= 255 * cnt@[k]
                    &&& sb@[k] <= 255 * cnt@[k]
                },
        decreases npix - i,
    {
        let k = indices[i] as usize;
        let c0 = cnt[k];
        let r0 = sr[k];
        let g0 = sg[k];
        let b0 = sb[k];
        let pr = rgba[i * 4];
        let pg = rgba[i * 4 + 1];
        let pb = rgba[i * 4 + 2];
        proof {
            assert(255 * i <= 255 * 0xFFFF_FFFFint);
        }
        let ghost (oc, or, og, ob) = (cnt@, sr@, sg@, sb@);
        cnt.set(k, c0 + 1);
        sr.set(k, r0 + pr as u64);
        sg.set(k, g0 + pg as u64);
        sb.set(k, b0 + pb as u64);
        proof {
            assert forall|q: int| 0 <= q < count implies {
                &&& #[trigger] cnt@[q] as int == spec_class_stats(rgba@, indices@, q, i + 1).0
                &&& sr@[q] as int == spec_class_stats(rgba@, indices@, q, i + 1).1
                &&& sg@[q] as int == spec_class_stats(rgba@, indices@, q, i + 1).2
                &&& sb@[q] as int == spec_class_stats(rgba@, indices@, q, i + 1).3
                &&& cnt@[q] <= i + 1
                &&& sr@[q] <= 255 * cnt@[q]
                &&& sg@[q] <= 255 * cnt@[q]
                &&& sb@[q] <= 255 * cnt@[q]
            } by {
                assert(oc[q] as int == spec_class_stats(rgba@, indices@, q, i as int).0);
                assert(or[q] <= 255 * oc[q]);
                assert(spec_class_stats(rgba@, indices@, q, i + 1) == (if indices@[i as int] as int == q {
                    (
                        spec_class_stats(rgba@, indices@, q, i as int).0 + 1,
                        spec_class_stats(rgba@, indices@, q, i as int).1 + rgba@[4 * i],
                        spec_class_stats(rgba@, indices@, q, i as int).2 + rgba@[4 * i + 1],
                        spec_class_stats(rgba@, indices@, q, i as int).3 + rgba@[4 * i + 2],
                    )
                } else {
                    spec_class_stats(rgba@, indices@, q, i as int)
                }));
            }
        }
        i += 1;
    }
    let mut palette: Vec<[u8; 4]> = Vec::new();
    let mut k: usize = 0;
    while k < count
        invariant
            indices@.len() == npix,
            cnt@.len() == count,
            sr@.len() == count,
            sg@.len() == count,
            sb@.len() == count,
            k <= count,
            palette@.len() == k,
            npix <= MAX_QUANTIZE_PIXELS,
            forall|q: int| 0 <= q < count ==> #[trigger] cnt@[q] <= npix,
            forall|q: int|
                0 <= q < count ==> {
                    &&& #[trigger] cnt@[q] as int == spec_class_stats(rgba@, indices@, q, npix as int).0
                    &&& sr@[q] as int == spec_class_stats(rgba@, indices@, q, npix as int).1
                    &&& sg@[q] as int == spec_class_stats(rgba@, indices@, q, npix as int).2
                    &&& sb@[q] as int == spec_class_stats(rgba@, indices@, q, npix as int).3
                    &&& sr@[q] <= 255 * cnt@[q]
                    &&& sg@[q] <= 255 * cnt@[q]
                    &&& sb@[q] <= 255 * cnt@[q]
                },
            forall|q: int| 0 <= q < k ==> (#[trigger] palette@[q])@ == spec_class_color(rgba@, indices@, q),
        decreases count - k,
    {
        let c = cnt[k];
        let entry: [u8; 4] = if c == 0 {
            [0, 0, 0, 255]
        } else {
            let half = c / 2;
            let (r, g, b) = (sr[k], sg[k], sb[k]);
            assert((r + half) as int / c as int <= 255 && (g + half) as int / c as int <= 255 && (b + half) as int / c as int <= 255) by (nonlinear_arith)
                requires
                    r <= 255 * c,
                    g <= 255 * c,
                    b <= 255 * c,
                    half == c / 2,
                    c > 0,
            ;
            [((r + half) / c) as u8, ((g + half) / c) as u8, ((b + half) / c) as u8, 255]
        };
        assert(entry@ =~= spec_class_color(rgba@, indices@, k as int));
        palette.push(entry);
        k += 1;
    }
    Ok((palette, indices))
}

/// A grid cell's index decodes back to its coordinates.
proof fn lemma_decode(r: int, g: int, b: int)
    requires
        0 <= r < 33,
        0 <= g < 33,
        0 <= b < 33,
    ensures
        spec_histogram_index(r, g, b) / 1089 == r,
        (spec_histogram_index(r, g, b) / 33) % 33 == g,
        spec_histogram_index(r, g, b) % 33 == b,
{
    let c = spec_histogram_index(r, g, b);
    lemma_fundamental_div_mod_converse(c, 1089, r, g * 33 + b);
    lemma_fundamental_div_mod_converse(c, 33, r * 33 + g, b);
    lemma_fundamental_div_mod_converse(r * 33 + g, 33, r, g);
}

/// The statistics of the pixels among the first `m` whose bin `(R, G, B)`
/// lies in `(r0, r1] x (g0, g1] x (b0, b1]`.
spec fn spec_held(rgba: Seq<u8>, r0: int, r1: int, g0: int, g1: int, b0: int, b1: int, m: int) -> Sums
    decreases m,
{
    if m <= 0 {
        spec_no_sums()
    } else {
        let (r, g, b) = spec_pixel_bin(rgba, m - 1);
        let prev = spec_held(rgba, r0, r1, g0, g1, b0, b1, m - 1);
        if r0 < r <= r1 && g0 < g <= g1 && b0 < b <= b1 {
            spec_add_sums(prev, spec_pixel_sums(rgba, m - 1))
        } else {
            prev
        }
    }
}

/// The histogram of the first `m` pixels.
spec fn spec_prefix_histogram(rgba: Seq<u8>, m: int) -> Seq<Sums> {
    Seq::new(35937, |c: int| spec_cell_pixels(rgba, c, m))
}

/// A cell holds the pixels whose bin is its coordinates.
proof fn lemma_cell_held(rgba: Seq<u8>, r: int, g: int, b: int, m: int)
    requires
        0 <= r <= 32,
        0 <= g <= 32,
        0 <= b <= 32,
    ensures
        spec_cell_pixels(rgba, spec_histogram_index(r, g, b), m) == spec_held(rgba, r - 1, r, g - 1, g, b - 1, b, m),
    decreases m,
{
    if m > 0 {
        lemma_cell_held(rgba, r, g, b, m - 1);
        let (pr, pg, pb) = spec_pixel_bin(rgba, m - 1);
        lemma_bin_range(rgba[4 * (m - 1)]);
        lemma_bin_range(rgba[4 * (m - 1) + 1]);
        lemma_bin_range(rgba[4 * (m - 1) + 2]);
        lemma_decode(r, g, b);
        lemma_decode(pr, pg, pb);
    }
}

/// Pixel sums over an empty range are zero.
proof fn lemma_held_empty(rgba: Seq<u8>, r0: int, r1: int, g0: int, g1: int, b0: int, b1: int, m: int)
    requires
        r1 <= r0 || g1 <= g0 || b1 <= b0,
    ensures
        spec_held(rgba, r0, r1, g0, g1, b0, b1, m) == spec_no_sums(),
    decreases m,
{
    if m > 0 {
        lemma_held_empty(rgba, r0, r1, g0, g1, b0, b1, m - 1);
    }
}

/// Pixel sums split along the blue range.
proof fn lemma_held_split_b(rgba: Seq<u8>, r0: int, r1: int, g0: int, g1: int, b0: int, bm: int, b1: int, m: int)
    requires
        b0 <= bm <= b1,
    ensures
        spec_held(rgba, r0, r1, g0, g1, b0, b1, m) == spec_add_sums(
            spec_held(rgba, r0, r1, g0, g1, b0, bm, m),
            spec_held(rgba, r0, r1, g0, g1, bm, b1, m),
        ),
    decreases m,
{
    if m > 0 {
        lemma_held_split_b(rgba, r0, r1, g0, g1, b0, bm, b1, m - 1);
    }
}

/// Pixel sums split along the green range.
proof fn lemma_held_split_g(rgba: Seq<u8>, r0: int, r1: int, g0: int, gm: int, g1: int, b0: int, b1: int, m: int)
    requires
        g0 <= gm <= g1,
    ensures
        spec_held(rgba, r0, r1, g0, g1, b0, b1, m) == spec_add_sums(
            spec_held(rgba, r0, r1, g0, gm, b0, b1, m),
            spec_held(rgba, r0, r1, gm, g1, b0, b1, m),
        ),
    decreases m,
{
    if m > 0 {
        lemma_held_split_g(rgba, r0, r1, g0, gm, g1, b0, b1, m - 1);
    }
}

/// Pixel sums split along the red range.
proof fn lemma_held_split_r(rgba: Seq<u8>, r0: int, rm: int, r1: int, g0: int, g1: int, b0: int, b1: int, m: int)
    requires
        r0 <= rm <= r1,
    ensures
        spec_held(rgba, r0, r1, g0, g1, b0, b1, m) == spec_add_sums(
            spec_held(rgba, r0, rm, g0, g1, b0, b1, m),
            spec_held(rgba, rm, r1, g0, g1, b0, b1, m),
        ),
    decreases m,
{
    if m > 0 {
        lemma_held_split_r(rgba, r0, rm, r1, g0, g1, b0, b1, m - 1);
    }
}

/// A line of the prefix histogram holds the pixels whose bins lie on it.
proof fn lemma_line_held(rgba: Seq<u8>, r: int, g: int, b0: int, b1: int, m: int)
    requires
        0 <= r <= 32,
        0 <= g <= 32,
        0 <= b0,
        b1 <= 32,
    ensures
        spec_line(spec_prefix_histogram(rgba, m), r, g, b0, b1) == spec_held(rgba, r - 1, r, g - 1, g, b0, b1, m),
    decreases b1 - b0,
{
    if b1 <= b0 {
        lemma_held_empty(rgba, r - 1, r, g - 1, g, b0, b1, m);
    } else {
        lemma_line_held(rgba, r, g, b0, b1 - 1, m);
        lemma_held_split_b(rgba, r - 1, r, g - 1, g, b0, b1 - 1, b1, m);
        lemma_cell_held(rgba, r, g, b1, m);
    }
}

/// A plane of the prefix histogram holds the pixels whose bins lie on it.
proof fn lemma_plane_held(rgba: Seq<u8>, r: int, g0: int, g1: int, b0: int, b1: int, m: int)
    requires
        0 <= r <= 32,
        0 <= g0,
        g1 <= 32,
        0 <= b0,
        b1 <= 32,
    ensures
        spec_plane(spec_prefix_histogram(rgba, m), r, g0, g1, b0, b1) == spec_held(rgba, r - 1, r, g0, g1, b0, b1, m),
    decreases g1 - g0,
{
    if g1 <= g0 {
        lemma_held_empty(rgba, r - 1, r, g0, g1, b0, b1, m);
    } else {
        lemma_plane_held(rgba, r, g0, g1 - 1, b0, b1, m);
        lemma_held_split_g(rgba, r - 1, r, g0, g1 - 1, g1, b0, b1, m);
        lemma_line_held(rgba, r, g1, b0, b1, m);
    }
}

/// A block of the prefix histogram holds the pixels whose bins lie in it.
proof fn lemma_block_held(rgba: Seq<u8>, r0: int, r1: int, g0: int, g1: int, b0: int, b1: int, m: int)
    requires
        0 <= r0,
        r1 <= 32,
        0 <= g0,
        g1 <= 32,
        0 <= b0,
        b1 <= 32,
    ensures
        spec_block(spec_prefix_histogram(rgba, m), r0, r1, g0, g1, b0, b1) == spec_held(rgba, r0, r1, g0, g1, b0, b1, m),
    decreases r1 - r0,
{
    if r1 <= r0 {
        lemma_held_empty(rgba, r0, r1, g0, g1, b0, b1, m);
    } else {
        lemma_block_held(rgba, r0, r1 - 1, g0, g1, b0, b1, m);
        lemma_held_split_r(rgba, r0, r1 - 1, r1, g0, g1, b0, b1, m);
        lemma_plane_held(rgba, r1, g0, g1, b0, b1, m);
    }
}

/// The statistics of a box of the histogram are those of the pixels whose
/// bins lie in it.
proof fn lemma_box_held(rgba: Seq<u8>, cube: Cube)
    requires
        cube.wf(),
    ensures
        spec_box(spec_histogram(rgba), cube) == spec_held(
            rgba,
            cube.r0 as int,
            cube.r1 as int,
            cube.g0 as int,
            cube.g1 as int,
            cube.b0 as int,
            cube.b1 as int,
            (rgba.len() / 4) as int,
        ),
{
    assert(spec_histogram(rgba) =~= spec_prefix_histogram(rgba, (rgba.len() / 4) as int));
    lemma_block_held(
        rgba,
        cube.r0 as int,
        cube.r1 as int,
        cube.g0 as int,
        cube.g1 as int,
        cube.b0 as int,
        cube.b1 as int,
        (rgba.len() / 4) as int,
    );
}

/// Pixel `i`'s bin lies in `(r0, r1] x (g0, g1] x (b0, b1]`.
spec fn spec_bin_in(rgba: Seq<u8>, r0: int, r1: int, g0: int, g1: int, b0: int, b1: int, i: int) -> bool {
    let (r, g, b) = spec_pixel_bin(rgba, i);
    r0 < r <= r1 && g0 < g <= g1 && b0 < b <= b1
}

/// Pixel `i`'s color as integers.
spec fn spec_color(rgba: Seq<u8>, i: int) -> (int, int, int) {
    (rgba[4 * i] as int, rgba[4 * i + 1] as int, rgba[4 * i + 2] as int)
}

/// The sum over the pixels of `t` of their squared distance to `x`.
spec fn spec_dev(t: Sums, x: (int, int, int)) -> int {
    t.4 - 2 * (t.1 * x.0 + t.2 * x.1 + t.3 * x.2) + t.0 * (x.0 * x.0 + x.1 * x.1 + x.2 * x.2)
}

/// `count * squares - |sums|^2`: the numerator of the variance, which is
/// the sum over all pairs of pixels of their squared distance.
spec fn spec_spread(t: Sums) -> int {
    t.4 * t.0 - spec_energy(t)
}

/// The pixels in a range hold no negative count, no pixels hold nothing,
/// and a pixel in the range makes the count positive.
proof fn lemma_held_weight(rgba: Seq<u8>, r0: int, r1: int, g0: int, g1: int, b0: int, b1: int, m: int, i: int)
    ensures
        spec_held(rgba, r0, r1, g0, g1, b0, b1, m).0 >= 0,
        spec_held(rgba, r0, r1, g0, g1, b0, b1, m).0 == 0 ==> spec_held(rgba, r0, r1, g0, g1, b0, b1, m)
            == spec_no_sums(),
        0 <= i < m && spec_bin_in(rgba, r0, r1, g0, g1, b0, b1, i) ==> spec_held(rgba, r0, r1, g0, g1, b0, b1, m).0
            > 0,
    decreases m,
{
    if m > 0 {
        lemma_held_weight(rgba, r0, r1, g0, g1, b0, b1, m - 1, i);
    }
}

/// A range holding pixels holds a particular one.
proof fn lemma_held_witness(rgba: Seq<u8>, r0: int, r1: int, g0: int, g1: int, b0: int, b1: int, m: int) -> (i: int)
    requires
        spec_held(rgba, r0, r1, g0, g1, b0, b1, m).0 > 0,
    ensures
        0 <= i < m,
        spec_bin_in(rgba, r0, r1, g0, g1, b0, b1, i),
    decreases m,
{
    if m <= 0 {
        0
    } else if spec_bin_in(rgba, r0, r1, g0, g1, b0, b1, m - 1) {
        m - 1
    } else {
        lemma_held_witness(rgba, r0, r1, g0, g1, b0, b1, m - 1)
    }
}

/// Adding a pixel `y` adds its squared distance to `x` to the sum of
/// squared distances to `x`.
proof fn lemma_dev_step(w: int, s1: int, s2: int, s3: int, q: int, y0: int, y1: int, y2: int, x0: int, x1: int, x2: int)
    ensures
        (q + (y0 * y0 + y1 * y1 + y2 * y2)) - 2 * ((s1 + y0) * x0 + (s2 + y1) * x1 + (s3 + y2) * x2) + (w + 1) * (x0
            * x0 + x1 * x1 + x2 * x2) == (q - 2 * (s1 * x0 + s2 * x1 + s3 * x2) + w * (x0 * x0 + x1 * x1 + x2 * x2))
            + ((y0 - x0) * (y0 - x0) + (y1 - x1) * (y1 - x1) + (y2 - x2) * (y2 - x2)),
{
    assert((s1 + y0) * x0 == s1 * x0 + y0 * x0) by (nonlinear_arith);
    assert((s2 + y1) * x1 == s2 * x1 + y1 * x1) by (nonlinear_arith);
    assert((s3 + y2) * x2 == s3 * x2 + y2 * x2) by (nonlinear_arith);
    assert((w + 1) * (x0 * x0 + x1 * x1 + x2 * x2) == w * (x0 * x0 + x1 * x1 + x2 * x2) + (x0 * x0 + x1 * x1 + x2
        * x2)) by (nonlinear_arith);
    assert((y0 - x0) * (y0 - x0) == y0 * y0 - 2 * (y0 * x0) + x0 * x0) by (nonlinear_arith);
    assert((y1 - x1) * (y1 - x1) == y1 * y1 - 2 * (y1 * x1) + x1 * x1) by (nonlinear_arith);
    assert((y2 - x2) * (y2 - x2) == y2 * y2 - 2 * (y2 * x2) + x2 * x2) by (nonlinear_arith);
}

/// Adding a pixel `y` adds the squared distances from the earlier pixels
/// to `y` to the variance numerator.
proof fn lemma_spread_step(w: int, s1: int, s2: int, s3: int, q: int, y0: int, y1: int, y2: int)
    ensures
        (q + (y0 * y0 + y1 * y1 + y2 * y2)) * (w + 1) - ((s1 + y0) * (s1 + y0) + (s2 + y1) * (s2 + y1) + (s3 + y2) * (
            s3 + y2)) == (q * w - (s1 * s1 + s2 * s2 + s3 * s3)) + (q - 2 * (s1 * y0 + s2 * y1 + s3 * y2) + w * (y0
            * y0 + y1 * y1 + y2 * y2)),
{
    assert((q + (y0 * y0 + y1 * y1 + y2 * y2)) * (w + 1) == q * w + q + w * (y0 * y0 + y1 * y1 + y2 * y2) + (y0 * y0
        + y1 * y1 + y2 * y2)) by (nonlinear_arith);
    assert((s1 + y0) * (s1 + y0) == s1 * s1 + 2 * (s1 * y0) + y0 * y0) by (nonlinear_arith);
    assert((s2 + y1) * (s2 + y1) == s2 * s2 + 2 * (s2 * y1) + y1 * y1) by (nonlinear_arith);
    assert((s3 + y2) * (s3 + y2) == s3 * s3 + 2 * (s3 * y2) + y2 * y2) by (nonlinear_arith);
}

/// The squared distances from the pixels of a range to `x` sum to a
/// nonnegative number, positive when one of them differs from `x`.
proof fn lemma_dev(rgba: Seq<u8>, r0: int, r1: int, g0: int, g1: int, b0: int, b1: int, m: int, x: (int, int, int), i: int)
    ensures
        spec_dev(spec_held(rgba, r0, r1, g0, g1, b0, b1, m), x) >= 0,
        0 <= i < m && spec_bin_in(rgba, r0, r1, g0, g1, b0, b1, i) && spec_color(rgba, i) != x ==> spec_dev(
            spec_held(rgba, r0, r1, g0, g1, b0, b1, m),
            x,
        ) > 0,
    decreases m,
{
    if m <= 0 {
        assert(spec_dev(spec_no_sums(), x) == 0) by (nonlinear_arith);
    } else {
        lemma_dev(rgba, r0, r1, g0, g1, b0, b1, m - 1, x, i);
        let t = spec_held(rgba, r0, r1, g0, g1, b0, b1, m - 1);
        if spec_bin_in(rgba, r0, r1, g0, g1, b0, b1, m - 1) {
            let y = spec_color(rgba, m - 1);
            let u = spec_held(rgba, r0, r1, g0, g1, b0, b1, m);
            assert(u == spec_add_sums(t, (1, y.0, y.1, y.2, y.0 * y.0 + y.1 * y.1 + y.2 * y.2)));
            lemma_dev_step(t.0, t.1, t.2, t.3, t.4, y.0, y.1, y.2, x.0, x.1, x.2);
            assert(spec_dev(u, x) == spec_dev(t, x) + ((y.0 - x.0) * (y.0 - x.0) + (y.1 - x.1) * (y.1 - x.1) + (y.2
                - x.2) * (y.2 - x.2)));
            assert((y.0 - x.0) * (y.0 - x.0) + (y.1 - x.1) * (y.1 - x.1) + (y.2 - x.2) * (y.2 - x.2) >= 0)
                by (nonlinear_arith);
            assert(y != x ==> (y.0 - x.0) * (y.0 - x.0) + (y.1 - x.1) * (y.1 - x.1) + (y.2 - x.2) * (y.2 - x.2) > 0)
                by (nonlinear_arith);
            assert(spec_dev(u, x) >= 0);
        } else {
            assert(spec_held(rgba, r0, r1, g0, g1, b0, b1, m) == t);
        }
    }
}

/// The variance numerator of the pixels of a range is nonnegative, and
/// positive when two of them differ in color.
proof fn lemma_spread(rgba: Seq<u8>, r0: int, r1: int, g0: int, g1: int, b0: int, b1: int, m: int, i: int, j: int)
    ensures
        spec_spread(spec_held(rgba, r0, r1, g0, g1, b0, b1, m)) >= 0,
        0 <= i < j < m && spec_bin_in(rgba, r0, r1, g0, g1, b0, b1, i) && spec_bin_in(rgba, r0, r1, g0, g1, b0, b1, j)
            && spec_color(rgba, i) != spec_color(rgba, j) ==> spec_spread(
            spec_held(rgba, r0, r1, g0, g1, b0, b1, m),
        ) > 0,
    decreases m,
{
    if m > 0 {
        lemma_spread(rgba, r0, r1, g0, g1, b0, b1, m - 1, i, j);
        let t = spec_held(rgba, r0, r1, g0, g1, b0, b1, m - 1);
        if spec_bin_in(rgba, r0, r1, g0, g1, b0, b1, m - 1) {
            let y = spec_color(rgba, m - 1);
            let u = spec_held(rgba, r0, r1, g0, g1, b0, b1, m);
            lemma_dev(rgba, r0, r1, g0, g1, b0, b1, m - 1, y, i);
            assert(u == spec_add_sums(t, (1, y.0, y.1, y.2, y.0 * y.0 + y.1 * y.1 + y.2 * y.2)));
            lemma_spread_step(t.0, t.1, t.2, t.3, t.4, y.0, y.1, y.2);
        }
    }
}

/// Box `cube` holds pixel `i`: the pixel's bin lies in it.
spec fn spec_holds(rgba: Seq<u8>, cube: Cube, i: int) -> bool {
    spec_bin_in(rgba, cube.r0 as int, cube.r1 as int, cube.g0 as int, cube.g1 as int, cube.b0 as int, cube.b1 as int, i)
}

/// Every pixel is held by exactly one of the boxes.
spec fn spec_partition(rgba: Seq<u8>, cubes: Seq<Cube>) -> bool {
    &&& forall|k1: int, k2: int, i: int|
        0 <= k1 < cubes.len() && 0 <= k2 < cubes.len() && 0 <= i < rgba.len() / 4 && #[trigger] spec_holds(
            rgba,
            cubes[k1],
            i,
        ) && #[trigger] spec_holds(rgba, cubes[k2], i) ==> k1 == k2
    &&& forall|i: int|
        #[trigger] spec_is_pixel(rgba, i) ==> exists|k: int| 0 <= k < cubes.len() && #[trigger] spec_holds(rgba, cubes[k], i)
}

/// `i` is the index of a pixel of `rgba`.
spec fn spec_is_pixel(rgba: Seq<u8>, i: int) -> bool {
    0 <= i < rgba.len() / 4
}

/// `k` is the index of one of the boxes.
spec fn spec_is_box(cubes: Seq<Cube>, k: int) -> bool {
    0 <= k < cubes.len()
}

/// Every box holds a pixel.
spec fn spec_all_hold(rgba: Seq<u8>, cubes: Seq<Cube>) -> bool {
    forall|k: int|
        #[trigger] spec_is_box(cubes, k) ==> exists|i: int| 0 <= i < rgba.len() / 4 && #[trigger] spec_holds(rgba, cubes[k], i)
}

/// A box's stored variance: its variance numerator, or zero for a box
/// with no cut that leaves pixels on both sides.
spec fn spec_var_ok(h: Seq<Sums>, cube: Cube, v: Ratio) -> bool {
    ||| v.num == spec_spread(spec_box(h, cube))
    ||| v.num == 0 && forall|a: Axis, c: usize| !#[trigger] spec_cut_valid(h, cube, a, c)
}

/// The two parts of a cut partition the pixels of the box.
proof fn lemma_split_holds(rgba: Seq<u8>, cube: Cube, a: Axis, c: usize, i: int)
    requires
        spec_range(cube, a).0 < c < spec_range(cube, a).1,
    ensures
        (spec_holds(rgba, spec_lower(cube, a, c), i) || spec_holds(rgba, spec_upper(cube, a, c), i)) == spec_holds(
            rgba,
            cube,
            i,
        ),
        !(spec_holds(rgba, spec_lower(cube, a, c), i) && spec_holds(rgba, spec_upper(cube, a, c), i)),
{
}

/// Replacing a box by the two parts of a cut keeps the boxes a partition
/// of the pixels, each holding one.
proof fn lemma_split_partition(rgba: Seq<u8>, cubes: Seq<Cube>, idx: int, a: Axis, c: usize, wl: int, wu: int)
    requires
        0 <= idx < cubes.len(),
        spec_range(cubes[idx], a).0 < c < spec_range(cubes[idx], a).1,
        spec_partition(rgba, cubes),
        rgba.len() / 4 > 0 ==> spec_all_hold(rgba, cubes),
        0 <= wl < rgba.len() / 4,
        0 <= wu < rgba.len() / 4,
        spec_holds(rgba, spec_lower(cubes[idx], a, c), wl),
        spec_holds(rgba, spec_upper(cubes[idx], a, c), wu),
    ensures
        spec_partition(
            rgba,
            cubes.update(idx, spec_lower(cubes[idx], a, c)).push(spec_upper(cubes[idx], a, c)),
        ),
        spec_all_hold(rgba, cubes.update(idx, spec_lower(cubes[idx], a, c)).push(spec_upper(cubes[idx], a, c))),
{
    let cube = cubes[idx];
    let lo = spec_lower(cube, a, c);
    let up = spec_upper(cube, a, c);
    let nc = cubes.update(idx, lo).push(up);
    let n = rgba.len() / 4;
    let len = cubes.len() as int;
    assert forall|k1: int, k2: int, i: int|
        0 <= k1 < nc.len() && 0 <= k2 < nc.len() && 0 <= i < n && #[trigger] spec_holds(rgba, nc[k1], i)
            && #[trigger] spec_holds(rgba, nc[k2], i) implies k1 == k2 by {
        lemma_split_holds(rgba, cube, a, c, i);
        let f1 = if k1 == len {
            idx
        } else {
            k1
        };
        let f2 = if k2 == len {
            idx
        } else {
            k2
        };
        assert(spec_holds(rgba, cubes[f1], i));
        assert(spec_holds(rgba, cubes[f2], i));
    }
    assert forall|i: int| #[trigger] spec_is_pixel(rgba, i) implies exists|k: int|
        0 <= k < nc.len() && #[trigger] spec_holds(rgba, nc[k], i) by {
        let k = choose|k: int| 0 <= k < cubes.len() && #[trigger] spec_holds(rgba, cubes[k], i);
        lemma_split_holds(rgba, cube, a, c, i);
        if k == idx {
            if spec_holds(rgba, lo, i) {
                assert(spec_holds(rgba, nc[idx], i));
            } else {
                assert(spec_holds(rgba, nc[len], i));
            }
        } else {
            assert(spec_holds(rgba, nc[k], i));
        }
    }
    assert forall|k: int| #[trigger] spec_is_box(nc, k) implies exists|i: int|
        0 <= i < n && #[trigger] spec_holds(rgba, nc[k], i) by {
        if k == len {
            assert(spec_holds(rgba, nc[k], wu));
        } else if k == idx {
            assert(spec_holds(rgba, nc[k], wl));
        } else {
            assert(nc[k] == cubes[k]);
            assert(spec_is_box(cubes, k));
            let i = choose|i: int| 0 <= i < n && #[trigger] spec_holds(rgba, cubes[k], i);
            assert(spec_holds(rgba, nc[k], i));
        }
    }
    assert(spec_partition(rgba, nc));
    assert(spec_all_hold(rgba, nc));
}

/// The index of the box that holds a pixel is the tag of its cell.
proof fn lemma_tag_of(rgba: Seq<u8>, cubes: Seq<Cube>, i: int, k: int, m: int)
    requires
        spec_partition(rgba, cubes),
        0 <= i < rgba.len() / 4,
        0 <= k < m <= cubes.len(),
        spec_holds(rgba, cubes[k], i),
    ensures
        spec_tag(cubes, spec_pixel_cell(rgba, i), m) == k,
    decreases m,
{
    let (r, g, b) = spec_pixel_bin(rgba, i);
    lemma_bin_range(rgba[4 * i]);
    lemma_bin_range(rgba[4 * i + 1]);
    lemma_bin_range(rgba[4 * i + 2]);
    lemma_decode(r, g, b);
    if m - 1 != k {
        assert(!spec_holds(rgba, cubes[m - 1], i));
        lemma_tag_of(rgba, cubes, i, k, m - 1);
    }
}

/// When no box is picked, none is worth splitting.
proof fn lemma_pick_none(cubes: Seq<Cube>, vars: Seq<Ratio>, m: int, k: int)
    requires
        spec_pick(cubes, vars, m) is None,
        0 <= k < m,
    ensures
        !spec_active(cubes, vars, k),
    decreases m,
{
    if k < m - 1 {
        assert(spec_pick(cubes, vars, m - 1) is None);
        lemma_pick_none(cubes, vars, m - 1, k);
    }
}

/// The histogram cells that the pixels of `rgba` fall in.
pub open spec fn spec_occupied_cells(rgba: Seq<u8>) -> Set<int> {
    Set::new(|c: int| exists|i: int| 0 <= i < rgba.len() / 4 && spec_pixel_cell(rgba, i) == c)
}

/// Pixels share a cell exactly when they share a bin.
proof fn lemma_cell_bin(rgba: Seq<u8>, p: int, q: int)
    requires
        0 <= p < rgba.len() / 4,
        0 <= q < rgba.len() / 4,
    ensures
        (spec_pixel_cell(rgba, p) == spec_pixel_cell(rgba, q)) == (spec_pixel_bin(rgba, p) == spec_pixel_bin(rgba, q)),
        0 <= spec_pixel_cell(rgba, p) < 35937,
{
    lemma_bin_range(rgba[4 * p]);
    lemma_bin_range(rgba[4 * p + 1]);
    lemma_bin_range(rgba[4 * p + 2]);
    lemma_bin_range(rgba[4 * q]);
    lemma_bin_range(rgba[4 * q + 1]);
    lemma_bin_range(rgba[4 * q + 2]);
    let (pr, pg, pb) = spec_pixel_bin(rgba, p);
    let (qr, qg, qb) = spec_pixel_bin(rgba, q);
    lemma_decode(pr, pg, pb);
    lemma_decode(qr, qg, qb);
}

/// The coordinate of a bin along an axis.
spec fn spec_coord(a: Axis, bin: (int, int, int)) -> int {
    match a {
        Axis::Red => bin.0,
        Axis::Green => bin.1,
        Axis::Blue => bin.2,
    }
}

/// A box holding pixels `p` and `q`, with `p` lower than `q` along `a`,
/// can be cut along `a` right above `p`, leaving pixels on both sides.
proof fn lemma_cut_between(rgba: Seq<u8>, cube: Cube, a: Axis, p: int, q: int)
    requires
        cube.wf(),
        0 <= p < rgba.len() / 4,
        0 <= q < rgba.len() / 4,
        spec_holds(rgba, cube, p),
        spec_holds(rgba, cube, q),
        spec_coord(a, spec_pixel_bin(rgba, p)) < spec_coord(a, spec_pixel_bin(rgba, q)),
    ensures
        spec_cut_valid(spec_histogram(rgba), cube, a, spec_coord(a, spec_pixel_bin(rgba, p)) as usize),
{
    let c = spec_coord(a, spec_pixel_bin(rgba, p)) as usize;
    let lo = spec_lower(cube, a, c);
    let up = spec_upper(cube, a, c);
    let n = (rgba.len() / 4) as int;
    assert(spec_holds(rgba, lo, p));
    assert(spec_holds(rgba, up, q));
    lemma_box_held(rgba, lo);
    lemma_box_held(rgba, up);
    lemma_held_weight(rgba, lo.r0 as int, lo.r1 as int, lo.g0 as int, lo.g1 as int, lo.b0 as int, lo.b1 as int, n, p);
    lemma_held_weight(rgba, up.r0 as int, up.r1 as int, up.g0 as int, up.g1 as int, up.b0 as int, up.b1 as int, n, q);
}

/// A box holding pixels of two bins can be split and has a positive
/// variance numerator, whatever variance is stored for it.
proof fn lemma_two_bins(rgba: Seq<u8>, cube: Cube, v: Ratio, i: int, j: int)
    requires
        cube.wf(),
        spec_var_ok(spec_histogram(rgba), cube, v),
        0 <= i < rgba.len() / 4,
        0 <= j < rgba.len() / 4,
        spec_holds(rgba, cube, i),
        spec_holds(rgba, cube, j),
        spec_pixel_bin(rgba, i) != spec_pixel_bin(rgba, j),
    ensures
        v.num > 0,
        cube.spec_can_split(),
{
    let h = spec_histogram(rgba);
    let bi = spec_pixel_bin(rgba, i);
    let bj = spec_pixel_bin(rgba, j);
    let a = if bi.0 != bj.0 {
        Axis::Red
    } else if bi.1 != bj.1 {
        Axis::Green
    } else {
        Axis::Blue
    };
    assert(spec_coord(a, bi) != spec_coord(a, bj));
    if spec_coord(a, bi) < spec_coord(a, bj) {
        lemma_cut_between(rgba, cube, a, i, j);
    } else {
        lemma_cut_between(rgba, cube, a, j, i);
    }
    let n = (rgba.len() / 4) as int;
    lemma_box_held(rgba, cube);
    assert(spec_color(rgba, i) != spec_color(rgba, j));
    if i < j {
        lemma_spread(rgba, cube.r0 as int, cube.r1 as int, cube.g0 as int, cube.g1 as int, cube.b0 as int, cube.b1 as int, n, i, j);
    } else {
        lemma_spread(rgba, cube.r0 as int, cube.r1 as int, cube.g0 as int, cube.g1 as int, cube.b0 as int, cube.b1 as int, n, j, i);
    }
}

/// A pixel that box `k` holds, when it holds one.
spec fn spec_witness(rgba: Seq<u8>, cubes: Seq<Cube>, k: int) -> int {
    choose|i: int| 0 <= i < rgba.len() / 4 && spec_holds(rgba, cubes[k], i)
}

/// The cells of the witnesses of the first `m` boxes.
spec fn spec_witness_cells(rgba: Seq<u8>, cubes: Seq<Cube>, m: int) -> Set<int> {
    Set::new(|c: int| exists|k: int| 0 <= k < m && spec_pixel_cell(rgba, spec_witness(rgba, cubes, k)) == c)
}

/// Boxes of a partition have witnesses in distinct cells, so the first `m`
/// boxes have `m` witness cells, all occupied.
proof fn lemma_witness_cells(rgba: Seq<u8>, cubes: Seq<Cube>, m: int)
    requires
        spec_partition(rgba, cubes),
        spec_all_hold(rgba, cubes),
        0 <= m <= cubes.len(),
    ensures
        spec_witness_cells(rgba, cubes, m).finite(),
        spec_witness_cells(rgba, cubes, m).len() == m,
        spec_witness_cells(rgba, cubes, m).subset_of(spec_occupied_cells(rgba)),
    decreases m,
{
    let ws = spec_witness_cells(rgba, cubes, m);
    if m == 0 {
        assert(ws =~= Set::empty());
    } else {
        lemma_witness_cells(rgba, cubes, m - 1);
        let prev = spec_witness_cells(rgba, cubes, m - 1);
        assert(spec_is_box(cubes, m - 1));
        let w = spec_witness(rgba, cubes, m - 1);
        let cw = spec_pixel_cell(rgba, w);
        assert(0 <= w < rgba.len() / 4 && spec_holds(rgba, cubes[m - 1], w));
        assert(ws =~= prev.insert(cw));
        if prev.contains(cw) {
            let k = choose|k: int| 0 <= k < m - 1 && spec_pixel_cell(rgba, spec_witness(rgba, cubes, k)) == cw;
            assert(spec_is_box(cubes, k));
            let wk = spec_witness(rgba, cubes, k);
            assert(0 <= wk < rgba.len() / 4 && spec_holds(rgba, cubes[k], wk));
            lemma_cell_bin(rgba, wk, w);
            assert(spec_holds(rgba, cubes[m - 1], wk));
            assert(false);
        }
        assert forall|c: int| ws.contains(c) implies spec_occupied_cells(rgba).contains(c) by {
            let k = choose|k: int| 0 <= k < m && spec_pixel_cell(rgba, spec_witness(rgba, cubes, k)) == c;
            assert(spec_is_box(cubes, k));
            let wk = spec_witness(rgba, cubes, k);
            assert(0 <= wk < rgba.len() / 4 && spec_holds(rgba, cubes[k], wk));
        }
    }
}

/// When one box of a partition holds pixels of two bins, there are more
/// occupied cells than boxes.
proof fn lemma_count(rgba: Seq<u8>, cubes: Seq<Cube>, k0: int, i: int, j: int)
    requires
        spec_partition(rgba, cubes),
        spec_all_hold(rgba, cubes),
        0 <= k0 < cubes.len(),
        0 <= i < rgba.len() / 4,
        0 <= j < rgba.len() / 4,
        spec_holds(rgba, cubes[k0], i),
        spec_holds(rgba, cubes[k0], j),
        spec_pixel_bin(rgba, i) != spec_pixel_bin(rgba, j),
    ensures
        spec_occupied_cells(rgba).len() > cubes.len(),
{
    let len = cubes.len() as int;
    lemma_witness_cells(rgba, cubes, len);
    let ws = spec_witness_cells(rgba, cubes, len);
    assert(spec_is_box(cubes, k0));
    let w0 = spec_witness(rgba, cubes, k0);
    assert(0 <= w0 < rgba.len() / 4 && spec_holds(rgba, cubes[k0], w0));
    lemma_cell_bin(rgba, i, j);
    let x = if spec_pixel_cell(rgba, i) != spec_pixel_cell(rgba, w0) {
        i
    } else {
        j
    };
    lemma_cell_bin(rgba, x, w0);
    let cx = spec_pixel_cell(rgba, x);
    if ws.contains(cx) {
        let k = choose|k: int| 0 <= k < len && spec_pixel_cell(rgba, spec_witness(rgba, cubes, k)) == cx;
        assert(spec_is_box(cubes, k));
        let wk = spec_witness(rgba, cubes, k);
        assert(0 <= wk < rgba.len() / 4 && spec_holds(rgba, cubes[k], wk));
        lemma_cell_bin(rgba, wk, x);
        assert(spec_holds(rgba, cubes[k], x));
        assert(false);
    }
    let occ = spec_occupied_cells(rgba);
    vstd::set_lib::lemma_int_range(0, 35937);
    assert forall|c: int| occ.contains(c) implies vstd::set_lib::set_int_range(0, 35937).contains(c) by {
        let p = choose|p: int| 0 <= p < rgba.len() / 4 && spec_pixel_cell(rgba, p) == c;
        lemma_cell_bin(rgba, p, p);
    }
    vstd::set_lib::lemma_len_subset(occ, vstd::set_lib::set_int_range(0, 35937));
    assert(occ.contains(cx));
    vstd::set_lib::lemma_len_subset(ws.insert(cx), occ);
}

/// The numerator that `variance` computes for a box of the histogram of
/// `rgba` is the box's variance numerator.
proof fn lemma_variance_spread(rgba: Seq<u8>, cube: Cube, v: Ratio)
    requires
        cube.wf(),
        spec_box(spec_histogram(rgba), cube).0 == 0 ==> v.num == 0,
        spec_box(spec_histogram(rgba), cube).0 != 0 ==> v.num == spec_box(spec_histogram(rgba), cube).4 * spec_box(
            spec_histogram(rgba),
            cube,
        ).0 - spec_energy(spec_box(spec_histogram(rgba), cube)),
    ensures
        v.num == spec_spread(spec_box(spec_histogram(rgba), cube)),
{
    lemma_box_held(rgba, cube);
    lemma_held_weight(
        rgba,
        cube.r0 as int,
        cube.r1 as int,
        cube.g0 as int,
        cube.g1 as int,
        cube.b0 as int,
        cube.b1 as int,
        (rgba.len() / 4) as int,
        0,
    );
}

/// The red, green and blue bytes of pixel `i`.
pub open spec fn spec_rgb(rgba: Seq<u8>, i: int) -> (u8, u8, u8) {
    (rgba[4 * i], rgba[4 * i + 1], rgba[4 * i + 2])
}

/// Buffers whose pixels agree in their color bytes have the same cell
/// statistics.
proof fn lemma_cell_pixels_rgb(a: Seq<u8>, b: Seq<u8>, c: int, m: int)
    requires
        m <= a.len() / 4,
        forall|i: int| 0 <= i < a.len() / 4 ==> #[trigger] spec_rgb(a, i) == spec_rgb(b, i),
    ensures
        spec_cell_pixels(a, c, m) == spec_cell_pixels(b, c, m),
    decreases m,
{
    if m > 0 {
        lemma_cell_pixels_rgb(a, b, c, m - 1);
        assert(spec_rgb(a, m - 1) == spec_rgb(b, m - 1));
    }
}

/// Buffers whose pixels agree in their color bytes have the same class
/// statistics for the same indices.
proof fn lemma_class_stats_rgb(a: Seq<u8>, b: Seq<u8>, indices: Seq<u8>, k: int, m: int)
    requires
        m <= a.len() / 4,
        forall|i: int| 0 <= i < a.len() / 4 ==> #[trigger] spec_rgb(a, i) == spec_rgb(b, i),
    ensures
        spec_class_stats(a, indices, k, m) == spec_class_stats(b, indices, k, m),
    decreases m,
{
    if m > 0 {
        lemma_class_stats_rgb(a, b, indices, k, m - 1);
        assert(spec_rgb(a, m - 1) == spec_rgb(b, m - 1));
    }
}

/// Quantization ignores alpha: two buffers of the same length whose pixels
/// agree in their red, green and blue bytes are quantized to the same
/// palette and the same indices.
pub proof fn lemma_quantize_ignores_alpha(a: Seq<u8>, b: Seq<u8>, max_colors: usize)
    requires
        a.len() == b.len(),
        forall|i: int| 0 <= i < a.len() / 4 ==> #[trigger] spec_rgb(a, i) == spec_rgb(b, i),
    ensures
        spec_wu_indices(a, max_colors as int) == spec_wu_indices(b, max_colors as int),
        spec_wu_palette_len(a, max_colors as int) == spec_wu_palette_len(b, max_colors as int),
        forall|palette: Seq<[u8; 4]>, indices: Seq<u8>|
            #[trigger] spec_quantized(a, max_colors, palette, indices) == spec_quantized(b, max_colors, palette, indices),
{
    let n = a.len() / 4;
    assert forall|c: int| 0 <= c < 35937 implies #[trigger] spec_histogram(a)[c] == spec_histogram(b)[c] by {
        lemma_cell_pixels_rgb(a, b, c, n as int);
    }
    assert(spec_histogram(a) =~= spec_histogram(b));
    assert(spec_wu_boxes(a, max_colors as int) == spec_wu_boxes(b, max_colors as int));
    assert forall|i: int| 0 <= i < n implies #[trigger] spec_pixel_bin(a, i) == spec_pixel_bin(b, i) by {
        assert(spec_rgb(a, i) == spec_rgb(b, i));
    }
    assert forall|i: int| 0 <= i < n implies #[trigger] spec_pixel_cell(a, i) == spec_pixel_cell(b, i) by {
        assert(spec_pixel_bin(a, i) == spec_pixel_bin(b, i));
    }
    assert(spec_wu_indices(a, max_colors as int) =~= spec_wu_indices(b, max_colors as int));
    assert forall|palette: Seq<[u8; 4]>, indices: Seq<u8>|
        #[trigger] spec_quantized(a, max_colors, palette, indices) == spec_quantized(b, max_colors, palette, indices) by {
        if indices.len() == n {
            assert forall|k: int| 0 <= k < palette.len() implies #[trigger] spec_class_color(a, indices, k)
                == spec_class_color(b, indices, k) by {
                lemma_class_stats_rgb(a, b, indices, k, n as int);
            }
        }
    }
}

} // verus!
