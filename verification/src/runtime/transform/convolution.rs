//! Convolution kernels and their application with clamped borders.
//!
//! Sums are accumulated in 128 bits, so every kernel of `i32` weights is
//! applied exactly; the colour channels take `sum / divisor + bias`
//! (division truncating toward zero) clamped to `0..=255`, and alpha is
//! kept.
use vstd::prelude::*;
use crate::runtime::decode::DecodedImage;
use super::raster::{push_bytes, spec_image, spec_px, spec_row};

verus! {

/// A square kernel of odd side `size`, weights in row-major order.
#[derive(Debug, Clone, PartialEq, Eq, Hash)]
pub struct Kernel {
    pub weights: Vec<i32>,
    pub size: usize,
    pub divisor: i32,
    pub bias: i32,
}

/// The built-in filters.
#[derive(Debug, Clone, Copy, PartialEq, Eq, Hash, Structural)]
pub enum ConvolutionFilter {
    Blur,
    Sharpen,
    EdgeDetect,
    Emboss,
}

/// `a / b` truncated toward zero, as Rust divides signed integers.
pub open spec fn spec_div_trunc(a: int, b: int) -> int {
    if a >= 0 {
        a / b
    } else {
        -((-a) / b)
    }
}

/// The remainder of `a / b` truncated toward zero.
pub open spec fn spec_rem_trunc(a: int, b: int) -> int {
    if a >= 0 {
        a % b
    } else {
        -((-a) % b)
    }
}

/// A quotient is no larger than its dividend.
proof fn lemma_div_bound(a: int, b: int)
    requires
        b != 0,
    ensures
        -(if a < 0 { -a } else { a }) <= spec_div_trunc(a, b) <= (if a < 0 { -a } else { a }),
        -(if a < 0 { -a } else { a }) <= spec_rem_trunc(a, b) <= (if a < 0 { -a } else { a }),
{
    let m = if a < 0 { -a } else { a };
    vstd::arithmetic::div_mod::lemma_fundamental_div_mod(m, b);
    let q = m / b;
    let r = m % b;
    assert(-m <= q <= m && 0 <= r <= m) by (nonlinear_arith)
        requires
            m >= 0,
            b != 0,
            m == b * q + r,
            0 <= r < (if b < 0 { -b } else { b }),
    ;
}

impl Kernel {
    /// The side is odd and positive, there are `size * size` weights, and
    /// the divisor is not 0.
    pub open spec fn spec_well_formed(&self) -> bool {
        &&& self.size > 0
        &&& self.size % 2 == 1
        &&& self.weights@.len() == self.size * self.size
        &&& self.divisor != 0
    }

    /// Weight `(x, y)` (column `x`, row `y`).
    pub open spec fn spec_w(&self, x: int, y: int) -> i32 {
        self.weights@[y * self.size + x]
    }

    /// A kernel from its parts; the side must be odd and positive, the
    /// weights `size * size`, and the divisor not 0.
    pub fn new(weights: Vec<i32>, size: usize, divisor: i32, bias: i32) -> (k: Kernel)
        requires
            size > 0,
            size % 2 == 1,
            weights@.len() == size * size,
            divisor != 0,
        ensures
            k.spec_well_formed(),
            k.weights@ == weights@,
            k.size == size,
            k.divisor == divisor,
            k.bias == bias,
    {
        Kernel { weights, size, divisor, bias }
    }

    /// The first column at or after `x` whose weight in row `y` is not 0;
    /// `size` if none.
    pub open spec fn spec_first_nonzero_col(&self, y: int, x: int) -> int
        decreases self.size - x,
    {
        if x >= self.size {
            self.size as int
        } else if self.spec_w(x, y) != 0 {
            x
        } else {
            self.spec_first_nonzero_col(y, x + 1)
        }
    }

    /// The first row at or after `y` with a weight that is not 0; `size`
    /// if none.
    pub open spec fn spec_first_nonzero_row(&self, y: int) -> int
        decreases self.size - y,
    {
        if y >= self.size {
            self.size as int
        } else if self.spec_first_nonzero_col(y, 0) < self.size {
            y
        } else {
            self.spec_first_nonzero_row(y + 1)
        }
    }

    /// The factorisation `separable` finds: the row vector is the first
    /// row with a weight that is not 0, the column vector that row's first
    /// weight that is not 0 divides out of its column; `None` if a
    /// division leaves a remainder or a quotient outside `i32`, or the
    /// outer product differs from the kernel. A side of 1 gives `([1],
    /// weights)`.
    pub open spec fn spec_separable(&self) -> Option<(Seq<i32>, Seq<i32>)> {
        let n = self.size as int;
        if n == 1 {
            Some((seq![1i32], self.weights@))
        } else {
            let rr = self.spec_first_nonzero_row(0);
            if rr >= n {
                None
            } else {
                let row = self.weights@.subrange(rr * n, rr * n + n);
                let rc = self.spec_first_nonzero_col(rr, 0);
                let rv = row[rc] as int;
                if exists|y: int|
                    0 <= y < n && (spec_rem_trunc(#[trigger] self.spec_w(rc, y) as int, rv) != 0
                        || spec_div_trunc(self.spec_w(rc, y) as int, rv) > i32::MAX || spec_div_trunc(
                        self.spec_w(rc, y) as int,
                        rv,
                    ) < i32::MIN) {
                    None
                } else {
                    let col = Seq::new(n as nat, |y: int| spec_div_trunc(self.spec_w(rc, y) as int, rv) as i32);
                    if exists|x: int, y: int|
                        0 <= x < n && 0 <= y < n && col[y] * row[x] != #[trigger] self.spec_w(x, y) {
                        None
                    } else {
                        Some((col, row))
                    }
                }
            }
        }
    }

    /// The first column search finds a weight that is not 0 when it ends
    /// inside the row.
    proof fn lemma_first_nonzero_col(&self, y: int, x: int)
        requires
            0 <= x <= self.size,
        ensures
            x <= self.spec_first_nonzero_col(y, x) <= self.size,
            self.spec_first_nonzero_col(y, x) < self.size ==> self.spec_w(
                self.spec_first_nonzero_col(y, x),
                y,
            ) != 0,
        decreases self.size - x,
    {
        if x < self.size && self.spec_w(x, y) == 0 {
            self.lemma_first_nonzero_col(y, x + 1);
        }
    }

    /// The first row search finds a row with a weight that is not 0 when
    /// it ends inside the kernel.
    proof fn lemma_first_nonzero_row(&self, y: int)
        requires
            0 <= y <= self.size,
        ensures
            y <= self.spec_first_nonzero_row(y) <= self.size,
            self.spec_first_nonzero_row(y) < self.size ==> self.spec_first_nonzero_col(
                self.spec_first_nonzero_row(y),
                0,
            ) < self.size,
        decreases self.size - y,
    {
        if y < self.size && self.spec_first_nonzero_col(y, 0) >= self.size {
            self.lemma_first_nonzero_row(y + 1);
        }
    }

    /// The first column at or after `x` whose weight in row `y` is not 0.
    fn first_nonzero_col(&self, y: usize, x: usize) -> (r: usize)
        requires
            self.spec_well_formed(),
            y < self.size,
            x <= self.size,
        ensures
            r == self.spec_first_nonzero_col(y as int, x as int),
            x <= r <= self.size,
        decreases self.size - x,
    {
        let _len = self.weights.len();
        if x >= self.size {
            self.size
        } else {
            proof {
                self.lemma_first_nonzero_col(y as int, x as int);
                crate::runtime::decode::lemma_pixel_bounds(self.size as int, self.size as int, x as int, y as int);
            }
            if self.weights[y * self.size + x] != 0 {
                x
            } else {
                self.first_nonzero_col(y, x + 1)
            }
        }
    }

    /// The first row at or after `y` with a weight that is not 0.
    fn first_nonzero_row(&self, y: usize) -> (r: usize)
        requires
            self.spec_well_formed(),
            y <= self.size,
        ensures
            r == self.spec_first_nonzero_row(y as int),
            y <= r <= self.size,
        decreases self.size - y,
    {
        if y >= self.size {
            self.size
        } else if self.first_nonzero_col(y, 0) < self.size {
            y
        } else {
            self.first_nonzero_row(y + 1)
        }
    }

    /// Factors the kernel as the outer product of a column and a row
    /// vector, as `spec_separable` describes.
    pub fn separable(&self) -> (r: Option<(Vec<i32>, Vec<i32>)>)
        requires
            self.spec_well_formed(),
        ensures
            match r {
                Some((col, row)) => self.spec_separable() == Some((col@, row@)),
                None => self.spec_separable() is None,
            },
    {
        let n = self.size;
        let _len = self.weights.len();
        if n == 1 {
            let row = crate::runtime::transform::convolution::copy_weights(&self.weights);
            let col = vec![1i32];
            proof {
                assert(col@ =~= seq![1i32]);
            }
            return Some((col, row));
        }
        let ref_row_idx = self.first_nonzero_row(0);
        if ref_row_idx >= n {
            return None;
        }
        proof {
            crate::runtime::decode::lemma_row_bounds(n as int, n as int, ref_row_idx as int);
            self.lemma_first_nonzero_row(0);
            self.lemma_first_nonzero_col(ref_row_idx as int, 0);
        }
        let mut row_vec: Vec<i32> = Vec::new();
        let mut x: usize = 0;
        while x < n
            invariant
                self.spec_well_formed(),
                n == self.size,
                ref_row_idx < n,
                ref_row_idx * n + n <= n * n,
                n * n <= usize::MAX,
                x <= n,
                row_vec@ == self.weights@.subrange(ref_row_idx * n, ref_row_idx * n + x),
            decreases n - x,
        {
            row_vec.push(self.weights[ref_row_idx * n + x]);
            x += 1;
            proof {
                assert(row_vec@ =~= self.weights@.subrange(ref_row_idx * n, ref_row_idx * n + x));
            }
        }
        let ref_col_idx = self.first_nonzero_col(ref_row_idx, 0);
        let ref_val = row_vec[ref_col_idx];
        let ghost rv = ref_val as int;
        proof {
            assert(self.spec_first_nonzero_row(0) == ref_row_idx);
            assert(self.weights@.subrange(ref_row_idx * n, ref_row_idx * n + n)[ref_col_idx as int] == ref_val);
        }
        let mut col_vec: Vec<i32> = Vec::new();
        let mut y: usize = 0;
        while y < n
            invariant
                self.spec_well_formed(),
                n == self.size,
                n > 1,
                ref_col_idx < n,
                ref_val != 0,
                rv == ref_val,
                n * n <= usize::MAX,
                ref_row_idx < n,
                ref_row_idx == self.spec_first_nonzero_row(0),
                row_vec@ == self.weights@.subrange(ref_row_idx * n, ref_row_idx * n + n),
                ref_val == row_vec@[ref_col_idx as int],
                ref_col_idx == self.spec_first_nonzero_col(ref_row_idx as int, 0),
                y <= n,
                col_vec@.len() == y,
                forall|z: int|
                    0 <= z < y ==> spec_rem_trunc(#[trigger] self.spec_w(ref_col_idx as int, z) as int, rv) == 0
                        && i32::MIN <= spec_div_trunc(self.spec_w(ref_col_idx as int, z) as int, rv) <= i32::MAX,
                forall|z: int|
                    0 <= z < y ==> col_vec@[z] == spec_div_trunc(self.spec_w(ref_col_idx as int, z) as int, rv),
            decreases n - y,
        {
            proof {
                crate::runtime::decode::lemma_pixel_bounds(n as int, n as int, ref_col_idx as int, y as int);
            }
            let val = self.weights[y * n + ref_col_idx] as i64;
            let rv64 = ref_val as i64;
            proof {
                lemma_div_bound(val as int, rv64 as int);
            }
            assert(self.spec_w(ref_col_idx as int, y as int) == val);
            if val % rv64 != 0 {
                assert(spec_rem_trunc(self.spec_w(ref_col_idx as int, y as int) as int, rv) != 0);
                return None;
            }
            let q = val / rv64;
            if q > i32::MAX as i64 || q < i32::MIN as i64 {
                assert(spec_div_trunc(self.spec_w(ref_col_idx as int, y as int) as int, rv) == q);
                return None;
            }
            col_vec.push(q as i32);
            y += 1;
        }
        let ghost col = Seq::new(
            n as nat,
            |z: int| spec_div_trunc(self.spec_w(ref_col_idx as int, z) as int, rv) as i32,
        );
        proof {
            assert(col_vec@ =~= col);
        }
        let mut yy: usize = 0;
        while yy < n
            invariant
                self.spec_well_formed(),
                n == self.size,
                col_vec@.len() == n,
                row_vec@.len() == n,
                n * n <= usize::MAX,
                n > 1,
                ref_row_idx < n,
                ref_col_idx < n,
                rv == ref_val,
                ref_row_idx == self.spec_first_nonzero_row(0),
                row_vec@ == self.weights@.subrange(ref_row_idx * n, ref_row_idx * n + n),
                ref_val == row_vec@[ref_col_idx as int],
                ref_col_idx == self.spec_first_nonzero_col(ref_row_idx as int, 0),
                col_vec@ == col,
                col == Seq::new(
                    n as nat,
                    |z: int| spec_div_trunc(self.spec_w(ref_col_idx as int, z) as int, rv) as i32,
                ),
                forall|z: int|
                    0 <= z < n ==> spec_rem_trunc(#[trigger] self.spec_w(ref_col_idx as int, z) as int, rv) == 0
                        && i32::MIN <= spec_div_trunc(self.spec_w(ref_col_idx as int, z) as int, rv) <= i32::MAX,
                yy <= n,
                forall|x: int, z: int|
                    0 <= x < n && 0 <= z < yy ==> col_vec@[z] * row_vec@[x] == #[trigger] self.spec_w(x, z),
            decreases n - yy,
        {
            let mut xx: usize = 0;
            while xx < n
                invariant
                    self.spec_well_formed(),
                    n == self.size,
                    col_vec@.len() == n,
                    row_vec@.len() == n,
                    n * n <= usize::MAX,
                    n > 1,
                    ref_row_idx < n,
                    ref_col_idx < n,
                    rv == ref_val,
                    ref_row_idx == self.spec_first_nonzero_row(0),
                    row_vec@ == self.weights@.subrange(ref_row_idx * n, ref_row_idx * n + n),
                    ref_val == row_vec@[ref_col_idx as int],
                    ref_col_idx == self.spec_first_nonzero_col(ref_row_idx as int, 0),
                    col_vec@ == col,
                    col == Seq::new(
                        n as nat,
                        |z: int| spec_div_trunc(self.spec_w(ref_col_idx as int, z) as int, rv) as i32,
                    ),
                col == Seq::new(
                    n as nat,
                    |z: int| spec_div_trunc(self.spec_w(ref_col_idx as int, z) as int, rv) as i32,
                ),
                    forall|z: int|
                        0 <= z < n ==> spec_rem_trunc(#[trigger] self.spec_w(ref_col_idx as int, z) as int, rv) == 0
                            && i32::MIN <= spec_div_trunc(self.spec_w(ref_col_idx as int, z) as int, rv) <= i32::MAX,
                    yy < n,
                    xx <= n,
                    forall|x: int, z: int|
                        0 <= x < n && 0 <= z < yy ==> col_vec@[z] * row_vec@[x] == #[trigger] self.spec_w(
                            x,
                            z,
                        ),
                    forall|x: int| 0 <= x < xx ==> col_vec@[yy as int] * row_vec@[x] == #[trigger] self.spec_w(x, yy as int),
                decreases n - xx,
            {
                proof {
                    crate::runtime::decode::lemma_pixel_bounds(n as int, n as int, xx as int, yy as int);
                }
                let a = col_vec[yy] as i64;
                let b = row_vec[xx] as i64;
                assert(-0x4000_0000_0000_0000 <= a * b <= 0x4000_0000_0000_0000) by (nonlinear_arith)
                    requires
                        -0x8000_0000 <= a <= 0x7FFF_FFFF,
                        -0x8000_0000 <= b <= 0x7FFF_FFFF,
                ;
                let prod = a * b;
                if prod != self.weights[yy * n + xx] as i64 {
                    proof {
                        let nn = n as int;
                        let rc = ref_col_idx as int;
                        assert(col_vec@[yy as int] * row_vec@[xx as int] != self.spec_w(xx as int, yy as int));
                        assert(!exists|z: int|
                            0 <= z < nn && (spec_rem_trunc(#[trigger] self.spec_w(rc, z) as int, rv) != 0
                                || spec_div_trunc(self.spec_w(rc, z) as int, rv) > i32::MAX || spec_div_trunc(
                                self.spec_w(rc, z) as int,
                                rv,
                            ) < i32::MIN));
                        let rr = self.spec_first_nonzero_row(0);
                        let row_s = self.weights@.subrange(rr * nn, rr * nn + nn);
                        let rc_s = self.spec_first_nonzero_col(rr, 0);
                        let rv_s = row_s[rc_s] as int;
                        let col_s = Seq::new(
                            nn as nat,
                            |y: int| spec_div_trunc(self.spec_w(rc_s, y) as int, rv_s) as i32,
                        );
                        assert(col_s[yy as int] == col_vec@[yy as int]);
                        assert(row_s[xx as int] == row_vec@[xx as int]);
                        assert(col_s[yy as int] * row_s[xx as int] != self.spec_w(xx as int, yy as int));
                    }
                    return None;
                }
                xx += 1;
            }
            yy += 1;
        }
        Some((col_vec, row_vec))
    }

    /// The multiplications per pixel: `2 * size` for a separable kernel,
    /// `size * size` otherwise.
    pub fn replay_cost(&self) -> (r: u32)
        requires
            self.spec_well_formed(),
            self.size * self.size <= u32::MAX,
        ensures
            r == (if self.spec_separable() is Some {
                2 * self.size
            } else {
                self.size * self.size
            }),
    {
        let size = self.size;
        assert(size <= 0xFFFF) by (nonlinear_arith)
            requires
                size * size <= 0xFFFF_FFFF,
                size > 0,
        ;
        let n = size as u32;
        assert(n * n == size * size);
        assert(2 * n <= n * n || n == 1) by (nonlinear_arith)
            requires
                n >= 1,
        ;
        if self.separable().is_some() {
            2 * n
        } else {
            n * n
        }
    }
}

/// A copy of a weight vector.
fn copy_weights(v: &Vec<i32>) -> (r: Vec<i32>)
    ensures
        r@ == v@,
{
    let mut out: Vec<i32> = Vec::new();
    let mut i: usize = 0;
    while i < v.len()
        invariant
            i <= v@.len(),
            out@ == v@.subrange(0, i as int),
        decreases v.len() - i,
    {
        out.push(v[i]);
        i += 1;
        proof {
            assert(out@ =~= v@.subrange(0, i as int));
        }
    }
    proof {
        assert(v@.subrange(0, i as int) =~= v@);
    }
    out
}


impl ConvolutionFilter {
    /// The kernel of a built-in filter.
    pub open spec fn spec_kernel(self) -> (Seq<i32>, i32, i32) {
        match self {
            ConvolutionFilter::Blur => (seq![1i32, 2, 1, 2, 4, 2, 1, 2, 1], 16, 0),
            ConvolutionFilter::Sharpen => (seq![0i32, -1i32, 0, -1i32, 5, -1i32, 0, -1i32, 0], 1, 0),
            ConvolutionFilter::EdgeDetect => (seq![-1i32, -1i32, -1i32, -1i32, 8, -1i32, -1i32, -1i32, -1i32], 1, 0),
            ConvolutionFilter::Emboss => (seq![-2i32, -1i32, 0, -1i32, 1, 1, 0, 1, 2], 1, 128),
        }
    }

    /// The 3x3 kernel of this filter: blur (1 2 1 / 2 4 2 / 1 2 1 over
    /// 16), sharpen, edge detection, and emboss (biased by 128).
    pub fn kernel(&self) -> (k: Kernel)
        ensures
            k.spec_well_formed(),
            k.size == 3,
            (k.weights@, k.divisor, k.bias) == self.spec_kernel(),
    {
        let (w, d, b) = match self {
            ConvolutionFilter::Blur => (vec![1, 2, 1, 2, 4, 2, 1, 2, 1], 16, 0),
            ConvolutionFilter::Sharpen => (vec![0, -1, 0, -1, 5, -1, 0, -1, 0], 1, 0),
            ConvolutionFilter::EdgeDetect => (vec![-1, -1, -1, -1, 8, -1, -1, -1, -1], 1, 0),
            ConvolutionFilter::Emboss => (vec![-2, -1, 0, -1, 1, 1, 0, 1, 2], 1, 128),
        };
        proof {
            assert(w@ =~= self.spec_kernel().0);
        }
        Kernel::new(w, 3, d, b)
    }
}

/// `v` clamped to `lo..=hi`.
pub open spec fn spec_clamp(v: int, lo: int, hi: int) -> int {
    if v < lo {
        lo
    } else if v > hi {
        hi
    } else {
        v
    }
}

/// Channel `c` of the pixel at `(x, y)` of a `w x h` image, coordinates
/// clamped to the image.
pub open spec fn spec_clamped_px(src: Seq<u8>, w: int, h: int, x: int, y: int, c: int) -> int {
    spec_px(src, w, spec_clamp(x, 0, w - 1), spec_clamp(y, 0, h - 1), c) as int
}

/// The sum of the first `m` weighted taps of the 2-D convolution at
/// `(x, y)`, channel `c`; tap `t` is weight `t` (row-major) times the
/// clamped pixel at offset `(t % n - n / 2, t / n - n / 2)`.
pub open spec fn spec_sum_2d(src: Seq<u8>, w: int, h: int, k: Kernel, x: int, y: int, c: int, m: nat) -> int
    decreases m,
{
    if m == 0 {
        0
    } else {
        let t = m - 1;
        let n = k.size as int;
        spec_sum_2d(src, w, h, k, x, y, c, (m - 1) as nat) + k.weights@[t] * spec_clamped_px(
            src,
            w,
            h,
            x + t % n - n / 2,
            y + t / n - n / 2,
            c,
        )
    }
}

/// A colour channel from a convolution sum: `sum / divisor + bias`
/// (truncating), clamped to `0..=255`.
pub open spec fn spec_channel(sum: int, divisor: int, bias: int) -> u8 {
    spec_clamp(spec_div_trunc(sum, divisor) + bias, 0, 255) as u8
}

/// The 2-D convolution of an image: colour channels from the full
/// weighted sums, alpha kept.
pub open spec fn spec_conv_2d_px(src: Seq<u8>, w: int, h: int, k: Kernel) -> spec_fn(int, int, int) -> u8 {
    |x: int, y: int, c: int|
        if c < 3 {
            spec_channel(spec_sum_2d(src, w, h, k, x, y, c, (k.size * k.size) as nat), k.divisor as int, k.bias as int)
        } else {
            spec_px(src, w, x, y, c)
        }
}

/// A colour channel of a pixel as computed in a convolution.
fn channel(sum: i128, divisor: i32, bias: i32) -> (r: u8)
    requires
        divisor != 0,
        -0x1_0000_0000_0000_0000_0000_0000_0000 <= sum <= 0x1_0000_0000_0000_0000_0000_0000_0000,
    ensures
        r == spec_channel(sum as int, divisor as int, bias as int),
{
    proof {
        lemma_div_bound(sum as int, divisor as int);
    }
    let q = sum / (divisor as i128);
    let v = q + bias as i128;
    if v < 0 {
        0
    } else if v > 255 {
        255
    } else {
        v as u8
    }
}

/// `v` clamped to `0..=hi` as an index.
fn clamp_index(v: i64, hi: usize) -> (r: usize)
    requires
        hi <= 0xFFFF_FFFF,
    ensures
        r == spec_clamp(v as int, 0, hi as int),
{
    if v < 0 {
        0
    } else if v > hi as i64 {
        hi
    } else {
        v as usize
    }
}

/// The full weighted sum of the 2-D convolution at `(x, y)`, channel `c`.
fn sum_2d(image: &DecodedImage, kernel: &Kernel, x: usize, y: usize, c: usize) -> (r: i128)
    requires
        image.spec_well_formed(),
        kernel.spec_well_formed(),
        x < image.width,
        y < image.height,
        c < 3,
    ensures
        r == spec_sum_2d(image.rgba@, image.width as int, image.height as int, *kernel, x as int, y as int, c as int, (kernel.size * kernel.size) as nat),
        -0x1_0000_0000_0000_0000_0000_0000_0000 <= r <= 0x1_0000_0000_0000_0000_0000_0000_0000,
{
    let w = image.width as usize;
    let h = image.height as usize;
    let n = kernel.size;
    let len = kernel.weights.len();
    let half = (n / 2) as i64;
    let src = image.rgba();
    let src_len = src.len();
    let ghost k = *kernel;
    assert(n <= 0x1_0000_0000) by (nonlinear_arith)
        requires
            n * n <= usize::MAX,
            n > 0,
    ;
    let mut sum: i128 = 0;
    let mut ky: usize = 0;
    while ky < n
        invariant
            image.spec_well_formed(),
            kernel.spec_well_formed(),
            k == *kernel,
            w == image.width,
            h == image.height,
            0 < w,
            0 < h,
            x < w,
            y < h,
            c < 3,
            n == kernel.size,
            n <= 0x1_0000_0000,
            len == n * n,
            half == n / 2,
            src@ == image.rgba@,
            src_len == src@.len(),
            ky <= n,
            sum == spec_sum_2d(src@, w as int, h as int, k, x as int, y as int, c as int, (ky * n) as nat),
            -(ky * n) * 0x80_0000_0000 <= sum <= (ky * n) * 0x80_0000_0000,
        decreases n - ky,
    {
        let mut kx: usize = 0;
        while kx < n
            invariant
                image.spec_well_formed(),
                kernel.spec_well_formed(),
                k == *kernel,
                w == image.width,
                h == image.height,
                0 < w,
                0 < h,
                x < w,
                y < h,
                c < 3,
                n == kernel.size,
                n <= 0x1_0000_0000,
                len == n * n,
                half == n / 2,
                src@ == image.rgba@,
                src_len == src@.len(),
                ky < n,
                kx <= n,
                sum == spec_sum_2d(src@, w as int, h as int, k, x as int, y as int, c as int, (ky * n + kx) as nat),
                -(ky * n + kx) * 0x80_0000_0000 <= sum <= (ky * n + kx) * 0x80_0000_0000,
            decreases n - kx,
        {
            let sy = clamp_index(y as i64 + ky as i64 - half, h - 1);
            let sx = clamp_index(x as i64 + kx as i64 - half, w - 1);
            proof {
                crate::runtime::decode::lemma_pixel_bounds(n as int, n as int, kx as int, ky as int);
                super::raster::lemma_image_index(w as int, h as int, sx as int, sy as int, c as int);
                let t = ky * n + kx;
                vstd::arithmetic::div_mod::lemma_fundamental_div_mod_converse(t as int, n as int, ky as int, kx as int);
            }
            let weight = kernel.weights[ky * n + kx] as i128;
            let px = src[(sy * w + sx) * 4 + c] as i128;
            assert(-0x80_0000_0000 <= weight * px <= 0x80_0000_0000) by (nonlinear_arith)
                requires
                    -0x8000_0000 <= weight <= 0x7FFF_FFFF,
                    0 <= px <= 255,
            ;
            assert((ky * n + kx + 1) * 0x80_0000_0000 <= 0x1_0000_0000_0000_0000 * 0x80_0000_0000) by (nonlinear_arith)
                requires
                    ky < n,
                    kx < n,
                    n <= 0x1_0000_0000,
            ;
            sum = sum + weight * px;
            kx += 1;
        }
        proof {
            assert((ky + 1) * n == ky * n + n) by (nonlinear_arith);
        }
        ky += 1;
    }
    proof {
        assert(n * n <= 0x1_0000_0000_0000_0000) by (nonlinear_arith)
            requires
                n <= 0x1_0000_0000,
        ;
    }
    sum
}


/// The first `m` taps of the horizontal pass at `(x, yy)`: row weight `s`
/// times the pixel at column offset `s - n / 2` (clamped), `n` the
/// vector's length.
pub open spec fn spec_sum_row(src: Seq<u8>, w: int, h: int, row: Seq<i32>, x: int, yy: int, c: int, m: nat) -> int
    decreases m,
{
    if m == 0 {
        0
    } else {
        let s = m - 1;
        spec_sum_row(src, w, h, row, x, yy, c, (m - 1) as nat) + row[s] * spec_clamped_px(
            src,
            w,
            h,
            x + s - row.len() / 2,
            yy,
            c,
        )
    }
}

/// The first `m` taps of the vertical pass at `(x, y)`: column weight `t`
/// times the horizontal sum of the row at offset `t - n / 2` (clamped).
pub open spec fn spec_sum_sep(
    src: Seq<u8>,
    w: int,
    h: int,
    col: Seq<i32>,
    row: Seq<i32>,
    x: int,
    y: int,
    c: int,
    m: nat,
) -> int
    decreases m,
{
    if m == 0 {
        0
    } else {
        let t = m - 1;
        spec_sum_sep(src, w, h, col, row, x, y, c, (m - 1) as nat) + col[t] * spec_sum_row(
            src,
            w,
            h,
            row,
            x,
            spec_clamp(y + t - col.len() / 2, 0, h - 1),
            c,
            row.len(),
        )
    }
}

/// The first `m` taps of row `t` of the 2-D sum at `(x, y)`.
pub open spec fn spec_kernel_row_sum(src: Seq<u8>, w: int, h: int, k: Kernel, x: int, y: int, c: int, t: int, m: nat) -> int
    decreases m,
{
    if m == 0 {
        0
    } else {
        let s = m - 1;
        let n = k.size as int;
        spec_kernel_row_sum(src, w, h, k, x, y, c, t, (m - 1) as nat) + k.weights@[t * n + s] * spec_clamped_px(
            src,
            w,
            h,
            x + s - n / 2,
            y + t - n / 2,
            c,
        )
    }
}

/// The first `m` whole rows of the 2-D sum.
pub open spec fn spec_sum_rows(src: Seq<u8>, w: int, h: int, k: Kernel, x: int, y: int, c: int, m: nat) -> int
    decreases m,
{
    if m == 0 {
        0
    } else {
        spec_sum_rows(src, w, h, k, x, y, c, (m - 1) as nat) + spec_kernel_row_sum(
            src,
            w,
            h,
            k,
            x,
            y,
            c,
            m - 1,
            k.size as nat,
        )
    }
}

/// The 2-D sum over the first `t * n + s` taps is the first `t` rows plus
/// the first `s` taps of row `t`.
proof fn lemma_sum_2d_rows(src: Seq<u8>, w: int, h: int, k: Kernel, x: int, y: int, c: int, t: nat, s: nat)
    requires
        k.size > 0,
        s <= k.size,
    ensures
        spec_sum_2d(src, w, h, k, x, y, c, (t * k.size + s) as nat) == spec_sum_rows(src, w, h, k, x, y, c, t)
            + spec_kernel_row_sum(src, w, h, k, x, y, c, t as int, s),
    decreases t, s,
{
    let n = k.size as int;
    if s > 0 {
        lemma_sum_2d_rows(src, w, h, k, x, y, c, t, (s - 1) as nat);
        let m = t * n + s;
        assert(t * n >= 0) by (nonlinear_arith)
            requires
                t >= 0,
                n > 0,
        ;
        vstd::arithmetic::div_mod::lemma_fundamental_div_mod_converse(m - 1, n, t as int, s - 1);
        assert((m - 1) / n == t && (m - 1) % n == s - 1);
        let prev = spec_sum_2d(src, w, h, k, x, y, c, (m - 1) as nat);
        assert(spec_sum_2d(src, w, h, k, x, y, c, m as nat) == prev + k.weights@[m - 1] * spec_clamped_px(
            src,
            w,
            h,
            x + (s - 1) - n / 2,
            y + t - n / 2,
            c,
        ));
        assert(spec_kernel_row_sum(src, w, h, k, x, y, c, t as int, s) == spec_kernel_row_sum(
            src,
            w,
            h,
            k,
            x,
            y,
            c,
            t as int,
            (s - 1) as nat,
        ) + k.weights@[t * n + (s - 1)] * spec_clamped_px(src, w, h, x + (s - 1) - n / 2, y + t - n / 2, c));
    } else if t > 0 {
        lemma_sum_2d_rows(src, w, h, k, x, y, c, (t - 1) as nat, k.size as nat);
        assert((t - 1) * n + n == t * n) by (nonlinear_arith);
        assert(spec_sum_rows(src, w, h, k, x, y, c, t) == spec_sum_rows(src, w, h, k, x, y, c, (t - 1) as nat)
            + spec_kernel_row_sum(src, w, h, k, x, y, c, t - 1, k.size as nat));
        assert(spec_sum_2d(src, w, h, k, x, y, c, (t * k.size + s) as nat) == spec_sum_rows(src, w, h, k, x, y, c, t)
            + spec_kernel_row_sum(src, w, h, k, x, y, c, t as int, s));
    } else {
        assert(t * n == 0) by (nonlinear_arith)
            requires
                t == 0,
        ;
        assert(spec_sum_2d(src, w, h, k, x, y, c, (t * k.size + s) as nat) == spec_sum_rows(src, w, h, k, x, y, c, t)
            + spec_kernel_row_sum(src, w, h, k, x, y, c, t as int, s));
    }
}

/// Clamping a coordinate twice is clamping it once.
proof fn lemma_clamped_px_idem(src: Seq<u8>, w: int, h: int, x: int, y: int, c: int)
    requires
        h > 0,
    ensures
        spec_clamped_px(src, w, h, x, spec_clamp(y, 0, h - 1), c) == spec_clamped_px(src, w, h, x, y, c),
{
}

/// Column weight `t` times the horizontal sum of its row is row `t` of
/// the 2-D sum, when the kernel is the outer product of the vectors.
proof fn lemma_row_factor(
    src: Seq<u8>,
    w: int,
    h: int,
    k: Kernel,
    col: Seq<i32>,
    row: Seq<i32>,
    x: int,
    y: int,
    c: int,
    t: int,
    m: nat,
)
    requires
        k.spec_well_formed(),
        h > 0,
        col.len() == k.size,
        row.len() == k.size,
        0 <= t < k.size,
        m <= k.size,
        forall|a: int, b: int| 0 <= a < k.size && 0 <= b < k.size ==> col[b] * row[a] == #[trigger] k.spec_w(a, b),
    ensures
        col[t] * spec_sum_row(src, w, h, row, x, spec_clamp(y + t - k.size / 2, 0, h - 1), c, m)
            == spec_kernel_row_sum(src, w, h, k, x, y, c, t, m),
    decreases m,
{
    if m > 0 {
        let s = m - 1;
        let n = k.size as int;
        lemma_row_factor(src, w, h, k, col, row, x, y, c, t, (m - 1) as nat);
        lemma_clamped_px_idem(src, w, h, x + s - n / 2, y + t - n / 2, c);
        let p = spec_clamped_px(src, w, h, x + s - n / 2, y + t - n / 2, c);
        let prev = spec_sum_row(src, w, h, row, x, spec_clamp(y + t - n / 2, 0, h - 1), c, (m - 1) as nat);
        assert(k.spec_w(s, t) == col[t] * row[s]);
        assert(col[t] * (prev + row[s] * p) == col[t] * prev + (col[t] * row[s]) * p) by (nonlinear_arith);
    }
}

/// The vertical pass over the first `m` rows equals the first `m` rows of
/// the 2-D sum.
proof fn lemma_sep_rows(
    src: Seq<u8>,
    w: int,
    h: int,
    k: Kernel,
    col: Seq<i32>,
    row: Seq<i32>,
    x: int,
    y: int,
    c: int,
    m: nat,
)
    requires
        k.spec_well_formed(),
        h > 0,
        col.len() == k.size,
        row.len() == k.size,
        m <= k.size,
        forall|a: int, b: int| 0 <= a < k.size && 0 <= b < k.size ==> col[b] * row[a] == #[trigger] k.spec_w(a, b),
    ensures
        spec_sum_sep(src, w, h, col, row, x, y, c, m) == spec_sum_rows(src, w, h, k, x, y, c, m),
    decreases m,
{
    if m > 0 {
        lemma_sep_rows(src, w, h, k, col, row, x, y, c, (m - 1) as nat);
        lemma_row_factor(src, w, h, k, col, row, x, y, c, m - 1, k.size as nat);
    }
}

/// For a kernel that is the outer product of a column and a row vector,
/// the horizontal-then-vertical passes give the 2-D convolution sum.
pub proof fn lemma_separable_sum(
    src: Seq<u8>,
    w: int,
    h: int,
    k: Kernel,
    col: Seq<i32>,
    row: Seq<i32>,
    x: int,
    y: int,
    c: int,
)
    requires
        k.spec_well_formed(),
        h > 0,
        col.len() == k.size,
        row.len() == k.size,
        forall|a: int, b: int| 0 <= a < k.size && 0 <= b < k.size ==> col[b] * row[a] == #[trigger] k.spec_w(a, b),
    ensures
        spec_sum_sep(src, w, h, col, row, x, y, c, k.size as nat) == spec_sum_2d(
            src,
            w,
            h,
            k,
            x,
            y,
            c,
            (k.size * k.size) as nat,
        ),
{
    lemma_sep_rows(src, w, h, k, col, row, x, y, c, k.size as nat);
    lemma_sum_2d_rows(src, w, h, k, x, y, c, k.size as nat, 0);
}


/// A kernel that `spec_separable` factors is the outer product of its
/// vectors.
pub proof fn lemma_separable_factors(k: Kernel)
    requires
        k.spec_well_formed(),
    ensures
        match k.spec_separable() {
            Some((cs, rs)) => {
                &&& cs.len() == k.size
                &&& rs.len() == k.size
                &&& forall|a: int, b: int| 0 <= a < k.size && 0 <= b < k.size ==> cs[b] * rs[a] == #[trigger] k.spec_w(a, b)
            },
            None => true,
        },
{
    let n = k.size as int;
    if n == 1 {
        let rs = k.weights@;
        let cs = seq![1i32];
        assert(k.size * k.size == 1) by (nonlinear_arith)
            requires
                k.size == 1,
        ;
        assert forall|a: int, b: int| 0 <= a < k.size && 0 <= b < k.size implies cs[b] * rs[a] == #[trigger] k.spec_w(a, b) by {
            assert(a == 0 && b == 0);
        }
    } else {
        let rr = k.spec_first_nonzero_row(0);
        k.lemma_first_nonzero_row(0);
        if rr < n {
            crate::runtime::decode::lemma_row_bounds(n, n, rr);
        }
    }
}

/// The bound of a kernel row sum: `m` taps of at most `2^39` each.
proof fn lemma_kernel_row_sum_bound(src: Seq<u8>, w: int, h: int, k: Kernel, x: int, y: int, c: int, t: int, m: nat)
    requires
        k.spec_well_formed(),
        0 <= t < k.size,
        m <= k.size,
        w > 0,
        h > 0,
        src.len() == w * h * 4,
        0 <= c < 4,
    ensures
        -m * 0x80_0000_0000 <= spec_kernel_row_sum(src, w, h, k, x, y, c, t, m) <= m * 0x80_0000_0000,
    decreases m,
{
    if m > 0 {
        let s = m - 1;
        let n = k.size as int;
        lemma_kernel_row_sum_bound(src, w, h, k, x, y, c, t, (m - 1) as nat);
        crate::runtime::decode::lemma_pixel_bounds(n, n, s, t);
        let wt = k.weights@[t * n + s] as int;
        let cx = spec_clamp(x + s - n / 2, 0, w - 1);
        let cy = spec_clamp(y + t - n / 2, 0, h - 1);
        super::raster::lemma_image_index(w, h, cx, cy, c);
        let p = spec_clamped_px(src, w, h, x + s - n / 2, y + t - n / 2, c);
        assert(-0x80_0000_0000 <= wt * p <= 0x80_0000_0000) by (nonlinear_arith)
            requires
                -0x8000_0000 <= wt <= 0x7FFF_FFFF,
                0 <= p <= 255,
        ;
    }
}

/// The horizontal pass at `(x, yy)`, channel `c`.
fn sum_row(image: &DecodedImage, row: &[i32], x: usize, yy: usize, c: usize) -> (r: i128)
    requires
        image.spec_well_formed(),
        x < image.width,
        yy < image.height,
        c < 3,
        0 < row@.len() <= 0x1_0000_0000,
    ensures
        r == spec_sum_row(image.rgba@, image.width as int, image.height as int, row@, x as int, yy as int, c as int, row@.len()),
        -row@.len() * 0x80_0000_0000 <= r <= row@.len() * 0x80_0000_0000,
{
    let w = image.width as usize;
    let h = image.height as usize;
    let n = row.len();
    let half = (n / 2) as i64;
    let src = image.rgba();
    let src_len = src.len();
    let mut sum: i128 = 0;
    let mut s: usize = 0;
    while s < n
        invariant
            image.spec_well_formed(),
            w == image.width,
            h == image.height,
            x < w,
            yy < h,
            c < 3,
            n == row@.len(),
            0 < n <= 0x1_0000_0000,
            half == n / 2,
            src@ == image.rgba@,
            src_len == src@.len(),
            s <= n,
            sum == spec_sum_row(src@, w as int, h as int, row@, x as int, yy as int, c as int, s as nat),
            -s * 0x80_0000_0000 <= sum <= s * 0x80_0000_0000,
        decreases n - s,
    {
        let sx = clamp_index(x as i64 + s as i64 - half, w - 1);
        proof {
            super::raster::lemma_image_index(w as int, h as int, sx as int, yy as int, c as int);
        }
        let weight = row[s] as i128;
        let px = src[(yy * w + sx) * 4 + c] as i128;
        assert(-0x80_0000_0000 <= weight * px <= 0x80_0000_0000) by (nonlinear_arith)
            requires
                -0x8000_0000 <= weight <= 0x7FFF_FFFF,
                0 <= px <= 255,
        ;
        sum = sum + weight * px;
        s += 1;
    }
    sum
}

/// The horizontal sums of every pixel and colour channel, pixel by pixel
/// in row-major order, three channels each.
pub open spec fn spec_row_pass(src: Seq<u8>, w: int, h: int, row: Seq<i32>) -> Seq<int> {
    Seq::new((w * h * 3) as nat, |i: int| spec_sum_row(src, w, h, row, (i / 3) % w, (i / 3) / w, i % 3, row.len()))
}

/// The horizontal pass over the whole image.
fn row_pass(image: &DecodedImage, row: &[i32]) -> (tmp: Vec<i128>)
    requires
        image.spec_well_formed(),
        0 < row@.len() <= 0x1_0000_0000,
    ensures
        tmp@.len() == image.width * image.height * 3,
        forall|i: int|
            0 <= i < tmp@.len() ==> tmp@[i] as int == #[trigger] spec_row_pass(
                image.rgba@,
                image.width as int,
                image.height as int,
                row@,
            )[i],
        forall|i: int| 0 <= i < tmp@.len() ==> -row@.len() * 0x80_0000_0000 <= #[trigger] tmp@[i] <= row@.len() * 0x80_0000_0000,
{
    let w = image.width as usize;
    let h = image.height as usize;
    let ghost spec = spec_row_pass(image.rgba@, w as int, h as int, row@);
    let mut tmp: Vec<i128> = Vec::new();
    let mut y: usize = 0;
    while y < h
        invariant
            image.spec_well_formed(),
            w == image.width,
            h == image.height,
            0 < row@.len() <= 0x1_0000_0000,
            spec == spec_row_pass(image.rgba@, w as int, h as int, row@),
            y <= h,
            tmp@.len() == y * w * 3,
            forall|i: int| 0 <= i < tmp@.len() ==> tmp@[i] as int == #[trigger] spec[i],
            forall|i: int| 0 <= i < tmp@.len() ==> -row@.len() * 0x80_0000_0000 <= #[trigger] tmp@[i] <= row@.len() * 0x80_0000_0000,
        decreases h - y,
    {
        let mut x: usize = 0;
        while x < w
            invariant
                image.spec_well_formed(),
                w == image.width,
                h == image.height,
                0 < row@.len() <= 0x1_0000_0000,
                spec == spec_row_pass(image.rgba@, w as int, h as int, row@),
                y < h,
                x <= w,
                tmp@.len() == (y * w + x) * 3,
                forall|i: int| 0 <= i < tmp@.len() ==> tmp@[i] as int == #[trigger] spec[i],
                forall|i: int| 0 <= i < tmp@.len() ==> -row@.len() * 0x80_0000_0000 <= #[trigger] tmp@[i] <= row@.len() * 0x80_0000_0000,
            decreases w - x,
        {
            let mut c: usize = 0;
            while c < 3
                invariant
                    image.spec_well_formed(),
                    w == image.width,
                    h == image.height,
                    0 < row@.len() <= 0x1_0000_0000,
                    spec == spec_row_pass(image.rgba@, w as int, h as int, row@),
                    y < h,
                    x < w,
                    c <= 3,
                    tmp@.len() == (y * w + x) * 3 + c,
                    forall|i: int| 0 <= i < tmp@.len() ==> tmp@[i] as int == #[trigger] spec[i],
                    forall|i: int| 0 <= i < tmp@.len() ==> -row@.len() * 0x80_0000_0000 <= #[trigger] tmp@[i] <= row@.len() * 0x80_0000_0000,
                decreases 3 - c,
            {
                let v = sum_row(image, row, x, y, c);
                proof {
                    let i = (y * w + x) * 3 + c;
                    crate::runtime::decode::lemma_pixel_bounds(w as int, h as int, x as int, y as int);
                    vstd::arithmetic::div_mod::lemma_fundamental_div_mod_converse(i as int, 3, (y * w + x) as int, c as int);
                    vstd::arithmetic::div_mod::lemma_fundamental_div_mod_converse((y * w + x) as int, w as int, y as int, x as int);
                    assert(i < w * h * 3) by (nonlinear_arith)
                        requires
                            y * w + x + 1 <= w * h,
                            i == (y * w + x) * 3 + c,
                            c < 3,
                    ;
                }
                tmp.push(v);
                c += 1;
            }
            x += 1;
        }
        proof {
            assert((y + 1) * w * 3 == (y * w + w) * 3) by (nonlinear_arith);
        }
        y += 1;
    }
    proof {
        assert(h * w * 3 == w * h * 3) by (nonlinear_arith);
    }
    tmp
}

/// The vertical pass at `(x, y)`, channel `c`, over the horizontal sums.
fn sum_col(
    image: &DecodedImage,
    kernel: &Kernel,
    col: &[i32],
    row: &[i32],
    tmp: &Vec<i128>,
    x: usize,
    y: usize,
    c: usize,
) -> (r: i128)
    requires
        image.spec_well_formed(),
        kernel.spec_well_formed(),
        x < image.width,
        y < image.height,
        c < 3,
        col@.len() == kernel.size,
        row@.len() == kernel.size,
        kernel.size <= 0x1_0000_0000,
        forall|a: int, b: int|
            0 <= a < kernel.size && 0 <= b < kernel.size ==> col@[b] * row@[a] == #[trigger] kernel.spec_w(a, b),
        tmp@.len() == image.width * image.height * 3,
        forall|i: int|
            0 <= i < tmp@.len() ==> tmp@[i] as int == #[trigger] spec_row_pass(
                image.rgba@,
                image.width as int,
                image.height as int,
                row@,
            )[i],
        forall|i: int| 0 <= i < tmp@.len() ==> -row@.len() * 0x80_0000_0000 <= #[trigger] tmp@[i] <= row@.len() * 0x80_0000_0000,
    ensures
        r == spec_sum_2d(
            image.rgba@,
            image.width as int,
            image.height as int,
            *kernel,
            x as int,
            y as int,
            c as int,
            (kernel.size * kernel.size) as nat,
        ),
        -0x1_0000_0000_0000_0000_0000_0000_0000 <= r <= 0x1_0000_0000_0000_0000_0000_0000_0000,
{
    let w = image.width as usize;
    let h = image.height as usize;
    let n = col.len();
    let half = (n / 2) as i64;
    let ghost src = image.rgba@;
    let ghost k = *kernel;
    let ghost cs = col@;
    let ghost rs = row@;
    let tlen = tmp.len();
    let mut sum: i128 = 0;
    let mut t: usize = 0;
    while t < n
        invariant
            tlen == tmp@.len(),
            image.spec_well_formed(),
            kernel.spec_well_formed(),
            k == *kernel,
            src == image.rgba@,
            cs == col@,
            rs == row@,
            w == image.width,
            h == image.height,
            x < w,
            y < h,
            c < 3,
            n == kernel.size,
            n == col@.len(),
            n == row@.len(),
            n <= 0x1_0000_0000,
            half == n / 2,
            forall|a: int, b: int|
                0 <= a < kernel.size && 0 <= b < kernel.size ==> col@[b] * row@[a] == #[trigger] kernel.spec_w(a, b),
            tmp@.len() == w * h * 3,
            forall|i: int| 0 <= i < tmp@.len() ==> tmp@[i] as int == #[trigger] spec_row_pass(src, w as int, h as int, rs)[i],
            forall|i: int| 0 <= i < tmp@.len() ==> -n * 0x80_0000_0000 <= #[trigger] tmp@[i] <= n * 0x80_0000_0000,
            t <= n,
            sum == spec_sum_sep(src, w as int, h as int, cs, rs, x as int, y as int, c as int, t as nat),
            -(t * n * 0x80_0000_0000) <= sum <= t * n * 0x80_0000_0000,
        decreases n - t,
    {
        let sy = clamp_index(y as i64 + t as i64 - half, h - 1);
        proof {
            crate::runtime::decode::lemma_pixel_bounds(w as int, h as int, x as int, sy as int);
            assert((sy * w + x) * 3 + c < w * h * 3) by (nonlinear_arith)
                requires
                    sy * w + x + 1 <= w * h,
                    c < 3,
            ;
        }
        let i = (sy * w + x) * 3 + c;
        proof {
            vstd::arithmetic::div_mod::lemma_fundamental_div_mod_converse(i as int, 3, (sy * w + x) as int, c as int);
            vstd::arithmetic::div_mod::lemma_fundamental_div_mod_converse((sy * w + x) as int, w as int, sy as int, x as int);
            assert(i < w * h * 3) by (nonlinear_arith)
                requires
                    sy * w + x + 1 <= w * h,
                    i == (sy * w + x) * 3 + c,
                    c < 3,
            ;
            lemma_row_factor(src, w as int, h as int, k, cs, rs, x as int, y as int, c as int, t as int, n as nat);
            lemma_kernel_row_sum_bound(src, w as int, h as int, k, x as int, y as int, c as int, t as int, n as nat);
        }
        let cw = col[t] as i128;
        let tv = tmp[i];
        assert(tv as int == spec_row_pass(src, w as int, h as int, rs)[i as int]);
        assert(tv as int == spec_sum_row(src, w as int, h as int, rs, x as int, sy as int, c as int, rs.len()));
        assert(-0x8000_0000_0000_0000_0000_0000_0000 <= cw * tv <= 0x8000_0000_0000_0000_0000_0000_0000) by (nonlinear_arith)
            requires
                -0x8000_0000 <= cw <= 0x7FFF_FFFF,
                -n * 0x80_0000_0000 <= tv <= n * 0x80_0000_0000,
                n <= 0x1_0000_0000,
        ;
        assert(cw * tv == spec_kernel_row_sum(src, w as int, h as int, k, x as int, y as int, c as int, t as int, n as nat));
        assert((t + 1) * n * 0x80_0000_0000 == t * n * 0x80_0000_0000 + n * 0x80_0000_0000) by (nonlinear_arith);
        assert((t + 1) * n * 0x80_0000_0000 <= 0x1_0000_0000_0000_0000 * 0x80_0000_0000) by (nonlinear_arith)
            requires
                t < n,
                n <= 0x1_0000_0000,
        ;
        sum = sum + cw * tv;
        t += 1;
    }
    proof {
        lemma_separable_sum(src, w as int, h as int, k, cs, rs, x as int, y as int, c as int);
        assert(t * n * 0x80_0000_0000 <= 0x1_0000_0000_0000_0000 * 0x80_0000_0000) by (nonlinear_arith)
            requires
                n <= 0x1_0000_0000,
                t == n,
        ;
    }
    sum
}


/// Row `y` of the 2-D convolution of `image`.
pub fn convolve_2d_row(image: &DecodedImage, kernel: &Kernel, y: usize) -> (row: Vec<u8>)
    requires
        image.spec_well_formed(),
        kernel.spec_well_formed(),
        y < image.height,
    ensures
        row@ == spec_row(
            image.width as int,
            y as int,
            spec_conv_2d_px(image.rgba@, image.width as int, image.height as int, *kernel),
        ),
{
    let w = image.width as usize;
    let h = image.height as usize;
    let ghost f = spec_conv_2d_px(image.rgba@, w as int, h as int, *kernel);
    let src = image.rgba();
    let n = src.len();
    let mut row: Vec<u8> = Vec::new();
    let mut x: usize = 0;
    while x < w
        invariant
            image.spec_well_formed(),
            kernel.spec_well_formed(),
            w == image.width,
            h == image.height,
            src@ == image.rgba@,
            n == src@.len(),
            y < h,
            f == spec_conv_2d_px(image.rgba@, w as int, h as int, *kernel),
            x <= w,
            row@ == spec_row(w as int, y as int, f).subrange(0, x * 4),
        decreases w - x,
    {
        let r = channel(sum_2d(image, kernel, x, y, 0), kernel.divisor, kernel.bias);
        let g = channel(sum_2d(image, kernel, x, y, 1), kernel.divisor, kernel.bias);
        let b = channel(sum_2d(image, kernel, x, y, 2), kernel.divisor, kernel.bias);
        proof {
            super::raster::lemma_image_index(w as int, h as int, x as int, y as int, 3);
        }
        let a = src[(y * w + x) * 4 + 3];
        let px = [r, g, b, a];
        push_bytes(&mut row, px);
        proof {
            super::raster::lemma_row_push(w as int, y as int, x as int, f, px@);
        }
        x += 1;
    }
    row
}

/// The 2-D convolution of `image`: each colour channel is `sum / divisor
/// + bias` clamped to `0..=255`, the sum running over every kernel weight
/// times the pixel at its offset with coordinates clamped to the image;
/// alpha is kept.
pub fn apply_convolution_2d(image: &DecodedImage, kernel: &Kernel) -> (r: DecodedImage)
    requires
        image.spec_well_formed(),
        kernel.spec_well_formed(),
    ensures
        r.width == image.width,
        r.height == image.height,
        r.rgba@ == spec_image(
            image.width as int,
            image.height as int,
            spec_conv_2d_px(image.rgba@, image.width as int, image.height as int, *kernel),
        ),
{
    let w = image.width as usize;
    let h = image.height as usize;
    let ghost f = spec_conv_2d_px(image.rgba@, w as int, h as int, *kernel);
    let mut out: Vec<u8> = Vec::new();
    let mut y: usize = 0;
    while y < h
        invariant
            image.spec_well_formed(),
            kernel.spec_well_formed(),
            w == image.width,
            h == image.height,
            f == spec_conv_2d_px(image.rgba@, w as int, h as int, *kernel),
            y <= h,
            out@ == spec_image(w as int, h as int, f).subrange(0, y * w * 4),
        decreases h - y,
    {
        let mut row = convolve_2d_row(image, kernel, y);
        proof {
            super::geometry::lemma_append_row(out@, row@, w as int, h as int, y as int, f);
        }
        out.append(&mut row);
        y += 1;
    }
    proof {
        super::geometry::lemma_all_rows(w as int, h as int, f);
    }
    DecodedImage { width: image.width, height: image.height, rgba: out }
}

/// Row `y` of the two-pass convolution of `image`, from the horizontal
/// sums `tmp`.
fn convolve_separable_row(
    image: &DecodedImage,
    kernel: &Kernel,
    col: &[i32],
    row: &[i32],
    tmp: &Vec<i128>,
    y: usize,
) -> (out: Vec<u8>)
    requires
        image.spec_well_formed(),
        kernel.spec_well_formed(),
        y < image.height,
        col@.len() == kernel.size,
        row@.len() == kernel.size,
        kernel.size <= 0x1_0000_0000,
        forall|a: int, b: int|
            0 <= a < kernel.size && 0 <= b < kernel.size ==> col@[b] * row@[a] == #[trigger] kernel.spec_w(a, b),
        tmp@.len() == image.width * image.height * 3,
        forall|i: int|
            0 <= i < tmp@.len() ==> tmp@[i] as int == #[trigger] spec_row_pass(
                image.rgba@,
                image.width as int,
                image.height as int,
                row@,
            )[i],
        forall|i: int| 0 <= i < tmp@.len() ==> -row@.len() * 0x80_0000_0000 <= #[trigger] tmp@[i] <= row@.len() * 0x80_0000_0000,
    ensures
        out@ == spec_row(
            image.width as int,
            y as int,
            spec_conv_2d_px(image.rgba@, image.width as int, image.height as int, *kernel),
        ),
{
    let w = image.width as usize;
    let h = image.height as usize;
    let ghost f = spec_conv_2d_px(image.rgba@, w as int, h as int, *kernel);
    let src = image.rgba();
    let n = src.len();
    let mut out: Vec<u8> = Vec::new();
    let mut x: usize = 0;
    while x < w
        invariant
            image.spec_well_formed(),
            kernel.spec_well_formed(),
            w == image.width,
            h == image.height,
            src@ == image.rgba@,
            n == src@.len(),
            y < h,
            col@.len() == kernel.size,
            row@.len() == kernel.size,
            kernel.size <= 0x1_0000_0000,
            forall|a: int, b: int|
                0 <= a < kernel.size && 0 <= b < kernel.size ==> col@[b] * row@[a] == #[trigger] kernel.spec_w(a, b),
            tmp@.len() == image.width * image.height * 3,
            forall|i: int|
                0 <= i < tmp@.len() ==> tmp@[i] as int == #[trigger] spec_row_pass(
                    image.rgba@,
                    image.width as int,
                    image.height as int,
                    row@,
                )[i],
            forall|i: int| 0 <= i < tmp@.len() ==> -row@.len() * 0x80_0000_0000 <= #[trigger] tmp@[i] <= row@.len() * 0x80_0000_0000,
            f == spec_conv_2d_px(image.rgba@, w as int, h as int, *kernel),
            x <= w,
            out@ == spec_row(w as int, y as int, f).subrange(0, x * 4),
        decreases w - x,
    {
        let r = channel(sum_col(image, kernel, col, row, tmp, x, y, 0), kernel.divisor, kernel.bias);
        let g = channel(sum_col(image, kernel, col, row, tmp, x, y, 1), kernel.divisor, kernel.bias);
        let b = channel(sum_col(image, kernel, col, row, tmp, x, y, 2), kernel.divisor, kernel.bias);
        proof {
            super::raster::lemma_image_index(w as int, h as int, x as int, y as int, 3);
        }
        let a = src[(y * w + x) * 4 + 3];
        let px = [r, g, b, a];
        push_bytes(&mut out, px);
        proof {
            super::raster::lemma_row_push(w as int, y as int, x as int, f, px@);
        }
        x += 1;
    }
    out
}

/// The convolution of `image` by a kernel that factors as the outer
/// product of `col` and `row`, computed in a horizontal and a vertical
/// pass; the result is the 2-D convolution.
pub fn apply_convolution_separable(image: &DecodedImage, kernel: &Kernel, col: &[i32], row: &[i32]) -> (r:
    DecodedImage)
    requires
        image.spec_well_formed(),
        kernel.spec_well_formed(),
        col@.len() == kernel.size,
        row@.len() == kernel.size,
        forall|a: int, b: int|
            0 <= a < kernel.size && 0 <= b < kernel.size ==> col@[b] * row@[a] == #[trigger] kernel.spec_w(a, b),
    ensures
        r.width == image.width,
        r.height == image.height,
        r.rgba@ == spec_image(
            image.width as int,
            image.height as int,
            spec_conv_2d_px(image.rgba@, image.width as int, image.height as int, *kernel),
        ),
{
    let w = image.width as usize;
    let h = image.height as usize;
    let klen = kernel.weights.len();
    let size = kernel.size;
    assert(size <= 0x1_0000_0000) by (nonlinear_arith)
        requires
            size * size <= usize::MAX,
            size > 0,
    ;
    let tmp = row_pass(image, row);
    let ghost f = spec_conv_2d_px(image.rgba@, w as int, h as int, *kernel);
    let mut out: Vec<u8> = Vec::new();
    let mut y: usize = 0;
    while y < h
        invariant
            image.spec_well_formed(),
            kernel.spec_well_formed(),
            w == image.width,
            h == image.height,
            col@.len() == kernel.size,
            row@.len() == kernel.size,
            kernel.size <= 0x1_0000_0000,
            forall|a: int, b: int|
                0 <= a < kernel.size && 0 <= b < kernel.size ==> col@[b] * row@[a] == #[trigger] kernel.spec_w(a, b),
            tmp@.len() == image.width * image.height * 3,
            forall|i: int|
                0 <= i < tmp@.len() ==> tmp@[i] as int == #[trigger] spec_row_pass(
                    image.rgba@,
                    image.width as int,
                    image.height as int,
                    row@,
                )[i],
            forall|i: int| 0 <= i < tmp@.len() ==> -row@.len() * 0x80_0000_0000 <= #[trigger] tmp@[i] <= row@.len() * 0x80_0000_0000,
            f == spec_conv_2d_px(image.rgba@, w as int, h as int, *kernel),
            y <= h,
            out@ == spec_image(w as int, h as int, f).subrange(0, y * w * 4),
        decreases h - y,
    {
        let mut r = convolve_separable_row(image, kernel, col, row, &tmp, y);
        proof {
            super::geometry::lemma_append_row(out@, r@, w as int, h as int, y as int, f);
        }
        out.append(&mut r);
        y += 1;
    }
    proof {
        super::geometry::lemma_all_rows(w as int, h as int, f);
    }
    DecodedImage { width: image.width, height: image.height, rgba: out }
}

/// Convolves `image` with `kernel`, in two passes when the kernel is
/// separable and in one 2-D pass otherwise; either way the result is the
/// 2-D convolution.
pub fn apply_convolution(image: &DecodedImage, kernel: &Kernel) -> (r: DecodedImage)
    requires
        image.spec_well_formed(),
        kernel.spec_well_formed(),
    ensures
        r.width == image.width,
        r.height == image.height,
        r.rgba@ == spec_image(
            image.width as int,
            image.height as int,
            spec_conv_2d_px(image.rgba@, image.width as int, image.height as int, *kernel),
        ),
{
    match kernel.separable() {
        Some((col_vec, row_vec)) => {
            proof {
                lemma_separable_factors(*kernel);
            }
            apply_convolution_separable(image, kernel, col_vec.as_slice(), row_vec.as_slice())
        },
        None => apply_convolution_2d(image, kernel),
    }
}


/// Of the built-in filters only the blur kernel is separable.
#[verifier::spinoff_prover]
proof fn lemma_preset_separable(f: ConvolutionFilter, k: Kernel)
    requires
        k.spec_well_formed(),
        k.size == 3,
        (k.weights@, k.divisor, k.bias) == f.spec_kernel(),
    ensures
        (k.spec_separable() is Some) == (f == ConvolutionFilter::Blur),
{
    let w = k.weights@;
    assert(k.spec_first_nonzero_col(0, 3) == 3);
    assert(k.spec_first_nonzero_col(0, 2) == (if w[2] != 0 { 2int } else { 3int }));
    assert(k.spec_first_nonzero_col(0, 1) == (if w[1] != 0 { 1int } else { k.spec_first_nonzero_col(0, 2) }));
    assert(k.spec_first_nonzero_col(0, 0) == (if w[0] != 0 { 0int } else { k.spec_first_nonzero_col(0, 1) }));
    assert(k.spec_first_nonzero_row(0) == (if k.spec_first_nonzero_col(0, 0) < 3 { 0int } else { k.spec_first_nonzero_row(1) }));
    match f {
        ConvolutionFilter::Blur => {
            let row = w.subrange(0, 3);
            let col = Seq::new(3, |y: int| spec_div_trunc(k.spec_w(0, y) as int, 1) as i32);
            assert forall|y: int| 0 <= y < 3 implies spec_rem_trunc(#[trigger] k.spec_w(0, y) as int, 1) == 0
                && spec_div_trunc(k.spec_w(0, y) as int, 1) == k.spec_w(0, y) by {
                assert(y == 0 || y == 1 || y == 2);
            }
            assert(col =~= seq![1i32, 2, 1]);
            assert(row =~= seq![1i32, 2, 1]);
            assert forall|x: int, y: int| 0 <= x < 3 && 0 <= y < 3 implies col[y] * row[x] == #[trigger] k.spec_w(
                x,
                y,
            ) by {
                if y == 0 {
                    assert(col[y] == 1);
                } else if y == 1 {
                    assert(col[y] == 2);
                } else {
                    assert(col[y] == 1);
                }
                if x == 0 {
                    assert(row[x] == 1);
                } else if x == 1 {
                    assert(row[x] == 2);
                } else {
                    assert(row[x] == 1);
                }
            }
        },
        ConvolutionFilter::Sharpen => {
            let row = w.subrange(0, 3);
            let rv = row[1] as int;
            assert(rv == -1);
            let col = Seq::new(3, |y: int| spec_div_trunc(k.spec_w(1, y) as int, rv) as i32);
            assert(col[1] == -5);
            assert(col[1] * row[0] != k.spec_w(0, 1));
        },
        ConvolutionFilter::EdgeDetect => {
            let row = w.subrange(0, 3);
            let col = Seq::new(3, |y: int| spec_div_trunc(k.spec_w(0, y) as int, -1) as i32);
            assert(col[1] == 1);
            assert(col[1] * row[1] != k.spec_w(1, 1));
        },
        ConvolutionFilter::Emboss => {
            assert(spec_rem_trunc(k.spec_w(0, 1) as int, -2) != 0);
        },
    }
}

impl ConvolutionFilter {
    /// The replay cost of a built-in filter: 6 for the separable blur, 9
    /// for the others.
    pub fn replay_cost(&self) -> (r: u32)
        ensures
            r == (if *self == ConvolutionFilter::Blur {
                6u32
            } else {
                9u32
            }),
    {
        let k = self.kernel();
        proof {
            lemma_preset_separable(*self, k);
            assert(k.size * k.size == 9);
        }
        k.replay_cost()
    }
}

/// The sum of the first `m` taps of a kernel whose only non-zero weight
/// is 1 at the centre is the centre pixel once the centre tap is in.
#[verifier::spinoff_prover]
proof fn lemma_identity_sum(src: Seq<u8>, w: int, h: int, k: Kernel, x: int, y: int, c: int, m: nat)
    requires
        k.spec_well_formed(),
        forall|t: int| 0 <= t < k.size * k.size ==> #[trigger] k.weights@[t] == (if t == (k.size * k.size) / 2 {
            1i32
        } else {
            0i32
        }),
        m <= k.size * k.size,
        0 <= x < w,
        0 <= y < h,
    ensures
        spec_sum_2d(src, w, h, k, x, y, c, m) == (if m > (k.size * k.size) / 2 {
            spec_px(src, w, x, y, c) as int
        } else {
            0
        }),
    decreases m,
{
    if m > 0 {
        lemma_identity_sum(src, w, h, k, x, y, c, (m - 1) as nat);
        let n = k.size as int;
        let t = m - 1;
        let half = n / 2;
        if t == (n * n) / 2 {
            assert((n * n) / 2 == half * n + half) by (nonlinear_arith)
                requires
                    n % 2 == 1,
                    n > 0,
                    half == n / 2,
            ;
            vstd::arithmetic::div_mod::lemma_fundamental_div_mod_converse(t, n, half, half);
            assert(t % n == half && t / n == half);
            assert(spec_clamped_px(src, w, h, x + t % n - n / 2, y + t / n - n / 2, c) == spec_px(
                src,
                w,
                x,
                y,
                c,
            ) as int);
            assert(k.weights@[t] == 1i32);
        } else {
            assert(k.weights@[t] == 0i32);
        }
    }
}

/// Convolving with a kernel whose only non-zero weight is 1 at the
/// centre, with divisor 1 and bias 0, gives the image back.
pub proof fn lemma_identity_kernel(src: Seq<u8>, w: int, h: int, k: Kernel)
    requires
        0 <= w,
        0 <= h,
        src.len() == w * h * 4,
        k.spec_well_formed(),
        k.divisor == 1,
        k.bias == 0,
        forall|t: int| 0 <= t < k.size * k.size ==> #[trigger] k.weights@[t] == (if t == (k.size * k.size) / 2 {
            1i32
        } else {
            0i32
        }),
    ensures
        spec_image(w, h, spec_conv_2d_px(src, w, h, k)) == src,
{
    let img = spec_image(w, h, spec_conv_2d_px(src, w, h, k));
    assert forall|i: int| 0 <= i < src.len() implies #[trigger] img[i] == src[i] by {
        crate::runtime::transform::geometry::lemma_decompose(i, w, h);
        let x = (i / 4) % w;
        let y = (i / 4) / w;
        let c = i % 4;
        if c < 3 {
            assert((k.size * k.size) / 2 < k.size * k.size) by (nonlinear_arith)
                requires
                    k.size > 0,
            ;
            lemma_identity_sum(src, w, h, k, x, y, c, (k.size * k.size) as nat);
        }
    }
    assert(img =~= src);
}

/// The sum of the first `m` weights.
spec fn spec_weight_sum(ws: Seq<i32>, m: nat) -> int
    decreases m,
{
    if m == 0 {
        0
    } else {
        spec_weight_sum(ws, (m - 1) as nat) + ws[m - 1]
    }
}

/// On an image whose pixels are all equal, the weighted sum of the first
/// `m` taps is the sum of those weights times the channel value.
#[verifier::spinoff_prover]
proof fn lemma_flat_sum(src: Seq<u8>, w: int, h: int, k: Kernel, x: int, y: int, c: int, m: nat)
    requires
        0 < w,
        0 < h,
        forall|px: int, py: int, pc: int|
            0 <= px < w && 0 <= py < h && 0 <= pc < 4 ==> #[trigger] spec_px(src, w, px, py, pc) == spec_px(
                src,
                w,
                0,
                0,
                pc,
            ),
        0 <= c < 4,
    ensures
        spec_sum_2d(src, w, h, k, x, y, c, m) == spec_weight_sum(k.weights@, m) * (spec_px(src, w, 0, 0, c) as int),
    decreases m,
{
    if m > 0 {
        lemma_flat_sum(src, w, h, k, x, y, c, (m - 1) as nat);
        let t = m - 1;
        let n = k.size as int;
        let xx = x + t % n - n / 2;
        let yy = y + t / n - n / 2;
        let v = spec_px(src, w, 0, 0, c) as int;
        assert(spec_px(src, w, spec_clamp(xx, 0, w - 1), spec_clamp(yy, 0, h - 1), c) == spec_px(src, w, 0, 0, c));
        assert(spec_clamped_px(src, w, h, xx, yy, c) == v);
        let a = spec_weight_sum(k.weights@, (m - 1) as nat);
        let wt = k.weights@[t] as int;
        assert(a * v + wt * v == (a + wt) * v) by (nonlinear_arith);
    }
}

/// The weights of the built-in filters sum to 16 for blur, 1 for sharpen
/// and emboss, and 0 for edge detection.
#[verifier::spinoff_prover]
proof fn lemma_preset_weight_sum(f: ConvolutionFilter, ws: Seq<i32>)
    requires
        ws == f.spec_kernel().0,
    ensures
        spec_weight_sum(ws, 9) == match f {
            ConvolutionFilter::Blur => 16int,
            ConvolutionFilter::Sharpen => 1int,
            ConvolutionFilter::EdgeDetect => 0int,
            ConvolutionFilter::Emboss => 1int,
        },
{
    reveal_with_fuel(spec_weight_sum, 10);
}

/// The built-in filters on a flat image (all pixels equal, each colour
/// channel `v`): blur and sharpen keep `v`, edge detection gives 0, and
/// emboss raises it to `min(v + 128, 255)`; alpha is kept.
#[verifier::spinoff_prover]
pub proof fn lemma_preset_flat(src: Seq<u8>, w: int, h: int, f: ConvolutionFilter, k: Kernel, x: int, y: int, c: int)
    requires
        0 < w,
        0 < h,
        src.len() == w * h * 4,
        k.spec_well_formed(),
        k.size == 3,
        (k.weights@, k.divisor, k.bias) == f.spec_kernel(),
        forall|px: int, py: int, pc: int|
            0 <= px < w && 0 <= py < h && 0 <= pc < 4 ==> #[trigger] spec_px(src, w, px, py, pc) == spec_px(
                src,
                w,
                0,
                0,
                pc,
            ),
        0 <= x < w,
        0 <= y < h,
        0 <= c < 4,
    ensures
        ({
            let v = spec_px(src, w, 0, 0, c) as int;
            (spec_conv_2d_px(src, w, h, k))(x, y, c) as int == if c == 3 {
                v
            } else {
                match f {
                    ConvolutionFilter::Blur => v,
                    ConvolutionFilter::Sharpen => v,
                    ConvolutionFilter::EdgeDetect => 0,
                    ConvolutionFilter::Emboss => if v + 128 > 255 {
                        255
                    } else {
                        v + 128
                    },
                }
            }
        }),
{
    let v = spec_px(src, w, 0, 0, c) as int;
    assert(spec_px(src, w, x, y, c) == spec_px(src, w, 0, 0, c));
    if c < 3 {
        lemma_flat_sum(src, w, h, k, x, y, c, 9);
        lemma_preset_weight_sum(f, k.weights@);
        assert(0 <= v <= 255);
        match f {
            ConvolutionFilter::Blur => {
                assert((16 * v) / 16 == v) by (nonlinear_arith)
                    requires
                        v >= 0,
                ;
                assert(spec_sum_2d(src, w, h, k, x, y, c, 9) == 16 * v);
                assert(spec_div_trunc(16 * v, 16) == v);
            },
            ConvolutionFilter::Sharpen => {
                assert(spec_sum_2d(src, w, h, k, x, y, c, 9) == v);
                assert(spec_div_trunc(v, 1) == v);
            },
            ConvolutionFilter::EdgeDetect => {
                assert(spec_sum_2d(src, w, h, k, x, y, c, 9) == 0);
                assert(spec_div_trunc(0, 1) == 0);
            },
            ConvolutionFilter::Emboss => {
                assert(spec_sum_2d(src, w, h, k, x, y, c, 9) == v);
                assert(spec_div_trunc(v, 1) == v);
            },
        }
    }
}

} // verus!
