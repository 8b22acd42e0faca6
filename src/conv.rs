//! Kernel convolution with edge replication, and Sobel edge detection.
use vstd::prelude::*;
use crate::{clamp_u8_spec, PhotonError, PhotonImage};

verus! {

/// A square matrix of weights, stored row by row, with an optional divisor.
/// Fractional weights are written as integers over a common divisor.
pub struct Kernel {
    /// Number of rows (and columns); must be odd.
    pub size: usize,
    /// `size * size` weights, row by row.
    pub weights: Vec<i32>,
    /// Explicit normalisation divisor; when absent the sum of the weights is
    /// used, or 1 when that sum is zero.
    pub divisor: Option<i32>,
}

/// Largest magnitude of one weight times one sample.
const TAP_BOUND: i128 = 547608330240;

impl Kernel {
    /// The kernel is structurally usable.
    pub open spec fn valid(&self) -> bool {
        &&& self.size % 2 == 1
        &&& self.weights@.len() == self.size * self.size
        &&& self.divisor != Some(0i32)
    }

    /// The divisor that convolution divides by.
    pub open spec fn effective_divisor(&self) -> int {
        match self.divisor {
            Some(d) => d as int,
            None => {
                let s = weight_sum(self.weights@, self.weights@.len() as int);
                if s == 0 {
                    1
                } else {
                    s
                }
            },
        }
    }
}

/// Sum of the first `t` weights.
pub open spec fn weight_sum(wts: Seq<i32>, t: int) -> int
    decreases t,
{
    if t <= 0 {
        0
    } else {
        weight_sum(wts, t - 1) + wts[t - 1] as int
    }
}

/// A coordinate replicated onto the nearest edge of `0..n`.
pub open spec fn clamp_coord(v: int, n: int) -> int {
    if v < 0 {
        0
    } else if v >= n {
        n - 1
    } else {
        v
    }
}

/// Index of sample `c` of pixel (x, y) in a buffer of width `w`.
pub open spec fn sample_index(w: int, x: int, y: int, c: int) -> int {
    (y * w + x) * 4 + c
}

/// Index of the sample read by tap `t` (row `t / size`, column `t % size`) of a
/// kernel centred on (x, y).
pub open spec fn tap_index(w: int, h: int, size: int, x: int, y: int, c: int, t: int) -> int {
    let r = size / 2;
    sample_index(w, clamp_coord(x + t % size - r, w), clamp_coord(y + t / size - r, h), c)
}

/// Weighted sum of the first `t` taps of a kernel centred on (x, y), channel `c`.
pub open spec fn conv_sum(
    s: Seq<u8>,
    w: int,
    h: int,
    wts: Seq<i32>,
    size: int,
    x: int,
    y: int,
    c: int,
    t: int,
) -> int
    decreases t,
{
    if t <= 0 {
        0
    } else {
        conv_sum(s, w, h, wts, size, x, y, c, t - 1) + wts[t - 1] as int * s[tap_index(
            w,
            h,
            size,
            x,
            y,
            c,
            t - 1,
        )] as int
    }
}

/// `n / d` rounded to the nearest integer, halves rounded up.
pub open spec fn round_div(n: int, d: int) -> int {
    if d > 0 {
        (2 * n + d) / (2 * d)
    } else {
        (-2 * n - d) / (-2 * d)
    }
}

/// Sample `j` of the image convolved with the weights `wts` of a `size` by
/// `size` kernel and divisor `d`: colour channels are the rounded, clamped
/// weighted sums; alpha is copied.
pub open spec fn convolved_sample(s: Seq<u8>, w: int, h: int, wts: Seq<i32>, size: int, d: int, j: int) -> u8 {
    let p = j / 4;
    if j % 4 == 3 {
        s[j]
    } else {
        clamp_u8_spec(round_div(conv_sum(s, w, h, wts, size, p % w, p / w, j % 4, size * size), d)) as u8
    }
}

/// The whole buffer convolved with weights `wts` and divisor `d`.
pub open spec fn convolved_with(s: Seq<u8>, w: int, h: int, wts: Seq<i32>, size: int, d: int) -> Seq<u8> {
    Seq::new(s.len(), |j: int| convolved_sample(s, w, h, wts, size, d, j))
}

/// The whole buffer convolved with a kernel.
pub open spec fn convolved(s: Seq<u8>, w: int, h: int, k: &Kernel) -> Seq<u8> {
    convolved_with(s, w, h, k.weights@, k.size as int, k.effective_divisor())
}

/// Every pixel has the colour of the first one.
pub open spec fn uniform(s: Seq<u8>) -> bool {
    forall|j: int| 0 <= j < s.len() ==> #[trigger] s[j] == s[j % 4]
}

pub(crate) proof fn lemma_tap_in_bounds(w: int, h: int, x: int, y: int, c: int)
    requires
        0 <= x < w,
        0 <= y < h,
        0 <= c < 4,
    ensures
        0 <= sample_index(w, x, y, c) < w * h * 4,
        sample_index(w, x, y, c) % 4 == c,
{
    assert(0 <= y * w + x < w * h) by (nonlinear_arith)
        requires
            0 <= x < w,
            0 <= y < h,
    ;
    assert(((y * w + x) * 4 + c) % 4 == c) by (nonlinear_arith)
        requires
            0 <= y * w + x,
            0 <= c < 4,
    ;
}

pub(crate) proof fn lemma_pixel_coords(w: int, h: int, j: int)
    requires
        w > 0,
        h > 0,
        0 <= j < w * h * 4,
    ensures
        0 <= (j / 4) % w < w,
        0 <= (j / 4) / w < h,
        0 <= j % 4 < 4,
{
    let p = j / 4;
    assert(0 <= p < w * h);
    assert(0 <= p % w < w) by {
        vstd::arithmetic::div_mod::lemma_mod_bound(p, w);
    }
    assert(p / w < h) by {
        vstd::arithmetic::div_mod::lemma_multiply_divide_lt(p, w, h);
    }
    assert(p / w >= 0) by (nonlinear_arith)
        requires
            p >= 0,
            w > 0,
    ;
}

proof fn lemma_tap_product(wt: i32, v: u8)
    ensures
        -TAP_BOUND <= wt as int * v as int <= TAP_BOUND,
{
    assert(-TAP_BOUND <= wt as int * v as int <= TAP_BOUND) by (nonlinear_arith)
        requires
            -2147483648 <= wt <= 2147483647,
            0 <= v <= 255,
    ;
}

/// The weighted sum of the kernel taps around one pixel, as an exact integer.
fn kernel_sum(s: &Vec<u8>, w: u32, h: u32, wts: &Vec<i32>, size: usize, x: u32, y: u32, c: usize) -> (r: i128)
    requires
        w > 0,
        h > 0,
        s@.len() == w * h * 4,
        wts@.len() == size * size,
        x < w,
        y < h,
        c < 4,
    ensures
        r as int == conv_sum(s@, w as int, h as int, wts@, size as int, x as int, y as int, c as int, wts@.len() as int),
        -(wts@.len() as int) * TAP_BOUND <= r <= wts@.len() as int * TAP_BOUND,
{
    let n: usize = wts.len();
    let slen: usize = s.len();
    assert(size <= 0x1_0000_0000) by (nonlinear_arith)
        requires
            size * size <= 0xffff_ffff_ffff_ffff,
    ;
    let r: u64 = (size / 2) as u64;
    let mut acc: i128 = 0;
    let mut t: usize = 0;
    while t < n
        invariant
            t <= n,
            n == wts@.len(),
            n == size * size,
            slen == s@.len(),
            size <= 0x1_0000_0000,
            r == size / 2,
            w > 0,
            h > 0,
            s@.len() == w * h * 4,
            x < w,
            y < h,
            c < 4,
            acc as int == conv_sum(s@, w as int, h as int, wts@, size as int, x as int, y as int, c as int, t as int),
            -(t as int) * TAP_BOUND <= acc <= t as int * TAP_BOUND,
        decreases n - t,
    {
        assert(size > 0) by (nonlinear_arith)
            requires
                t < size * size,
        ;
        proof {
            vstd::arithmetic::div_mod::lemma_multiply_divide_lt(t as int, size as int, size as int);
            vstd::arithmetic::div_mod::lemma_mod_bound(t as int, size as int);
        }
        let row: u64 = (t / size) as u64;
        let col: u64 = (t % size) as u64;
        let sx: u64 = x as u64 + col;
        let sy: u64 = y as u64 + row;
        let cx: u64 = if sx < r {
            0
        } else if sx - r >= w as u64 {
            w as u64 - 1
        } else {
            sx - r
        };
        let cy: u64 = if sy < r {
            0
        } else if sy - r >= h as u64 {
            h as u64 - 1
        } else {
            sy - r
        };
        proof {
            lemma_tap_in_bounds(w as int, h as int, cx as int, cy as int, c as int);
            assert(cx as int == clamp_coord(x + t % size - size / 2, w as int));
            assert(cy as int == clamp_coord(y + t / size - size / 2, h as int));
            assert(cy * w + cx < w * h) by (nonlinear_arith)
                requires
                    cx < w,
                    cy < h,
            ;
            assert((cy * w + cx) * 4 + c < w * h * 4) by (nonlinear_arith)
                requires
                    cy * w + cx < w * h,
                    c < 4,
            ;
            assert(0 <= cy * w <= cy * w + cx) by (nonlinear_arith)
                requires
                    cy >= 0,
                    w >= 0,
                    cx >= 0,
            ;
        }
        let idx: usize = ((cy * w as u64 + cx) * 4 + c as u64) as usize;
        let v: u8 = s[idx];
        let wt: i32 = wts[t];
        proof {
            lemma_tap_product(wt, v);
        }
        acc = acc + (wt as i128) * (v as i128);
        t += 1;
    }
    acc
}

/// Sum of all weights, as an exact integer.
fn kernel_weight_sum(wts: &Vec<i32>) -> (r: i128)
    ensures
        r as int == weight_sum(wts@, wts@.len() as int),
        -(wts@.len() as int) * 0x8000_0000 <= r <= wts@.len() as int * 0x8000_0000,
{
    let mut acc: i128 = 0;
    let mut t: usize = 0;
    while t < wts.len()
        invariant
            t <= wts@.len(),
            acc as int == weight_sum(wts@, t as int),
            -(t as int) * 0x8000_0000 <= acc <= t as int * 0x8000_0000,
        decreases wts@.len() - t,
    {
        acc = acc + wts[t] as i128;
        t += 1;
    }
    acc
}

/// Rounds `n / d` to the nearest integer and clamps it into a sample.
pub(crate) fn round_div_clamped(n: i128, d: i128) -> (r: u8)
    requires
        d != 0,
        -0x1_0000_0000_0000_0000_0000_0000_0000 <= n <= 0x1_0000_0000_0000_0000_0000_0000_0000,
        -0x1_0000_0000_0000_0000_0000_0000 <= d <= 0x1_0000_0000_0000_0000_0000_0000,
    ensures
        r as int == clamp_u8_spec(round_div(n as int, d as int)),
{
    let (num, den) = if d > 0 {
        (2 * n + d, 2 * d)
    } else {
        (-(2 * n) - d, -(2 * d))
    };
    assert((num as int) / (den as int) == round_div(n as int, d as int));
    if num < 0 {
        assert((num as int) / (den as int) < 0) by (nonlinear_arith)
            requires
                num < 0,
                den > 0,
        ;
        0
    } else {
        let q: u128 = (num as u128) / (den as u128);
        if q > 255 {
            255
        } else {
            q as u8
        }
    }
}

/// Convolve the image with a kernel. Colour channels are replaced by the weighted
/// sum of the kernel's footprint (coordinates outside the image replicated from
/// the nearest edge), divided by the effective divisor, rounded and clamped;
/// alpha is kept. A structurally invalid kernel is refused.
pub fn convolve(img: &PhotonImage, kernel: &Kernel) -> (r: Result<PhotonImage, PhotonError>)
    requires
        img.wf(),
    ensures
        !kernel.valid() ==> r == Err::<PhotonImage, PhotonError>(PhotonError::InvalidParameter),
        kernel.valid() ==> r is Ok,
        r matches Ok(out) ==> out.wf() && out.w() == img.w() && out.h() == img.h()
            && out.pixels() == convolved(img.pixels(), img.w() as int, img.h() as int, kernel),
{
    let n: usize = kernel.weights.len();
    if kernel.size % 2 != 1 {
        return Err(PhotonError::InvalidParameter);
    }
    match kernel.size.checked_mul(kernel.size) {
        Some(m) => {
            if m != n {
                return Err(PhotonError::InvalidParameter);
            }
        },
        None => {
            return Err(PhotonError::InvalidParameter);
        },
    }
    let d: i128 = match kernel.divisor {
        Some(d) => {
            if d == 0 {
                return Err(PhotonError::InvalidParameter);
            }
            d as i128
        },
        None => {
            let s = kernel_weight_sum(&kernel.weights);
            if s == 0 {
                1
            } else {
                s
            }
        },
    };
    assert(d == kernel.effective_divisor());
    assert(-0x1_0000_0000_0000_0000_0000_0000 <= d <= 0x1_0000_0000_0000_0000_0000_0000) by {
        assert(n <= 0xffff_ffff_ffff_ffff);
    }
    let s = img.samples();
    let w: u32 = img.get_width();
    let h: u32 = img.get_height();
    let len: usize = s.len();
    let mut out: Vec<u8> = Vec::with_capacity(len);
    let mut j: usize = 0;
    while j < len
        invariant
            j <= len,
            len == s@.len(),
            s@ == img.pixels(),
            w == img.w(),
            h == img.h(),
            img.wf(),
            kernel.valid(),
            n == kernel.weights@.len(),
            d == kernel.effective_divisor(),
            -0x1_0000_0000_0000_0000_0000_0000 <= d <= 0x1_0000_0000_0000_0000_0000_0000,
            out@.len() == j,
            forall|i: int|
                0 <= i < j ==> out@[i] == convolved_sample(
                    s@,
                    w as int,
                    h as int,
                    kernel.weights@,
                    kernel.size as int,
                    d as int,
                    i,
                ),
        decreases len - j,
    {
        proof {
            lemma_pixel_coords(w as int, h as int, j as int);
        }
        let c: usize = j % 4;
        if c == 3 {
            out.push(s[j]);
        } else {
            let p: usize = j / 4;
            let x: u32 = (p % (w as usize)) as u32;
            let y: u32 = (p / (w as usize)) as u32;
            let acc = kernel_sum(s, w, h, &kernel.weights, kernel.size, x, y, c);
            assert(-0x1_0000_0000_0000_0000_0000_0000_0000 <= acc <= 0x1_0000_0000_0000_0000_0000_0000_0000)
                by {
                assert(n <= 0xffff_ffff_ffff_ffff);
            }
            out.push(round_div_clamped(acc, d));
        }
        j += 1;
    }
    assert(out@ =~= convolved(img.pixels(), w as int, h as int, kernel));
    Ok(PhotonImage::new(out, w, h))
}

/// Horizontal-gradient Sobel kernel, row by row.
pub open spec fn sobel_x() -> Seq<i32> {
    seq![-1i32, 0i32, 1i32, -2i32, 0i32, 2i32, -1i32, 0i32, 1i32]
}

/// Vertical-gradient Sobel kernel, row by row.
pub open spec fn sobel_y() -> Seq<i32> {
    seq![-1i32, -2i32, -1i32, 0i32, 0i32, 0i32, 1i32, 2i32, 1i32]
}

/// The square root of `n` rounded to the nearest integer, searched upwards from
/// `r` and capped at 255: the least `q >= r` with `n <= q * q + q`, or 255.
pub open spec fn capped_root(n: int, r: int) -> int
    decreases 255 - r,
{
    if r >= 255 || n <= r * r + r {
        r
    } else {
        capped_root(n, r + 1)
    }
}

/// Sample `j` of the Sobel edge map: each colour channel becomes the rounded
/// gradient magnitude `sqrt(gx * gx + gy * gy)`, capped at 255; alpha is copied.
pub open spec fn sobel_sample(s: Seq<u8>, w: int, h: int, j: int) -> u8 {
    let p = j / 4;
    if j % 4 == 3 {
        s[j]
    } else {
        let gx = conv_sum(s, w, h, sobel_x(), 3, p % w, p / w, j % 4, 9);
        let gy = conv_sum(s, w, h, sobel_y(), 3, p % w, p / w, j % 4, 9);
        capped_root(gx * gx + gy * gy, 0) as u8
    }
}

/// The whole Sobel edge map.
pub open spec fn sobel_edges(s: Seq<u8>, w: int, h: int) -> Seq<u8> {
    Seq::new(s.len(), |j: int| sobel_sample(s, w, h, j))
}

/// Rounded square root of `n`, capped at 255.
fn root_capped(n: i128) -> (r: u8)
    requires
        0 <= n,
    ensures
        r as int == capped_root(n as int, 0),
{
    let mut q: i128 = 0;
    let mut done: bool = false;
    while !done && q < 255
        invariant
            0 <= q <= 255,
            capped_root(n as int, q as int) == capped_root(n as int, 0),
            done ==> capped_root(n as int, q as int) == q,
        decreases 255 - q + if done { 0int } else { 1int },
    {
        assert(q * q <= 65025) by (nonlinear_arith)
            requires
                0 <= q <= 255,
        ;
        if n <= q * q + q {
            done = true;
        } else {
            q += 1;
        }
    }
    q as u8
}

/// Sobel edge detection: every colour channel is replaced by the magnitude of
/// its horizontal and vertical gradients (edge-replicated), rounded and capped
/// at 255; alpha is kept.
pub fn sobel(img: &PhotonImage) -> (out: PhotonImage)
    requires
        img.wf(),
    ensures
        out.wf(),
        out.w() == img.w(),
        out.h() == img.h(),
        out.pixels() == sobel_edges(img.pixels(), img.w() as int, img.h() as int),
{
    let kx: Vec<i32> = vec![-1, 0, 1, -2, 0, 2, -1, 0, 1];
    let ky: Vec<i32> = vec![-1, -2, -1, 0, 0, 0, 1, 2, 1];
    assert(kx@ =~= sobel_x());
    assert(ky@ =~= sobel_y());
    let s = img.samples();
    let w: u32 = img.get_width();
    let h: u32 = img.get_height();
    let len: usize = s.len();
    let mut out: Vec<u8> = Vec::with_capacity(len);
    let mut j: usize = 0;
    while j < len
        invariant
            j <= len,
            len == s@.len(),
            s@ == img.pixels(),
            w == img.w(),
            h == img.h(),
            img.wf(),
            kx@ == sobel_x(),
            ky@ == sobel_y(),
            out@.len() == j,
            forall|i: int| 0 <= i < j ==> out@[i] == sobel_sample(s@, w as int, h as int, i),
        decreases len - j,
    {
        proof {
            lemma_pixel_coords(w as int, h as int, j as int);
        }
        let c: usize = j % 4;
        if c == 3 {
            out.push(s[j]);
        } else {
            let p: usize = j / 4;
            let x: u32 = (p % (w as usize)) as u32;
            let y: u32 = (p / (w as usize)) as u32;
            let gx = kernel_sum(s, w, h, &kx, 3, x, y, c);
            let gy = kernel_sum(s, w, h, &ky, 3, x, y, c);
            proof {
                lemma_square_sum_bound(gx as int, gy as int);
            }
            out.push(root_capped(gx * gx + gy * gy));
        }
        j += 1;
    }
    assert(out@ =~= sobel_edges(img.pixels(), w as int, h as int));
    PhotonImage::new(out, w, h)
}

proof fn lemma_square_sum_bound(a: int, b: int)
    requires
        -9 * TAP_BOUND <= a <= 9 * TAP_BOUND,
        -9 * TAP_BOUND <= b <= 9 * TAP_BOUND,
    ensures
        0 <= a * a,
        0 <= b * b,
        a * a + b * b <= 0x1_0000_0000_0000_0000_0000_0000,
{
    assert(0 <= a * a <= 0x80_0000_0000_0000_0000_0000) by (nonlinear_arith)
        requires
            -4928474972160 <= a <= 4928474972160,
    ;
    assert(0 <= b * b <= 0x80_0000_0000_0000_0000_0000) by (nonlinear_arith)
        requires
            -4928474972160 <= b <= 4928474972160,
    ;
}

proof fn lemma_conv_sum_uniform(
    s: Seq<u8>,
    w: int,
    h: int,
    wts: Seq<i32>,
    size: int,
    x: int,
    y: int,
    c: int,
    t: int,
)
    requires
        uniform(s),
        w > 0,
        h > 0,
        s.len() == w * h * 4,
        size > 0,
        0 <= x < w,
        0 <= y < h,
        0 <= c < 4,
        0 <= t <= wts.len(),
    ensures
        conv_sum(s, w, h, wts, size, x, y, c, t) == s[c] as int * weight_sum(wts, t),
    decreases t,
{
    if t > 0 {
        lemma_conv_sum_uniform(s, w, h, wts, size, x, y, c, t - 1);
        let r = size / 2;
        let cx = clamp_coord(x + (t - 1) % size - r, w);
        let cy = clamp_coord(y + (t - 1) / size - r, h);
        lemma_tap_in_bounds(w, h, cx, cy, c);
        let idx = tap_index(w, h, size, x, y, c, t - 1);
        assert(s[idx] == s[idx % 4]);
        let v = s[c] as int;
        let ws = weight_sum(wts, t - 1);
        let wt = wts[t - 1] as int;
        assert(v * ws + wt * v == v * (ws + wt)) by (nonlinear_arith);
    }
}

proof fn lemma_round_div_exact(v: int, d: int)
    requires
        d != 0,
    ensures
        round_div(v * d, d) == v,
{
    if d > 0 {
        assert(2 * (v * d) + d == v * (2 * d) + d) by (nonlinear_arith);
        vstd::arithmetic::div_mod::lemma_fundamental_div_mod_converse(2 * (v * d) + d, 2 * d, v, d);
    } else {
        assert(-2 * (v * d) - d == v * (-2 * d) + (-d)) by (nonlinear_arith);
        vstd::arithmetic::div_mod::lemma_fundamental_div_mod_converse(-2 * (v * d) - d, -2 * d, v, -d);
    }
}

/// A kernel whose divisor is the sum of its weights leaves an image of one
/// uniform colour unchanged.
pub proof fn lemma_normalised_kernel_keeps_uniform(img: PhotonImage, kernel: Kernel)
    requires
        img.wf(),
        kernel.valid(),
        uniform(img.pixels()),
        kernel.effective_divisor() == weight_sum(kernel.weights@, kernel.weights@.len() as int),
    ensures
        convolved(img.pixels(), img.w() as int, img.h() as int, &kernel) == img.pixels(),
{
    let s = img.pixels();
    let w = img.w() as int;
    let h = img.h() as int;
    let wts = kernel.weights@;
    let size = kernel.size as int;
    let d = kernel.effective_divisor();
    assert forall|j: int| 0 <= j < s.len() implies #[trigger] convolved_sample(s, w, h, wts, size, d, j) == s[j] by {
        lemma_pixel_coords(w, h, j);
        if j % 4 != 3 {
            let p = j / 4;
            let n = kernel.weights@.len() as int;
            lemma_conv_sum_uniform(s, w, h, kernel.weights@, kernel.size as int, p % w, p / w, j % 4, n);
            lemma_round_div_exact(s[j % 4] as int, kernel.effective_divisor());
            assert(s[j] == s[j % 4]);
        }
    }
    assert(convolved_with(s, w, h, wts, size, d) =~= s);
}

/// Sobel edge detection finds no edge in an image of one uniform colour: every
/// colour sample of the edge map is zero.
pub proof fn lemma_sobel_uniform_is_zero(img: PhotonImage)
    requires
        img.wf(),
        uniform(img.pixels()),
    ensures
        forall|j: int|
            0 <= j < img.pixels().len() && j % 4 != 3 ==> #[trigger] sobel_edges(
                img.pixels(),
                img.w() as int,
                img.h() as int,
            )[j] == 0,
{
    let s = img.pixels();
    let w = img.w() as int;
    let h = img.h() as int;
    assert(weight_sum(sobel_x(), 9) == 0) by {
        reveal_with_fuel(weight_sum, 10);
    }
    assert(weight_sum(sobel_y(), 9) == 0) by {
        reveal_with_fuel(weight_sum, 10);
    }
    assert forall|j: int| 0 <= j < s.len() && j % 4 != 3 implies #[trigger] sobel_edges(s, w, h)[j] == 0 by {
        lemma_pixel_coords(w, h, j);
        let p = j / 4;
        lemma_conv_sum_uniform(s, w, h, sobel_x(), 3, p % w, p / w, j % 4, 9);
        lemma_conv_sum_uniform(s, w, h, sobel_y(), 3, p % w, p / w, j % 4, 9);
        let gx = conv_sum(s, w, h, sobel_x(), 3, p % w, p / w, j % 4, 9);
        let gy = conv_sum(s, w, h, sobel_y(), 3, p % w, p / w, j % 4, 9);
        assert(gx == 0);
        assert(gy == 0);
        assert(capped_root(0, 0) == 0);
        assert(sobel_sample(s, w, h, j) == 0);
    }
}

} // verus!
