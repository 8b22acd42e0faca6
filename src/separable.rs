//! Convolution with a separable kernel in two one-dimensional passes, equal to
//! the two-dimensional convolution with the outer-product kernel.
use vstd::prelude::*;
use crate::{PhotonError, PhotonImage};
use crate::conv::{
    Kernel, convolved, clamp_coord, conv_sum, convolved_sample, convolved_with, lemma_pixel_coords, lemma_tap_in_bounds,
    round_div_clamped, sample_index, weight_sum,
};

verus! {

/// The square kernel whose weight at row `i`, column `j` is `col[i] * row[j]`.
pub open spec fn outer(row: Seq<i16>, col: Seq<i16>) -> Seq<i32> {
    let n = row.len() as int;
    Seq::new((n * n) as nat, |t: int| (col[t / n] as int * row[t % n] as int) as i32)
}

/// The divisor of a separable convolution: the one given, else the sum of the
/// outer-product weights, else 1 when that sum is zero.
pub open spec fn separable_divisor(row: Seq<i16>, col: Seq<i16>, divisor: Option<i32>) -> int {
    match divisor {
        Some(d) => d as int,
        None => {
            let n = row.len() as int;
            let s = weight_sum(outer(row, col), n * n);
            if s == 0 {
                1
            } else {
                s
            }
        },
    }
}

/// The one-dimensional factors are usable: equal odd lengths whose product
/// kernel can be indexed, and a non-zero divisor.
pub open spec fn separable_valid(row: Seq<i16>, col: Seq<i16>, divisor: Option<i32>) -> bool {
    &&& row.len() % 2 == 1
    &&& col.len() == row.len()
    &&& row.len() * row.len() <= usize::MAX
    &&& divisor != Some(0i32)
}

/// Horizontal pass: the first `m` taps of `row` centred on (x, y), channel `c`.
pub open spec fn row_sum(s: Seq<u8>, w: int, row: Seq<i16>, x: int, y: int, c: int, m: int) -> int
    decreases m,
{
    if m <= 0 {
        0
    } else {
        let r = row.len() / 2;
        row_sum(s, w, row, x, y, c, m - 1) + row[m - 1] as int * s[sample_index(
            w,
            clamp_coord(x + (m - 1) - r, w),
            y,
            c,
        )] as int
    }
}

/// Vertical pass over horizontal sums: the first `m` taps of `col`.
pub open spec fn col_sum(
    s: Seq<u8>,
    w: int,
    h: int,
    row: Seq<i16>,
    col: Seq<i16>,
    x: int,
    y: int,
    c: int,
    m: int,
) -> int
    decreases m,
{
    if m <= 0 {
        0
    } else {
        let r = row.len() / 2;
        col_sum(s, w, h, row, col, x, y, c, m - 1) + col[m - 1] as int * row_sum(
            s,
            w,
            row,
            x,
            clamp_coord(y + (m - 1) - r, h),
            c,
            row.len() as int,
        )
    }
}

/// What the horizontal pass stores for sample `j`.
pub open spec fn horizontal_sample(s: Seq<u8>, w: int, row: Seq<i16>, j: int) -> int {
    let p = j / 4;
    if j % 4 == 3 {
        0
    } else {
        row_sum(s, w, row, p % w, p / w, j % 4, row.len() as int)
    }
}

const ROW_TAP: i128 = 8355840;

const ROW_BOUND: i128 = 0x80_0000_0000_0000;

const COL_TAP: i128 = 0x40_0000_0000_0000_0000;

proof fn lemma_index_decomposes(w: int, h: int, x: int, y: int, c: int)
    requires
        0 <= x < w,
        0 <= y < h,
        0 <= c < 4,
    ensures
        sample_index(w, x, y, c) / 4 == y * w + x,
        sample_index(w, x, y, c) % 4 == c,
        (y * w + x) % w == x,
        (y * w + x) / w == y,
{
    assert(0 <= y * w) by (nonlinear_arith)
        requires
            0 <= y,
            0 < w,
    ;
    vstd::arithmetic::div_mod::lemma_fundamental_div_mod_converse(sample_index(w, x, y, c), 4, y * w + x, c);
    vstd::arithmetic::div_mod::lemma_fundamental_div_mod_converse(y * w + x, w, y, x);
}

proof fn lemma_outer_weight(a: i16, b: i16)
    ensures
        -0x4000_0000 <= a as int * b as int <= 0x4000_0000,
{
    assert(-0x4000_0000 <= a as int * b as int <= 0x4000_0000) by (nonlinear_arith)
        requires
            -32768 <= a <= 32767,
            -32768 <= b <= 32767,
    ;
}

proof fn lemma_split_step(t: int, n: int)
    requires
        n > 0,
        0 <= t,
    ensures
        0 <= t % n < n,
        t % n + 1 < n ==> (t + 1) / n == t / n && (t + 1) % n == t % n + 1,
        t % n + 1 == n ==> (t + 1) / n == t / n + 1 && (t + 1) % n == 0,
{
    vstd::arithmetic::div_mod::lemma_fundamental_div_mod(t, n);
    vstd::arithmetic::div_mod::lemma_mod_bound(t, n);
    vstd::arithmetic::mul::lemma_mul_is_commutative(n, t / n);
    if t % n + 1 < n {
        vstd::arithmetic::div_mod::lemma_fundamental_div_mod_converse(t + 1, n, t / n, t % n + 1);
    } else {
        assert(t + 1 == (t / n + 1) * n + 0) by (nonlinear_arith)
            requires
                t == n * (t / n) + t % n,
                t % n + 1 == n,
        ;
        vstd::arithmetic::div_mod::lemma_fundamental_div_mod_converse(t + 1, n, t / n + 1, 0);
    }
}

/// The flat sum over the outer-product kernel, split into whole rows and a
/// partial row.
proof fn lemma_outer_sum(
    s: Seq<u8>,
    w: int,
    h: int,
    row: Seq<i16>,
    col: Seq<i16>,
    x: int,
    y: int,
    c: int,
    t: int,
)
    requires
        row.len() > 0,
        col.len() == row.len(),
        0 <= t <= row.len() * row.len(),
    ensures
        conv_sum(s, w, h, outer(row, col), row.len() as int, x, y, c, t) == col_sum(
            s,
            w,
            h,
            row,
            col,
            x,
            y,
            c,
            t / (row.len() as int),
        ) + col[t / (row.len() as int)] as int * row_sum(
            s,
            w,
            row,
            x,
            clamp_coord(y + t / (row.len() as int) - row.len() / 2, h),
            c,
            t % (row.len() as int),
        ),
    decreases t,
{
    let n = row.len() as int;
    let r = n / 2;
    if t == 0 {
        assert(0int / n == 0 && 0int % n == 0) by {
            vstd::arithmetic::div_mod::lemma_fundamental_div_mod_converse(0, n, 0, 0);
        }
    } else {
        let u = t - 1;
        lemma_outer_sum(s, w, h, row, col, x, y, c, u);
        lemma_split_step(u, n);
        let q = u / n;
        let m = u % n;
        assert(q < n) by {
            vstd::arithmetic::div_mod::lemma_multiply_divide_lt(u, n, n);
        }
        let cy = clamp_coord(y + q - r, h);
        let cq = col[q] as int;
        let rm = row[m] as int;
        lemma_outer_weight(col[q], row[m]);
        assert(outer(row, col)[u] as int == cq * rm);
        let v = s[sample_index(w, clamp_coord(x + m - r, w), cy, c)] as int;
        let partial = row_sum(s, w, row, x, cy, c, m);
        assert(row_sum(s, w, row, x, cy, c, m + 1) == partial + rm * v);
        assert(cq * partial + (cq * rm) * v == cq * (partial + rm * v)) by (nonlinear_arith);
        if m + 1 == n {
            assert(col_sum(s, w, h, row, col, x, y, c, q + 1) == col_sum(s, w, h, row, col, x, y, c, q) + cq
                * row_sum(s, w, row, x, cy, c, n));
        }
    }
}

/// Horizontal pass at one pixel.
fn row_pass(s: &Vec<u8>, w: u32, h: u32, row: &Vec<i16>, x: u32, y: u32, c: usize) -> (r: i128)
    requires
        w > 0,
        h > 0,
        s@.len() == w * h * 4,
        row@.len() <= 0x1_0000_0000,
        x < w,
        y < h,
        c < 4,
    ensures
        r as int == row_sum(s@, w as int, row@, x as int, y as int, c as int, row@.len() as int),
        -ROW_BOUND <= r <= ROW_BOUND,
{
    let n: usize = row.len();
    let slen: usize = s.len();
    let half: u64 = (n / 2) as u64;
    let mut acc: i128 = 0;
    let mut k: usize = 0;
    while k < n
        invariant
            k <= n,
            n == row@.len(),
            n <= 0x1_0000_0000,
            slen == s@.len(),
            half == n / 2,
            w > 0,
            h > 0,
            s@.len() == w * h * 4,
            x < w,
            y < h,
            c < 4,
            acc as int == row_sum(s@, w as int, row@, x as int, y as int, c as int, k as int),
            -(k as int) * ROW_TAP <= acc <= k as int * ROW_TAP,
        decreases n - k,
    {
        let sx: u64 = x as u64 + k as u64;
        let cx: u64 = if sx < half {
            0
        } else if sx - half >= w as u64 {
            w as u64 - 1
        } else {
            sx - half
        };
        proof {
            lemma_tap_in_bounds(w as int, h as int, cx as int, y as int, c as int);
            assert(0 <= y * w <= y * w + cx < w * h) by (nonlinear_arith)
                requires
                    cx < w,
                    y < h,
            ;
        }
        let idx: usize = ((y as u64 * w as u64 + cx) * 4 + c as u64) as usize;
        let v: u8 = s[idx];
        let wt: i16 = row[k];
        assert(-ROW_TAP <= wt as int * v as int <= ROW_TAP) by (nonlinear_arith)
            requires
                -32768 <= wt <= 32767,
                0 <= v <= 255,
        ;
        acc = acc + (wt as i128) * (v as i128);
        k += 1;
    }
    acc
}

/// Vertical pass at one pixel, over the stored horizontal sums.
fn col_pass(
    hs: &Vec<i128>,
    Ghost(s): Ghost<Seq<u8>>,
    w: u32,
    h: u32,
    row: &Vec<i16>,
    col: &Vec<i16>,
    x: u32,
    y: u32,
    c: usize,
) -> (r: i128)
    requires
        w > 0,
        h > 0,
        s.len() == w * h * 4,
        hs@.len() == s.len(),
        forall|j: int| 0 <= j < hs@.len() ==> #[trigger] hs@[j] as int == horizontal_sample(s, w as int, row@, j),
        forall|j: int| 0 <= j < hs@.len() ==> -ROW_BOUND <= #[trigger] hs@[j] <= ROW_BOUND,
        col@.len() == row@.len(),
        row@.len() <= 0x1_0000_0000,
        x < w,
        y < h,
        c < 3,
    ensures
        r as int == col_sum(s, w as int, h as int, row@, col@, x as int, y as int, c as int, col@.len() as int),
        -0x1_0000_0000_0000_0000_0000_0000_0000 <= r <= 0x1_0000_0000_0000_0000_0000_0000_0000,
{
    let n: usize = col.len();
    let hlen: usize = hs.len();
    let half: u64 = (n / 2) as u64;
    let mut acc: i128 = 0;
    let mut k: usize = 0;
    while k < n
        invariant
            k <= n,
            n == col@.len(),
            n == row@.len(),
            n <= 0x1_0000_0000,
            hlen == hs@.len(),
            hs@.len() == s.len(),
            forall|j: int| 0 <= j < hs@.len() ==> #[trigger] hs@[j] as int == horizontal_sample(s, w as int, row@, j),
            forall|j: int| 0 <= j < hs@.len() ==> -ROW_BOUND <= #[trigger] hs@[j] <= ROW_BOUND,
            half == n / 2,
            w > 0,
            h > 0,
            s.len() == w * h * 4,
            x < w,
            y < h,
            c < 3,
            acc as int == col_sum(s, w as int, h as int, row@, col@, x as int, y as int, c as int, k as int),
            -(k as int) * COL_TAP <= acc <= k as int * COL_TAP,
        decreases n - k,
    {
        let sy: u64 = y as u64 + k as u64;
        let cy: u64 = if sy < half {
            0
        } else if sy - half >= h as u64 {
            h as u64 - 1
        } else {
            sy - half
        };
        proof {
            lemma_tap_in_bounds(w as int, h as int, x as int, cy as int, c as int);
            lemma_index_decomposes(w as int, h as int, x as int, cy as int, c as int);
            assert(0 <= cy * w <= cy * w + x < w * h) by (nonlinear_arith)
                requires
                    x < w,
                    cy < h,
            ;
        }
        let idx: usize = ((cy * w as u64 + x as u64) * 4 + c as u64) as usize;
        let hv: i128 = hs[idx];
        let wt: i16 = col[k];
        assert(-COL_TAP <= wt as int * hv as int <= COL_TAP) by (nonlinear_arith)
            requires
                -32768 <= wt <= 32767,
                -ROW_BOUND <= hv <= ROW_BOUND,
        ;
        acc = acc + (wt as i128) * hv;
        k += 1;
    }
    acc
}

/// Sum of the outer-product weights, as an exact integer.
fn outer_weight_sum(row: &Vec<i16>, col: &Vec<i16>) -> (r: i128)
    requires
        col@.len() == row@.len(),
        row@.len() > 0,
        row@.len() * row@.len() <= usize::MAX,
    ensures
        r as int == weight_sum(outer(row@, col@), (row@.len() * row@.len()) as int),
        -0x1_0000_0000_0000_0000_0000_0000 <= r <= 0x1_0000_0000_0000_0000_0000_0000,
{
    let n: usize = row.len();
    let total: usize = n * n;
    let mut acc: i128 = 0;
    let mut t: usize = 0;
    while t < total
        invariant
            t <= total,
            n == row@.len(),
            n == col@.len(),
            n > 0,
            total == n * n,
            acc as int == weight_sum(outer(row@, col@), t as int),
            -(t as int) * 0x4000_0000 <= acc <= t as int * 0x4000_0000,
        decreases total - t,
    {
        proof {
            vstd::arithmetic::div_mod::lemma_multiply_divide_lt(t as int, n as int, n as int);
            vstd::arithmetic::div_mod::lemma_mod_bound(t as int, n as int);
        }
        let a: i16 = col[t / n];
        let b: i16 = row[t % n];
        proof {
            lemma_outer_weight(a, b);
        }
        acc = acc + (a as i128) * (b as i128);
        t += 1;
    }
    acc
}

/// Convolve the image with the kernel whose weight at row `i`, column `j` is
/// `col[i] * row[j]`, in a horizontal pass with `row` and a vertical pass with
/// `col`. Sums are kept exact between the passes, so the result equals the
/// two-dimensional convolution with the outer-product kernel.
pub fn convolve_separable(img: &PhotonImage, row: &Vec<i16>, col: &Vec<i16>, divisor: Option<i32>) -> (r: Result<
    PhotonImage,
    PhotonError,
>)
    requires
        img.wf(),
    ensures
        !separable_valid(row@, col@, divisor) ==> r == Err::<PhotonImage, PhotonError>(
            PhotonError::InvalidParameter,
        ),
        separable_valid(row@, col@, divisor) ==> r is Ok,
        r matches Ok(out) ==> out.wf() && out.w() == img.w() && out.h() == img.h() && out.pixels()
            == convolved_with(
            img.pixels(),
            img.w() as int,
            img.h() as int,
            outer(row@, col@),
            row@.len() as int,
            separable_divisor(row@, col@, divisor),
        ),
{
    let n: usize = row.len();
    if n % 2 != 1 || col.len() != n {
        return Err(PhotonError::InvalidParameter);
    }
    match n.checked_mul(n) {
        Some(_) => {},
        None => {
            return Err(PhotonError::InvalidParameter);
        },
    }
    let d: i128 = match divisor {
        Some(d) => {
            if d == 0 {
                return Err(PhotonError::InvalidParameter);
            }
            d as i128
        },
        None => {
            let s = outer_weight_sum(row, col);
            if s == 0 {
                1
            } else {
                s
            }
        },
    };
    assert(n <= 0x1_0000_0000) by (nonlinear_arith)
        requires
            n * n <= 0xffff_ffff_ffff_ffff,
    ;
    let s = img.samples();
    let w: u32 = img.get_width();
    let h: u32 = img.get_height();
    let len: usize = s.len();
    let mut hs: Vec<i128> = Vec::with_capacity(len);
    let mut j: usize = 0;
    while j < len
        invariant
            j <= len,
            len == s@.len(),
            s@ == img.pixels(),
            w == img.w(),
            h == img.h(),
            img.wf(),
            n == row@.len(),
            n <= 0x1_0000_0000,
            hs@.len() == j,
            forall|i: int| 0 <= i < j ==> #[trigger] hs@[i] as int == horizontal_sample(s@, w as int, row@, i),
            forall|i: int| 0 <= i < j ==> -ROW_BOUND <= #[trigger] hs@[i] <= ROW_BOUND,
        decreases len - j,
    {
        proof {
            lemma_pixel_coords(w as int, h as int, j as int);
        }
        let c: usize = j % 4;
        if c == 3 {
            hs.push(0);
        } else {
            let p: usize = j / 4;
            let x: u32 = (p % (w as usize)) as u32;
            let y: u32 = (p / (w as usize)) as u32;
            hs.push(row_pass(s, w, h, row, x, y, c));
        }
        j += 1;
    }
    let mut out: Vec<u8> = Vec::with_capacity(len);
    let mut j: usize = 0;
    while j < len
        invariant
            j <= len,
            len == s@.len(),
            s@ == img.pixels(),
            w == img.w(),
            h == img.h(),
            img.wf(),
            n == row@.len(),
            n == col@.len(),
            n % 2 == 1,
            n <= 0x1_0000_0000,
            n * n <= usize::MAX,
            d == separable_divisor(row@, col@, divisor),
            d != 0,
            -0x1_0000_0000_0000_0000_0000_0000 <= d <= 0x1_0000_0000_0000_0000_0000_0000,
            hs@.len() == len,
            forall|i: int| 0 <= i < len ==> #[trigger] hs@[i] as int == horizontal_sample(s@, w as int, row@, i),
            forall|i: int| 0 <= i < len ==> -ROW_BOUND <= #[trigger] hs@[i] <= ROW_BOUND,
            out@.len() == j,
            forall|i: int|
                0 <= i < j ==> out@[i] == convolved_sample(
                    s@,
                    w as int,
                    h as int,
                    outer(row@, col@),
                    n as int,
                    d as int,
                    i,
                ),
        decreases len - j,
    {
        proof {
            lemma_pixel_coords(w as int, h as int, j as int);
        }
        let c: usize = j % 4;
        if c == 3 {
            out.push(s[j]);
        } else {
            let p: usize = j / 4;
            let x: u32 = (p % (w as usize)) as u32;
            let y: u32 = (p / (w as usize)) as u32;
            let v = col_pass(&hs, Ghost(s@), w, h, row, col, x, y, c);
            proof {
                let nn = n as int;
                lemma_outer_sum(s@, w as int, h as int, row@, col@, x as int, y as int, c as int, nn * nn);
                vstd::arithmetic::div_mod::lemma_fundamental_div_mod_converse(nn * nn, nn, nn, 0);
                assert(row_sum(s@, w as int, row@, x as int, clamp_coord(y + nn - nn / 2, h as int), c as int, 0) == 0);
            }
            out.push(round_div_clamped(v, d));
        }
        j += 1;
    }
    assert(out@ =~= convolved_with(img.pixels(), w as int, h as int, outer(row@, col@), n as int, d as int));
    Ok(PhotonImage::new(out, w, h))
}

/// Convolving in two passes gives exactly what `convolve` gives with the
/// outer-product kernel and the same divisor.
pub proof fn lemma_separable_matches_full(
    s: Seq<u8>,
    w: int,
    h: int,
    row: Seq<i16>,
    col: Seq<i16>,
    divisor: Option<i32>,
    kernel: Kernel,
)
    requires
        kernel.weights@ == outer(row, col),
        kernel.size == row.len(),
        kernel.divisor == divisor,
    ensures
        convolved(s, w, h, &kernel) == convolved_with(
            s,
            w,
            h,
            outer(row, col),
            row.len() as int,
            separable_divisor(row, col, divisor),
        ),
{
    let n = row.len() as int;
    assert(kernel.weights@.len() == n * n);
    assert(kernel.effective_divisor() == separable_divisor(row, col, divisor));
}

} // verus!
