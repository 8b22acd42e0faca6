//! Two-image blending and "over" compositing.
use vstd::prelude::*;
use crate::{PhotonError, PhotonImage};
use crate::channels::lemma_whole_pixels;
use crate::conv::{lemma_pixel_coords, lemma_tap_in_bounds, sample_index};

verus! {

/// How the colour samples of a top and a bottom image are combined.
#[derive(Debug, Clone, Copy, PartialEq, Eq, Structural)]
pub enum BlendMode {
    /// `a * b / 255`.
    Multiply,
    /// `255 - (255 - a) * (255 - b) / 255`.
    Screen,
    /// Multiply (doubled) where the bottom is dark, screen (doubled) where it is light.
    Overlay,
    /// `|a - b|`.
    Difference,
    /// The larger of the two samples.
    Lighten,
    /// The smaller of the two samples.
    Darken,
    /// Alpha compositing of the top image over the bottom one, rounded to the
    /// nearest sample.
    Over,
}

/// One blended colour sample from top sample `a`, bottom sample `b` and the
/// top pixel's alpha `at`; "over" rounds `(a * at + b * (255 - at)) / 255` to
/// the nearest integer.
pub open spec fn mix(mode: BlendMode, a: int, b: int, at: int) -> int {
    match mode {
        BlendMode::Multiply => a * b / 255,
        BlendMode::Screen => 255 - (255 - a) * (255 - b) / 255,
        BlendMode::Overlay => if b <= 127 {
            2 * a * b / 255
        } else {
            255 - 2 * (255 - a) * (255 - b) / 255
        },
        BlendMode::Difference => if a >= b {
            a - b
        } else {
            b - a
        },
        BlendMode::Lighten => if a >= b {
            a
        } else {
            b
        },
        BlendMode::Darken => if a <= b {
            a
        } else {
            b
        },
        BlendMode::Over => (a * at + b * (255 - at) + 127) / 255,
    }
}

/// The blended alpha: the top alpha, or the "over" alpha (rounded to nearest)
/// when compositing.
pub open spec fn mix_alpha(mode: BlendMode, at: int, ab: int) -> int {
    match mode {
        BlendMode::Over => at + (ab * (255 - at) + 127) / 255,
        _ => at,
    }
}

/// Sample `j` of the blend of `t` over `b`.
pub open spec fn blended_sample(t: Seq<u8>, b: Seq<u8>, mode: BlendMode, j: int) -> u8 {
    if j % 4 == 3 {
        mix_alpha(mode, t[j] as int, b[j] as int) as u8
    } else {
        mix(mode, t[j] as int, b[j] as int, t[j - j % 4 + 3] as int) as u8
    }
}

/// The blend of the buffer `t` (top) with the buffer `b` (bottom).
pub open spec fn blended(t: Seq<u8>, b: Seq<u8>, mode: BlendMode) -> Seq<u8> {
    Seq::new(t.len(), |j: int| blended_sample(t, b, mode, j))
}

proof fn lemma_div255(x: int)
    requires
        0 <= x <= 65025,
    ensures
        0 <= x / 255 <= 255,
{
    vstd::arithmetic::div_mod::lemma_div_is_ordered(x, 65025, 255);
    vstd::arithmetic::div_mod::lemma_div_pos_is_pos(x, 255);
}

proof fn lemma_mix_bounds(mode: BlendMode, a: int, b: int, at: int, ab: int)
    requires
        0 <= a <= 255,
        0 <= b <= 255,
        0 <= at <= 255,
        0 <= ab <= 255,
    ensures
        0 <= mix(mode, a, b, at) <= 255,
        0 <= mix_alpha(mode, at, ab) <= 255,
{
    assert(0 <= a * b <= 65025) by (nonlinear_arith)
        requires
            0 <= a <= 255,
            0 <= b <= 255,
    ;
    lemma_div255(a * b);
    assert(0 <= (255 - a) * (255 - b) <= 65025) by (nonlinear_arith)
        requires
            0 <= a <= 255,
            0 <= b <= 255,
    ;
    lemma_div255((255 - a) * (255 - b));
    if b <= 127 {
        assert(0 <= 2 * a * b <= 65025) by (nonlinear_arith)
            requires
                0 <= a <= 255,
                0 <= b <= 127,
        ;
        lemma_div255(2 * a * b);
    } else {
        assert(0 <= 2 * (255 - a) * (255 - b) <= 65025) by (nonlinear_arith)
            requires
                0 <= a <= 255,
                128 <= b <= 255,
        ;
        lemma_div255(2 * (255 - a) * (255 - b));
    }
    assert(0 <= a * at + b * (255 - at) <= 65025) by (nonlinear_arith)
        requires
            0 <= a <= 255,
            0 <= b <= 255,
            0 <= at <= 255,
    ;
    vstd::arithmetic::div_mod::lemma_div_is_ordered(a * at + b * (255 - at) + 127, 65152, 255);
    vstd::arithmetic::div_mod::lemma_div_pos_is_pos(a * at + b * (255 - at) + 127, 255);
    assert(0 <= ab * (255 - at) <= 255 * (255 - at)) by (nonlinear_arith)
        requires
            0 <= ab <= 255,
            0 <= at <= 255,
    ;
    let top = 255 * (255 - at) + 127;
    vstd::arithmetic::div_mod::lemma_div_is_ordered(ab * (255 - at) + 127, top, 255);
    vstd::arithmetic::div_mod::lemma_div_pos_is_pos(ab * (255 - at) + 127, 255);
    vstd::arithmetic::div_mod::lemma_fundamental_div_mod_converse(top, 255, 255 - at, 127);
}

/// One blended colour sample.
fn mix_exec(mode: BlendMode, a: u8, b: u8, at: u8) -> (r: u8)
    ensures
        r as int == mix(mode, a as int, b as int, at as int),
{
    proof {
        lemma_mix_bounds(mode, a as int, b as int, at as int, 0);
    }
    let (a, b, at) = (a as u32, b as u32, at as u32);
    let r: u32 = match mode {
        BlendMode::Multiply => a * b / 255,
        BlendMode::Screen => 255 - (255 - a) * (255 - b) / 255,
        BlendMode::Overlay => if b <= 127 {
            2 * a * b / 255
        } else {
            255 - 2 * (255 - a) * (255 - b) / 255
        },
        BlendMode::Difference => if a >= b {
            a - b
        } else {
            b - a
        },
        BlendMode::Lighten => if a >= b {
            a
        } else {
            b
        },
        BlendMode::Darken => if a <= b {
            a
        } else {
            b
        },
        BlendMode::Over => (a * at + b * (255 - at) + 127) / 255,
    };
    r as u8
}

/// The blended alpha sample.
fn mix_alpha_exec(mode: BlendMode, at: u8, ab: u8) -> (r: u8)
    ensures
        r as int == mix_alpha(mode, at as int, ab as int),
{
    proof {
        lemma_mix_bounds(mode, 0, 0, at as int, ab as int);
    }
    match mode {
        BlendMode::Over => {
            assert(ab * (255 - at) <= 65025) by (nonlinear_arith)
                requires
                    ab <= 255,
                    at <= 255,
            ;
            (at as u32 + (ab as u32 * (255 - at as u32) + 127) / 255) as u8
        },
        _ => at,
    }
}

/// Blend `top` with `bottom`, pixel by pixel. The images must have the same
/// dimensions; otherwise nothing is blended and `DimensionMismatch` is returned.
pub fn blend(top: &PhotonImage, bottom: &PhotonImage, mode: BlendMode) -> (r: Result<PhotonImage, PhotonError>)
    requires
        top.wf(),
        bottom.wf(),
    ensures
        (top.w() != bottom.w() || top.h() != bottom.h()) ==> r == Err::<PhotonImage, PhotonError>(
            PhotonError::DimensionMismatch,
        ),
        (top.w() == bottom.w() && top.h() == bottom.h()) ==> r is Ok,
        r matches Ok(out) ==> out.wf() && out.w() == top.w() && out.h() == top.h()
            && out.pixels() == blended(top.pixels(), bottom.pixels(), mode),
{
    let w: u32 = top.get_width();
    let h: u32 = top.get_height();
    if w != bottom.get_width() || h != bottom.get_height() {
        return Err(PhotonError::DimensionMismatch);
    }
    proof {
        lemma_whole_pixels(top);
    }
    let t = top.samples();
    let b = bottom.samples();
    let len: usize = t.len();
    let mut out: Vec<u8> = Vec::with_capacity(len);
    let mut j: usize = 0;
    while j < len
        invariant
            j <= len,
            len == t@.len(),
            len == b@.len(),
            len % 4 == 0,
            t@ == top.pixels(),
            b@ == bottom.pixels(),
            out@.len() == j,
            forall|i: int| 0 <= i < j ==> out@[i] == blended_sample(t@, b@, mode, i),
        decreases len - j,
    {
        let k: usize = j % 4;
        if k == 3 {
            out.push(mix_alpha_exec(mode, t[j], b[j]));
        } else {
            out.push(mix_exec(mode, t[j], b[j], t[j - k + 3]));
        }
        j += 1;
    }
    assert(out@ =~= blended(top.pixels(), bottom.pixels(), mode));
    Ok(PhotonImage::new(out, w, h))
}

/// Multiply blending does not depend on which image is on top, for images of
/// equal size whose alpha channels agree (the result takes the top's alpha).
pub proof fn lemma_multiply_commutes(a: Seq<u8>, b: Seq<u8>)
    requires
        a.len() == b.len(),
        forall|j: int| 0 <= j < a.len() && j % 4 == 3 ==> #[trigger] a[j] == b[j],
    ensures
        blended(a, b, BlendMode::Multiply) == blended(b, a, BlendMode::Multiply),
{
    assert forall|j: int| 0 <= j < a.len() implies #[trigger] blended_sample(a, b, BlendMode::Multiply, j)
        == blended_sample(b, a, BlendMode::Multiply, j) by {
        vstd::arithmetic::mul::lemma_mul_is_commutative(a[j] as int, b[j] as int);
    }
    assert(blended(a, b, BlendMode::Multiply) =~= blended(b, a, BlendMode::Multiply));
}

/// Sample `j` of `dest` with `mark` (of width `mw`, height `mh`) composited over
/// it with its top-left corner at pixel (x, y); parts of `mark` that fall
/// outside `dest` are dropped.
pub open spec fn watermarked_sample(
    dest: Seq<u8>,
    w: int,
    mark: Seq<u8>,
    mw: int,
    mh: int,
    x: int,
    y: int,
    j: int,
) -> u8 {
    let p = j / 4;
    let (px, py) = (p % w, p / w);
    let c = j % 4;
    if x <= px < x + mw && y <= py < y + mh {
        let m = sample_index(mw, px - x, py - y, c);
        let am = mark[sample_index(mw, px - x, py - y, 3)] as int;
        if c == 3 {
            mix_alpha(BlendMode::Over, am, dest[j] as int) as u8
        } else {
            mix(BlendMode::Over, mark[m] as int, dest[j] as int, am) as u8
        }
    } else {
        dest[j]
    }
}

/// `dest` with `mark` composited over it at pixel (x, y).
pub open spec fn watermarked(dest: Seq<u8>, w: int, mark: Seq<u8>, mw: int, mh: int, x: int, y: int) -> Seq<u8> {
    Seq::new(dest.len(), |j: int| watermarked_sample(dest, w, mark, mw, mh, x, y, j))
}

/// Composite `mark` over `dest` with its top-left corner at pixel (x, y), using
/// "over" alpha compositing; whatever extends past the edges of `dest` is cropped.
pub fn watermark(dest: &PhotonImage, mark: &PhotonImage, x: u32, y: u32) -> (out: PhotonImage)
    requires
        dest.wf(),
        mark.wf(),
    ensures
        out.wf(),
        out.w() == dest.w(),
        out.h() == dest.h(),
        out.pixels() == watermarked(
            dest.pixels(),
            dest.w() as int,
            mark.pixels(),
            mark.w() as int,
            mark.h() as int,
            x as int,
            y as int,
        ),
{
    let w: u32 = dest.get_width();
    let h: u32 = dest.get_height();
    let mw: u32 = mark.get_width();
    let mh: u32 = mark.get_height();
    let d = dest.samples();
    let m = mark.samples();
    let mlen: usize = m.len();
    let len: usize = d.len();
    let mut out: Vec<u8> = Vec::with_capacity(len);
    let mut j: usize = 0;
    while j < len
        invariant
            j <= len,
            len == d@.len(),
            mlen == m@.len(),
            d@ == dest.pixels(),
            m@ == mark.pixels(),
            dest.wf(),
            mark.wf(),
            w == dest.w(),
            h == dest.h(),
            mw == mark.w(),
            mh == mark.h(),
            out@.len() == j,
            forall|i: int|
                0 <= i < j ==> out@[i] == watermarked_sample(
                    d@,
                    w as int,
                    m@,
                    mw as int,
                    mh as int,
                    x as int,
                    y as int,
                    i,
                ),
        decreases len - j,
    {
        proof {
            lemma_pixel_coords(w as int, h as int, j as int);
        }
        let c: usize = j % 4;
        let p: usize = j / 4;
        let px: u64 = (p % (w as usize)) as u64;
        let py: u64 = (p / (w as usize)) as u64;
        if x as u64 <= px && px < x as u64 + mw as u64 && y as u64 <= py && py < y as u64 + mh as u64 {
            let mx: u64 = px - x as u64;
            let my: u64 = py - y as u64;
            proof {
                lemma_tap_in_bounds(mw as int, mh as int, mx as int, my as int, c as int);
                lemma_tap_in_bounds(mw as int, mh as int, mx as int, my as int, 3);
                assert(0 <= my * mw <= my * mw + mx < mw * mh) by (nonlinear_arith)
                    requires
                        mx < mw,
                        my < mh,
                ;
            }
            let base: u64 = (my * mw as u64 + mx) * 4;
            let am: u8 = m[(base + 3) as usize];
            if c == 3 {
                out.push(mix_alpha_exec(BlendMode::Over, am, d[j]));
            } else {
                out.push(mix_exec(BlendMode::Over, m[(base + c as u64) as usize], d[j], am));
            }
        } else {
            out.push(d[j]);
        }
        j += 1;
    }
    assert(out@ =~= watermarked(dest.pixels(), w as int, mark.pixels(), mw as int, mh as int, x as int, y as int));
    PhotonImage::new(out, w, h)
}

} // verus!
