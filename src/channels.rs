//! Per-channel arithmetic on RGBA buffers: saturating adjustment, swapping and
//! thresholded removal.
use vstd::prelude::*;
use crate::{clamp_u8_spec, PhotonImage};

verus! {

/// One of the four samples of a pixel.
#[derive(Debug, Clone, Copy, PartialEq, Eq, Structural)]
pub enum Channel {
    Red,
    Green,
    Blue,
    Alpha,
}

impl Channel {
    /// Position of the channel's sample within a pixel.
    pub open spec fn index(self) -> int {
        match self {
            Channel::Red => 0,
            Channel::Green => 1,
            Channel::Blue => 2,
            Channel::Alpha => 3,
        }
    }

    /// Position of the channel's sample within a pixel.
    pub fn offset(self) -> (r: usize)
        ensures
            r == self.index(),
    {
        match self {
            Channel::Red => 0,
            Channel::Green => 1,
            Channel::Blue => 2,
            Channel::Alpha => 3,
        }
    }
}

/// How a sample is compared with a threshold.
#[derive(Debug, Clone, Copy, PartialEq, Eq, Structural)]
pub enum Comparison {
    /// The sample is strictly below the threshold.
    Below,
    /// The sample is strictly above the threshold.
    Above,
}

/// Whether `v` meets the comparison against `threshold`.
pub open spec fn compares(mode: Comparison, v: u8, threshold: u8) -> bool {
    match mode {
        Comparison::Below => v < threshold,
        Comparison::Above => v > threshold,
    }
}

/// The buffer with `delta` added to every sample of channel `k`, saturating at
/// 0 and 255.
pub open spec fn adjusted(s: Seq<u8>, k: int, delta: int) -> Seq<u8> {
    Seq::new(
        s.len(),
        |j: int|
            if j % 4 == k {
                clamp_u8_spec(s[j] + delta) as u8
            } else {
                s[j]
            },
    )
}

/// Where a pixel's sample at position `k` is taken from when channels `a` and
/// `b` are exchanged.
pub open spec fn swap_source(k: int, a: int, b: int) -> int {
    if k == a {
        b
    } else if k == b {
        a
    } else {
        k
    }
}

/// The buffer with channels `a` and `b` of every pixel exchanged.
pub open spec fn swapped(s: Seq<u8>, a: int, b: int) -> Seq<u8> {
    Seq::new(s.len(), |j: int| s[j - j % 4 + swap_source(j % 4, a, b)])
}

/// The buffer with channel `k` set to zero wherever it meets the comparison.
pub open spec fn removed(s: Seq<u8>, k: int, threshold: u8, mode: Comparison) -> Seq<u8> {
    Seq::new(
        s.len(),
        |j: int|
            if j % 4 == k && compares(mode, s[j], threshold) {
                0u8
            } else {
                s[j]
            },
    )
}

pub(crate) proof fn lemma_whole_pixels(img: &PhotonImage)
    requires
        img.wf(),
    ensures
        img.pixels().len() % 4 == 0,
{
    vstd::arithmetic::div_mod::lemma_mod_multiples_basic((img.w() * img.h()) as int, 4);
}

/// Add `delta` to one channel of every pixel, saturating at 0 and 255.
pub fn adjust_channel(img: &PhotonImage, channel: Channel, delta: i16) -> (out: PhotonImage)
    requires
        img.wf(),
    ensures
        out.wf(),
        out.w() == img.w(),
        out.h() == img.h(),
        out.pixels() == adjusted(img.pixels(), channel.index(), delta as int),
{
    let s = img.samples();
    let k = channel.offset();
    let len: usize = s.len();
    let mut out: Vec<u8> = Vec::with_capacity(len);
    let mut j: usize = 0;
    while j < len
        invariant
            j <= len,
            len == s@.len(),
            s@ == img.pixels(),
            k == channel.index(),
            out@.len() == j,
            forall|i: int|
                0 <= i < j ==> out@[i] == adjusted(s@, k as int, delta as int)[i],
        decreases len - j,
    {
        let v: u8 = s[j];
        if j % 4 == k {
            let t: i32 = v as i32 + delta as i32;
            let c: u8 = if t < 0 {
                0
            } else if t > 255 {
                255
            } else {
                t as u8
            };
            out.push(c);
        } else {
            out.push(v);
        }
        j += 1;
    }
    assert(out@ =~= adjusted(img.pixels(), channel.index(), delta as int));
    PhotonImage::new(out, img.get_width(), img.get_height())
}

/// Exchange two channels of every pixel.
pub fn swap_channels(img: &PhotonImage, a: Channel, b: Channel) -> (out: PhotonImage)
    requires
        img.wf(),
    ensures
        out.wf(),
        out.w() == img.w(),
        out.h() == img.h(),
        out.pixels() == swapped(img.pixels(), a.index(), b.index()),
{
    proof {
        lemma_whole_pixels(img);
    }
    let s = img.samples();
    let ka = a.offset();
    let kb = b.offset();
    let len: usize = s.len();
    let mut out: Vec<u8> = Vec::with_capacity(len);
    let mut j: usize = 0;
    while j < len
        invariant
            j <= len,
            len == s@.len(),
            len % 4 == 0,
            s@ == img.pixels(),
            ka == a.index(),
            kb == b.index(),
            out@.len() == j,
            forall|i: int|
                0 <= i < j ==> out@[i] == swapped(s@, ka as int, kb as int)[i],
        decreases len - j,
    {
        let k: usize = j % 4;
        let src: usize = if k == ka {
            kb
        } else if k == kb {
            ka
        } else {
            k
        };
        out.push(s[j - k + src]);
        j += 1;
    }
    assert(out@ =~= swapped(img.pixels(), a.index(), b.index()));
    PhotonImage::new(out, img.get_width(), img.get_height())
}

/// Set one channel to zero in every pixel where it meets the comparison with
/// `threshold`.
pub fn remove_channel(img: &PhotonImage, channel: Channel, threshold: u8, mode: Comparison) -> (out: PhotonImage)
    requires
        img.wf(),
    ensures
        out.wf(),
        out.w() == img.w(),
        out.h() == img.h(),
        out.pixels() == removed(img.pixels(), channel.index(), threshold, mode),
{
    let s = img.samples();
    let k = channel.offset();
    let len: usize = s.len();
    let mut out: Vec<u8> = Vec::with_capacity(len);
    let mut j: usize = 0;
    while j < len
        invariant
            j <= len,
            len == s@.len(),
            s@ == img.pixels(),
            k == channel.index(),
            out@.len() == j,
            forall|i: int|
                0 <= i < j ==> out@[i] == removed(s@, k as int, threshold, mode)[i],
        decreases len - j,
    {
        let v: u8 = s[j];
        let hit: bool = match mode {
            Comparison::Below => v < threshold,
            Comparison::Above => v > threshold,
        };
        if j % 4 == k && hit {
            out.push(0);
        } else {
            out.push(v);
        }
        j += 1;
    }
    assert(out@ =~= removed(img.pixels(), channel.index(), threshold, mode));
    PhotonImage::new(out, img.get_width(), img.get_height())
}

/// Exchanging the same two channels twice gives back the original buffer.
pub proof fn lemma_swap_is_involution(s: Seq<u8>, a: Channel, b: Channel)
    requires
        s.len() % 4 == 0,
    ensures
        swapped(swapped(s, a.index(), b.index()), a.index(), b.index()) == s,
{
    let ka = a.index();
    let kb = b.index();
    let once = swapped(s, ka, kb);
    assert forall|j: int| 0 <= j < s.len() implies #[trigger] swapped(once, ka, kb)[j] == s[j] by {
        let k = j % 4;
        let m = j - k + swap_source(k, ka, kb);
        assert(m % 4 == swap_source(k, ka, kb));
        assert(swap_source(swap_source(k, ka, kb), ka, kb) == k);
    }
    assert(swapped(once, ka, kb) =~= s);
}

/// Adding `delta` to a channel never wraps: a sample pushed past 255 stays at
/// 255 and one pushed below 0 stays at 0.
pub proof fn lemma_adjust_saturates(s: Seq<u8>, channel: Channel, delta: i16, j: int)
    requires
        0 <= j < s.len(),
        j % 4 == channel.index(),
    ensures
        s[j] + delta >= 255 ==> adjusted(s, channel.index(), delta as int)[j] == 255,
        s[j] + delta <= 0 ==> adjusted(s, channel.index(), delta as int)[j] == 0,
{
}

} // verus!
