//! Per-channel accumulators for averaging the colour of a block of pixels.

use vstd::prelude::*;
use vstd::std_specs::convert::IntoSpec;

verus! {

/// One RGB pixel: its red, green and blue channel values.
pub type Rgb8 = (u8, u8, u8);

/// Running sums of the red, green and blue channels of the pixels seen so far.
///
/// After [`RGBSum::div`] by the number of pixels the same three fields hold the
/// truncated mean colour of those pixels.
#[derive(Debug, PartialEq, Eq, Structural)]
pub struct RGBSum {
    pub r: u64,
    pub g: u64,
    pub b: u64,
}

impl RGBSum {
    /// Whether every channel fits in eight bits, as the channels of a mean
    /// colour of 8-bit pixels do.
    pub open spec fn is_color(&self) -> bool {
        self.r < 256 && self.g < 256 && self.b < 256
    }

    /// The accumulator that has seen no pixel.
    pub fn zero() -> (sum: RGBSum)
        ensures
            sum == (RGBSum { r: 0, g: 0, b: 0 }),
    {
        RGBSum { r: 0, g: 0, b: 0 }
    }

    /// Forgets every pixel seen so far.
    pub fn set_zero(&mut self) -> (res: &RGBSum)
        ensures
            *final(self) == (RGBSum { r: 0, g: 0, b: 0 }),
            *res == *final(self),
    {
        self.r = 0;
        self.g = 0;
        self.b = 0;
        self
    }

    /// Adds the sums of `other` to these, channel by channel.
    pub fn add(&mut self, other: &RGBSum)
        requires
            old(self).r + other.r <= u64::MAX,
            old(self).g + other.g <= u64::MAX,
            old(self).b + other.b <= u64::MAX,
        ensures
            final(self).r == old(self).r + other.r,
            final(self).g == old(self).g + other.g,
            final(self).b == old(self).b + other.b,
    {
        self.r += other.r;
        self.g += other.g;
        self.b += other.b;
    }

    /// Divides every channel by `n`, rounding down.
    pub fn div(&mut self, n: u64)
        requires
            n > 0,
        ensures
            final(self).r == old(self).r / n,
            final(self).g == old(self).g / n,
            final(self).b == old(self).b / n,
    {
        self.r /= n;
        self.g /= n;
        self.b /= n;
    }
}

impl Clone for RGBSum {
    fn clone(&self) -> (copy: Self)
        ensures
            copy == *self,
    {
        return RGBSum { r: self.r, g: self.g, b: self.b };
    }
}

/// Channel `c` of a pixel: 0 is red, 1 is green, any other number is blue.
pub open spec fn channel(p: Rgb8, c: int) -> nat {
    if c == 0 {
        p.0 as nat
    } else if c == 1 {
        p.1 as nat
    } else {
        p.2 as nat
    }
}

/// The sum of channel `c` over the pixels of `pixels`.
pub open spec fn channel_total(pixels: Seq<Rgb8>, c: int) -> nat
    decreases pixels.len(),
{
    if pixels.len() == 0 {
        0
    } else {
        channel_total(pixels.drop_last(), c) + channel(pixels.last(), c)
    }
}

/// The accumulator that has seen exactly the pixels of `pixels`.
pub open spec fn totals(pixels: Seq<Rgb8>) -> RGBSum {
    RGBSum {
        r: channel_total(pixels, 0) as u64,
        g: channel_total(pixels, 1) as u64,
        b: channel_total(pixels, 2) as u64,
    }
}

/// Whether the channel sums over `pixels` fit the accumulator.
pub open spec fn totals_fit(pixels: Seq<Rgb8>) -> bool {
    &&& channel_total(pixels, 0) <= u64::MAX
    &&& channel_total(pixels, 1) <= u64::MAX
    &&& channel_total(pixels, 2) <= u64::MAX
}

/// The mean colour of `pixels`: each channel's sum divided by the number of
/// pixels, rounded down.
pub open spec fn mean_color(pixels: Seq<Rgb8>) -> RGBSum {
    RGBSum {
        r: (channel_total(pixels, 0) / pixels.len()) as u64,
        g: (channel_total(pixels, 1) / pixels.len()) as u64,
        b: (channel_total(pixels, 2) / pixels.len()) as u64,
    }
}

/// A channel's sum over 8-bit pixels is at most 255 for each pixel.
pub proof fn lemma_channel_total_bound(pixels: Seq<Rgb8>, c: int)
    ensures
        channel_total(pixels, c) <= 255 * pixels.len(),
    decreases pixels.len(),
{
    if pixels.len() > 0 {
        lemma_channel_total_bound(pixels.drop_last(), c);
    }
}

/// The sum over a concatenation is the sum of the sums over its parts.
pub proof fn lemma_channel_total_concat(a: Seq<Rgb8>, b: Seq<Rgb8>, c: int)
    ensures
        channel_total(a + b, c) == channel_total(a, c) + channel_total(b, c),
    decreases b.len(),
{
    if b.len() == 0 {
        assert(a + b =~= a);
    } else {
        assert((a + b).drop_last() =~= a + b.drop_last());
        lemma_channel_total_concat(a, b.drop_last(), c);
    }
}

/// The mean colour of at least one 8-bit pixel has 8-bit channels.
pub proof fn lemma_mean_is_color(pixels: Seq<Rgb8>)
    requires
        pixels.len() > 0,
    ensures
        mean_color(pixels).is_color(),
{
    let n = pixels.len() as int;
    assert forall|c: int| (#[trigger] channel_total(pixels, c)) / (pixels.len()) <= 255 by {
        lemma_channel_total_bound(pixels, c);
        let t = channel_total(pixels, c) as int;
        assert(t / n <= 255) by (nonlinear_arith)
            requires
                n > 0,
                0 <= t <= 255 * n,
        ;
    }
    assert(channel_total(pixels, 0) / pixels.len() <= 255);
    assert(channel_total(pixels, 1) / pixels.len() <= 255);
    assert(channel_total(pixels, 2) / pixels.len() <= 255);
}

/// The colour of one pixel, as sums over that pixel alone.
pub open spec fn color_of(p: Rgb8) -> RGBSum {
    RGBSum { r: p.0 as u64, g: p.1 as u64, b: p.2 as u64 }
}

/// Over pixels that all have one colour, a channel's sum is that colour's
/// channel times the number of pixels.
pub proof fn lemma_uniform_total(pixels: Seq<Rgb8>, color: Rgb8, c: int)
    requires
        forall|i: int| 0 <= i < pixels.len() ==> pixels[i] == color,
    ensures
        channel_total(pixels, c) == pixels.len() * channel(color, c),
    decreases pixels.len(),
{
    if pixels.len() > 0 {
        lemma_uniform_total(pixels.drop_last(), color, c);
        let n = pixels.len() as int;
        let v = channel(color, c) as int;
        assert((n - 1) * v + v == n * v) by (nonlinear_arith);
    }
}

/// The mean colour of pixels that all have one colour is that colour.
pub proof fn lemma_uniform_mean(pixels: Seq<Rgb8>, color: Rgb8)
    requires
        pixels.len() > 0,
        forall|i: int| 0 <= i < pixels.len() ==> pixels[i] == color,
    ensures
        mean_color(pixels) == color_of(color),
{
    let n = pixels.len() as int;
    assert forall|c: int| (#[trigger] channel_total(pixels, c)) / pixels.len() == channel(
        color,
        c,
    ) by {
        lemma_uniform_total(pixels, color, c);
        let v = channel(color, c) as int;
        assert((n * v) / n == v) by (nonlinear_arith)
            requires
                n > 0,
        ;
    }
    assert(channel_total(pixels, 0) / pixels.len() == channel(color, 0));
    assert(channel_total(pixels, 1) / pixels.len() == channel(color, 1));
    assert(channel_total(pixels, 2) / pixels.len() == channel(color, 2));
}

/// An accumulator that pixels of layout `P` can be folded into, one at a time.
pub trait Aggregator<P>: Sized {
    /// Whether `p` can be folded in without a channel sum leaving its range.
    spec fn accepts(&self, p: &P) -> bool;

    /// The accumulator once `p` has been folded in.
    spec fn absorbed(&self, p: &P) -> Self;

    /// Folds the pixel `p` into the accumulator.
    fn aggregate(&mut self, p: &P)
        requires
            old(self).accepts(p),
        ensures
            *final(self) == old(self).absorbed(p),
    ;
}

/// Pixels of three channels of any width that converts to `u64`.
impl<U: Into<u64> + Copy> Aggregator<(U, U, U)> for RGBSum {
    open spec fn accepts(&self, p: &(U, U, U)) -> bool {
        &&& U::obeys_into_spec()
        &&& self.r + p.0.into_spec() <= u64::MAX
        &&& self.g + p.1.into_spec() <= u64::MAX
        &&& self.b + p.2.into_spec() <= u64::MAX
    }

    open spec fn absorbed(&self, p: &(U, U, U)) -> RGBSum {
        RGBSum {
            r: (self.r + p.0.into_spec()) as u64,
            g: (self.g + p.1.into_spec()) as u64,
            b: (self.b + p.2.into_spec()) as u64,
        }
    }

    fn aggregate(&mut self, p: &(U, U, U)) {
        let r: u64 = p.0.into();
        let g: u64 = p.1.into();
        let b: u64 = p.2.into();
        self.r += r;
        self.g += g;
        self.b += b;
    }
}

/// Pixels of four channels: the fourth, alpha, takes no part in the sums.
impl<U: Into<u64> + Copy> Aggregator<(U, U, U, U)> for RGBSum {
    open spec fn accepts(&self, p: &(U, U, U, U)) -> bool {
        &&& U::obeys_into_spec()
        &&& self.r + p.0.into_spec() <= u64::MAX
        &&& self.g + p.1.into_spec() <= u64::MAX
        &&& self.b + p.2.into_spec() <= u64::MAX
    }

    open spec fn absorbed(&self, p: &(U, U, U, U)) -> RGBSum {
        RGBSum {
            r: (self.r + p.0.into_spec()) as u64,
            g: (self.g + p.1.into_spec()) as u64,
            b: (self.b + p.2.into_spec()) as u64,
        }
    }

    fn aggregate(&mut self, p: &(U, U, U, U)) {
        let r: u64 = p.0.into();
        let g: u64 = p.1.into();
        let b: u64 = p.2.into();
        self.r += r;
        self.g += g;
        self.b += b;
    }
}

} // verus!
