//! Reducing a pass over pixels to one mean gray value.

use vstd::prelude::*;

use crate::error::BrightnessError;
use crate::grid::Pixel;
use crate::traversal::SamplePixels;

verus! {

/// The gray value of one pixel in hundredths: the first three channels
/// weighted by 0.30, 0.59 and 0.11 in the order in which the pixel stores
/// them. The fourth channel does not count.
pub open spec fn luminance_hundredths(pixel: Pixel) -> nat {
    (30 * pixel.r + 59 * pixel.g + 11 * pixel.b) as nat
}

/// The gray values of a sequence of pixels, added up, in hundredths.
pub open spec fn luminance_sum(pixels: Seq<Pixel>) -> nat
    decreases pixels.len(),
{
    if pixels.len() == 0 {
        0
    } else {
        luminance_sum(pixels.drop_last()) + luminance_hundredths(pixels.last())
    }
}

/// `numerator / denominator` rounded to the nearest whole number, a tie
/// going up.
pub open spec fn round_half_up(numerator: nat, denominator: nat) -> nat {
    ((2 * numerator + denominator) / (2 * denominator)) as nat
}

/// The gray value of one pixel, in hundredths.
pub fn gray_hundredths(pixel: Pixel) -> (gray: u32)
    ensures
        gray == luminance_hundredths(pixel),
        gray <= 25500,
{
    30 * (pixel.r as u32) + 59 * (pixel.g as u32) + 11 * (pixel.b as u32)
}

/// A mean gray value, kept exactly: the sum of the gray values of the pixels
/// visited, in hundredths, and how many pixels were visited. The mean itself
/// is `sum / (100 * samples)`.
#[derive(Clone, Copy, Debug, PartialEq, Eq, Structural)]
pub struct MeanLuminance {
    sum: u128,
    samples: u64,
}

impl MeanLuminance {
    /// At least one pixel was visited, and no pixel is brighter than 255.
    #[verifier::type_invariant]
    pub open spec fn wf(self) -> bool {
        &&& 0 < self.spec_samples() <= u64::MAX
        &&& self.spec_sum() <= 25500 * self.spec_samples()
    }

    /// The sum of the gray values, in hundredths.
    pub closed spec fn spec_sum(self) -> nat {
        self.sum as nat
    }

    /// The number of pixels that the sum was taken over.
    pub closed spec fn spec_samples(self) -> nat {
        self.samples as nat
    }

    /// This is the mean of the gray values of `pixels`.
    pub open spec fn is_mean_of(self, pixels: Seq<Pixel>) -> bool {
        &&& self.spec_sum() == luminance_sum(pixels)
        &&& self.spec_samples() == pixels.len()
    }

    /// The mean rounded to the nearest whole gray value, a tie going away
    /// from zero.
    pub open spec fn spec_rounded(self) -> nat {
        round_half_up(self.spec_sum(), 100 * self.spec_samples())
    }

    /// Two means over the same sum and the same number of pixels are equal.
    pub proof fn lemma_determined(self, other: MeanLuminance)
        requires
            self.spec_sum() == other.spec_sum(),
            self.spec_samples() == other.spec_samples(),
        ensures
            self == other,
    {
    }

    /// The sum of the gray values, in hundredths.
    pub fn sum_hundredths(&self) -> (sum: u128)
        ensures
            sum == self.spec_sum(),
    {
        self.sum
    }

    /// The number of pixels that the sum was taken over.
    pub fn samples(&self) -> (samples: u64)
        ensures
            samples == self.spec_samples(),
            samples > 0,
    {
        proof {
            use_type_invariant(self);
        }
        self.samples
    }

    /// The mean rounded to the nearest whole gray value, a tie going away
    /// from zero.
    pub fn rounded(&self) -> (score: u32)
        ensures
            score == self.spec_rounded(),
            score <= 255,
    {
        proof {
            use_type_invariant(self);
            lemma_round_half_up_nearest(self.spec_sum(), 100 * self.spec_samples());
            let r = self.spec_rounded() as int;
            let n = self.samples as int;
            assert(r <= 255) by (nonlinear_arith)
                requires
                    200 * n * r <= 2 * self.sum + 100 * n,
                    self.sum <= 25500 * n,
                    n > 0,
            ;
        }
        let scale: u128 = 100 * (self.samples as u128);
        ((2 * self.sum + scale) / (2 * scale)) as u32
    }
}

/// What reducing `pixels` yields: their mean, or the report that there was
/// nothing to take a mean of.
pub open spec fn reduces_to(outcome: Result<MeanLuminance, BrightnessError>, pixels: Seq<Pixel>)
    -> bool {
    match outcome {
        Ok(mean) => pixels.len() > 0 && mean.wf() && mean.is_mean_of(pixels),
        Err(e) => pixels.len() == 0 && e == BrightnessError::EmptySample,
    }
}

/// The mean gray value of the pixels that a pass has not handed out yet.
/// A pass with no pixel left has no mean: that is `EmptySample`.
pub fn calc_gray(pixels: SamplePixels) -> (outcome: Result<MeanLuminance, BrightnessError>)
    ensures
        reduces_to(outcome, pixels.remaining()),
{
    let ghost start = pixels;
    let ghost stream = pixels.remaining();
    let mut pixels = pixels;
    let mut sum: u128 = 0;
    let mut count: u64 = 0;
    proof {
        use_type_invariant(&pixels);
        pixels.lemma_wf();
        assert(stream.take(0) =~= Seq::<Pixel>::empty());
    }
    loop
        invariant
            pixels.wf(),
            pixels.spec_image() == start.spec_image(),
            pixels.xs() == start.xs(),
            pixels.ys() == start.ys(),
            stream == start.remaining(),
            start.position() <= start.path().len() <= u32::MAX * u32::MAX,
            pixels.position() == start.position() + count,
            count <= stream.len(),
            sum == luminance_sum(stream.take(count as int)),
            sum <= 25500 * count,
        ensures
            count == stream.len(),
            sum == luminance_sum(stream),
            sum <= 25500 * count,
        decreases stream.len() - count,
    {
        match pixels.next() {
            Some((_, _, pixel)) => {
                proof {
                    let seen = stream.take(count as int);
                    let grown = stream.take(count + 1);
                    assert(grown.drop_last() =~= seen);
                    assert(grown.last() == pixel);
                    assert(u32::MAX * u32::MAX < u64::MAX) by (nonlinear_arith);
                }
                sum = sum + gray_hundredths(pixel) as u128;
                count = count + 1;
            },
            None => {
                proof {
                    assert(stream.take(count as int) =~= stream);
                }
                break ;
            },
        }
    }
    if count == 0 {
        Err(BrightnessError::EmptySample)
    } else {
        Ok(MeanLuminance { sum, samples: count })
    }
}

/// `round_half_up` gives the whole number nearest to the fraction: the
/// fraction lies at most one half below it and less than one half above.
pub proof fn lemma_round_half_up_nearest(numerator: nat, denominator: nat)
    requires
        denominator > 0,
    ensures
        2 * denominator * round_half_up(numerator, denominator) <= 2 * numerator + denominator,
        2 * numerator + denominator < 2 * denominator * (round_half_up(numerator, denominator) + 1),
{
    let a = (2 * numerator + denominator) as int;
    let d = (2 * denominator) as int;
    vstd::arithmetic::div_mod::lemma_fundamental_div_mod(a, d);
    vstd::arithmetic::div_mod::lemma_mod_bound(a, d);
    vstd::arithmetic::div_mod::lemma_div_pos_is_pos(a, d);
    assert(d * (a / d + 1) == d * (a / d) + d) by (nonlinear_arith);
}

/// Pixels that all have the gray value `level` add up to `level` times
/// their number.
pub proof fn lemma_uniform_sum(pixels: Seq<Pixel>, level: nat)
    requires
        forall|k: int| 0 <= k < pixels.len() ==> luminance_hundredths(#[trigger] pixels[k]) == level,
    ensures
        luminance_sum(pixels) == pixels.len() * level,
    decreases pixels.len(),
{
    if pixels.len() > 0 {
        lemma_uniform_sum(pixels.drop_last(), level);
        assert(pixels.len() * level == (pixels.len() - 1) * level + level) by (nonlinear_arith)
            requires
                pixels.len() > 0,
        ;
    }
}

} // verus!
