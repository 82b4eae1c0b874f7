//! The share of each axis that a sampled evaluation keeps.

use vstd::prelude::*;

verus! {

/// A percentage written as the exact fraction `numerator / denominator`.
///
/// Values at or below 0 and at or above 100 switch sampling off.
#[derive(Clone, Copy, Debug)]
pub struct SampleRatio {
    numerator: i64,
    denominator: u64,
}

/// `floor(dimension * numerator / (100 * denominator))`, kept between 0 and `dimension`.
pub open spec fn kept_of(dimension: nat, numerator: int, denominator: nat) -> nat {
    if numerator <= 0 {
        0
    } else {
        let k = (dimension * numerator) / (100 * denominator as int);
        if k >= dimension {
            dimension
        } else {
            k as nat
        }
    }
}

impl SampleRatio {
    /// The denominator of a ratio is never zero, and both parts fit in 64 bits.
    #[verifier::type_invariant]
    pub open spec fn wf(self) -> bool {
        &&& 0 < self.spec_denominator() <= u64::MAX
        &&& i64::MIN <= self.spec_numerator() <= i64::MAX
    }

    pub closed spec fn spec_numerator(self) -> int {
        self.numerator as int
    }

    pub closed spec fn spec_denominator(self) -> nat {
        self.denominator as nat
    }

    /// The percentage is at most 0 or at least 100.
    pub open spec fn spec_disables_sampling(self) -> bool {
        self.spec_numerator() <= 0 || self.spec_numerator() >= 100 * self.spec_denominator()
    }

    /// How many of `dimension` coordinates the ratio keeps.
    pub open spec fn spec_sample_count(self, dimension: nat) -> nat {
        kept_of(dimension, self.spec_numerator(), self.spec_denominator())
    }

    /// The percentage `numerator / denominator`; `None` when the denominator is zero.
    pub fn new(numerator: i64, denominator: u64) -> (ratio: Option<SampleRatio>)
        ensures
            ratio is Some <==> denominator != 0,
            ratio matches Some(r) ==> {
                &&& r.wf()
                &&& r.spec_numerator() == numerator
                &&& r.spec_denominator() == denominator
            },
    {
        if denominator == 0 {
            None
        } else {
            Some(SampleRatio { numerator, denominator })
        }
    }

    /// A whole number of percent.
    pub fn percent(whole: u32) -> (ratio: SampleRatio)
        ensures
            ratio.wf(),
            ratio.spec_numerator() == whole,
            ratio.spec_denominator() == 1,
    {
        SampleRatio { numerator: whole as i64, denominator: 1 }
    }

    pub fn numerator(&self) -> (n: i64)
        ensures
            n == self.spec_numerator(),
    {
        self.numerator
    }

    pub fn denominator(&self) -> (d: u64)
        ensures
            d == self.spec_denominator(),
            d > 0,
    {
        proof {
            use_type_invariant(self);
        }
        self.denominator
    }

    /// Whether the ratio asks for every pixel instead of a sample.
    pub fn disables_sampling(&self) -> (off: bool)
        ensures
            off == self.spec_disables_sampling(),
    {
        if self.numerator <= 0 {
            return true;
        }
        let scaled: u128 = 100 * (self.denominator as u128);
        (self.numerator as u128) >= scaled
    }

    /// How many of `dimension` coordinates the ratio keeps:
    /// `floor(dimension * ratio / 100)`, never below 0 nor above `dimension`.
    pub fn sample_count(&self, dimension: u32) -> (k: u32)
        ensures
            k == self.spec_sample_count(dimension as nat),
            k <= dimension,
    {
        proof {
            use_type_invariant(self);
        }
        if self.numerator <= 0 {
            return 0;
        }
        assert(dimension * self.numerator <= 0xffff_ffff * 0x7fff_ffff_ffff_ffff) by (nonlinear_arith)
            requires
                0 <= dimension <= 0xffff_ffff,
                0 < self.numerator <= 0x7fff_ffff_ffff_ffff,
        ;
        let product: u128 = (dimension as u128) * (self.numerator as u128);
        let divisor: u128 = 100 * (self.denominator as u128);
        let quotient: u128 = product / divisor;
        if quotient >= dimension as u128 {
            dimension
        } else {
            quotient as u32
        }
    }
}

/// A ratio strictly between 0 and 100 keeps exactly
/// `floor(dimension * ratio / 100)` coordinates of an axis, and so fewer
/// than the axis has.
pub proof fn lemma_sample_count_is_floor(ratio: SampleRatio, dimension: nat)
    requires
        ratio.wf(),
        !ratio.spec_disables_sampling(),
    ensures
        ratio.spec_sample_count(dimension) == (dimension * ratio.spec_numerator()) / (100
            * ratio.spec_denominator() as int),
        dimension > 0 ==> ratio.spec_sample_count(dimension) < dimension,
{
    let numerator = ratio.spec_numerator();
    let d = 100 * ratio.spec_denominator() as int;
    if dimension > 0 {
        assert(dimension * numerator < dimension * d) by (nonlinear_arith)
            requires
                dimension > 0,
                0 < numerator < d,
        ;
        vstd::arithmetic::div_mod::lemma_div_by_multiple_is_strongly_ordered(
            dimension * numerator,
            dimension * d,
            dimension as int,
            d,
        );
        vstd::arithmetic::div_mod::lemma_div_by_multiple(dimension as int, d);
        assert(0 <= dimension * numerator) by (nonlinear_arith)
            requires
                0 < numerator,
        ;
        vstd::arithmetic::div_mod::lemma_div_pos_is_pos(dimension * numerator, d);
    } else {
        assert(dimension * numerator == 0) by (nonlinear_arith)
            requires
                dimension == 0,
        ;
    }
}

} // verus!
