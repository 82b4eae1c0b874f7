//! The brightness of a grid: over every pixel, or over a random sample of
//! its columns and rows.

use rand::StdRng;
use vstd::prelude::*;

use crate::error::BrightnessError;
use crate::grid::PixelGrid;
use crate::luminance::{
    calc_gray, lemma_uniform_sum, luminance_hundredths, reduces_to, round_half_up, MeanLuminance,
};
use crate::ratio::{lemma_sample_count_is_floor, SampleRatio};
use crate::sampler::is_coordinate_set;
use crate::traversal::{
    lemma_exhaustive_stream, lemma_rank_splits, pixels_along, visit_order, SamplePixels,
};

verus! {

/// The grid has no column or no row.
pub open spec fn lacks_pixels(grid: PixelGrid) -> bool {
    grid.spec_width() == 0 || grid.spec_height() == 0
}

/// `points` is a possible draw along an axis of length `dimension`: distinct
/// coordinates of the axis, as many as the ratio keeps.
pub open spec fn is_draw(points: Seq<u32>, dimension: nat, ratio: SampleRatio) -> bool {
    &&& is_coordinate_set(points, dimension)
    &&& points.len() == ratio.spec_sample_count(dimension)
}

/// Under `ratio`, sampling leaves no column or no row of `grid`.
pub open spec fn samples_nothing(grid: PixelGrid, ratio: SampleRatio) -> bool {
    &&& !ratio.spec_disables_sampling()
    &&& (ratio.spec_sample_count(grid.spec_width()) == 0 || ratio.spec_sample_count(
        grid.spec_height(),
    ) == 0)
}

/// What the evaluation of every pixel of `grid` yields.
pub open spec fn exhaustive_outcome(
    outcome: Result<MeanLuminance, BrightnessError>,
    grid: PixelGrid,
) -> bool {
    if lacks_pixels(grid) {
        outcome == Err::<MeanLuminance, BrightnessError>(BrightnessError::InvalidDimension)
    } else {
        reduces_to(outcome, grid@)
    }
}

/// What the evaluation of `grid` at the columns `xs` and the rows `ys` yields.
pub open spec fn sampled_outcome(
    outcome: Result<MeanLuminance, BrightnessError>,
    grid: PixelGrid,
    xs: Seq<u32>,
    ys: Seq<u32>,
) -> bool {
    if lacks_pixels(grid) {
        outcome == Err::<MeanLuminance, BrightnessError>(BrightnessError::InvalidDimension)
    } else {
        reduces_to(outcome, pixels_along(grid, visit_order(xs, ys)))
    }
}

/// What an evaluation of `grid` under `ratio` may yield: on a grid without
/// pixels, `InvalidDimension`; with sampling switched off, the mean over
/// every pixel; else the mean over the product of some draw of columns and
/// some draw of rows.
pub open spec fn policy_outcome(
    outcome: Result<MeanLuminance, BrightnessError>,
    grid: PixelGrid,
    ratio: SampleRatio,
) -> bool {
    if lacks_pixels(grid) || ratio.spec_disables_sampling() {
        exhaustive_outcome(outcome, grid)
    } else {
        exists|xs: Seq<u32>, ys: Seq<u32>|
            {
                &&& is_draw(xs, grid.spec_width(), ratio)
                &&& is_draw(ys, grid.spec_height(), ratio)
                &&& #[trigger] sampled_outcome(outcome, grid, xs, ys)
            }
    }
}

/// The score that stands for a mean: the mean rounded to the nearest whole
/// gray value, a failure handed on as it is.
pub open spec fn rounded_outcome(mean: Result<MeanLuminance, BrightnessError>) -> Result<
    u32,
    BrightnessError,
> {
    match mean {
        Ok(m) => Ok(m.spec_rounded() as u32),
        Err(e) => Err(e),
    }
}

/// The mean gray value over every pixel of `grid`. A grid without columns
/// or without rows is refused as `InvalidDimension`.
pub fn compute_mean_luminance(grid: &PixelGrid) -> (outcome: Result<
    MeanLuminance,
    BrightnessError,
>)
    ensures
        exhaustive_outcome(outcome, *grid),
        outcome is Ok <==> !lacks_pixels(*grid),
{
    proof {
        use_type_invariant(grid);
    }
    if grid.width() == 0 || grid.height() == 0 {
        return Err(BrightnessError::InvalidDimension);
    }
    let pass = SamplePixels::exhaustive(grid);
    proof {
        lemma_exhaustive_stream(*grid);
        assert(pass.remaining() =~= grid@);
        assert(grid@.len() > 0) by (nonlinear_arith)
            requires
                grid@.len() == grid.spec_width() * grid.spec_height(),
                grid.spec_width() > 0,
                grid.spec_height() > 0,
        ;
    }
    calc_gray(pass)
}

/// The mean gray value of `grid` under `ratio`. A ratio at or below 0 or at
/// or above 100 asks for every pixel. Any other ratio asks for the pixels at
/// the product of `floor(width * ratio / 100)` columns and
/// `floor(height * ratio / 100)` rows, which `rng` draws; where that leaves
/// no column or no row, the result is `EmptySample`.
pub fn compute_sampled_mean_luminance(
    grid: &PixelGrid,
    ratio: SampleRatio,
    rng: &mut StdRng,
) -> (outcome: Result<MeanLuminance, BrightnessError>)
    ensures
        policy_outcome(outcome, *grid, ratio),
        outcome is Ok <==> !lacks_pixels(*grid) && !samples_nothing(*grid, ratio),
        outcome == Err::<MeanLuminance, BrightnessError>(BrightnessError::InvalidDimension)
            <==> lacks_pixels(*grid),
        outcome == Err::<MeanLuminance, BrightnessError>(BrightnessError::EmptySample)
            <==> !lacks_pixels(*grid) && samples_nothing(*grid, ratio),
{
    if ratio.disables_sampling() {
        return compute_mean_luminance(grid);
    }
    if grid.width() == 0 || grid.height() == 0 {
        return Err(BrightnessError::InvalidDimension);
    }
    let pass = SamplePixels::from_image(grid, ratio, rng);
    let outcome = calc_gray(pass);
    proof {
        assert(pass.remaining() =~= pixels_along(*grid, visit_order(pass.xs(), pass.ys())));
        assert(sampled_outcome(outcome, *grid, pass.xs(), pass.ys()));
        lemma_product_positive(pass.xs().len(), pass.ys().len());
    }
    outcome
}

/// The brightness score of `grid` under `ratio`: the mean gray value that
/// `compute_sampled_mean_luminance` finds, rounded to the nearest whole
/// number, a tie going away from zero.
pub fn evaluate_rounded(grid: &PixelGrid, ratio: SampleRatio, rng: &mut StdRng) -> (score: Result<
    u32,
    BrightnessError,
>)
    ensures
        exists|mean: Result<MeanLuminance, BrightnessError>| #[trigger]
            policy_outcome(mean, *grid, ratio) && score == rounded_outcome(mean),
        score is Ok <==> !lacks_pixels(*grid) && !samples_nothing(*grid, ratio),
        score == Err::<u32, BrightnessError>(BrightnessError::InvalidDimension) <==> lacks_pixels(
            *grid,
        ),
        score == Err::<u32, BrightnessError>(BrightnessError::EmptySample) <==> !lacks_pixels(
            *grid,
        ) && samples_nothing(*grid, ratio),
        score matches Ok(s) ==> s <= 255,
{
    let mean = compute_sampled_mean_luminance(grid, ratio, rng);
    match mean {
        Ok(m) => Ok(m.rounded()),
        Err(e) => Err(e),
    }
}

/// A product of two counts is positive exactly when both are.
proof fn lemma_product_positive(a: nat, b: nat)
    ensures
        a * b > 0 <==> a > 0 && b > 0,
{
    assert(a * b > 0 <==> a > 0 && b > 0) by (nonlinear_arith);
}

/// With sampling switched off, an evaluation under a ratio yields exactly
/// what the evaluation of every pixel yields, whatever the grid.
pub proof fn lemma_disabled_sampling_is_exhaustive(
    grid: PixelGrid,
    ratio: SampleRatio,
    sampled: Result<MeanLuminance, BrightnessError>,
    exhaustive: Result<MeanLuminance, BrightnessError>,
)
    requires
        ratio.spec_disables_sampling(),
        policy_outcome(sampled, grid, ratio),
        exhaustive_outcome(exhaustive, grid),
    ensures
        sampled == exhaustive,
        rounded_outcome(sampled) == rounded_outcome(exhaustive),
{
    if sampled is Ok && exhaustive is Ok {
        sampled->Ok_0.lemma_determined(exhaustive->Ok_0);
    }
}

/// Under a ratio strictly between 0 and 100, an evaluation that succeeds
/// has visited exactly `floor(width * ratio / 100) * floor(height * ratio /
/// 100)` pixels, and it fails, with `EmptySample`, exactly when that number
/// is zero.
pub proof fn lemma_sampled_visit_count(
    grid: PixelGrid,
    ratio: SampleRatio,
    outcome: Result<MeanLuminance, BrightnessError>,
)
    requires
        ratio.wf(),
        !lacks_pixels(grid),
        !ratio.spec_disables_sampling(),
        policy_outcome(outcome, grid, ratio),
    ensures
        outcome matches Ok(mean) ==> mean.spec_samples() == ((grid.spec_width()
            * ratio.spec_numerator()) / (100 * ratio.spec_denominator() as int)) * ((
        grid.spec_height() * ratio.spec_numerator()) / (100 * ratio.spec_denominator() as int)),
        outcome is Err <==> (grid.spec_width() * ratio.spec_numerator()) / (100
            * ratio.spec_denominator() as int) == 0 || (grid.spec_height()
            * ratio.spec_numerator()) / (100 * ratio.spec_denominator() as int) == 0,
        outcome is Err ==> outcome->Err_0 == BrightnessError::EmptySample,
{
    let (xs, ys) = choose|xs: Seq<u32>, ys: Seq<u32>|
        {
            &&& is_draw(xs, grid.spec_width(), ratio)
            &&& is_draw(ys, grid.spec_height(), ratio)
            &&& #[trigger] sampled_outcome(outcome, grid, xs, ys)
        };
    lemma_product_positive(xs.len(), ys.len());
    lemma_sample_count_is_floor(ratio, grid.spec_width());
    lemma_sample_count_is_floor(ratio, grid.spec_height());
}

/// On a grid whose pixels all hold the same first three channels, the mean
/// over every pixel is `0.30 * c1 + 0.59 * c2 + 0.11 * c3` exactly, whatever
/// the size of the grid.
pub proof fn lemma_uniform_grid_mean(
    grid: PixelGrid,
    c1: u8,
    c2: u8,
    c3: u8,
    outcome: Result<MeanLuminance, BrightnessError>,
)
    requires
        grid.wf(),
        !lacks_pixels(grid),
        forall|x: int, y: int|
            0 <= x < grid.spec_width() && 0 <= y < grid.spec_height() ==> {
                let pixel = #[trigger] grid.pixel_at(x, y);
                pixel.r == c1 && pixel.g == c2 && pixel.b == c3
            },
        exhaustive_outcome(outcome, grid),
    ensures
        outcome matches Ok(mean) && mean.spec_sum() == (30 * c1 + 59 * c2 + 11 * c3)
            * mean.spec_samples() && mean.spec_rounded() == round_half_up(
            (30 * c1 + 59 * c2 + 11 * c3) as nat,
            100,
        ),
{
    let w = grid.spec_width() as int;
    let h = grid.spec_height() as int;
    let level = (30 * c1 + 59 * c2 + 11 * c3) as nat;
    lemma_product_positive(w as nat, h as nat);
    assert forall|k: int| 0 <= k < grid@.len() implies luminance_hundredths(
        #[trigger] grid@[k],
    ) == level by {
        lemma_rank_splits(k, w, h);
        assert(grid@[k] == grid.pixel_at(k % w, k / w));
    }
    lemma_uniform_sum(grid@, level);
    let mean = outcome->Ok_0;
    let n = mean.spec_samples();
    assert(mean.spec_sum() == level * n) by (nonlinear_arith)
        requires
            mean.spec_sum() == n * level,
    ;
    let doubled = (2 * level + 100) as int;
    assert((2 * (level * n) + 100 * n) / (2 * (100 * n)) == doubled / 200) by {
        assert(2 * (level * n) + 100 * n == n * doubled) by (nonlinear_arith)
            requires
                doubled == 2 * level + 100,
        ;
        assert(2 * (100 * n) == n * 200) by (nonlinear_arith);
        vstd::arithmetic::div_mod::lemma_div_multiples_vanish_quotient(n as int, doubled, 200);
    }
}

} // verus!
