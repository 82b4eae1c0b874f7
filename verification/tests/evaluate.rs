use brightness::error::BrightnessError;
use brightness::evaluate::{compute_mean_luminance, compute_sampled_mean_luminance, evaluate_rounded};
use brightness::grid::{Pixel, PixelGrid};
use brightness::luminance::MeanLuminance;
use brightness::ratio::SampleRatio;
use rand::{SeedableRng, StdRng};

fn generator(seed: usize) -> StdRng {
    let words = [seed, 3, 5, 8];
    StdRng::from_seed(&words[..])
}

fn pixel(r: u8, g: u8, b: u8) -> Pixel {
    Pixel { r, g, b, a: 255 }
}

fn four_colours() -> PixelGrid {
    PixelGrid::new(
        2,
        2,
        vec![pixel(0, 0, 0), pixel(100, 0, 0), pixel(0, 100, 0), pixel(0, 0, 100)],
    )
    .unwrap()
}

fn uniform(width: u32, height: u32, colour: Pixel) -> PixelGrid {
    PixelGrid::new(width, height, vec![colour; (width * height) as usize]).unwrap()
}

fn gradient(width: u32, height: u32) -> PixelGrid {
    let mut pixels = Vec::new();
    for y in 0..height {
        for x in 0..width {
            pixels.push(pixel((x * 7 % 256) as u8, (y * 13 % 256) as u8, ((x + y) % 256) as u8));
        }
    }
    PixelGrid::new(width, height, pixels).unwrap()
}

fn as_real(mean: &MeanLuminance) -> f64 {
    mean.sum_hundredths() as f64 / 100.0 / mean.samples() as f64
}

#[test]
fn four_colours_have_the_mean_twenty_five() {
    let grid = four_colours();
    let mean = compute_mean_luminance(&grid).unwrap();
    assert_eq!(mean.sum_hundredths(), 10000);
    assert_eq!(mean.samples(), 4);
    assert!((as_real(&mean) - 25.0).abs() < 1e-9);
    assert_eq!(mean.rounded(), 25);
    assert_eq!(evaluate_rounded(&grid, SampleRatio::percent(100), &mut generator(1)), Ok(25));
}

#[test]
fn uniform_grid_has_the_gray_of_its_colour() {
    let colour = pixel(10, 20, 30);
    for &(width, height) in [(1u32, 1u32), (3, 5), (16, 16), (1, 40)].iter() {
        let grid = uniform(width, height, colour);
        let mean = compute_mean_luminance(&grid).unwrap();
        assert_eq!(mean.samples(), (width * height) as u64);
        assert_eq!(mean.sum_hundredths(), 1810 * (width * height) as u128);
        assert!((as_real(&mean) - (0.30 * 10.0 + 0.59 * 20.0 + 0.11 * 30.0)).abs() < 1e-9);
        assert_eq!(mean.rounded(), 18);
    }
}

#[test]
fn uniform_grid_has_the_same_mean_under_sampling() {
    let grid = uniform(20, 30, pixel(200, 100, 50));
    let mean = compute_sampled_mean_luminance(&grid, SampleRatio::percent(35), &mut generator(2))
        .unwrap();
    assert_eq!(mean.samples(), 7 * 10);
    assert_eq!(mean.sum_hundredths(), (6000 + 5900 + 550) * 70);
    assert_eq!(mean.rounded(), 125);
}

#[test]
fn grid_without_pixels_is_an_invalid_dimension() {
    let no_columns = PixelGrid::new(0, 3, Vec::new()).unwrap();
    let no_rows = PixelGrid::new(3, 0, Vec::new()).unwrap();
    let nothing = PixelGrid::new(0, 0, Vec::new()).unwrap();
    for grid in [&no_columns, &no_rows, &nothing].iter() {
        assert_eq!(compute_mean_luminance(grid), Err(BrightnessError::InvalidDimension));
        for &percent in [0u32, 50, 100].iter() {
            let ratio = SampleRatio::percent(percent);
            assert_eq!(
                compute_sampled_mean_luminance(grid, ratio, &mut generator(3)),
                Err(BrightnessError::InvalidDimension)
            );
            assert_eq!(
                evaluate_rounded(grid, ratio, &mut generator(3)),
                Err(BrightnessError::InvalidDimension)
            );
        }
    }
}

#[test]
fn ratio_that_keeps_nothing_is_an_empty_sample() {
    let grid = uniform(10, 10, pixel(1, 2, 3));
    for &percent in [1u32, 5, 9].iter() {
        let ratio = SampleRatio::percent(percent);
        assert_eq!(
            compute_sampled_mean_luminance(&grid, ratio, &mut generator(4)),
            Err(BrightnessError::EmptySample)
        );
        assert_eq!(
            evaluate_rounded(&grid, ratio, &mut generator(4)),
            Err(BrightnessError::EmptySample)
        );
    }
    let tiny = SampleRatio::new(1, 1000000).unwrap();
    assert_eq!(
        compute_sampled_mean_luminance(&grid, tiny, &mut generator(4)),
        Err(BrightnessError::EmptySample)
    );
}

#[test]
fn one_empty_axis_is_an_empty_sample() {
    let wide = uniform(100, 5, pixel(1, 2, 3));
    let ratio = SampleRatio::percent(10);
    assert_eq!(
        compute_sampled_mean_luminance(&wide, ratio, &mut generator(5)),
        Err(BrightnessError::EmptySample)
    );
    let tall = uniform(5, 100, pixel(1, 2, 3));
    assert_eq!(
        evaluate_rounded(&tall, ratio, &mut generator(5)),
        Err(BrightnessError::EmptySample)
    );
}

#[test]
fn disabled_sampling_equals_the_exhaustive_mean() {
    let grid = gradient(13, 7);
    let exhaustive = compute_mean_luminance(&grid);
    let ratios = [
        SampleRatio::percent(0),
        SampleRatio::percent(100),
        SampleRatio::percent(101),
        SampleRatio::new(-1, 1).unwrap(),
        SampleRatio::new(i64::MIN, 1).unwrap(),
        SampleRatio::new(i64::MAX, 1).unwrap(),
        SampleRatio::new(1000, 10).unwrap(),
    ];
    for &ratio in ratios.iter() {
        assert_eq!(compute_sampled_mean_luminance(&grid, ratio, &mut generator(6)), exhaustive);
        assert_eq!(
            evaluate_rounded(&grid, ratio, &mut generator(6)),
            Ok(exhaustive.unwrap().rounded())
        );
    }
}

#[test]
fn sampling_visits_the_product_of_the_floors() {
    let grid = gradient(40, 25);
    let cases = [(50u32, 20u64 * 12), (10, 4 * 2), (99, 39 * 24), (4, 1 * 1), (33, 13 * 8)];
    for &(percent, expected) in cases.iter() {
        let mean =
            compute_sampled_mean_luminance(&grid, SampleRatio::percent(percent), &mut generator(7))
                .unwrap();
        assert_eq!(mean.samples(), expected);
        assert!(mean.sum_hundredths() <= 25500 * expected as u128);
    }
}

#[test]
fn sampling_repeats_under_the_same_seed() {
    let grid = gradient(64, 48);
    let ratio = SampleRatio::percent(25);
    let first = compute_sampled_mean_luminance(&grid, ratio, &mut generator(8));
    let second = compute_sampled_mean_luminance(&grid, ratio, &mut generator(8));
    assert_eq!(first, second);
    assert_eq!(first.unwrap().samples(), 16 * 12);
}

#[test]
fn rounded_score_follows_the_mean() {
    let grid = gradient(30, 30);
    let ratio = SampleRatio::percent(60);
    let mean = compute_sampled_mean_luminance(&grid, ratio, &mut generator(9)).unwrap();
    let score = evaluate_rounded(&grid, ratio, &mut generator(9)).unwrap();
    assert_eq!(score, mean.rounded());
    assert_eq!(score as f64, as_real(&mean).round());
    assert!(score <= 255);
}

#[test]
fn exhaustive_mean_of_a_gradient() {
    let grid = PixelGrid::new(3, 1, vec![pixel(0, 0, 0), pixel(50, 50, 50), pixel(100, 100, 100)])
        .unwrap();
    let mean = compute_mean_luminance(&grid).unwrap();
    assert_eq!(mean.sum_hundredths(), 15000);
    assert_eq!(mean.samples(), 3);
    assert_eq!(mean.rounded(), 50);
    assert_eq!(evaluate_rounded(&grid, SampleRatio::percent(0), &mut generator(10)), Ok(50));
}
