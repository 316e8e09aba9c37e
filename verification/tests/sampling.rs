use ray_ten::render::renderer::Renderer;
use ray_ten::sampling::{spread_samples, stratified_samples, Sample, GRID};
use ray_ten::scalar::{Arithmetic, Real};

struct Ieee;

impl Arithmetic for Ieee {
    fn add(&self, a: Real, b: Real) -> Real {
        number(single(a) + single(b))
    }

    fn sub(&self, a: Real, b: Real) -> Real {
        number(single(a) - single(b))
    }

    fn mul(&self, a: Real, b: Real) -> Real {
        number(single(a) * single(b))
    }

    fn div(&self, a: Real, b: Real) -> Real {
        number(single(a) / single(b))
    }

    fn sqrt(&self, a: Real) -> Real {
        number(single(a).sqrt())
    }

    fn powf(&self, a: Real, b: Real) -> Real {
        number(single(a).powf(single(b)))
    }
}

fn number(x: f32) -> Real {
    Real::from_bits(x.to_bits())
}

fn single(x: Real) -> f32 {
    f32::from_bits(x.to_bits())
}

fn shares(samples: &[Sample]) -> Vec<(f64, f64)> {
    samples
        .iter()
        .map(|sample| (sample.x as f64 / GRID as f64, sample.y as f64 / GRID as f64))
        .collect()
}

#[test]
fn the_grid_has_two_to_the_thirty_third_steps() {
    assert_eq!(GRID, 1u64 << 33);
}

#[test]
fn one_sample_lies_in_the_middle() {
    assert_eq!(shares(&stratified_samples(1)), vec![(0.5, 0.5)]);
}

#[test]
fn two_samples_share_the_upper_and_the_lower_half() {
    assert_eq!(shares(&stratified_samples(2)), vec![(0.5, 0.75), (0.5, 0.25)]);
}

#[test]
fn three_samples() {
    assert_eq!(
        shares(&stratified_samples(3)),
        vec![(0.5, 0.75), (0.25, 0.25), (0.75, 0.25)]
    );
}

#[test]
fn four_samples_take_the_four_quarters() {
    assert_eq!(
        shares(&stratified_samples(4)),
        vec![(0.25, 0.75), (0.75, 0.75), (0.25, 0.25), (0.75, 0.25)]
    );
}

#[test]
fn five_samples() {
    assert_eq!(
        shares(&stratified_samples(5)),
        vec![(0.25, 0.75), (0.75, 0.75), (0.25, 0.25), (0.75, 0.375), (0.75, 0.125)]
    );
}

#[test]
fn samples_are_spread_and_never_gather() {
    for count in 1..200usize {
        let samples = stratified_samples(count);
        assert_eq!(samples.len(), count);
        for (j, sample) in samples.iter().enumerate() {
            assert!(0 < sample.x && sample.x < GRID);
            assert!(0 < sample.y && sample.y < GRID);
            for other in &samples[..j] {
                assert_ne!(sample, other);
            }
        }
    }
}

#[test]
fn a_power_of_four_makes_a_regular_grid() {
    let samples = stratified_samples(64);
    let mut seen = [[false; 8]; 8];
    for sample in samples {
        let x = sample.x as f64 / GRID as f64 * 8.0;
        let y = sample.y as f64 / GRID as f64 * 8.0;
        assert_eq!(x.fract(), 0.5);
        assert_eq!(y.fract(), 0.5);
        assert!(!seen[x as usize][y as usize]);
        seen[x as usize][y as usize] = true;
    }
    assert!(seen.iter().all(|column| column.iter().all(|&cell| cell)));
}

#[test]
fn samples_can_be_dealt_to_any_rectangle() {
    let mut samples = vec![Sample { x: 1, y: 2 }];
    spread_samples((0, 1024), (2048, 0), 2, &mut samples);
    assert_eq!(
        samples,
        vec![Sample { x: 1, y: 2 }, Sample { x: 512, y: 512 }, Sample { x: 1536, y: 512 }]
    );
}

#[test]
fn very_many_samples_still_fall_on_grid_points() {
    let count = 1usize << 16;
    let samples = stratified_samples(count);
    assert_eq!(samples.len(), count);
    let step = GRID >> 8;
    for sample in samples.iter() {
        assert_eq!(sample.x % step, step / 2);
        assert_eq!(sample.y % step, step / 2);
    }
    let mut sorted: Vec<(u64, u64)> = samples.iter().map(|s| (s.x, s.y)).collect();
    sorted.sort();
    sorted.dedup();
    assert_eq!(sorted.len(), count);
}

#[test]
fn the_renderer_takes_its_samples_as_shares_of_the_pixel() {
    let unit = Ieee;
    let renderer = Renderer::new(&unit, (16, 16), 5, 3);
    assert_eq!(renderer.samples_count(), 5);
    assert_eq!(renderer.depth(), 3);
    assert_eq!(renderer.dimensions(), (16, 16));
    let expected = [(0.25, 0.75), (0.75, 0.75), (0.25, 0.25), (0.75, 0.375), (0.75, 0.125)];
    for (j, &(x, y)) in expected.iter().enumerate() {
        let sample = renderer.sample(j);
        assert_eq!(sample.x as f64 / GRID as f64, x);
        assert_eq!(sample.y as f64 / GRID as f64, y);
    }
}
