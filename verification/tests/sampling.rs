use evostrat::noise::SCALE;
use evostrat::rng::RNG;

fn unit(rng: &mut RNG) -> f64 {
    rng.sample() as f64 / SCALE as f64
}

fn normal(rng: &mut RNG) -> f64 {
    let u1: f64 = unit(rng);
    let u2: f64 = unit(rng);
    (-2.0 * u1.ln()).sqrt() * (std::f64::consts::TAU * u2).cos()
}

fn pick(rng: &mut RNG, probs: &[f64]) -> usize {
    let mut noise: f64 = unit(rng);
    for i in 0..probs.len() {
        if noise < probs[i] {
            return i;
        }
        noise -= probs[i];
    }
    panic!("no outcome for the residual {}", noise);
}

#[test]
fn stream_feeds_box_muller_to_zero_mean_and_unit_deviation() {
    let mut rng = RNG::new(123);
    let draws: usize = 100_000;
    let mut values: Vec<f64> = Vec::new();
    for _ in 0..draws {
        values.push(normal(&mut rng));
    }
    let mean: f64 = values.iter().sum::<f64>() / draws as f64;
    let variance: f64 = values.iter().map(|x| (x - mean) * (x - mean)).sum::<f64>() / draws as f64;
    assert!(mean.abs() < 0.02);
    assert!((variance.sqrt() - 1.0).abs() < 0.02);
    assert_eq!(rng.position(), 200_001);
}

#[test]
fn stream_feeds_a_weighted_choice_to_its_weights() {
    let mut rng = RNG::new(123);
    let probs: [f64; 3] = [0.2, 0.3, 0.5];
    let draws: usize = 50_000;
    let mut counts: [usize; 3] = [0, 0, 0];
    for _ in 0..draws {
        counts[pick(&mut rng, &probs)] += 1;
    }
    for i in 0..3usize {
        let frequency: f64 = counts[i] as f64 / draws as f64;
        assert!((frequency - probs[i]).abs() < 0.02);
    }
    assert_eq!(rng.position(), 50_001);
}

#[test]
fn stream_drives_an_evolution_strategy_to_the_optimum() {
    let score = |w: f64| (w - 0.5) * (w - 0.5);
    let mut rng = RNG::new(123);
    let population: usize = 50;
    let sigma: f64 = 0.1;
    let alpha: f64 = 0.05;
    let (mut m, mut u, mut t): (f64, f64, f64) = (0.0, 0.0, 0.0);
    let mut w: f64 = normal(&mut rng);
    for _ in 0..300 {
        let mut sum: f64 = 0.0;
        for _ in 0..population {
            let eps: f64 = normal(&mut rng);
            sum += score(w + sigma * eps) * eps;
        }
        let gradient: f64 = sum / (population as f64 * sigma);
        t += 1.0;
        m = 0.9 * m + (1.0 - 0.9) * gradient;
        u = f64::max(0.999 * u, gradient.abs());
        w -= alpha * m / ((1.0 - 0.9f64.powf(t)) * (u + 1e-6));
    }
    assert!(score(w) < 0.01);
    assert!((w - 0.5).abs() < 0.1);
    assert_eq!(rng.position(), 30_003);
}
