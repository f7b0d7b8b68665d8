use pitch_detector::binary32::ONE;
use pitch_detector::estimate::{locate, settle_period, PitchResult};
use pitch_detector::table::ResultTable;
use pitch_detector::window::{half_window, partner};

/// The normalised difference curve of a buffer, in hardware arithmetic.
fn normalised_difference(samples: &[f32]) -> Vec<u32> {
    let half = half_window(samples.len());
    let mut curve = vec![0.0f32; half];
    for tau in 0..half {
        let mut sum = 0.0f32;
        for i in 0..half {
            let d = samples[i] - samples[partner(samples.len(), i, tau)];
            sum += d * d;
        }
        curve[tau] = sum;
    }
    curve[0] = 1.0;
    let mut running = 0.0f32;
    for tau in 1..half {
        running += curve[tau];
        curve[tau] = curve[tau] * (tau as f32) / running;
    }
    curve.iter().map(|x| x.to_bits()).collect()
}

fn estimate(samples: &[f32], rate: f32, threshold: f32) -> PitchResult {
    let curve = normalised_difference(samples);
    match locate(&curve, threshold.to_bits()) {
        None => PitchResult::undetected(),
        Some(c) => {
            let plain = c.lag as f32;
            let s1 = f32::from_bits(c.level);
            let parabola = c.neighbours.map(|(left, right)| {
                let s0 = f32::from_bits(left);
                let s2 = f32::from_bits(right);
                let shift = (s0 - s2) / (2.0 * (s0 - 2.0 * s1 + s2));
                (shift.to_bits(), (plain + shift).to_bits())
            });
            let period = f32::from_bits(settle_period(plain.to_bits(), parabola));
            PitchResult::found((rate / period).to_bits(), (1.0 - s1).to_bits())
        }
    }
}

fn sine(frequency: f32, rate: f32, len: usize) -> Vec<f32> {
    (0..len)
        .map(|n| (2.0 * std::f64::consts::PI * frequency as f64 * n as f64 / rate as f64).sin() as f32)
        .collect()
}

fn noise(len: usize) -> Vec<f32> {
    let mut state: u32 = 0x1234_5678;
    (0..len)
        .map(|_| {
            state = state.wrapping_mul(1_664_525).wrapping_add(1_013_904_223);
            ((state >> 8) as f32 / 8_388_608.0) - 1.0
        })
        .collect()
}

#[test]
fn a_sine_wave_is_detected_within_one_percent() {
    for &(frequency, rate) in [(440.0f32, 44100.0f32), (220.0, 44100.0), (1000.0, 48000.0), (82.41, 22050.0)].iter() {
        let samples = sine(frequency, rate, 2048);
        let r = estimate(&samples, rate, 0.1);
        assert_eq!(r.detected, 1, "{} Hz", frequency);
        let found = f32::from_bits(r.frequency);
        assert!(
            (found - frequency).abs() <= 0.01 * frequency,
            "{} Hz was reported as {} Hz",
            frequency,
            found
        );
        let clarity = f32::from_bits(r.clarity);
        assert!(clarity > 0.9 && clarity <= 1.0, "clarity {}", clarity);
    }
}

#[test]
fn the_lag_of_a_sine_wave_is_its_period_in_samples() {
    // 441 Hz at 44100 Hz: one period is exactly 100 samples
    let samples = sine(441.0, 44100.0, 1024);
    let curve = normalised_difference(&samples);
    let c = locate(&curve, 0.1f32.to_bits()).unwrap();
    assert_eq!(c.lag, 100);
    assert!(c.neighbours.is_some());
}

#[test]
fn the_curve_starts_at_one() {
    let curve = normalised_difference(&sine(441.0, 44100.0, 64));
    assert_eq!(curve.len(), 32);
    assert_eq!(curve[0], ONE);
}

#[test]
fn silence_is_not_detected() {
    let samples = vec![0.0f32; 1024];
    let curve = normalised_difference(&samples);
    // zero divided by zero: no level from lag 1 on is a number
    assert!(curve[1..].iter().all(|x| f32::from_bits(*x).is_nan()));
    for threshold in [0.1f32, 0.15, 1.0, f32::INFINITY] {
        assert_eq!(estimate(&samples, 44100.0, threshold), PitchResult::undetected());
    }
}

#[test]
fn a_constant_signal_is_not_detected() {
    let samples = vec![0.25f32; 512];
    assert_eq!(estimate(&samples, 44100.0, 0.1), PitchResult::undetected());
}

#[test]
fn white_noise_has_no_clear_lag() {
    let samples = noise(1024);
    let curve = normalised_difference(&samples);
    // no lag comes near zero dissimilarity, so clarity is low at every lag
    for tau in 2..curve.len() {
        let clarity = 1.0 - f32::from_bits(curve[tau]);
        assert!(clarity < 0.5, "lag {} has clarity {}", tau, clarity);
    }
    assert_eq!(estimate(&samples, 44100.0, 0.1).detected, 0);
    let loose = estimate(&samples, 44100.0, 1.0);
    if loose.detected == 1 {
        assert!(f32::from_bits(loose.clarity) < 0.5);
    }
}

#[test]
fn the_same_buffer_gives_the_same_record() {
    let samples = sine(330.0, 44100.0, 2048);
    let first = estimate(&samples, 44100.0, 0.1);
    let second = estimate(&samples, 44100.0, 0.1);
    assert_eq!(first, second);
    assert_eq!(first.detected, 1);
    let copy = samples.clone();
    assert_eq!(estimate(&copy, 44100.0, 0.1), first);
}

#[test]
fn a_buffer_of_four_samples_is_not_detected() {
    let samples = [0.5f32, -0.5, 0.5, -0.5];
    assert_eq!(half_window(samples.len()), 2);
    assert_eq!(estimate(&samples, 44100.0, 0.1), PitchResult::undetected());
    assert_eq!(estimate(&samples, 44100.0, 1.0e9), PitchResult::undetected());
    let five = [0.5f32, -0.5, 0.5, -0.5, 0.5];
    assert_eq!(estimate(&five, 44100.0, 1.0e9), PitchResult::undetected());
}

#[test]
fn raising_the_threshold_never_loses_a_detection() {
    // a sine wave under noise: periodic, but not clearly so
    let tone = sine(440.0, 44100.0, 2048);
    let hiss = noise(2048);
    let samples: Vec<f32> = tone.iter().zip(hiss.iter()).map(|(t, h)| t + 0.5 * h).collect();
    let thresholds = [0.01f32, 0.05, 0.1, 0.2, 0.3, 0.5, 0.7, 0.9, 1.0];
    let records: Vec<PitchResult> = thresholds
        .iter()
        .map(|t| estimate(&samples, 44100.0, *t))
        .collect();
    assert_eq!(records.first().unwrap().detected, 0);
    assert_eq!(records.last().unwrap().detected, 1);
    for pair in records.windows(2) {
        assert!(pair[0].detected <= pair[1].detected);
    }
}

#[test]
fn a_flat_valley_falls_back_to_the_plain_lag() {
    // three equal levels: the parabola has no vertex and the offset is NaN
    let curve: Vec<u32> = [1.0f32, 0.05, 0.05, 0.05, 0.9]
        .iter()
        .map(|x| x.to_bits())
        .collect();
    let c = locate(&curve, 0.1f32.to_bits()).unwrap();
    assert_eq!(c.lag, 2);
    let (left, right) = c.neighbours.unwrap();
    let (s0, s1, s2) = (f32::from_bits(left), f32::from_bits(c.level), f32::from_bits(right));
    let shift = (s0 - s2) / (2.0 * (s0 - 2.0 * s1 + s2));
    assert!(shift.is_nan());
    let plain = 2.0f32.to_bits();
    assert_eq!(settle_period(plain, Some((shift.to_bits(), (2.0 + shift).to_bits()))), plain);
}

#[test]
fn every_record_handed_out_is_given_back() {
    let mut table = ResultTable::new();
    let samples = sine(440.0, 44100.0, 1024);
    for _ in 0..10 {
        let before = table.live_count();
        let handle = table.store(estimate(&samples, 44100.0, 0.1));
        assert_eq!(table.live_count(), before + 1);
        assert_eq!(table.get_detected(handle), 1);
        table.free_result(handle);
        assert_eq!(table.live_count(), before);
    }
    assert_eq!(table.live_count(), 0);
}
