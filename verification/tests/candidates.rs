use pitch_detector::binary32::{ONE, ZERO};
use pitch_detector::estimate::{locate, settle_period, Candidate, PitchResult};
use pitch_detector::window::{half_window, partner};

fn curve(levels: &[f32]) -> Vec<u32> {
    levels.iter().map(|x| x.to_bits()).collect()
}

#[test]
fn the_window_is_half_the_buffer_rounded_down() {
    assert_eq!(half_window(0), 0);
    assert_eq!(half_window(1), 0);
    assert_eq!(half_window(4), 2);
    assert_eq!(half_window(5), 2);
    assert_eq!(half_window(2048), 1024);
    assert_eq!(half_window(usize::MAX), usize::MAX / 2);
}

#[test]
fn the_partner_of_a_sample_lies_tau_places_later() {
    assert_eq!(partner(8, 0, 0), 0);
    assert_eq!(partner(8, 3, 3), 6);
    assert_eq!(partner(9, 3, 2), 5);
}

#[test]
fn a_candidate_inside_the_curve_has_both_neighbours() {
    let c = curve(&[1.0, 1.0, 0.5, 0.05, 0.01, 0.5]);
    assert_eq!(
        locate(&c, 0.1f32.to_bits()),
        Some(Candidate {
            lag: 4,
            level: 0.01f32.to_bits(),
            neighbours: Some((0.05f32.to_bits(), 0.5f32.to_bits())),
        })
    );
}

#[test]
fn a_candidate_at_the_last_lag_has_no_neighbours() {
    let c = curve(&[1.0, 1.0, 0.9, 0.09, 0.08, 0.07]);
    assert_eq!(
        locate(&c, 0.1f32.to_bits()),
        Some(Candidate {
            lag: 5,
            level: 0.07f32.to_bits(),
            neighbours: None,
        })
    );
}

#[test]
fn a_candidate_at_lag_two_reads_the_level_at_lag_one() {
    let c = curve(&[1.0, 0.75, 0.05, 0.3]);
    assert_eq!(
        locate(&c, 0.1f32.to_bits()),
        Some(Candidate {
            lag: 2,
            level: 0.05f32.to_bits(),
            neighbours: Some((0.75f32.to_bits(), 0.3f32.to_bits())),
        })
    );
}

#[test]
fn no_crossing_gives_no_candidate() {
    let c = curve(&[1.0, 1.0, 0.9, 0.8]);
    assert_eq!(locate(&c, 0.1f32.to_bits()), None);
    assert_eq!(locate(&curve(&[]), 0.1f32.to_bits()), None);
}

#[test]
fn a_window_of_two_lags_gives_no_candidate() {
    assert_eq!(half_window(4), 2);
    let c = curve(&[1.0, 0.0]);
    assert_eq!(locate(&c, 1.0f32.to_bits()), None);
}

#[test]
fn a_finite_offset_moves_the_period() {
    let plain = 100.0f32.to_bits();
    let shift = 0.25f32.to_bits();
    let shifted = 100.25f32.to_bits();
    assert_eq!(settle_period(plain, Some((shift, shifted))), shifted);
    let back = (-0.5f32).to_bits();
    assert_eq!(settle_period(plain, Some((back, 99.5f32.to_bits()))), 99.5f32.to_bits());
    assert_eq!(settle_period(plain, Some((ZERO, plain))), plain);
}

#[test]
fn an_offset_that_is_not_finite_leaves_the_plain_lag() {
    let plain = 100.0f32.to_bits();
    let nan = f32::NAN.to_bits();
    assert_eq!(settle_period(plain, Some((nan, nan))), plain);
    let inf = f32::INFINITY.to_bits();
    assert_eq!(settle_period(plain, Some((inf, inf))), plain);
    let neg = f32::NEG_INFINITY.to_bits();
    assert_eq!(settle_period(plain, Some((neg, neg))), plain);
}

#[test]
fn without_a_parabola_the_plain_lag_stands() {
    assert_eq!(settle_period(7.0f32.to_bits(), None), 7.0f32.to_bits());
}

#[test]
fn the_undetected_record_is_all_zero() {
    let r = PitchResult::undetected();
    assert_eq!(
        r,
        PitchResult {
            frequency: 0,
            clarity: 0,
            detected: 0
        }
    );
    assert_eq!(f32::from_bits(r.frequency), 0.0);
    assert_eq!(f32::from_bits(r.clarity), 0.0);
}

#[test]
fn a_found_record_carries_its_fields_and_the_flag_one() {
    let r = PitchResult::found(440.0f32.to_bits(), 0.99f32.to_bits());
    assert_eq!(
        r,
        PitchResult {
            frequency: 440.0f32.to_bits(),
            clarity: 0.99f32.to_bits(),
            detected: 1
        }
    );
    assert_eq!(PitchResult::found(ONE, ONE).detected, 1);
}
