use synth_core::osc::{generate, Oscillator, WaveformKind};
use synth_core::{ConfigError, AMP_ONE};

// Sample rate 8000 Hz and frequency 1000 Hz give a period of exactly
// 8 samples, so every quarter-cycle point lands on a sample position.
const RATE: u32 = 8000;
const FREQ: u32 = 1_000_000;

#[test]
fn sine_quarter_points() {
    assert_eq!(generate(WaveformKind::Sine, 0, RATE, FREQ), 0);
    assert_eq!(generate(WaveformKind::Sine, 2, RATE, FREQ), AMP_ONE);
    assert_eq!(generate(WaveformKind::Sine, 4, RATE, FREQ), 0);
    assert_eq!(generate(WaveformKind::Sine, 6, RATE, FREQ), -AMP_ONE);
}

#[test]
fn sine_parabola_at_an_eighth() {
    // One eighth into the cycle the parabolic rule gives exactly
    // 4 * (1/4) * (3/4) = 3/4 of full amplitude.
    assert_eq!(generate(WaveformKind::Sine, 1, RATE, FREQ), 3 * AMP_ONE / 4);
    assert_eq!(generate(WaveformKind::Sine, 5, RATE, FREQ), -3 * AMP_ONE / 4);
}

#[test]
fn square_two_levels_only() {
    for pos in 0..64 {
        let v = generate(WaveformKind::Square, pos, RATE, FREQ);
        assert!(v == AMP_ONE || v == -AMP_ONE);
    }
    assert_eq!(generate(WaveformKind::Square, 0, RATE, FREQ), AMP_ONE);
    assert_eq!(generate(WaveformKind::Square, 4, RATE, FREQ), -AMP_ONE);
}

#[test]
fn onoff_two_levels_only() {
    for pos in 0..64 {
        let v = generate(WaveformKind::OnOff, pos, RATE, FREQ);
        assert!(v == AMP_ONE || v == 0);
    }
    assert_eq!(generate(WaveformKind::OnOff, 1, RATE, FREQ), AMP_ONE);
    assert_eq!(generate(WaveformKind::OnOff, 5, RATE, FREQ), 0);
}

#[test]
fn sawtooth_descends_through_zero() {
    assert_eq!(generate(WaveformKind::Sawtooth, 0, RATE, FREQ), AMP_ONE);
    assert_eq!(generate(WaveformKind::Sawtooth, 2, RATE, FREQ), AMP_ONE / 2);
    assert_eq!(generate(WaveformKind::Sawtooth, 4, RATE, FREQ), 0);
    assert_eq!(generate(WaveformKind::Sawtooth, 6, RATE, FREQ), -AMP_ONE / 2);
}

#[test]
fn triangle_ramp_points() {
    assert_eq!(generate(WaveformKind::Triangle, 0, RATE, FREQ), -AMP_ONE);
    assert_eq!(generate(WaveformKind::Triangle, 2, RATE, FREQ), 0);
    assert_eq!(generate(WaveformKind::Triangle, 4, RATE, FREQ), AMP_ONE);
    assert_eq!(generate(WaveformKind::Triangle, 6, RATE, FREQ), 0);
}

#[test]
fn all_kinds_periodic_in_their_period() {
    let kinds = [
        WaveformKind::Sine,
        WaveformKind::Square,
        WaveformKind::Sawtooth,
        WaveformKind::Triangle,
        WaveformKind::OnOff,
    ];
    // One full cycle of 1000 Hz at 8000 Hz is 8 samples.
    for kind in kinds {
        for pos in 0..24 {
            assert_eq!(
                generate(kind, pos, RATE, FREQ),
                generate(kind, pos + 8, RATE, FREQ)
            );
        }
    }
}

#[test]
fn silence_is_always_zero() {
    for pos in 0..16 {
        assert_eq!(generate(WaveformKind::Silence, pos, RATE, 0), 0);
    }
}

#[test]
fn every_sample_stays_in_unit_range() {
    let kinds = [
        WaveformKind::Sine,
        WaveformKind::Square,
        WaveformKind::Sawtooth,
        WaveformKind::Triangle,
        WaveformKind::OnOff,
    ];
    for kind in kinds {
        for pos in 0..100 {
            let v = generate(kind, pos, 44100, 440_000);
            assert!(-AMP_ONE <= v && v <= AMP_ONE);
        }
    }
}

#[test]
fn oscillator_rejects_zero_frequency_when_not_silent() {
    assert_eq!(
        Oscillator::new(WaveformKind::Square, 0),
        Err(ConfigError::InvalidConfig)
    );
    assert!(Oscillator::new(WaveformKind::Silence, 0).is_ok());
    assert!(Oscillator::new(WaveformKind::Sine, 440_000).is_ok());
}
