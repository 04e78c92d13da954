use synth_core::amplitude::{calculate_amplitude, mix_at, normalize_sample, AmplitudeStrategy};
use synth_core::osc::{Oscillator, WaveformKind};
use synth_core::period::{combined_period, gcd, lcm};
use synth_core::AMP_ONE;

fn osc(kind: WaveformKind, freq_mhz: u32) -> Oscillator {
    Oscillator::new(kind, freq_mhz).unwrap()
}

#[test]
fn gcd_values() {
    assert_eq!(gcd(48, 18), 6);
    assert_eq!(gcd(18, 48), 6);
    assert_eq!(gcd(0, 5), 5);
    assert_eq!(gcd(5, 0), 5);
    assert_eq!(gcd(480, 160), 160);
}

#[test]
fn lcm_values() {
    assert_eq!(lcm(4, 6), 12);
    assert_eq!(lcm(1, 1), 1);
    assert_eq!(lcm(480, 160), 480);
    assert_eq!(lcm(7, 13), 91);
}

#[test]
fn combined_period_of_two_sines() {
    // 100 Hz at 48000 Hz spans 480 samples, 300 Hz spans 160; their sum
    // repeats after the least common multiple of the two, 480 samples.
    let oscs = vec![
        osc(WaveformKind::Sine, 100_000),
        osc(WaveformKind::Sine, 300_000),
    ];
    assert_eq!(combined_period(&oscs, 48000), lcm(480, 160));
    assert_eq!(combined_period(&oscs, 48000), 480);
}

#[test]
fn combined_period_empty_and_silent() {
    let none: Vec<Oscillator> = vec![];
    assert_eq!(combined_period(&none, 48000), 1);
    let silent = vec![osc(WaveformKind::Silence, 0)];
    assert_eq!(combined_period(&silent, 48000), 1);
}

#[test]
fn combined_period_capped_at_one_second() {
    // One full cycle of 1 Hz at 48000 Hz is exactly one second of
    // samples, which hits the cap.
    let oscs = vec![osc(WaveformKind::Sine, 1000)];
    assert_eq!(combined_period(&oscs, 48000), 48000);
}

#[test]
fn fast_amplitude_counts_active_oscillators() {
    let oscs = vec![
        osc(WaveformKind::Sine, 440_000),
        osc(WaveformKind::Square, 880_000),
        osc(WaveformKind::Triangle, 220_000),
    ];
    let peak = calculate_amplitude(AmplitudeStrategy::Fast, &oscs, 480, 48000);
    assert_eq!(peak, 3 * AMP_ONE as u64);
}

#[test]
fn fast_amplitude_ignores_silence() {
    let oscs = vec![
        osc(WaveformKind::Sine, 440_000),
        osc(WaveformKind::Silence, 0),
        osc(WaveformKind::Square, 880_000),
    ];
    let peak = calculate_amplitude(AmplitudeStrategy::Fast, &oscs, 480, 48000);
    assert_eq!(peak, 2 * AMP_ONE as u64);
}

#[test]
fn exact_amplitude_of_one_square() {
    let oscs = vec![osc(WaveformKind::Square, 1_000_000)];
    let peak = calculate_amplitude(AmplitudeStrategy::Exact, &oscs, 8, 8000);
    assert_eq!(peak, AMP_ONE as u64);
}

#[test]
fn exact_amplitude_of_two_aligned_squares() {
    let oscs = vec![
        osc(WaveformKind::Square, 1_000_000),
        osc(WaveformKind::Square, 1_000_000),
    ];
    let peak = calculate_amplitude(AmplitudeStrategy::Exact, &oscs, 8, 8000);
    assert_eq!(peak, 2 * AMP_ONE as u64);
}

#[test]
fn fast_estimate_never_below_exact() {
    let oscs = vec![
        osc(WaveformKind::Square, 1_000_000),
        osc(WaveformKind::Sine, 2_000_000),
    ];
    let period = combined_period(&oscs, 8000);
    let fast = calculate_amplitude(AmplitudeStrategy::Fast, &oscs, period, 8000);
    let exact = calculate_amplitude(AmplitudeStrategy::Exact, &oscs, period, 8000);
    assert!(exact <= fast);
    assert_eq!(fast, 2 * AMP_ONE as u64);
}

#[test]
fn exact_amplitude_counts_troughs_as_much_as_crests() {
    // A triangle at 1600 Hz sampled at 8000 Hz spans five samples and
    // touches its full negative amplitude only at the start of the
    // cycle; the exact scan must report that magnitude, not the lower
    // positive crest.
    let oscs = vec![osc(WaveformKind::Triangle, 1_600_000)];
    let peak = calculate_amplitude(AmplitudeStrategy::Exact, &oscs, 5, 8000);
    assert_eq!(peak, AMP_ONE as u64);
    let two = vec![
        osc(WaveformKind::Triangle, 1_600_000),
        osc(WaveformKind::Triangle, 1_600_000),
    ];
    let peak2 = calculate_amplitude(AmplitudeStrategy::Exact, &two, 5, 8000);
    assert_eq!(peak2, 2 * AMP_ONE as u64);
}

#[test]
fn mix_sums_oscillators() {
    let oscs = vec![
        osc(WaveformKind::Square, 1_000_000),
        osc(WaveformKind::Square, 1_000_000),
    ];
    assert_eq!(mix_at(&oscs, 0, 8000), 2 * AMP_ONE as i64);
    assert_eq!(mix_at(&oscs, 4, 8000), -2 * AMP_ONE as i64);
}

#[test]
fn normalization_divides_only_above_full_scale() {
    // A peak at or below full amplitude leaves samples untouched.
    assert_eq!(normalize_sample(12345, AMP_ONE as u64), 12345);
    // A peak of two full amplitudes halves everything.
    assert_eq!(
        normalize_sample(2 * AMP_ONE as i64, 2 * AMP_ONE as u64),
        AMP_ONE as i64
    );
    assert_eq!(
        normalize_sample(-2 * AMP_ONE as i64, 2 * AMP_ONE as u64),
        -AMP_ONE as i64
    );
}
