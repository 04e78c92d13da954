use synth_core::filter::{calculate_alpha, LowPassFilter};
use synth_core::fm::{fm_sample, Modulator};
use synth_core::mixer::{
    midi_to_frequency, midi_velocity_to_loudness, parse_midi_message, Mixer, NoteEvent,
};
use synth_core::osc::{generate, Oscillator, WaveformKind};
use synth_core::{ConfigError, AMP_ONE};

fn osc(kind: WaveformKind, freq_mhz: u32) -> Oscillator {
    Oscillator::new(kind, freq_mhz).unwrap()
}

#[test]
fn note_frequencies_anchor_at_a440() {
    assert_eq!(midi_to_frequency(69), 440_000);
    assert_eq!(midi_to_frequency(57), 220_000);
    assert_eq!(midi_to_frequency(81), 880_000);
    assert_eq!(midi_to_frequency(60), 261_632);
    assert_eq!(midi_to_frequency(127), 12_544_000);
    assert_eq!(midi_to_frequency(0), 8_176);
}

#[test]
fn velocity_curve_squares_the_ratio() {
    assert_eq!(midi_velocity_to_loudness(127), AMP_ONE as u32);
    assert_eq!(midi_velocity_to_loudness(0), 0);
    assert_eq!(midi_velocity_to_loudness(64), 8321);
}

#[test]
fn note_on_then_off_before_any_frame_gives_silence() {
    let mut m = Mixer::new(WaveformKind::Sine, 48000).unwrap();
    let events = vec![NoteEvent::NoteOn(60, 127), NoteEvent::NoteOff(60)];
    m.drain_events(&events);
    assert_eq!(m.voice_count(), 0);
    assert_eq!(m.clock, 0);
    let s = m.next_sample();
    assert_eq!(s, 0);
}

#[test]
fn two_full_voices_stay_within_unit_range() {
    let mut m = Mixer::new(WaveformKind::Sine, 48000).unwrap();
    let events = vec![NoteEvent::NoteOn(60, 127), NoteEvent::NoteOn(64, 127)];
    m.drain_events(&events);
    assert_eq!(m.voice_count(), 2);
    for _ in 0..2000 {
        let s = m.next_sample();
        assert!(-AMP_ONE <= s && s <= AMP_ONE);
    }
}

#[test]
fn retriggering_a_note_replaces_its_loudness() {
    let mut m = Mixer::new(WaveformKind::Square, 48000).unwrap();
    m.apply_event(NoteEvent::NoteOn(60, 10));
    m.apply_event(NoteEvent::NoteOn(60, 127));
    assert_eq!(m.voice_count(), 1);
    assert_eq!(m.voices[0].loudness_q, AMP_ONE as u32);
}

#[test]
fn releasing_an_absent_note_is_a_no_op() {
    let mut m = Mixer::new(WaveformKind::Square, 48000).unwrap();
    m.apply_event(NoteEvent::NoteOn(60, 100));
    m.apply_event(NoteEvent::NoteOff(61));
    assert_eq!(m.voice_count(), 1);
}

#[test]
fn mixer_rejects_zero_sample_rate() {
    assert!(matches!(
        Mixer::new(WaveformKind::Sine, 0),
        Err(ConfigError::InvalidConfig)
    ));
}

#[test]
fn midi_messages_decode_to_events() {
    assert_eq!(
        parse_midi_message(&vec![0x90, 60, 100]),
        Some(NoteEvent::NoteOn(60, 100))
    );
    assert_eq!(
        parse_midi_message(&vec![0x80, 60, 0]),
        Some(NoteEvent::NoteOff(60))
    );
    // Any channel is accepted.
    assert_eq!(
        parse_midi_message(&vec![0x93, 72, 80]),
        Some(NoteEvent::NoteOn(72, 80))
    );
    // Unknown status, wrong length, and out-of-range data are dropped.
    assert_eq!(parse_midi_message(&vec![0xA0, 60, 100]), None);
    assert_eq!(parse_midi_message(&vec![0x90, 60]), None);
    assert_eq!(parse_midi_message(&vec![0x90, 200, 100]), None);
}

#[test]
fn full_scale_alpha_passes_input_through() {
    let mut f = LowPassFilter::with_alpha(AMP_ONE as u32);
    for x in [0i64, 123, -45, 32768, -32768] {
        assert_eq!(f.step(x), x);
    }
}

#[test]
fn alpha_formula_value() {
    // 441 Hz cutoff at 48000 Hz: alpha = nc / (nc + pi) with
    // nc = 441 / 24000, scaled to Q15.
    assert_eq!(calculate_alpha(48000, 441_000), 190);
}

#[test]
fn constant_input_climbs_monotonically_toward_it() {
    let mut f = LowPassFilter::with_alpha(16384);
    let x = AMP_ONE as i64;
    let mut prev = 0i64;
    for _ in 0..100 {
        let y = f.step(x);
        assert!(y >= prev);
        assert!(y <= x);
        prev = y;
    }
    // Half-scale alpha converges to within truncation distance quickly.
    assert!(prev >= x - 2);
}

#[test]
fn filter_rejects_cutoff_at_or_above_nyquist() {
    assert!(LowPassFilter::new(24_000_000, 48000).is_err());
    assert!(LowPassFilter::new(0, 48000).is_err());
    assert!(LowPassFilter::new(441_000, 0).is_err());
    // A cutoff so low that the Q15 coefficient truncates to zero is
    // rejected too: such a filter would pass nothing.
    assert!(LowPassFilter::new(1, 48000).is_err());
    assert!(LowPassFilter::new(441_000, 48000).is_ok());
}

#[test]
fn fm_with_zero_depth_matches_the_plain_carrier() {
    let carrier = osc(WaveformKind::Triangle, 440_000);
    let mods = vec![Modulator { osc: osc(WaveformKind::Sine, 1_760_000), depth_mhz: 0 }];
    for pos in 0..50 {
        assert_eq!(
            fm_sample(&carrier, &mods, pos, 48000),
            generate(WaveformKind::Triangle, pos, 48000, 440_000)
        );
    }
}

#[test]
fn fm_modulator_shifts_the_carrier_frequency() {
    // At 1000 Hz sample rate, a 250 Hz sine modulator at full depth of
    // 250 Hz doubles the 250 Hz square carrier's frequency exactly one
    // sample into the cycle, flipping the square a sample early.
    let carrier = osc(WaveformKind::Square, 250_000);
    let mods = vec![Modulator { osc: osc(WaveformKind::Sine, 250_000), depth_mhz: 250_000 }];
    assert_eq!(fm_sample(&carrier, &mods, 0, 1000), AMP_ONE);
    assert_eq!(fm_sample(&carrier, &mods, 1, 1000), -AMP_ONE);
}

#[test]
fn fm_silence_carrier_is_silent() {
    let carrier = osc(WaveformKind::Silence, 0);
    let mods = vec![Modulator { osc: osc(WaveformKind::Sine, 1_000_000), depth_mhz: 500_000 }];
    for pos in 0..20 {
        assert_eq!(fm_sample(&carrier, &mods, pos, 8000), 0);
    }
}
