use synth_core::amplitude::AmplitudeStrategy;
use synth_core::fm::Modulator;
use synth_core::mixer::{Mixer, NoteEvent};
use synth_core::osc::{Oscillator, WaveformKind};
use synth_core::render::{render_fm, render_mix, FmStream, MixStream};
use synth_core::wav::{make_wav_header, parse_wav, raw_audio_to_wav};
use synth_core::AMP_ONE;

fn osc(kind: WaveformKind, freq_mhz: u32) -> Oscillator {
    Oscillator::new(kind, freq_mhz).unwrap()
}

#[test]
fn wav_round_trip_of_extreme_samples() {
    let samples: Vec<i16> = vec![0, 1, -1, 32767, -32768];
    let bytes = raw_audio_to_wav(samples.clone(), 8000);
    // 44 header bytes, ten sample bytes, one pad byte for the odd count.
    assert_eq!(bytes.len(), 55);
    assert_eq!(*bytes.last().unwrap(), 0);
    let (parsed, rate) = parse_wav(&bytes).unwrap();
    assert_eq!(rate, 8000);
    assert_eq!(parsed, samples);
}

#[test]
fn wav_header_fields() {
    let bytes = raw_audio_to_wav(vec![0, 1, -1, 32767, -32768], 8000);
    // RIFF tag and the header size this engine records there.
    assert_eq!(&bytes[0..4], b"RIFF");
    assert_eq!(u32::from_le_bytes([bytes[4], bytes[5], bytes[6], bytes[7]]), 44);
    assert_eq!(&bytes[8..12], b"WAVE");
    assert_eq!(&bytes[12..16], b"fmt ");
    // One channel, sixteen bits per sample, the sample rate and twice it.
    assert_eq!(u16::from_le_bytes([bytes[22], bytes[23]]), 1);
    assert_eq!(u32::from_le_bytes([bytes[24], bytes[25], bytes[26], bytes[27]]), 8000);
    assert_eq!(u32::from_le_bytes([bytes[28], bytes[29], bytes[30], bytes[31]]), 16000);
    assert_eq!(u16::from_le_bytes([bytes[34], bytes[35]]), 16);
    // The data chunk size counts only the true sample bytes, not the pad.
    assert_eq!(&bytes[36..40], b"data");
    assert_eq!(u32::from_le_bytes([bytes[40], bytes[41], bytes[42], bytes[43]]), 10);
}

#[test]
fn wav_even_count_has_no_pad() {
    let bytes = raw_audio_to_wav(vec![5, -5], 44100);
    assert_eq!(bytes.len(), 48);
    let bytes_odd = raw_audio_to_wav(vec![5], 44100);
    assert_eq!(bytes_odd.len(), 47);
    assert_eq!(u32::from_le_bytes([
        bytes_odd[40],
        bytes_odd[41],
        bytes_odd[42],
        bytes_odd[43],
    ]), 2);
}

#[test]
fn wav_sample_bytes_are_little_endian() {
    let bytes = raw_audio_to_wav(vec![0, 1, -1, 32767, -32768], 8000);
    assert_eq!(&bytes[44..54], &[0, 0, 1, 0, 255, 255, 255, 127, 0, 128]);
}

#[test]
fn parse_rejects_mangled_containers() {
    assert_eq!(parse_wav(&vec![]), None);
    assert_eq!(parse_wav(&vec![0u8; 44]), None);
    let mut bytes = raw_audio_to_wav(vec![1, 2], 8000);
    bytes[0] = 81;
    assert_eq!(parse_wav(&bytes), None);
    let mut short = raw_audio_to_wav(vec![1, 2], 8000);
    short.pop();
    assert_eq!(parse_wav(&short), None);
}

#[test]
fn header_alone_is_44_bytes() {
    let mut o: Vec<u8> = Vec::new();
    make_wav_header(&mut o, 8000, 5);
    assert_eq!(o.len(), 44);
    assert_eq!(&o[0..4], b"RIFF");
    assert_eq!(u32::from_le_bytes([o[24], o[25], o[26], o[27]]), 8000);
}

#[test]
fn offline_mix_of_one_square() {
    // One square at full scale: +1.0 clamps to the largest PCM value.
    let oscs = vec![osc(WaveformKind::Square, 1_000_000)];
    let out = render_mix(&oscs, 8000, AMP_ONE as u64, AMP_ONE as u32, 8);
    assert_eq!(out, vec![32767, 32767, 32767, 32767, -32768, -32768, -32768, -32768]);
}

#[test]
fn offline_mix_normalizes_two_squares() {
    let oscs = vec![
        osc(WaveformKind::Square, 1_000_000),
        osc(WaveformKind::Square, 1_000_000),
    ];
    // The fast estimate for two oscillators halves the 2.0 peaks back
    // to full scale.
    let out = render_mix(&oscs, 8000, 2 * AMP_ONE as u64, AMP_ONE as u32, 8);
    assert_eq!(out, vec![32767, 32767, 32767, 32767, -32768, -32768, -32768, -32768]);
}

#[test]
fn offline_mix_runs_the_low_pass_filter() {
    // A half-scale coefficient on a full-scale square: each output is
    // halfway between the previous output and the current input.
    let oscs = vec![osc(WaveformKind::Square, 1_000_000)];
    let out = render_mix(&oscs, 8000, AMP_ONE as u64, (AMP_ONE / 2) as u32, 6);
    assert_eq!(out, vec![16384, 24576, 28672, 30720, -1024, -16896]);
}

#[test]
fn offline_fm_applies_the_volume() {
    let carrier = osc(WaveformKind::Square, 250_000);
    let mods = vec![];
    let out = render_fm(&carrier, &mods, 1000, 4, (AMP_ONE / 2) as u32);
    assert_eq!(out, vec![16384, 16384, -16384, -16384]);
}

#[test]
fn mix_stream_starts_silent_on_a_sine() {
    let oscs = vec![osc(WaveformKind::Sine, 440_000)];
    let mut stream = MixStream::new(
        oscs,
        48000,
        AmplitudeStrategy::Fast,
        441_000,
        (AMP_ONE / 2) as u32,
    )
    .unwrap();
    assert_eq!(stream.filter.alpha_q, 190);
    assert_eq!(stream.next_sample(), 0);
}

#[test]
fn mix_stream_rejects_bad_cutoff() {
    let oscs = vec![osc(WaveformKind::Sine, 440_000)];
    assert!(MixStream::new(oscs, 48000, AmplitudeStrategy::Fast, 24_000_000, 0).is_err());
}

#[test]
fn fm_stream_fill_replicates_across_channels() {
    let carrier = osc(WaveformKind::Square, 250_000);
    let mut stream = FmStream::new(carrier, vec![], 1000, AMP_ONE as u32).unwrap();
    let mut data: Vec<i16> = vec![0; 6];
    stream.fill(&mut data, 2);
    assert_eq!(data, vec![32767, 32767, 32767, 32767, -32768, -32768]);
    assert_eq!(stream.clock, 3);
    assert_eq!(stream.degeneracy_count, 0);
}

#[test]
fn fm_stream_counts_clamped_degeneracies() {
    // A full-depth square modulator flings the carrier's effective
    // frequency out of range on every sample; the stream clamps, keeps
    // playing, and counts each occurrence.
    let carrier = osc(WaveformKind::Square, 250_000);
    let mods = vec![Modulator { osc: osc(WaveformKind::Square, 250_000), depth_mhz: 1_000_000_000 }];
    let mut stream = FmStream::new(carrier, mods, 1000, AMP_ONE as u32).unwrap();
    for _ in 0..4 {
        stream.next_sample();
    }
    assert_eq!(stream.degeneracy_count, 4);
}

#[test]
fn fm_stream_rejects_invalid_carrier() {
    let bad = Oscillator { kind: WaveformKind::Square, freq_mhz: 0 };
    assert!(FmStream::new(bad, vec![], 48000, 0).is_err());
}

#[test]
fn mixer_fill_replicates_one_sample_per_frame() {
    let mut m = Mixer::new(WaveformKind::Sine, 48000).unwrap();
    m.drain_events(&vec![NoteEvent::NoteOn(69, 127)]);
    let mut data: Vec<i16> = vec![99; 4];
    m.fill_frames(&mut data, 2, AMP_ONE as u32);
    // A sine voice starts its cycle at zero, and both channels of each
    // frame carry the same sample.
    assert_eq!(data[0], 0);
    assert_eq!(data[0], data[1]);
    assert_eq!(data[2], data[3]);
    assert_eq!(m.clock, 2);
}
