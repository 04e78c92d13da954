//! The polyphonic mixer: a dynamic set of sounding voices driven by
//! note-on / note-off events, mixed by loudness-weighted summation with
//! dynamic re-normalization.
//!
//! Events are applied strictly in arrival order; a repeated note-on
//! replaces the note's loudness, and releasing an absent note is a
//! no-op.  When a drain leaves the voice set empty the sample clock is
//! reset, so silence does not accumulate phase.  Every mixed sample is
//! renormalized by the total loudness whenever that exceeds full
//! amplitude, which keeps the output within the Q15 unit range.

use vstd::prelude::*;
use vstd::arithmetic::power2::{lemma2_to64, pow2};
use vstd::set_lib::{lemma_int_range, lemma_len_subset, set_int_range};
use crate::osc::{generate, sample_value, WaveformKind};
use crate::{div_to_zero, lemma_tdiv_bound, tdiv, AMP_ONE, ConfigError, FREQ_MHZ_MAX, RATE_MAX};

verus! {

/// One sounding note: its id and its Q15 loudness weight.
#[derive(Clone, Copy, Debug, PartialEq, Eq, Structural)]
pub struct Voice {
    pub note: u8,
    pub loudness_q: u32,
}

/// A note-state change delivered by the external event source.
#[derive(Clone, Copy, Debug, PartialEq, Eq, Structural)]
pub enum NoteEvent {
    /// A key went down: note id and velocity, both in `0..=127`.
    NoteOn(u8, u8),
    /// A key came up: note id in `0..=127`.
    NoteOff(u8),
}

impl NoteEvent {
    /// Events the producer may deliver: ids and velocities within the
    /// seven-bit range.
    pub open spec fn valid(self) -> bool {
        match self {
            NoteEvent::NoteOn(n, v) => n <= 127 && v <= 127,
            NoteEvent::NoteOff(n) => n <= 127,
        }
    }
}

/// Base frequencies of the twelve semitones in the lowest octave (note
/// ids 0 through 11), in millihertz, tuned so that note 69 lands exactly
/// on 440 Hz.
pub open spec fn semitone_base_mhz(k: nat) -> nat {
    if k == 0 {
        8176
    } else if k == 1 {
        8662
    } else if k == 2 {
        9177
    } else if k == 3 {
        9723
    } else if k == 4 {
        10301
    } else if k == 5 {
        10913
    } else if k == 6 {
        11562
    } else if k == 7 {
        12250
    } else if k == 8 {
        12978
    } else if k == 9 {
        13750
    } else if k == 10 {
        14568
    } else {
        15434
    }
}

/// Equal-tempered note frequency in millihertz: the semitone base lifted
/// by one factor of two per octave.
pub open spec fn spec_note_freq_mhz(note: nat) -> nat {
    semitone_base_mhz(note % 12) * pow2(note / 12)
}

/// The perceptual loudness curve: `(velocity / 127)^2`, in Q15.
pub open spec fn spec_loudness(velocity: nat) -> nat {
    ((velocity * velocity * AMP_ONE) / 16129) as nat
}

/// Maps a note id to its equal-tempered frequency in millihertz,
/// anchored at note 69 = 440 Hz.
pub fn midi_to_frequency(note: u8) -> (f: u32)
    requires
        note <= 127,
    ensures
        f == spec_note_freq_mhz(note as nat),
        1 <= f <= FREQ_MHZ_MAX,
{
    let base: u32 = match note % 12 {
        0 => 8176,
        1 => 8662,
        2 => 9177,
        3 => 9723,
        4 => 10301,
        5 => 10913,
        6 => 11562,
        7 => 12250,
        8 => 12978,
        9 => 13750,
        10 => 14568,
        _ => 15434,
    };
    let mult: u32 = match note / 12 {
        0 => 1,
        1 => 2,
        2 => 4,
        3 => 8,
        4 => 16,
        5 => 32,
        6 => 64,
        7 => 128,
        8 => 256,
        9 => 512,
        _ => 1024,
    };
    proof {
        lemma2_to64();
        assert(note / 12 <= 10);
        assert(mult == pow2((note / 12) as nat));
        assert(base * mult <= 15434 * 1024) by (nonlinear_arith)
            requires
                base <= 15434,
                mult <= 1024;
        assert(base * mult >= 8176 * 1) by (nonlinear_arith)
            requires
                base >= 8176,
                mult >= 1;
    }
    base * mult
}

/// Maps a note-on velocity to a Q15 loudness weight by the perceptual
/// curve `(velocity / 127)^2`; full velocity gives exactly full
/// amplitude.
pub fn midi_velocity_to_loudness(velocity: u8) -> (l: u32)
    requires
        velocity <= 127,
    ensures
        l == spec_loudness(velocity as nat),
        l <= AMP_ONE,
        velocity == 127 ==> l == AMP_ONE,
        velocity == 0 ==> l == 0,
{
    let v = velocity as u32;
    proof {
        assert(v * v <= 16129) by (nonlinear_arith)
            requires v <= 127;
        assert((v * v) * 32768 <= 16129 * 32768);
        vstd::arithmetic::div_mod::lemma_div_is_ordered(
            ((v * v) * 32768) as int,
            16129int * 32768,
            16129,
        );
        vstd::arithmetic::div_mod::lemma_div_multiples_vanish(32768, 16129);
        if velocity == 127 {
            assert(v * v == 16129);
        }
        if velocity == 0 {
            assert(v * v * 32768 == 0);
            vstd::arithmetic::div_mod::lemma_div_of0(16129);
        }
    }
    v * v * 32768 / 16129
}

/// The note event a raw three-byte MIDI message stands for: a note-off
/// for status `0x80`, a note-on for status `0x90`, on any channel, and
/// nothing for any other length, status, or an out-of-range data byte.
pub open spec fn spec_parse_midi(message: Seq<u8>) -> Option<NoteEvent> {
    if message.len() != 3 {
        None
    } else if message[1] >= 128 || message[2] >= 128 {
        None
    } else if message[0] & 0xf0 == 0x80 {
        Some(NoteEvent::NoteOff(message[1]))
    } else if message[0] & 0xf0 == 0x90 {
        Some(NoteEvent::NoteOn(message[1], message[2]))
    } else {
        None
    }
}

/// Decodes one raw MIDI message into a note event.  Only three-byte
/// note-on and note-off messages with well-formed data bytes are
/// accepted, so every event handed on is valid.
pub fn parse_midi_message(message: &Vec<u8>) -> (r: Option<NoteEvent>)
    ensures
        r == spec_parse_midi(message@),
        r is Some ==> r->0.valid(),
{
    if message.len() != 3 {
        return None;
    }
    let status = message[0];
    let d1 = message[1];
    let d2 = message[2];
    if d1 >= 128 || d2 >= 128 {
        return None;
    }
    if status & 0xf0 == 0x80 {
        Some(NoteEvent::NoteOff(d1))
    } else if status & 0xf0 == 0x90 {
        Some(NoteEvent::NoteOn(d1, d2))
    } else {
        None
    }
}

/// Unique note ids, all within the seven-bit range, all loudness weights
/// within the Q15 unit scale.
pub open spec fn wf_voices(vs: Seq<Voice>) -> bool {
    &&& forall|i: int, j: int|
        0 <= i < j < vs.len() ==> vs[i].note != vs[j].note
    &&& forall|i: int| 0 <= i < vs.len() ==> vs[i].note <= 127 && vs[i].loudness_q <= AMP_ONE
}

/// The loudness the voice set assigns to a note, if it is sounding.
pub open spec fn loudness_of(vs: Seq<Voice>, note: u8) -> Option<u32>
    decreases vs.len(),
{
    if vs.len() == 0 {
        None
    } else if vs[0].note == note {
        Some(vs[0].loudness_q)
    } else {
        loudness_of(vs.drop_first(), note)
    }
}

/// A note held by none of the voices has no loudness.
proof fn lemma_loudness_absent(vs: Seq<Voice>, note: u8)
    requires
        forall|i: int| 0 <= i < vs.len() ==> vs[i].note != note,
    ensures
        loudness_of(vs, note) is None,
    decreases vs.len(),
{
    if vs.len() > 0 {
        lemma_loudness_absent(vs.drop_first(), note);
    }
}

/// The first match determines the loudness: a note found at an index
/// before which it does not occur carries that element's weight.
proof fn lemma_loudness_found(vs: Seq<Voice>, i: int, note: u8)
    requires
        0 <= i < vs.len(),
        vs[i].note == note,
        forall|j: int| 0 <= j < i ==> vs[j].note != note,
    ensures
        loudness_of(vs, note) == Some(vs[i].loudness_q),
    decreases i,
{
    if i > 0 {
        lemma_loudness_found(vs.drop_first(), i - 1, note);
    }
}

/// Appending a voice adds its note without disturbing the others.
proof fn lemma_loudness_push(vs: Seq<Voice>, v: Voice, note: u8)
    ensures
        loudness_of(vs.push(v), note) == if loudness_of(vs, note) is Some {
            loudness_of(vs, note)
        } else if v.note == note {
            Some(v.loudness_q)
        } else {
            None
        },
    decreases vs.len(),
{
    if vs.len() == 0 {
        assert(vs.push(v).len() == 1);
        assert(vs.push(v)[0] == v);
        assert(vs.push(v).drop_first() =~= Seq::<Voice>::empty());
        assert(loudness_of(Seq::<Voice>::empty(), note) is None);
    } else {
        assert(vs.push(v)[0] == vs[0]);
        assert(vs.push(v).drop_first() =~= vs.drop_first().push(v));
        lemma_loudness_push(vs.drop_first(), v, note);
    }
}

/// Removing the element at an index silences exactly its note, provided
/// the notes are unique.
proof fn lemma_loudness_remove(vs: Seq<Voice>, i: int, note: u8)
    requires
        0 <= i < vs.len(),
        forall|p: int, q: int| 0 <= p < q < vs.len() ==> vs[p].note != vs[q].note,
    ensures
        loudness_of(vs.remove(i), note) == if vs[i].note == note {
            None
        } else {
            loudness_of(vs, note)
        },
    decreases vs.len(),
{
    if i == 0 {
        assert(vs.remove(0) =~= vs.drop_first());
        if vs[0].note == note {
            assert(forall|j: int| 0 <= j < vs.drop_first().len() ==> vs.drop_first()[j].note
                != note);
            lemma_loudness_absent(vs.drop_first(), note);
        }
    } else {
        assert(vs.remove(i).drop_first() =~= vs.drop_first().remove(i - 1));
        assert(vs.remove(i)[0] == vs[0]);
        lemma_loudness_remove(vs.drop_first(), i - 1, note);
    }
}

/// Unique seven-bit note ids: no more than 128 voices can sound at once.
pub proof fn lemma_voices_len_bound(vs: Seq<Voice>)
    requires
        wf_voices(vs),
    ensures
        vs.len() <= 128,
{
    broadcast use vstd::set::group_set_axioms;

    let notes = vs.map_values(|v: Voice| v.note as int);
    assert(notes.no_duplicates());
    notes.unique_seq_to_set();
    assert forall|x: int| notes.to_set().contains(x) implies set_int_range(0, 128).contains(
        x,
    ) by {
        let k = choose|k: int| 0 <= k < notes.len() && notes[k] == x;
        assert(0 <= vs[k].note <= 127);
    }
    lemma_int_range(0, 128);
    lemma_len_subset(notes.to_set(), set_int_range(0, 128));
}

/// The total loudness of the sounding voices, in Q15.
pub open spec fn total_loudness(vs: Seq<Voice>) -> int
    decreases vs.len(),
{
    if vs.len() == 0 {
        0
    } else {
        total_loudness(vs.drop_last()) + vs.last().loudness_q
    }
}

/// The loudness-weighted sum of the voices' waveform samples at a clock
/// position, in Q30 (a Q15 weight times a Q15 sample).
pub open spec fn voices_sum(vs: Seq<Voice>, kind: WaveformKind, pos: nat, sample_rate: nat) -> int
    decreases vs.len(),
{
    if vs.len() == 0 {
        0
    } else {
        voices_sum(vs.drop_last(), kind, pos, sample_rate) + (vs.last().loudness_q as int)
            * sample_value(
            kind,
            pos,
            spec_note_freq_mhz(vs.last().note as nat),
            sample_rate,
        )
    }
}

/// The weighted sum never exceeds the total loudness at full amplitude.
pub proof fn lemma_voices_sum_bounded(
    vs: Seq<Voice>,
    kind: WaveformKind,
    pos: nat,
    sample_rate: nat,
)
    requires
        1 <= sample_rate,
        forall|i: int| 0 <= i < vs.len() ==> vs[i].loudness_q <= AMP_ONE,
    ensures
        0 <= total_loudness(vs) <= vs.len() * (AMP_ONE as int),
        -(total_loudness(vs) * AMP_ONE) <= voices_sum(vs, kind, pos, sample_rate)
            <= total_loudness(vs) * AMP_ONE,
    decreases vs.len(),
{
    if vs.len() == 0 {
        assert(0 <= vs.len() * (AMP_ONE as int)) by (nonlinear_arith);
    } else {
        lemma_voices_sum_bounded(vs.drop_last(), kind, pos, sample_rate);
        let l = vs.last().loudness_q as int;
        let s = sample_value(kind, pos, spec_note_freq_mhz(vs.last().note as nat), sample_rate);
        let d = crate::osc::phase_denom(sample_rate);
        vstd::arithmetic::div_mod::lemma_mod_bound(
            (pos * spec_note_freq_mhz(vs.last().note as nat)) as int,
            d as int,
        );
        crate::osc::lemma_wave_value_bounded(
            kind,
            crate::osc::phase_at(pos, spec_note_freq_mhz(vs.last().note as nat), sample_rate),
            d,
        );
        assert(-(l * AMP_ONE) <= l * s <= l * AMP_ONE) by (nonlinear_arith)
            requires
                0 <= l,
                -AMP_ONE <= s <= AMP_ONE;
        assert((total_loudness(vs.drop_last()) + l) * AMP_ONE == total_loudness(vs.drop_last())
            * AMP_ONE + l * AMP_ONE) by (nonlinear_arith);
        assert(vs.len() * (AMP_ONE as int) == (vs.len() - 1) * (AMP_ONE as int) + AMP_ONE)
            by (nonlinear_arith);
    }
}

/// What the mixer's next output sample is, in Q15: the weighted sum,
/// divided by the total loudness when that exceeds full amplitude.
pub open spec fn spec_mixed_sample(
    vs: Seq<Voice>,
    kind: WaveformKind,
    pos: nat,
    sample_rate: nat,
) -> int {
    let acc = voices_sum(vs, kind, pos, sample_rate);
    let tot = total_loudness(vs);
    if tot > AMP_ONE {
        tdiv(acc, tot)
    } else {
        tdiv(acc, AMP_ONE as int)
    }
}

/// The polyphonic mixer: the waveform its voices share, the sample rate,
/// the sounding voices, and the shared sample clock.
pub struct Mixer {
    pub kind: WaveformKind,
    pub sample_rate: u32,
    pub voices: Vec<Voice>,
    pub clock: u64,
}

impl Mixer {
    /// The mixer's invariant: a well-formed voice set at a sample rate
    /// within range.
    pub open spec fn wf(self) -> bool {
        wf_voices(self.voices@) && 1 <= self.sample_rate <= RATE_MAX
    }

    /// A mixer with no sounding voices, rejecting an out-of-range sample
    /// rate.
    pub fn new(kind: WaveformKind, sample_rate: u32) -> (r: Result<Mixer, ConfigError>)
        ensures
            r is Ok <==> 1 <= sample_rate <= RATE_MAX,
            r is Ok ==> r->Ok_0.wf() && r->Ok_0.kind == kind && r->Ok_0.sample_rate
                == sample_rate && r->Ok_0.voices@.len() == 0 && r->Ok_0.clock == 0,
            r is Err ==> r->Err_0 == ConfigError::InvalidConfig,
    {
        if sample_rate < 1 || sample_rate > RATE_MAX {
            Err(ConfigError::InvalidConfig)
        } else {
            Ok(Mixer { kind, sample_rate, voices: Vec::new(), clock: 0 })
        }
    }

    /// How many voices are sounding.
    pub fn voice_count(&self) -> (n: usize)
        ensures
            n == self.voices@.len(),
    {
        self.voices.len()
    }

    /// Removes the voice holding `note`, if any; every other voice keeps
    /// its loudness.
    fn remove_note(&mut self, note: u8)
        requires
            old(self).wf(),
        ensures
            final(self).wf(),
            final(self).kind == old(self).kind,
            final(self).sample_rate == old(self).sample_rate,
            final(self).clock == old(self).clock,
            loudness_of(final(self).voices@, note) is None,
            forall|m: u8|
                m != note ==> loudness_of(final(self).voices@, m) == loudness_of(
                    old(self).voices@,
                    m,
                ),
            final(self).voices@.len() <= old(self).voices@.len(),
    {
        let ghost vs0 = self.voices@;
        let mut i: usize = 0;
        while i < self.voices.len()
            invariant
                0 <= i <= self.voices@.len(),
                *self == *old(self),
                self.voices@ == vs0,
                wf_voices(vs0),
                1 <= self.sample_rate <= RATE_MAX,
                forall|j: int| 0 <= j < i ==> vs0[j].note != note,
            decreases self.voices@.len() - i,
        {
            if self.voices[i].note == note {
                proof {
                    lemma_loudness_remove(vs0, i as int, note);
                    assert forall|m: u8| m != note implies loudness_of(
                        vs0.remove(i as int),
                        m,
                    ) == loudness_of(vs0, m) by {
                        lemma_loudness_remove(vs0, i as int, m);
                    }
                    let vs1 = vs0.remove(i as int);
                    assert forall|p: int, q: int| 0 <= p < q < vs1.len() implies vs1[p].note
                        != vs1[q].note by {
                        assert(vs1[p] == if p < i as int {
                            vs0[p]
                        } else {
                            vs0[p + 1]
                        });
                        assert(vs1[q] == if q < i as int {
                            vs0[q]
                        } else {
                            vs0[q + 1]
                        });
                    }
                    assert forall|p: int| 0 <= p < vs1.len() implies vs1[p].note <= 127
                        && vs1[p].loudness_q <= AMP_ONE by {
                        assert(vs1[p] == if p < i as int {
                            vs0[p]
                        } else {
                            vs0[p + 1]
                        });
                    }
                }
                self.voices.remove(i);
                return ;
            }
            i = i + 1;
        }
        proof {
            lemma_loudness_absent(vs0, note);
        }
    }

    /// Applies one event: a note-on inserts or replaces the note's voice
    /// with the perceptual loudness of its velocity, a note-off removes
    /// the note's voice if present.  No other voice changes.
    pub fn apply_event(&mut self, e: NoteEvent)
        requires
            old(self).wf(),
            e.valid(),
        ensures
            final(self).wf(),
            final(self).kind == old(self).kind,
            final(self).sample_rate == old(self).sample_rate,
            final(self).clock == old(self).clock,
            match e {
                NoteEvent::NoteOn(n, v) => loudness_of(final(self).voices@, n) == Some(
                    spec_loudness(v as nat) as u32,
                ) && forall|m: u8|
                    m != n ==> loudness_of(final(self).voices@, m) == loudness_of(
                        old(self).voices@,
                        m,
                    ),
                NoteEvent::NoteOff(n) => loudness_of(final(self).voices@, n) is None
                    && forall|m: u8|
                    m != n ==> loudness_of(final(self).voices@, m) == loudness_of(
                        old(self).voices@,
                        m,
                    ),
            },
    {
        match e {
            NoteEvent::NoteOff(n) => {
                self.remove_note(n);
            }
            NoteEvent::NoteOn(n, v) => {
                self.remove_note(n);
                let l = midi_velocity_to_loudness(v);
                let ghost mid = self.voices@;
                proof {
                    lemma_loudness_push(mid, Voice { note: n, loudness_q: l }, n);
                    assert forall|m: u8| m != n implies loudness_of(
                        mid.push(Voice { note: n, loudness_q: l }),
                        m,
                    ) == loudness_of(mid, m) by {
                        lemma_loudness_push(mid, Voice { note: n, loudness_q: l }, m);
                    }
                    // The pushed note occurs nowhere else, so uniqueness
                    // survives the append.
                    assert forall|i: int| 0 <= i < mid.len() implies mid[i].note != n by {
                        if mid[i].note == n {
                            lemma_loudness_present(mid, i, n);
                        }
                    }
                }
                self.voices.push(Voice { note: n, loudness_q: l });
            }
        }
    }

    /// Drains a batch of pending events in arrival order, then resets
    /// the sample clock if the drain emptied the voice set.  Each note
    /// ends at the loudness its last event dictates.
    pub fn drain_events(&mut self, events: &Vec<NoteEvent>)
        requires
            old(self).wf(),
            forall|i: int| 0 <= i < events@.len() ==> events@[i].valid(),
        ensures
            final(self).wf(),
            final(self).kind == old(self).kind,
            final(self).sample_rate == old(self).sample_rate,
            forall|m: u8|
                loudness_of(final(self).voices@, m) == event_loudness(
                    events@,
                    m,
                    loudness_of(old(self).voices@, m),
                ),
            final(self).clock == if events@.len() > 0 && final(self).voices@.len() == 0 {
                0
            } else {
                old(self).clock
            },
    {
        let ghost init = self.voices@;
        let mut i: usize = 0;
        while i < events.len()
            invariant
                0 <= i <= events@.len(),
                self.wf(),
                self.kind == old(self).kind,
                self.sample_rate == old(self).sample_rate,
                self.clock == old(self).clock,
                forall|j: int| 0 <= j < events@.len() ==> events@[j].valid(),
                forall|m: u8|
                    loudness_of(self.voices@, m) == event_loudness(
                        events@.take(i as int),
                        m,
                        loudness_of(init, m),
                    ),
            decreases events@.len() - i,
        {
            let ghost before = self.voices@;
            let e = events[i];
            self.apply_event(e);
            proof {
                assert(events@.take(i as int + 1).drop_last() =~= events@.take(i as int));
                assert(events@.take(i as int + 1).last() == events@[i as int]);
                assert forall|m: u8| loudness_of(self.voices@, m) == event_loudness(
                    events@.take(i as int + 1),
                    m,
                    loudness_of(init, m),
                ) by {
                    match e {
                        NoteEvent::NoteOn(n, v) => {
                            if m != n {
                                assert(loudness_of(self.voices@, m) == loudness_of(before, m));
                            }
                        }
                        NoteEvent::NoteOff(n) => {
                            if m != n {
                                assert(loudness_of(self.voices@, m) == loudness_of(before, m));
                            }
                        }
                    }
                }
            }
            i = i + 1;
        }
        proof {
            assert(events@.take(events@.len() as int) =~= events@);
        }
        if events.len() > 0 && self.voices.len() == 0 {
            self.clock = 0;
        }
    }

    /// Computes the next output sample from the sounding voices and
    /// advances the clock.  The sample is the loudness-weighted sum,
    /// renormalized by the total loudness when that exceeds full
    /// amplitude, and therefore never leaves the Q15 unit range; with no
    /// voices it is exactly zero.
    pub fn next_sample(&mut self) -> (s: i32)
        requires
            old(self).wf(),
        ensures
            final(self).wf(),
            final(self).kind == old(self).kind,
            final(self).sample_rate == old(self).sample_rate,
            final(self).voices@ == old(self).voices@,
            final(self).clock == if old(self).clock < u64::MAX {
                old(self).clock + 1
            } else {
                u64::MAX as int
            },
            s == spec_mixed_sample(
                old(self).voices@,
                old(self).kind,
                old(self).clock as nat,
                old(self).sample_rate as nat,
            ),
            -AMP_ONE <= s <= AMP_ONE,
            old(self).voices@.len() == 0 ==> s == 0,
    {
        let ghost vs = self.voices@;
        let ghost rate = self.sample_rate as nat;
        let ghost pos = self.clock as nat;
        proof {
            lemma_voices_len_bound(vs);
            lemma_voices_sum_bounded(vs, self.kind, pos, rate);
        }
        let mut acc: i64 = 0;
        let mut tot: u64 = 0;
        let mut i: usize = 0;
        while i < self.voices.len()
            invariant
                0 <= i <= self.voices@.len(),
                self.wf(),
                self.voices@ == vs,
                rate == self.sample_rate,
                pos == self.clock,
                vs.len() <= 128,
                acc == voices_sum(vs.take(i as int), self.kind, pos, rate),
                tot == total_loudness(vs.take(i as int)),
                tot <= i * (AMP_ONE as int),
                -(tot * AMP_ONE) <= acc <= tot * AMP_ONE,
            decreases self.voices@.len() - i,
        {
            let v = self.voices[i];
            let f = midi_to_frequency(v.note);
            let w = generate(self.kind, self.clock, self.sample_rate, f);
            proof {
                assert(vs.take(i as int + 1).drop_last() =~= vs.take(i as int));
                assert(vs.take(i as int + 1).last() == vs[i as int]);
                let l = v.loudness_q as int;
                assert(-(l * AMP_ONE) <= l * (w as int) <= l * AMP_ONE) by (nonlinear_arith)
                    requires
                        0 <= l,
                        -AMP_ONE <= w as int <= AMP_ONE;
                assert(l * 32768 <= 32768 * 32768) by (nonlinear_arith)
                    requires 0 <= l <= 32768;
                assert((tot + l) * (AMP_ONE as int) == tot * (AMP_ONE as int) + l * (
                AMP_ONE as int)) by (nonlinear_arith);
                assert((i + 1) * (AMP_ONE as int) == i * (AMP_ONE as int) + AMP_ONE)
                    by (nonlinear_arith);
                assert(tot * (AMP_ONE as int) <= 128 * 32768 * 32768) by (nonlinear_arith)
                    requires 0 <= tot <= 128 * 32768;
                assert((tot + l) * (AMP_ONE as int) <= 129 * 32768 * 32768) by (nonlinear_arith)
                    requires
                        0 <= tot + l <= 129 * 32768,
                        0 <= tot,
                        0 <= l;
            }
            acc = acc + (v.loudness_q as i64) * (w as i64);
            tot = tot + (v.loudness_q as u64);
            i = i + 1;
        }
        proof {
            assert(vs.take(vs.len() as int) =~= vs);
        }
        let s64: i64 = if tot > AMP_ONE as u64 {
            proof {
                lemma_tdiv_bound(acc as int, tot as int, AMP_ONE as int);
            }
            div_to_zero(acc, tot)
        } else {
            proof {
                assert(tot * (AMP_ONE as int) <= (AMP_ONE as int) * (AMP_ONE as int))
                    by (nonlinear_arith)
                    requires 0 <= tot <= AMP_ONE as int;
                lemma_tdiv_bound(acc as int, AMP_ONE as int, AMP_ONE as int);
            }
            div_to_zero(acc, AMP_ONE as u64)
        };
        self.clock = if self.clock < u64::MAX {
            self.clock + 1
        } else {
            u64::MAX
        };
        s64 as i32
    }
}

impl Mixer {
    /// Fills a frame buffer from the sounding voices: each frame carries
    /// one mixed sample, attenuated by the volume factor and clamped to
    /// PCM range, replicated across all its channels.  Pending events
    /// must have been drained first; the voice set does not change while
    /// the buffer fills.
    pub fn fill_frames(&mut self, data: &mut Vec<i16>, channels: usize, volume_q: u32)
        requires
            old(self).wf(),
            1 <= channels,
            volume_q <= AMP_ONE,
            old(data)@.len() <= usize::MAX,
            old(self).clock + old(data)@.len() < u64::MAX,
        ensures
            final(self).wf(),
            final(self).voices@ == old(self).voices@,
            final(self).kind == old(self).kind,
            final(self).sample_rate == old(self).sample_rate,
            final(data)@.len() == old(data)@.len(),
            forall|k: int|
                0 <= k < old(data)@.len() ==> final(data)@[k]
                    == crate::render::spec_clamp_i16(
                    crate::render::spec_volume(
                        spec_mixed_sample(
                            old(self).voices@,
                            old(self).kind,
                            (old(self).clock + k / channels as int) as nat,
                            old(self).sample_rate as nat,
                        ),
                        volume_q as int,
                    ),
                ),
            final(self).clock == old(self).clock + ((old(data)@.len() + channels - 1) as int
                / channels as int),
    {
        let ghost start = *old(self);
        let n = data.len();
        let mut base: usize = 0;
        let mut f: usize = 0;
        while base < n
            invariant
                self.wf(),
                1 <= channels,
                volume_q <= AMP_ONE,
                data@.len() == n,
                n <= usize::MAX,
                start.clock + n < u64::MAX,
                base <= n,
                f <= base,
                base < n ==> base == f * channels,
                base == n ==> n <= f * channels,
                f >= 1 ==> (f - 1) * channels < n,
                f == 0 ==> base == 0,
                self.voices@ == start.voices@,
                self.kind == start.kind,
                self.sample_rate == start.sample_rate,
                self.clock == start.clock + f,
                forall|k: int|
                    0 <= k < base ==> data@[k] == crate::render::spec_clamp_i16(
                        crate::render::spec_volume(
                            spec_mixed_sample(
                                start.voices@,
                                start.kind,
                                (start.clock + k / channels as int) as nat,
                                start.sample_rate as nat,
                            ),
                            volume_q as int,
                        ),
                    ),
            decreases n - base,
        {
            let v = self.next_sample();
            let scaled = crate::render::apply_volume(v as i64, volume_q);
            let s = crate::render::clamp_to_i16(scaled);
            let mut c: usize = 0;
            while c < channels && base + c < n
                invariant
                    0 <= c <= channels,
                    base + c <= n,
                    base == f * channels,
                    data@.len() == n,
                    s == crate::render::spec_clamp_i16(
                        crate::render::spec_volume(
                            spec_mixed_sample(
                                start.voices@,
                                start.kind,
                                (start.clock + f) as nat,
                                start.sample_rate as nat,
                            ),
                            volume_q as int,
                        ),
                    ),
                    forall|k: int|
                        0 <= k < base + c ==> data@[k] == crate::render::spec_clamp_i16(
                            crate::render::spec_volume(
                                spec_mixed_sample(
                                    start.voices@,
                                    start.kind,
                                    (start.clock + k / channels as int) as nat,
                                    start.sample_rate as nat,
                                ),
                                volume_q as int,
                            ),
                        ),
                decreases channels - c,
            {
                data.set(base + c, s);
                proof {
                    vstd::arithmetic::div_mod::lemma_div_multiples_vanish_fancy(
                        f as int,
                        c as int,
                        channels as int,
                    );
                    assert((channels as int) * (f as int) == (f as int) * (channels as int))
                        by (nonlinear_arith);
                    assert(((base + c) as int) / (channels as int) == f as int);
                }
                c = c + 1;
            }
            proof {
                assert((f + 1) * channels == f * channels + channels) by (nonlinear_arith);
            }
            base = base + if channels <= n - base {
                channels
            } else {
                n - base
            };
            f = f + 1;
        }
        proof {
            let steps = ((n + channels - 1) as int) / (channels as int);
            if n == 0 {
                assert(f == 0);
                vstd::arithmetic::div_mod::lemma_div_pos_is_pos(
                    (channels - 1) as int,
                    channels as int,
                );
                vstd::arithmetic::div_mod::lemma_basic_div((channels - 1) as int, channels as int);
                assert(steps == 0);
            } else {
                assert(f >= 1);
                let fi = f as int;
                let ch = channels as int;
                let r = (n + ch - 1) - ch * fi;
                vstd::arithmetic::mul::lemma_mul_is_commutative(ch, fi);
                assert((fi - 1) * ch == fi * ch - ch) by (nonlinear_arith);
                assert(0 <= r < ch);
                vstd::arithmetic::div_mod::lemma_fundamental_div_mod_converse_div(
                    (n + ch - 1) as int,
                    ch,
                    fi,
                    r,
                );
                assert(steps == fi);
            }
        }
    }
}

/// The loudness a note ends at after a batch of events, given what it
/// was before: the last event touching the note wins.
pub open spec fn event_loudness(events: Seq<NoteEvent>, note: u8, init: Option<u32>) -> Option<
    u32,
>
    decreases events.len(),
{
    if events.len() == 0 {
        init
    } else {
        match events.last() {
            NoteEvent::NoteOn(n, v) => if n == note {
                Some(spec_loudness(v as nat) as u32)
            } else {
                event_loudness(events.drop_last(), note, init)
            },
            NoteEvent::NoteOff(n) => if n == note {
                None
            } else {
                event_loudness(events.drop_last(), note, init)
            },
        }
    }
}

/// A note that occurs at some index has a loudness.
proof fn lemma_loudness_present(vs: Seq<Voice>, i: int, note: u8)
    requires
        0 <= i < vs.len(),
        vs[i].note == note,
    ensures
        loudness_of(vs, note) is Some,
    decreases i,
{
    if vs[0].note == note {
    } else {
        lemma_loudness_present(vs.drop_first(), i - 1, note);
    }
}

} // verus!
