//! The render pipeline: drives the oscillators, the normalizer, the FM
//! composer and the filter one sample per clock tick, either filling a
//! caller-supplied frame buffer for live output or producing a
//! fixed-length sample array for offline capture.
//!
//! A stream owns its clock and filter memory; one computed mono sample
//! is replicated across every channel of each output frame.

use vstd::prelude::*;
use vstd::arithmetic::div_mod::lemma_div_multiples_vanish_fancy;
use crate::amplitude::{
    active_count, calculate_amplitude, mix_at, mix_sum, normalize_sample, peak_scan,
    spec_normalize, AmplitudeStrategy, MAX_OSCILLATORS,
};
use crate::filter::{spec_filter_step, LowPassFilter, FILTER_RANGE};
use crate::fm::{
    fm_degenerate, fm_effective_freq, fm_sample, spec_fm_sample, Modulator, MAX_MODULATORS,
};
use crate::osc::Oscillator;
use crate::period::{combined_period, spec_combined_period};
use crate::{div_to_zero, lemma_tdiv_bound, tdiv, AMP_ONE, ConfigError, RATE_MAX};

verus! {

/// A Q15 value clamped into the signed sixteen-bit PCM range.
pub open spec fn spec_clamp_i16(v: int) -> int {
    if v < -32768 {
        -32768
    } else if v > 32767 {
        32767
    } else {
        v
    }
}

/// Clamps an accumulator to the signed sixteen-bit PCM range.
pub fn clamp_to_i16(v: i64) -> (r: i16)
    ensures
        r == spec_clamp_i16(v as int),
{
    if v < -32768 {
        -32768
    } else if v > 32767 {
        32767
    } else {
        v as i16
    }
}

/// A sample attenuated by a Q15 volume factor.
pub open spec fn spec_volume(v: int, volume_q: int) -> int {
    tdiv(v * volume_q, AMP_ONE as int)
}

/// Applies a Q15 volume factor to a sample, truncating toward zero.
pub fn apply_volume(v: i64, volume_q: u32) -> (r: i64)
    requires
        -FILTER_RANGE <= v <= FILTER_RANGE,
        volume_q <= AMP_ONE,
    ensures
        r == spec_volume(v as int, volume_q as int),
        -FILTER_RANGE <= r <= FILTER_RANGE,
{
    proof {
        assert(-(1099511627776int * 32768) <= (v as int) * (volume_q as int) <= 1099511627776int
            * 32768) by (nonlinear_arith)
            requires
                -1099511627776 <= v <= 1099511627776,
                0 <= volume_q <= 32768;
        lemma_tdiv_bound((v as int) * (volume_q as int), AMP_ONE as int, FILTER_RANGE as int);
        assert((FILTER_RANGE as int) * (AMP_ONE as int) == 1099511627776int * 32768);
    }
    div_to_zero(v * (volume_q as i64), AMP_ONE as u64)
}

/// The filtered offline mix at one sample position: the oscillators'
/// sum, normalized by the peak estimate, run through the single-pole
/// low-pass recurrence from cleared memory.
pub open spec fn mix_filtered(
    oscs: Seq<Oscillator>,
    sample_rate: nat,
    peak_q: int,
    alpha_q: int,
    n: nat,
) -> int
    decreases n,
{
    let u = spec_normalize(mix_sum(oscs, n, sample_rate), peak_q);
    let prev = if n == 0 {
        0int
    } else {
        mix_filtered(oscs, sample_rate, peak_q, alpha_q, (n - 1) as nat)
    };
    spec_filter_step(alpha_q, prev, u)
}

/// Renders one offline pass of a plain oscillator mix: for each sample
/// position up to `count`, the oscillators' sum, normalized by the peak
/// estimate, low-pass filtered by the given coefficient, clamped to PCM
/// range.
pub fn render_mix(
    oscs: &Vec<Oscillator>,
    sample_rate: u32,
    peak_q: u64,
    alpha_q: u32,
    count: u64,
) -> (r: Vec<i16>)
    requires
        1 <= sample_rate <= RATE_MAX,
        oscs@.len() <= MAX_OSCILLATORS,
        forall|i: int| 0 <= i < oscs@.len() ==> oscs@[i].valid(),
        peak_q <= 1000000 * AMP_ONE as int,
        alpha_q <= AMP_ONE,
        count <= RATE_MAX,
    ensures
        r@.len() == count,
        forall|i: int|
            0 <= i < count ==> r@[i] == spec_clamp_i16(
                mix_filtered(
                    oscs@,
                    sample_rate as nat,
                    peak_q as int,
                    alpha_q as int,
                    i as nat,
                ),
            ),
{
    let mut filter = LowPassFilter::with_alpha(alpha_q);
    let mut r: Vec<i16> = Vec::new();
    let mut pos: u64 = 0;
    while pos < count
        invariant
            0 <= pos <= count,
            1 <= sample_rate <= RATE_MAX,
            oscs@.len() <= MAX_OSCILLATORS,
            forall|j: int| 0 <= j < oscs@.len() ==> oscs@[j].valid(),
            peak_q <= 1000000 * AMP_ONE as int,
            filter.wf(),
            filter.alpha_q == alpha_q,
            filter.prev == if pos == 0 {
                0int
            } else {
                mix_filtered(
                    oscs@,
                    sample_rate as nat,
                    peak_q as int,
                    alpha_q as int,
                    (pos - 1) as nat,
                )
            },
            r@.len() == pos,
            forall|i: int|
                0 <= i < pos ==> r@[i] == spec_clamp_i16(
                    mix_filtered(
                        oscs@,
                        sample_rate as nat,
                        peak_q as int,
                        alpha_q as int,
                        i as nat,
                    ),
                ),
        decreases count - pos,
    {
        let acc = mix_at(oscs, pos, sample_rate);
        let norm = normalize_sample(acc, peak_q);
        let y = filter.step(norm);
        r.push(clamp_to_i16(y));
        pos = pos + 1;
    }
    r
}

/// Renders one offline pass of a frequency-modulated carrier: for each
/// sample position up to `count`, the FM sample attenuated by the volume
/// factor, clamped to PCM range.
pub fn render_fm(
    carrier: &Oscillator,
    mods: &Vec<Modulator>,
    sample_rate: u32,
    count: u64,
    volume_q: u32,
) -> (r: Vec<i16>)
    requires
        1 <= sample_rate <= RATE_MAX,
        carrier.valid(),
        mods@.len() <= MAX_MODULATORS,
        forall|i: int| 0 <= i < mods@.len() ==> mods@[i].valid(),
        volume_q <= AMP_ONE,
        count <= RATE_MAX,
    ensures
        r@.len() == count,
        forall|i: int|
            0 <= i < count ==> r@[i] == spec_clamp_i16(
                spec_volume(
                    spec_fm_sample(*carrier, mods@, i as nat, sample_rate as nat),
                    volume_q as int,
                ),
            ),
{
    let mut r: Vec<i16> = Vec::new();
    let mut pos: u64 = 0;
    while pos < count
        invariant
            0 <= pos <= count,
            1 <= sample_rate <= RATE_MAX,
            carrier.valid(),
            mods@.len() <= MAX_MODULATORS,
            forall|j: int| 0 <= j < mods@.len() ==> mods@[j].valid(),
            volume_q <= AMP_ONE,
            r@.len() == pos,
            forall|i: int|
                0 <= i < pos ==> r@[i] == spec_clamp_i16(
                    spec_volume(
                        spec_fm_sample(*carrier, mods@, i as nat, sample_rate as nat),
                        volume_q as int,
                    ),
                ),
        decreases count - pos,
    {
        let v = fm_sample(carrier, mods, pos, sample_rate);
        let scaled = apply_volume(v as i64, volume_q);
        r.push(clamp_to_i16(scaled));
        pos = pos + 1;
    }
    r
}

/// A live stream of a plain oscillator mix: the oscillators, the peak
/// estimate fixed for the session, the low-pass filter, the volume, and
/// the sample clock, which wraps once per second.
pub struct MixStream {
    pub oscs: Vec<Oscillator>,
    pub sample_rate: u32,
    pub peak_q: u64,
    pub filter: LowPassFilter,
    pub volume_q: u32,
    pub clock: u64,
}

impl MixStream {
    /// The stream's invariant.
    pub open spec fn wf(self) -> bool {
        &&& 1 <= self.sample_rate <= RATE_MAX
        &&& self.oscs@.len() <= MAX_OSCILLATORS
        &&& forall|i: int| 0 <= i < self.oscs@.len() ==> self.oscs@[i].valid()
        &&& self.peak_q <= 1000000 * AMP_ONE as int
        &&& self.filter.wf()
        &&& self.volume_q <= AMP_ONE
        &&& self.clock < self.sample_rate
    }

    /// Builds a stream: estimates the peak over one combined period by
    /// the selected strategy and derives the filter from the cutoff.
    /// Rejects an invalid oscillator, sample rate, or cutoff.
    pub fn new(
        oscs: Vec<Oscillator>,
        sample_rate: u32,
        strategy: AmplitudeStrategy,
        cutoff_mhz: u64,
        volume_q: u32,
    ) -> (r: Result<MixStream, ConfigError>)
        requires
            oscs@.len() <= MAX_OSCILLATORS,
            volume_q <= AMP_ONE,
        ensures
            r is Ok <==> ((forall|i: int| 0 <= i < oscs@.len() ==> oscs@[i].valid()) && 1
                <= sample_rate <= RATE_MAX && 1 <= cutoff_mhz && cutoff_mhz < 500 * sample_rate
                && crate::filter::spec_alpha(cutoff_mhz as nat, sample_rate as nat) >= 1),
            r is Ok ==> r->Ok_0.wf() && r->Ok_0.oscs@ == oscs@ && r->Ok_0.sample_rate
                == sample_rate && r->Ok_0.volume_q == volume_q && r->Ok_0.clock == 0
                && r->Ok_0.filter.prev == 0 && r->Ok_0.filter.alpha_q == crate::filter::spec_alpha(
                cutoff_mhz as nat,
                sample_rate as nat,
            ) && (strategy is Fast ==> r->Ok_0.peak_q == active_count(oscs@) * AMP_ONE) && (
            strategy is Exact ==> r->Ok_0.peak_q == peak_scan(
                oscs@,
                if spec_combined_period(oscs@, sample_rate as nat) >= sample_rate {
                    sample_rate as nat
                } else {
                    spec_combined_period(oscs@, sample_rate as nat)
                },
                sample_rate as nat,
            )),
            r is Err ==> r->Err_0 == ConfigError::InvalidConfig,
    {
        let mut i: usize = 0;
        let mut all_valid = true;
        while i < oscs.len()
            invariant
                0 <= i <= oscs@.len(),
                all_valid <==> (forall|j: int| 0 <= j < i ==> oscs@[j].valid()),
            decreases oscs@.len() - i,
        {
            let o = oscs[i];
            let ok = matches!(o.kind, crate::osc::WaveformKind::Silence) || (1 <= o.freq_mhz
                && o.freq_mhz <= crate::FREQ_MHZ_MAX);
            all_valid = all_valid && ok;
            i = i + 1;
        }
        if !all_valid || sample_rate < 1 || sample_rate > RATE_MAX {
            return Err(ConfigError::InvalidConfig);
        }
        let filter = match LowPassFilter::new(cutoff_mhz, sample_rate) {
            Ok(f) => f,
            Err(e) => {
                return Err(e);
            }
        };
        let period = combined_period(&oscs, sample_rate);
        let peak_q = calculate_amplitude(strategy, &oscs, period, sample_rate);
        proof {
            crate::amplitude::lemma_peak_scan_bounds(
                oscs@,
                period as nat,
                sample_rate as nat,
            );
            assert(oscs@.len() * (AMP_ONE as int) <= 1000000 * (AMP_ONE as int))
                by (nonlinear_arith)
                requires oscs@.len() <= 1000000;
        }
        Ok(MixStream { oscs, sample_rate, peak_q, filter, volume_q, clock: 0 })
    }

    /// What one step of the stream produces: the next state and the
    /// output sample.
    pub open spec fn step(self) -> (MixStream, int) {
        let acc = mix_sum(self.oscs@, self.clock as nat, self.sample_rate as nat);
        let norm = spec_normalize(acc, self.peak_q as int);
        let y = spec_filter_step(self.filter.alpha_q as int, self.filter.prev as int, norm);
        let out = spec_clamp_i16(spec_volume(y, self.volume_q as int));
        (
            MixStream {
                filter: LowPassFilter { alpha_q: self.filter.alpha_q, prev: y as i64 },
                clock: (((self.clock + 1) as nat % self.sample_rate as nat)) as u64,
                ..self
            },
            out,
        )
    }

    /// The stream's state after some number of steps.
    pub open spec fn state_after(self, k: nat) -> MixStream
        decreases k,
    {
        if k == 0 {
            self
        } else {
            self.state_after((k - 1) as nat).step().0
        }
    }

    /// The sample the stream emits at step `k`.
    pub open spec fn sample_at(self, k: nat) -> int {
        self.state_after(k).step().1
    }

    /// Computes the next output sample — the mix, normalized, filtered,
    /// attenuated, clamped — and advances the clock, wrapping it at one
    /// second.
    pub fn next_sample(&mut self) -> (s: i16)
        requires
            old(self).wf(),
        ensures
            final(self).wf(),
            *final(self) == old(self).step().0,
            s == old(self).step().1,
    {
        let acc = mix_at(&self.oscs, self.clock, self.sample_rate);
        let norm = normalize_sample(acc, self.peak_q);
        let y = self.filter.step(norm);
        let scaled = apply_volume(y, self.volume_q);
        let out = clamp_to_i16(scaled);
        self.clock = (self.clock + 1) % (self.sample_rate as u64);
        out
    }

    /// Fills a frame buffer: each frame carries one computed sample
    /// replicated across all its channels, frame after frame, leaving
    /// the stream at the state past the last frame.
    pub fn fill(&mut self, data: &mut Vec<i16>, channels: usize)
        requires
            old(self).wf(),
            1 <= channels,
            old(data)@.len() <= usize::MAX,
        ensures
            final(self).wf(),
            final(data)@.len() == old(data)@.len(),
            forall|k: int|
                0 <= k < old(data)@.len() ==> final(data)@[k] == old(self).sample_at(
                    (k / channels as int) as nat,
                ),
            *final(self) == old(self).state_after(
                (((old(data)@.len() + channels - 1) as int / channels as int)) as nat,
            ),
    {
        let ghost start = *old(self);
        let n = data.len();
        let mut base: usize = 0;
        let mut f: usize = 0;
        while base < n
            invariant
                self.wf(),
                1 <= channels,
                data@.len() == n,
                n <= usize::MAX,
                base <= n,
                f <= base,
                base < n ==> base == f * channels,
                base == n ==> n <= f * channels,
                f >= 1 ==> (f - 1) * channels < n,
                f == 0 ==> base == 0,
                *self == start.state_after(f as nat),
                forall|k: int|
                    0 <= k < base ==> data@[k] == start.sample_at((k / channels as int) as nat),
            decreases n - base,
        {
            let s = self.next_sample();
            proof {
                assert(start.state_after((f + 1) as nat) == start.state_after(f as nat).step().0);
                assert(s == start.sample_at(f as nat));
            }
            let mut c: usize = 0;
            while c < channels && base + c < n
                invariant
                    0 <= c <= channels,
                    base + c <= n,
                    base == f * channels,
                    data@.len() == n,
                    s == start.sample_at(f as nat),
                    forall|k: int|
                        0 <= k < base + c ==> data@[k] == start.sample_at(
                            (k / channels as int) as nat,
                        ),
                decreases channels - c,
            {
                data.set(base + c, s);
                proof {
                    lemma_div_multiples_vanish_fancy(f as int, c as int, channels as int);
                    assert((channels as int) * (f as int) == (f as int) * (channels as int))
                        by (nonlinear_arith);
                    assert(((base + c) as int) / (channels as int) == f as int);
                }
                c = c + 1;
            }
            proof {
                assert((f + 1) * channels == f * channels + channels) by (nonlinear_arith);
            }
            base = base + if channels <= n - base {
                channels
            } else {
                n - base
            };
            f = f + 1;
        }
        proof {
            let steps = ((n + channels - 1) as int) / (channels as int);
            if n == 0 {
                assert(f == 0);
                vstd::arithmetic::div_mod::lemma_div_pos_is_pos(
                    (channels - 1) as int,
                    channels as int,
                );
                vstd::arithmetic::div_mod::lemma_basic_div((channels - 1) as int, channels as int);
                assert(steps == 0);
            } else {
                assert(f >= 1);
                let fi = f as int;
                let ch = channels as int;
                let r = (n + ch - 1) - ch * fi;
                vstd::arithmetic::mul::lemma_mul_is_commutative(ch, fi);
                assert((fi - 1) * ch == fi * ch - ch) by (nonlinear_arith);
                assert(0 <= r < ch);
                vstd::arithmetic::div_mod::lemma_fundamental_div_mod_converse_div(
                    (n + ch - 1) as int,
                    ch,
                    fi,
                    r,
                );
                assert(steps == fi);
            }
            assert(*self == start.state_after(steps as nat));
        }
    }
}

/// How many of the `n` sample positions starting at `from` drive the
/// carrier's effective frequency out of range, forcing a clamp.
pub open spec fn degeneracy_between(
    carrier: Oscillator,
    mods: Seq<Modulator>,
    sample_rate: nat,
    from: nat,
    n: nat,
) -> nat
    decreases n,
{
    if n == 0 {
        0
    } else {
        degeneracy_between(carrier, mods, sample_rate, from, (n - 1) as nat) + if fm_degenerate(
            carrier,
            mods,
            (from + n - 1) as nat,
            sample_rate,
        ) {
            1nat
        } else {
            0nat
        }
    }
}

/// No more positions degenerate than there are positions.
proof fn lemma_degeneracy_between_le(
    carrier: Oscillator,
    mods: Seq<Modulator>,
    sample_rate: nat,
    from: nat,
    n: nat,
)
    ensures
        degeneracy_between(carrier, mods, sample_rate, from, n) <= n,
    decreases n,
{
    if n > 0 {
        lemma_degeneracy_between_le(carrier, mods, sample_rate, from, (n - 1) as nat);
    }
}

/// A live frequency-modulated stream: the carrier, its modulators, the
/// volume, an unwrapped sample clock (wrapping it would tear the phase
/// audibly while the effective frequency moves), and a count of the
/// clamped degeneracies observed so far.
pub struct FmStream {
    pub carrier: Oscillator,
    pub mods: Vec<Modulator>,
    pub sample_rate: u32,
    pub volume_q: u32,
    pub clock: u64,
    pub degeneracy_count: u64,
}

impl FmStream {
    /// The stream's invariant.
    pub open spec fn wf(self) -> bool {
        &&& 1 <= self.sample_rate <= RATE_MAX
        &&& self.carrier.valid()
        &&& self.mods@.len() <= MAX_MODULATORS
        &&& forall|i: int| 0 <= i < self.mods@.len() ==> self.mods@[i].valid()
        &&& self.volume_q <= AMP_ONE
        &&& self.degeneracy_count <= self.clock
    }

    /// Builds a stream, rejecting an invalid carrier, modulator, or
    /// sample rate.
    pub fn new(
        carrier: Oscillator,
        mods: Vec<Modulator>,
        sample_rate: u32,
        volume_q: u32,
    ) -> (r: Result<FmStream, ConfigError>)
        requires
            mods@.len() <= MAX_MODULATORS,
            volume_q <= AMP_ONE,
        ensures
            r is Ok <==> (carrier.valid() && (forall|i: int|
                0 <= i < mods@.len() ==> mods@[i].valid()) && 1 <= sample_rate <= RATE_MAX),
            r is Ok ==> r->Ok_0.wf() && r->Ok_0.carrier == carrier && r->Ok_0.mods@ == mods@
                && r->Ok_0.sample_rate == sample_rate && r->Ok_0.volume_q == volume_q
                && r->Ok_0.clock == 0 && r->Ok_0.degeneracy_count == 0,
            r is Err ==> r->Err_0 == ConfigError::InvalidConfig,
    {
        let carrier_ok = matches!(carrier.kind, crate::osc::WaveformKind::Silence) || (1
            <= carrier.freq_mhz && carrier.freq_mhz <= crate::FREQ_MHZ_MAX);
        let mut i: usize = 0;
        let mut all_valid = true;
        while i < mods.len()
            invariant
                0 <= i <= mods@.len(),
                all_valid <==> (forall|j: int| 0 <= j < i ==> mods@[j].valid()),
            decreases mods@.len() - i,
        {
            let m = mods[i];
            let ok = (matches!(m.osc.kind, crate::osc::WaveformKind::Silence) || (1
                <= m.osc.freq_mhz && m.osc.freq_mhz <= crate::FREQ_MHZ_MAX)) && m.depth_mhz
                <= crate::FREQ_MHZ_MAX;
            all_valid = all_valid && ok;
            i = i + 1;
        }
        if !carrier_ok || !all_valid || sample_rate < 1 || sample_rate > RATE_MAX {
            Err(ConfigError::InvalidConfig)
        } else {
            Ok(FmStream { carrier, mods, sample_rate, volume_q, clock: 0, degeneracy_count: 0 })
        }
    }

    /// The sample the stream emits `k` steps past its current clock.
    pub open spec fn sample_at(self, k: nat) -> int {
        spec_clamp_i16(
            spec_volume(
                spec_fm_sample(
                    self.carrier,
                    self.mods@,
                    (self.clock + k) as nat,
                    self.sample_rate as nat,
                ),
                self.volume_q as int,
            ),
        )
    }

    /// Computes the next output sample — the frequency-modulated
    /// carrier, attenuated and clamped — advances the clock, and counts
    /// the position if its effective frequency had to be clamped.
    pub fn next_sample(&mut self) -> (s: i16)
        requires
            old(self).wf(),
            old(self).clock < u64::MAX,
        ensures
            final(self).wf(),
            s == old(self).sample_at(0),
            *final(self) == (FmStream {
                clock: (old(self).clock + 1) as u64,
                degeneracy_count: (old(self).degeneracy_count + if fm_degenerate(
                    old(self).carrier,
                    old(self).mods@,
                    old(self).clock as nat,
                    old(self).sample_rate as nat,
                ) {
                    1int
                } else {
                    0int
                }) as u64,
                ..*old(self)
            }),
    {
        let eff = fm_effective_freq(&self.carrier, &self.mods, self.clock, self.sample_rate);
        let v = crate::osc::generate(self.carrier.kind, self.clock, self.sample_rate, eff.0);
        let scaled = apply_volume(v as i64, self.volume_q);
        let out = clamp_to_i16(scaled);
        if eff.1 {
            self.degeneracy_count = self.degeneracy_count + 1;
        }
        self.clock = self.clock + 1;
        out
    }

    /// Fills a frame buffer: each frame carries one computed sample
    /// replicated across all its channels, frame after frame.
    pub fn fill(&mut self, data: &mut Vec<i16>, channels: usize)
        requires
            old(self).wf(),
            1 <= channels,
            old(data)@.len() <= usize::MAX,
            old(self).clock + old(data)@.len() <= u64::MAX,
        ensures
            final(self).wf(),
            final(data)@.len() == old(data)@.len(),
            forall|k: int|
                0 <= k < old(data)@.len() ==> final(data)@[k] == old(self).sample_at(
                    (k / channels as int) as nat,
                ),
            *final(self) == (FmStream {
                clock: (old(self).clock + ((old(data)@.len() + channels - 1) as int
                    / channels as int)) as u64,
                degeneracy_count: (old(self).degeneracy_count + degeneracy_between(
                    old(self).carrier,
                    old(self).mods@,
                    old(self).sample_rate as nat,
                    old(self).clock as nat,
                    (((old(data)@.len() + channels - 1) as int / channels as int)) as nat,
                )) as u64,
                ..*old(self)
            }),
    {
        let ghost start = *old(self);
        proof {
            assert(degeneracy_between(
                start.carrier,
                start.mods@,
                start.sample_rate as nat,
                start.clock as nat,
                0,
            ) == 0);
        }
        let n = data.len();
        let mut base: usize = 0;
        let mut f: usize = 0;
        while base < n
            invariant
                self.wf(),
                1 <= channels,
                data@.len() == n,
                n <= usize::MAX,
                start.clock + n <= u64::MAX,
                start.degeneracy_count <= start.clock,
                base <= n,
                f <= base,
                base < n ==> base == f * channels,
                base == n ==> n <= f * channels,
                f >= 1 ==> (f - 1) * channels < n,
                f == 0 ==> base == 0,
                *self == (FmStream {
                    clock: (start.clock + f) as u64,
                    degeneracy_count: (start.degeneracy_count + degeneracy_between(
                        start.carrier,
                        start.mods@,
                        start.sample_rate as nat,
                        start.clock as nat,
                        f as nat,
                    )) as u64,
                    ..start
                }),
                forall|k: int|
                    0 <= k < base ==> data@[k] == start.sample_at((k / channels as int) as nat),
            decreases n - base,
        {
            proof {
                lemma_degeneracy_between_le(
                    start.carrier,
                    start.mods@,
                    start.sample_rate as nat,
                    start.clock as nat,
                    f as nat,
                );
                lemma_degeneracy_between_le(
                    start.carrier,
                    start.mods@,
                    start.sample_rate as nat,
                    start.clock as nat,
                    (f + 1) as nat,
                );
            }
            let s = self.next_sample();
            proof {
                assert(s == start.sample_at(f as nat));
                assert(degeneracy_between(
                    start.carrier,
                    start.mods@,
                    start.sample_rate as nat,
                    start.clock as nat,
                    (f + 1) as nat,
                ) == degeneracy_between(
                    start.carrier,
                    start.mods@,
                    start.sample_rate as nat,
                    start.clock as nat,
                    f as nat,
                ) + if fm_degenerate(
                    start.carrier,
                    start.mods@,
                    (start.clock + f) as nat,
                    start.sample_rate as nat,
                ) {
                    1nat
                } else {
                    0nat
                });
            }
            let mut c: usize = 0;
            while c < channels && base + c < n
                invariant
                    0 <= c <= channels,
                    base + c <= n,
                    base == f * channels,
                    data@.len() == n,
                    s == start.sample_at(f as nat),
                    forall|k: int|
                        0 <= k < base + c ==> data@[k] == start.sample_at(
                            (k / channels as int) as nat,
                        ),
                decreases channels - c,
            {
                data.set(base + c, s);
                proof {
                    lemma_div_multiples_vanish_fancy(f as int, c as int, channels as int);
                    assert((channels as int) * (f as int) == (f as int) * (channels as int))
                        by (nonlinear_arith);
                    assert(((base + c) as int) / (channels as int) == f as int);
                }
                c = c + 1;
            }
            proof {
                assert((f + 1) * channels == f * channels + channels) by (nonlinear_arith);
            }
            base = base + if channels <= n - base {
                channels
            } else {
                n - base
            };
            f = f + 1;
        }
        proof {
            let steps = ((n + channels - 1) as int) / (channels as int);
            if n == 0 {
                assert(f == 0);
                vstd::arithmetic::div_mod::lemma_div_pos_is_pos(
                    (channels - 1) as int,
                    channels as int,
                );
                vstd::arithmetic::div_mod::lemma_basic_div((channels - 1) as int, channels as int);
                assert(steps == 0);
            } else {
                assert(f >= 1);
                let fi = f as int;
                let ch = channels as int;
                let r = (n + ch - 1) - ch * fi;
                vstd::arithmetic::mul::lemma_mul_is_commutative(ch, fi);
                assert((fi - 1) * ch == fi * ch - ch) by (nonlinear_arith);
                assert(0 <= r < ch);
                vstd::arithmetic::div_mod::lemma_fundamental_div_mod_converse_div(
                    (n + ch - 1) as int,
                    ch,
                    fi,
                    r,
                );
                assert(steps == fi);
            }
        }
    }
}

} // verus!
