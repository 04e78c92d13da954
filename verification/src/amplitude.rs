//! The amplitude normalizer: estimates the peak absolute value of a
//! linear mix of oscillators and supplies the divisor that keeps the
//! mixed signal within the Q15 unit range.
//!
//! Two strategies are selectable by configuration: a fast, conservative
//! count of the active oscillators (every waveform peaks at full
//! amplitude, so their aligned sum can never exceed the count), and an
//! exact scan of one combined period that tracks the largest absolute
//! sum actually produced.

use vstd::prelude::*;
use vstd::arithmetic::div_mod::lemma_mod_bound;
use crate::osc::{generate, phase_at, phase_denom, sample_value, Oscillator};
use crate::{lemma_tdiv_bound, tdiv, AMP_ONE, RATE_MAX};

verus! {

/// Most oscillators any one mix may hold; keeps every accumulator far
/// from the machine's integer limits.
pub const MAX_OSCILLATORS: usize = 1000000;

/// Which peak-amplitude estimate a render session uses.
#[derive(Clone, Copy, Debug, PartialEq, Eq, Structural)]
pub enum AmplitudeStrategy {
    /// Count the active oscillators: conservative, never under-estimates.
    Fast,
    /// Scan one combined period and take the largest absolute sum: exact
    /// for a fixed-frequency, unweighted mix.
    Exact,
}

/// How many of the oscillators are active (non-silent, positive
/// frequency).
pub open spec fn active_count(oscs: Seq<Oscillator>) -> nat
    decreases oscs.len(),
{
    if oscs.len() == 0 {
        0
    } else {
        active_count(oscs.drop_last()) + if oscs.last().active() {
            1nat
        } else {
            0nat
        }
    }
}

/// The sum of all oscillators' samples at one position.
pub open spec fn mix_sum(oscs: Seq<Oscillator>, pos: nat, sample_rate: nat) -> int
    decreases oscs.len(),
{
    if oscs.len() == 0 {
        0
    } else {
        mix_sum(oscs.drop_last(), pos, sample_rate) + sample_value(
            oscs.last().kind,
            pos,
            oscs.last().freq_mhz as nat,
            sample_rate,
        )
    }
}

/// A mix of `n` oscillators stays within `n` full amplitudes.
pub proof fn lemma_mix_sum_bounded(oscs: Seq<Oscillator>, pos: nat, sample_rate: nat)
    requires
        1 <= sample_rate,
    ensures
        -(oscs.len() * AMP_ONE) <= mix_sum(oscs, pos, sample_rate) <= oscs.len() * AMP_ONE,
    decreases oscs.len(),
{
    if oscs.len() == 0 {
    } else {
        lemma_mix_sum_bounded(oscs.drop_last(), pos, sample_rate);
        let d = phase_denom(sample_rate);
        lemma_mod_bound((pos * oscs.last().freq_mhz) as int, d as int);
        crate::osc::lemma_wave_value_bounded(
            oscs.last().kind,
            phase_at(pos, oscs.last().freq_mhz as nat, sample_rate),
            d,
        );
        assert(oscs.len() * AMP_ONE == (oscs.len() - 1) * AMP_ONE + AMP_ONE) by (nonlinear_arith);
    }
}

/// The sum of all oscillators' samples at one position, computed over the
/// whole vector.
pub fn mix_at(oscs: &Vec<Oscillator>, pos: u64, sample_rate: u32) -> (acc: i64)
    requires
        1 <= sample_rate <= RATE_MAX,
        oscs@.len() <= MAX_OSCILLATORS,
        forall|i: int| 0 <= i < oscs@.len() ==> oscs@[i].valid(),
    ensures
        acc == mix_sum(oscs@, pos as nat, sample_rate as nat),
        -(oscs@.len() * AMP_ONE) <= acc <= oscs@.len() * AMP_ONE,
{
    let mut acc: i64 = 0;
    let mut i: usize = 0;
    while i < oscs.len()
        invariant
            0 <= i <= oscs@.len(),
            1 <= sample_rate <= RATE_MAX,
            oscs@.len() <= MAX_OSCILLATORS,
            forall|j: int| 0 <= j < oscs@.len() ==> oscs@[j].valid(),
            acc == mix_sum(oscs@.take(i as int), pos as nat, sample_rate as nat),
            -(i * AMP_ONE) <= acc <= i * AMP_ONE,
        decreases oscs@.len() - i,
    {
        let o = oscs[i];
        let v = generate(o.kind, pos, sample_rate, o.freq_mhz);
        proof {
            assert(oscs@.take(i as int + 1).drop_last() =~= oscs@.take(i as int));
            assert(oscs@.take(i as int + 1).last() == oscs@[i as int]);
            assert((i + 1) * AMP_ONE == i * AMP_ONE + AMP_ONE) by (nonlinear_arith);
        }
        acc = acc + (v as i64);
        i = i + 1;
    }
    proof {
        assert(oscs@.take(oscs@.len() as int) =~= oscs@);
    }
    acc
}

/// A sum of fixed-frequency waveforms repeats with any sample count
/// whose phase advance is a whole number of cycles for every oscillator
/// in the mix.
pub proof fn lemma_mix_sum_periodic(oscs: Seq<Oscillator>, pos: nat, p: nat, sample_rate: nat)
    requires
        1 <= sample_rate,
        forall|i: int|
            0 <= i < oscs.len() ==> (p * (oscs[i].freq_mhz as nat)) % phase_denom(sample_rate) == 0,
    ensures
        mix_sum(oscs, pos + p, sample_rate) == mix_sum(oscs, pos, sample_rate),
    decreases oscs.len(),
{
    if oscs.len() > 0 {
        assert(forall|i: int|
            0 <= i < oscs.drop_last().len() ==> (p * (oscs.drop_last()[i].freq_mhz as nat))
                % phase_denom(sample_rate) == 0);
        lemma_mix_sum_periodic(oscs.drop_last(), pos, p, sample_rate);
        crate::osc::lemma_sample_periodic(
            oscs.last().kind,
            pos,
            p,
            oscs.last().freq_mhz as nat,
            sample_rate,
        );
    }
}

/// The largest absolute mix sum over the sample positions before
/// `period`: a trough below zero counts as much as a crest above it.
pub open spec fn peak_scan(oscs: Seq<Oscillator>, period: nat, sample_rate: nat) -> int
    decreases period,
{
    if period == 0 {
        0
    } else {
        let prev = peak_scan(oscs, (period - 1) as nat, sample_rate);
        let m = mix_sum(oscs, (period - 1) as nat, sample_rate);
        let cur = if m >= 0 {
            m
        } else {
            -m
        };
        if cur > prev {
            cur
        } else {
            prev
        }
    }
}

/// The scanned peak is never negative and never exceeds the mix bound.
pub proof fn lemma_peak_scan_bounds(oscs: Seq<Oscillator>, period: nat, sample_rate: nat)
    requires
        1 <= sample_rate,
    ensures
        0 <= peak_scan(oscs, period, sample_rate) <= oscs.len() * AMP_ONE,
    decreases period,
{
    if period == 0 {
        assert(0 <= oscs.len() * AMP_ONE) by (nonlinear_arith);
    } else {
        lemma_peak_scan_bounds(oscs, (period - 1) as nat, sample_rate);
        lemma_mix_sum_bounded(oscs, (period - 1) as nat, sample_rate);
    }
}

/// The scanned peak dominates every mix sum inside the scanned period
/// in magnitude: with the exact strategy, no sum in one combined
/// period, positive or negative, escapes the estimate.
pub proof fn lemma_peak_scan_dominates(
    oscs: Seq<Oscillator>,
    pos: nat,
    period: nat,
    sample_rate: nat,
)
    requires
        pos < period,
    ensures
        -peak_scan(oscs, period, sample_rate) <= mix_sum(oscs, pos, sample_rate) <= peak_scan(
            oscs,
            period,
            sample_rate,
        ),
    decreases period,
{
    if pos < period - 1 {
        lemma_peak_scan_dominates(oscs, pos, (period - 1) as nat, sample_rate);
    }
}

/// Normalizing by the exact scanned peak keeps every sample of the
/// scanned period within the unit range: the peak dominates each sum in
/// magnitude, whether the division is applied (peak above full
/// amplitude) or not (every sum already within full amplitude).
pub proof fn lemma_normalized_scan_in_range(
    oscs: Seq<Oscillator>,
    pos: nat,
    period: nat,
    sample_rate: nat,
)
    requires
        pos < period,
    ensures
        -AMP_ONE <= spec_normalize(
            mix_sum(oscs, pos, sample_rate),
            peak_scan(oscs, period, sample_rate),
        ) <= AMP_ONE,
{
    let m = mix_sum(oscs, pos, sample_rate);
    let peak = peak_scan(oscs, period, sample_rate);
    lemma_peak_scan_dominates(oscs, pos, period, sample_rate);
    if peak > AMP_ONE {
        assert(-(peak * (AMP_ONE as int)) <= m * (AMP_ONE as int) <= peak * (AMP_ONE as int))
            by (nonlinear_arith)
            requires -peak <= m <= peak;
        lemma_tdiv_bound(m * (AMP_ONE as int), peak, AMP_ONE as int);
        vstd::arithmetic::mul::lemma_mul_is_commutative(peak, AMP_ONE as int);
    }
}

/// A valid mix stays within its active count at full amplitude: silent
/// oscillators contribute nothing, so only the active ones bound the sum.
pub proof fn lemma_mix_sum_bounded_active(oscs: Seq<Oscillator>, pos: nat, sample_rate: nat)
    requires
        1 <= sample_rate,
        forall|i: int| 0 <= i < oscs.len() ==> oscs[i].valid(),
    ensures
        -(active_count(oscs) * AMP_ONE) <= mix_sum(oscs, pos, sample_rate) <= active_count(oscs)
            * AMP_ONE,
    decreases oscs.len(),
{
    if oscs.len() > 0 {
        assert(forall|i: int|
            0 <= i < oscs.drop_last().len() ==> oscs.drop_last()[i].valid());
        lemma_mix_sum_bounded_active(oscs.drop_last(), pos, sample_rate);
        let d = phase_denom(sample_rate);
        lemma_mod_bound((pos * oscs.last().freq_mhz) as int, d as int);
        crate::osc::lemma_wave_value_bounded(
            oscs.last().kind,
            phase_at(pos, oscs.last().freq_mhz as nat, sample_rate),
            d,
        );
        if oscs.last().active() {
            assert(active_count(oscs) * AMP_ONE == active_count(oscs.drop_last()) * AMP_ONE
                + AMP_ONE) by (nonlinear_arith)
                requires active_count(oscs) == active_count(oscs.drop_last()) + 1;
        }
    }
}

/// The fast strategy never under-estimates: the exact scanned peak of a
/// valid mix can never exceed the count of active oscillators at full
/// amplitude.
pub proof fn lemma_fast_dominates_exact(oscs: Seq<Oscillator>, period: nat, sample_rate: nat)
    requires
        1 <= sample_rate,
        forall|i: int| 0 <= i < oscs.len() ==> oscs[i].valid(),
    ensures
        peak_scan(oscs, period, sample_rate) <= active_count(oscs) * AMP_ONE,
    decreases period,
{
    if period == 0 {
        assert(0 <= active_count(oscs) * AMP_ONE) by (nonlinear_arith);
    } else {
        lemma_fast_dominates_exact(oscs, (period - 1) as nat, sample_rate);
        lemma_mix_sum_bounded_active(oscs, (period - 1) as nat, sample_rate);
    }
}

/// Estimates the peak absolute amplitude of the mix, in the Q15 scale,
/// by the selected strategy: exactly the count of active oscillators at
/// full amplitude, or exactly the largest absolute sum over one combined
/// period.
pub fn calculate_amplitude(
    strategy: AmplitudeStrategy,
    oscs: &Vec<Oscillator>,
    combined_period: u64,
    sample_rate: u32,
) -> (peak: u64)
    requires
        1 <= sample_rate <= RATE_MAX,
        oscs@.len() <= MAX_OSCILLATORS,
        forall|i: int| 0 <= i < oscs@.len() ==> oscs@[i].valid(),
    ensures
        strategy is Fast ==> peak == active_count(oscs@) * AMP_ONE,
        strategy is Exact ==> peak == peak_scan(
            oscs@,
            combined_period as nat,
            sample_rate as nat,
        ),
        peak <= oscs@.len() * AMP_ONE,
{
    match strategy {
        AmplitudeStrategy::Fast => {
            let mut count: u64 = 0;
            let mut i: usize = 0;
            while i < oscs.len()
                invariant
                    0 <= i <= oscs@.len(),
                    count == active_count(oscs@.take(i as int)),
                    count <= i,
                decreases oscs@.len() - i,
            {
                let o = oscs[i];
                let active = !matches!(o.kind, crate::osc::WaveformKind::Silence) && o.freq_mhz
                    >= 1;
                proof {
                    assert(oscs@.take(i as int + 1).drop_last() =~= oscs@.take(i as int));
                    assert(oscs@.take(i as int + 1).last() == oscs@[i as int]);
                }
                if active {
                    count = count + 1;
                }
                i = i + 1;
            }
            proof {
                assert(oscs@.take(oscs@.len() as int) =~= oscs@);
                assert(count * (AMP_ONE as u64) <= oscs@.len() * AMP_ONE) by (nonlinear_arith)
                    requires count <= oscs@.len();
            }
            count * (AMP_ONE as u64)
        }
        AmplitudeStrategy::Exact => {
            let mut max: i64 = 0;
            let mut pos: u64 = 0;
            proof {
                lemma_peak_scan_bounds(oscs@, combined_period as nat, sample_rate as nat);
            }
            while pos < combined_period
                invariant
                    0 <= pos <= combined_period,
                    1 <= sample_rate <= RATE_MAX,
                    oscs@.len() <= MAX_OSCILLATORS,
                    forall|j: int| 0 <= j < oscs@.len() ==> oscs@[j].valid(),
                    max == peak_scan(oscs@, pos as nat, sample_rate as nat),
                    0 <= max <= oscs@.len() * AMP_ONE,
                decreases combined_period - pos,
            {
                let acc = mix_at(oscs, pos, sample_rate);
                let mag = if acc >= 0 {
                    acc
                } else {
                    -acc
                };
                if mag > max {
                    max = mag;
                }
                pos = pos + 1;
            }
            max as u64
        }
    }
}

/// What normalization does to one accumulated sample: divide by the peak
/// (in the Q15 scale) only when the peak exceeds full amplitude.
pub open spec fn spec_normalize(acc: int, peak: int) -> int {
    if peak > AMP_ONE {
        tdiv(acc * AMP_ONE, peak)
    } else {
        acc
    }
}

/// Applies the peak divisor to one accumulated sample.  A sample within
/// the peak comes out within full amplitude.
pub fn normalize_sample(acc: i64, peak: u64) -> (r: i64)
    requires
        -(1000000 * AMP_ONE as int) <= acc <= 1000000 * AMP_ONE as int,
        peak <= 1000000 * AMP_ONE as int,
    ensures
        r == spec_normalize(acc as int, peak as int),
        peak > AMP_ONE && -(peak as int) <= acc <= peak as int ==> -AMP_ONE <= r <= AMP_ONE,
        -(1000000 * AMP_ONE as int) <= r <= 1000000 * AMP_ONE as int,
{
    if peak > AMP_ONE as u64 {
        proof {
            assert(-((1000000 * AMP_ONE as int) * (peak as int)) <= (acc as int) * (
            AMP_ONE as int) <= (1000000 * AMP_ONE as int) * (peak as int)) by (nonlinear_arith)
                requires
                    -(1000000 * AMP_ONE as int) <= acc <= 1000000 * AMP_ONE as int,
                    AMP_ONE < peak;
            lemma_tdiv_bound(
                (acc as int) * (AMP_ONE as int),
                peak as int,
                1000000 * AMP_ONE as int,
            );
            if -(peak as int) <= acc <= peak as int {
                assert(-((peak as int) * (AMP_ONE as int)) <= (acc as int) * (AMP_ONE as int) <= (
                peak as int) * (AMP_ONE as int)) by (nonlinear_arith)
                    requires -(peak as int) <= acc <= peak as int;
                lemma_tdiv_bound((acc as int) * (AMP_ONE as int), peak as int, AMP_ONE as int);
                vstd::arithmetic::mul::lemma_mul_is_commutative(peak as int, AMP_ONE as int);
            }
        }
        div_to_zero_scaled(acc, peak)
    } else {
        acc
    }
}

/// Scales the accumulator into Q15 and divides by the peak, truncating
/// toward zero.
fn div_to_zero_scaled(acc: i64, peak: u64) -> (r: i64)
    requires
        1 <= peak <= 1000000 * AMP_ONE as int,
        -(1000000 * AMP_ONE as int) <= acc <= 1000000 * AMP_ONE as int,
    ensures
        r == tdiv((acc as int) * (AMP_ONE as int), peak as int),
{
    crate::div_to_zero(acc * (AMP_ONE as i64), peak)
}

} // verus!
