//! The FM composer: a carrier oscillator whose instantaneous frequency is
//! perturbed by the outputs of zero or more modulator oscillators.
//!
//! Each modulator adds its own sample, scaled by a modulation depth in
//! millihertz, to the carrier's frequency.  Should the combined
//! modulation drive the effective frequency to zero or below, it is
//! clamped to the smallest positive frequency (one millihertz) before
//! the carrier is generated, so composition never divides by zero and
//! playback continues through the degeneracy.

use vstd::prelude::*;
use vstd::arithmetic::div_mod::lemma_mod_bound;
use crate::osc::{generate, phase_at, phase_denom, sample_value, Oscillator};
use crate::{div_to_zero, lemma_tdiv_bound, tdiv, AMP_ONE, FREQ_MHZ_MAX, RATE_MAX};

verus! {

/// Most modulators any one carrier may take.
pub const MAX_MODULATORS: usize = 1000;

/// A modulator: an oscillator plus the depth, in millihertz, by which its
/// unit-scale output sways the carrier's frequency.
#[derive(Clone, Copy, Debug, PartialEq, Eq, Structural)]
pub struct Modulator {
    pub osc: Oscillator,
    pub depth_mhz: u32,
}

impl Modulator {
    /// A modulator is acceptable when its oscillator is and its depth is
    /// within the frequency range.
    pub open spec fn valid(self) -> bool {
        self.osc.valid() && self.depth_mhz <= FREQ_MHZ_MAX
    }
}

/// One modulator's frequency contribution at a sample position: its
/// Q15 output scaled by the depth, truncated toward zero.
pub open spec fn mod_contribution(m: Modulator, pos: nat, sample_rate: nat) -> int {
    tdiv(
        sample_value(m.osc.kind, pos, m.osc.freq_mhz as nat, sample_rate) * m.depth_mhz,
        AMP_ONE as int,
    )
}

/// The total frequency contribution of a set of modulators.
pub open spec fn mod_sum(mods: Seq<Modulator>, pos: nat, sample_rate: nat) -> int
    decreases mods.len(),
{
    if mods.len() == 0 {
        0
    } else {
        mod_sum(mods.drop_last(), pos, sample_rate) + mod_contribution(
            mods.last(),
            pos,
            sample_rate,
        )
    }
}

/// One contribution never exceeds the modulator's depth in magnitude.
pub proof fn lemma_mod_contribution_bounded(m: Modulator, pos: nat, sample_rate: nat)
    requires
        1 <= sample_rate,
    ensures
        -(m.depth_mhz as int) <= mod_contribution(m, pos, sample_rate) <= m.depth_mhz as int,
{
    let d = phase_denom(sample_rate);
    lemma_mod_bound((pos * m.osc.freq_mhz) as int, d as int);
    crate::osc::lemma_wave_value_bounded(
        m.osc.kind,
        phase_at(pos, m.osc.freq_mhz as nat, sample_rate),
        d,
    );
    let s = sample_value(m.osc.kind, pos, m.osc.freq_mhz as nat, sample_rate);
    assert(-((m.depth_mhz as int) * (AMP_ONE as int)) <= s * m.depth_mhz <= (m.depth_mhz as int)
        * (AMP_ONE as int)) by (nonlinear_arith)
        requires -AMP_ONE <= s <= AMP_ONE;
    lemma_tdiv_bound(s * m.depth_mhz, AMP_ONE as int, m.depth_mhz as int);
}

/// The total contribution of `n` valid modulators stays within `n` times
/// the depth bound.
pub proof fn lemma_mod_sum_bounded(mods: Seq<Modulator>, pos: nat, sample_rate: nat)
    requires
        1 <= sample_rate,
        forall|i: int| 0 <= i < mods.len() ==> mods[i].valid(),
    ensures
        -(mods.len() * FREQ_MHZ_MAX as int) <= mod_sum(mods, pos, sample_rate) <= mods.len()
            * FREQ_MHZ_MAX as int,
    decreases mods.len(),
{
    if mods.len() == 0 {
    } else {
        assert(forall|i: int|
            0 <= i < mods.drop_last().len() ==> mods.drop_last()[i].valid());
        lemma_mod_sum_bounded(mods.drop_last(), pos, sample_rate);
        lemma_mod_contribution_bounded(mods.last(), pos, sample_rate);
        assert(mods.len() * FREQ_MHZ_MAX as int == (mods.len() - 1) * FREQ_MHZ_MAX as int
            + FREQ_MHZ_MAX as int) by (nonlinear_arith);
    }
}

/// The carrier's effective frequency under modulation, clamped into the
/// engine's positive frequency range.
pub open spec fn effective_freq(
    carrier_mhz: nat,
    mods: Seq<Modulator>,
    pos: nat,
    sample_rate: nat,
) -> nat {
    let f = carrier_mhz + mod_sum(mods, pos, sample_rate);
    if f < 1 {
        1
    } else if f > FREQ_MHZ_MAX as int {
        FREQ_MHZ_MAX as nat
    } else {
        f as nat
    }
}

/// Whether the combined modulation drives the carrier's frequency out of
/// the positive range at this position, so that generation must clamp:
/// the arithmetic degeneracy the composer recovers from locally.
pub open spec fn fm_degenerate(
    carrier: Oscillator,
    mods: Seq<Modulator>,
    pos: nat,
    sample_rate: nat,
) -> bool {
    let f = carrier.freq_mhz + mod_sum(mods, pos, sample_rate);
    !(1 <= f <= FREQ_MHZ_MAX)
}

/// The frequency-modulated sample: the carrier generated at its effective
/// frequency for this position.
pub open spec fn spec_fm_sample(
    carrier: Oscillator,
    mods: Seq<Modulator>,
    pos: nat,
    sample_rate: nat,
) -> int {
    sample_value(
        carrier.kind,
        pos,
        effective_freq(carrier.freq_mhz as nat, mods, pos, sample_rate),
        sample_rate,
    )
}

/// Computes the carrier's effective frequency under modulation at one
/// position, clamped into the positive frequency range, and reports
/// whether clamping was needed (the degeneracy callers may count).
pub fn fm_effective_freq(
    carrier: &Oscillator,
    mods: &Vec<Modulator>,
    pos: u64,
    sample_rate: u32,
) -> (r: (u32, bool))
    requires
        1 <= sample_rate <= RATE_MAX,
        carrier.valid(),
        mods@.len() <= MAX_MODULATORS,
        forall|i: int| 0 <= i < mods@.len() ==> mods@[i].valid(),
    ensures
        r.0 == effective_freq(carrier.freq_mhz as nat, mods@, pos as nat, sample_rate as nat),
        r.1 == fm_degenerate(*carrier, mods@, pos as nat, sample_rate as nat),
        1 <= r.0 <= FREQ_MHZ_MAX,
{
    let ghost rate = sample_rate as nat;
    let mut acc: i64 = 0;
    let mut i: usize = 0;
    while i < mods.len()
        invariant
            0 <= i <= mods@.len(),
            1 <= sample_rate <= RATE_MAX,
            mods@.len() <= MAX_MODULATORS,
            rate == sample_rate,
            forall|j: int| 0 <= j < mods@.len() ==> mods@[j].valid(),
            acc == mod_sum(mods@.take(i as int), pos as nat, rate),
            -(i * FREQ_MHZ_MAX as int) <= acc <= i * FREQ_MHZ_MAX as int,
        decreases mods@.len() - i,
    {
        let m = mods[i];
        let v = generate(m.osc.kind, pos, sample_rate, m.osc.freq_mhz);
        proof {
            assert(-(32768int * 1000000000int) <= (v as int) * (m.depth_mhz as int) <= 32768int
                * 1000000000int) by (nonlinear_arith)
                requires
                    -32768 <= v <= 32768,
                    0 <= m.depth_mhz <= 1000000000;
        }
        let delta = div_to_zero((v as i64) * (m.depth_mhz as i64), AMP_ONE as u64);
        proof {
            lemma_mod_contribution_bounded(m, pos as nat, rate);
            assert(mods@.take(i as int + 1).drop_last() =~= mods@.take(i as int));
            assert(mods@.take(i as int + 1).last() == mods@[i as int]);
            assert((i + 1) * FREQ_MHZ_MAX as int == i * FREQ_MHZ_MAX as int
                + FREQ_MHZ_MAX as int) by (nonlinear_arith);
        }
        acc = acc + delta;
        i = i + 1;
    }
    proof {
        assert(mods@.take(mods@.len() as int) =~= mods@);
    }
    let eff_raw: i64 = (carrier.freq_mhz as i64) + acc;
    let eff: u32 = if eff_raw < 1 {
        1
    } else if eff_raw > FREQ_MHZ_MAX as i64 {
        FREQ_MHZ_MAX
    } else {
        eff_raw as u32
    };
    let clamped = eff_raw < 1 || eff_raw > FREQ_MHZ_MAX as i64;
    proof {
        assert(eff == effective_freq(carrier.freq_mhz as nat, mods@, pos as nat, rate));
    }
    (eff, clamped)
}

/// Generates one frequency-modulated sample: the modulators' scaled
/// outputs are summed onto the carrier's frequency, the result is clamped
/// into the positive frequency range, and the carrier is generated there.
/// No normalization is applied; that is the caller's concern.
pub fn fm_sample(
    carrier: &Oscillator,
    mods: &Vec<Modulator>,
    pos: u64,
    sample_rate: u32,
) -> (r: i32)
    requires
        1 <= sample_rate <= RATE_MAX,
        carrier.valid(),
        mods@.len() <= MAX_MODULATORS,
        forall|i: int| 0 <= i < mods@.len() ==> mods@[i].valid(),
    ensures
        r == spec_fm_sample(*carrier, mods@, pos as nat, sample_rate as nat),
        -AMP_ONE <= r <= AMP_ONE,
{
    let eff = fm_effective_freq(carrier, mods, pos, sample_rate);
    generate(carrier.kind, pos, sample_rate, eff.0)
}

} // verus!
