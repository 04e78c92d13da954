//! The oscillator family: pure sample generation for the closed set of
//! waveform kinds.
//!
//! A waveform is sampled at integer sample positions.  With a sample rate
//! `r` (Hz) and a frequency `f` (millihertz), the waveform's phase at
//! position `pos` is the fraction `(pos * f mod d) / d` of one cycle, where
//! `d = 1000 * r` is the number of millihertz-position units per cycle.
//! Every generation rule is written over that exact rational phase, and the
//! produced amplitude is a Q15 integer in `[-AMP_ONE, AMP_ONE]`.

use vstd::prelude::*;
use vstd::arithmetic::div_mod::{
    lemma_add_mod_noop, lemma_div_is_ordered, lemma_div_multiples_vanish,
    lemma_fundamental_div_mod, lemma_mod_bound, lemma_mod_self_0, lemma_mul_mod_noop_left,
    lemma_small_mod,
};
use vstd::arithmetic::mul::{lemma_mul_inequality, lemma_mul_is_distributive_add};
use crate::{AMP_ONE, ConfigError, FREQ_MHZ_MAX, RATE_MAX};

verus! {

/// The closed set of waveform kinds the engine can generate.
#[derive(Clone, Copy, Debug, PartialEq, Eq, Structural)]
pub enum WaveformKind {
    Silence,
    Sine,
    Square,
    Sawtooth,
    Triangle,
    OnOff,
}

/// A fixed-frequency waveform description: a kind plus a frequency in
/// millihertz.  Immutable once constructed; the frequency matters only for
/// kinds other than `Silence`.
#[derive(Clone, Copy, Debug, PartialEq, Eq, Structural)]
pub struct Oscillator {
    pub kind: WaveformKind,
    pub freq_mhz: u32,
}

impl Oscillator {
    /// A descriptor is acceptable when it is silent or its frequency is
    /// positive and within range.
    pub open spec fn valid(self) -> bool {
        self.kind is Silence || (1 <= self.freq_mhz <= FREQ_MHZ_MAX)
    }

    /// Builds a descriptor, rejecting a zero or out-of-range frequency on
    /// any kind that actually oscillates.
    pub fn new(kind: WaveformKind, freq_mhz: u32) -> (r: Result<Oscillator, ConfigError>)
        ensures
            r is Ok <==> (kind is Silence || 1 <= freq_mhz <= FREQ_MHZ_MAX),
            r is Ok ==> r->Ok_0 == (Oscillator { kind, freq_mhz }) && r->Ok_0.valid(),
            r is Err ==> r->Err_0 == ConfigError::InvalidConfig,
    {
        let silent = matches!(kind, WaveformKind::Silence);
        if silent || (1 <= freq_mhz && freq_mhz <= FREQ_MHZ_MAX) {
            Ok(Oscillator { kind, freq_mhz })
        } else {
            Err(ConfigError::InvalidConfig)
        }
    }

    /// Whether this oscillator contributes to a mix: not silent and at a
    /// positive frequency.
    pub open spec fn active(self) -> bool {
        !(self.kind is Silence) && self.freq_mhz >= 1
    }
}

/// Millihertz-position units in one full cycle at the given sample rate.
pub open spec fn phase_denom(sample_rate: nat) -> nat {
    1000 * sample_rate
}

/// Phase numerator at an integer sample position: `(pos * f) mod d`.
pub open spec fn phase_at(pos: nat, freq_mhz: nat, sample_rate: nat) -> nat {
    (pos * freq_mhz) % phase_denom(sample_rate)
}

/// Square rule: `+1` on the first half cycle, `-1` on the second.
pub open spec fn square_wave(n: nat, d: nat) -> int {
    if 2 * n < d {
        AMP_ONE as int
    } else {
        -(AMP_ONE as int)
    }
}

/// On/off rule: `+1` on the first half cycle, `0` on the second.
pub open spec fn onoff_wave(n: nat, d: nat) -> int {
    if 2 * n < d {
        AMP_ONE as int
    } else {
        0
    }
}

/// Sawtooth rule: `1 - 2t` for phase `t = n / d`.
pub open spec fn sawtooth_wave(n: nat, d: nat) -> int {
    if 2 * n <= d {
        ((d - 2 * n) * AMP_ONE) / (d as int)
    } else {
        -(((2 * n - d) * AMP_ONE) / (d as int))
    }
}

/// Triangle rule: `4(t - 1/4)` on the first half cycle, `1 - 4(t - 1/2)`
/// on the second.
pub open spec fn triangle_wave(n: nat, d: nat) -> int {
    if 2 * n < d {
        if 4 * n >= d {
            ((4 * n - d) * AMP_ONE) / (d as int)
        } else {
            -(((d - 4 * n) * AMP_ONE) / (d as int))
        }
    } else {
        if 4 * n <= 3 * d {
            ((3 * d - 4 * n) * AMP_ONE) / (d as int)
        } else {
            -(((4 * n - 3 * d) * AMP_ONE) / (d as int))
        }
    }
}

/// One half cycle of the sine rule: the parabola `4u(1 - u)` scaled to
/// Q15, where `u = m / d` runs over the half cycle.
pub open spec fn sine_half(m: int, d: int) -> int {
    (4 * (m * (d - m)) * AMP_ONE) / (d * d)
}

/// Sine rule, as the standard parabolic approximation `4u(1-u)` of
/// `sin(pi * u)` on each half cycle: exact at the quarter-cycle points
/// (`0, 1, 0, -1`), within the unit range everywhere, and periodic.
pub open spec fn sine_wave(n: nat, d: nat) -> int {
    if 2 * n <= d {
        sine_half(2 * (n as int), d as int)
    } else {
        -sine_half(2 * (n as int) - d, d as int)
    }
}

/// The generation rule selected by a waveform kind, at phase numerator `n`
/// over denominator `d`.
pub open spec fn wave_value(kind: WaveformKind, n: nat, d: nat) -> int {
    match kind {
        WaveformKind::Silence => 0,
        WaveformKind::Sine => sine_wave(n, d),
        WaveformKind::Square => square_wave(n, d),
        WaveformKind::Sawtooth => sawtooth_wave(n, d),
        WaveformKind::Triangle => triangle_wave(n, d),
        WaveformKind::OnOff => onoff_wave(n, d),
    }
}

/// The sample a waveform yields at an integer sample position.
pub open spec fn sample_value(
    kind: WaveformKind,
    pos: nat,
    freq_mhz: nat,
    sample_rate: nat,
) -> int {
    wave_value(kind, phase_at(pos, freq_mhz, sample_rate), phase_denom(sample_rate))
}

/// A scaled proper fraction stays within the scale: `(a * AMP_ONE) / d <= AMP_ONE`
/// whenever `a <= d`.
proof fn lemma_scaled_fraction_bounded(a: int, d: int)
    requires
        0 <= a <= d,
        1 <= d,
    ensures
        0 <= (a * AMP_ONE) / d <= AMP_ONE,
{
    lemma_mul_inequality(a, d, AMP_ONE as int);
    lemma_div_is_ordered(a * AMP_ONE, d * AMP_ONE, d);
    lemma_div_multiples_vanish(AMP_ONE as int, d);
    vstd::arithmetic::div_mod::lemma_div_pos_is_pos(a * AMP_ONE, d);
    vstd::arithmetic::mul::lemma_mul_nonnegative(a, AMP_ONE as int);
}

/// Every generation rule stays within the Q15 unit range.
pub proof fn lemma_wave_value_bounded(kind: WaveformKind, n: nat, d: nat)
    requires
        n < d,
    ensures
        -AMP_ONE <= wave_value(kind, n, d) <= AMP_ONE,
{
    match kind {
        WaveformKind::Silence => {}
        WaveformKind::Square => {}
        WaveformKind::OnOff => {}
        WaveformKind::Sawtooth => {
            if 2 * n <= d {
                lemma_scaled_fraction_bounded(d - 2 * n, d as int);
            } else {
                lemma_scaled_fraction_bounded(2 * n - d, d as int);
            }
        }
        WaveformKind::Triangle => {
            if 2 * n < d {
                if 4 * n >= d {
                    lemma_scaled_fraction_bounded(4 * n - d, d as int);
                } else {
                    lemma_scaled_fraction_bounded(d - 4 * n, d as int);
                }
            } else {
                if 4 * n <= 3 * d {
                    lemma_scaled_fraction_bounded(3 * d - 4 * n, d as int);
                } else {
                    lemma_scaled_fraction_bounded(4 * n - 3 * d, d as int);
                }
            }
        }
        WaveformKind::Sine => {
            if 2 * n <= d {
                lemma_sine_half_bounded(2 * (n as int), d as int);
            } else {
                lemma_sine_half_bounded(2 * (n as int) - d, d as int);
            }
        }
    }
}

/// The half-cycle sine parabola stays within the scale: its numerator
/// `4m(d - m)` never exceeds the denominator `d * d`.
pub proof fn lemma_sine_half_bounded(m: int, d: int)
    requires
        0 <= m <= d,
        1 <= d,
    ensures
        0 <= sine_half(m, d) <= AMP_ONE,
{
    assert(1 <= d * d) by (nonlinear_arith)
        requires 1 <= d;
    assert(0 <= 4 * (m * (d - m)) <= d * d) by (nonlinear_arith)
        requires 0 <= m <= d;
    lemma_scaled_fraction_bounded(4 * (m * (d - m)), d * d);
}

/// Generates one sample of the selected waveform at an integer sample
/// position.  The result is exactly the mathematical generation rule
/// evaluated at the position's phase, and always lies in the Q15 unit
/// range; square and on/off take only their two discrete levels.
pub fn generate(kind: WaveformKind, pos: u64, sample_rate: u32, freq_mhz: u32) -> (r: i32)
    requires
        1 <= sample_rate <= RATE_MAX,
        !(kind is Silence) ==> 1 <= freq_mhz <= FREQ_MHZ_MAX,
    ensures
        r == sample_value(kind, pos as nat, freq_mhz as nat, sample_rate as nat),
        -AMP_ONE <= r <= AMP_ONE,
        kind is Square ==> r == AMP_ONE || r == -AMP_ONE,
        kind is OnOff ==> r == AMP_ONE || r == 0,
{
    if matches!(kind, WaveformKind::Silence) {
        return 0;
    }
    let d: u64 = 1000 * (sample_rate as u64);
    let f: u64 = freq_mhz as u64;
    proof {
        lemma_mod_bound(pos as int, d as int);
        assert(((pos as int) % (d as int)) * (f as int) <= 1000000000000000000) by (nonlinear_arith)
            requires
                0 <= (pos as int) % (d as int) < d,
                d <= 1000000000,
                0 <= f <= 1000000000;
    }
    let n: u64 = ((pos % d) * f) % d;
    proof {
        lemma_mul_mod_noop_left(pos as int, f as int, d as int);
        lemma_mod_bound((pos as int) * (f as int), d as int);
        lemma_mod_bound(((pos as int) % (d as int)) * (f as int), d as int);
        assert(n == phase_at(pos as nat, freq_mhz as nat, sample_rate as nat));
        lemma_wave_value_bounded(kind, n as nat, d as nat);
    }
    let amp: u64 = AMP_ONE as u64;
    match kind {
        WaveformKind::Silence => 0,
        WaveformKind::Square => {
            if 2 * n < d {
                AMP_ONE
            } else {
                -AMP_ONE
            }
        }
        WaveformKind::OnOff => {
            if 2 * n < d {
                AMP_ONE
            } else {
                0
            }
        }
        WaveformKind::Sawtooth => {
            if 2 * n <= d {
                (((d - 2 * n) * amp) / d) as i32
            } else {
                -((((2 * n - d) * amp) / d) as i32)
            }
        }
        WaveformKind::Triangle => {
            if 2 * n < d {
                if 4 * n >= d {
                    (((4 * n - d) * amp) / d) as i32
                } else {
                    -((((d - 4 * n) * amp) / d) as i32)
                }
            } else {
                if 4 * n <= 3 * d {
                    (((3 * d - 4 * n) * amp) / d) as i32
                } else {
                    -((((4 * n - 3 * d) * amp) / d) as i32)
                }
            }
        }
        WaveformKind::Sine => {
            if 2 * n <= d {
                let m: u64 = 2 * n;
                proof {
                    assert(0 <= m * (d - m) <= 1000000000000000000) by (nonlinear_arith)
                        requires 0 <= m <= d <= 1000000000;
                }
                let num: u64 = 4 * (m * (d - m));
                proof {
                    assert(1 <= (d as int) * (d as int) <= 1000000000000000000) by (nonlinear_arith)
                        requires 1 <= d <= 1000000000;
                    lemma_sine_half_bounded(m as int, d as int);
                }
                let v: u128 = ((num as u128) * (amp as u128)) / ((d as u128) * (d as u128));
                v as i32
            } else {
                let m: u64 = 2 * n - d;
                proof {
                    assert(0 <= m * (d - m) <= 1000000000000000000) by (nonlinear_arith)
                        requires 0 <= m <= d <= 1000000000;
                }
                let num: u64 = 4 * (m * (d - m));
                proof {
                    assert(1 <= (d as int) * (d as int) <= 1000000000000000000) by (nonlinear_arith)
                        requires 1 <= d <= 1000000000;
                    lemma_sine_half_bounded(m as int, d as int);
                }
                let v: u128 = ((num as u128) * (amp as u128)) / ((d as u128) * (d as u128));
                -(v as i32)
            }
        }
    }
}

/// Periodicity of the generation rules: any count of samples `p` whose
/// phase advance `p * f` is a whole number of cycles returns every
/// waveform to the same value.
pub proof fn lemma_sample_periodic(
    kind: WaveformKind,
    pos: nat,
    p: nat,
    freq_mhz: nat,
    sample_rate: nat,
)
    requires
        1 <= sample_rate,
        (p * freq_mhz) % phase_denom(sample_rate) == 0,
    ensures
        sample_value(kind, pos + p, freq_mhz, sample_rate) == sample_value(
            kind,
            pos,
            freq_mhz,
            sample_rate,
        ),
{
    let d = phase_denom(sample_rate) as int;
    let a = (pos * freq_mhz) as int;
    let b = (p * freq_mhz) as int;
    lemma_mul_is_distributive_add(freq_mhz as int, pos as int, p as int);
    vstd::arithmetic::mul::lemma_mul_is_commutative(freq_mhz as int, pos as int);
    vstd::arithmetic::mul::lemma_mul_is_commutative(freq_mhz as int, p as int);
    vstd::arithmetic::mul::lemma_mul_is_commutative(freq_mhz as int, (pos + p) as int);
    assert(((pos + p) * freq_mhz) as int == a + b);
    lemma_add_mod_noop(a, b, d);
    lemma_mod_bound(a, d);
    lemma_small_mod((a % d) as nat, d as nat);
    assert((a + b) % d == a % d);
}

/// The natural period of one oscillator, `d / f` samples, is a whole
/// number of cycles whenever the frequency divides the phase denominator;
/// the waveform then repeats exactly with that period.
pub proof fn lemma_sample_periodic_natural(
    kind: WaveformKind,
    pos: nat,
    freq_mhz: nat,
    sample_rate: nat,
)
    requires
        1 <= sample_rate,
        1 <= freq_mhz,
        phase_denom(sample_rate) % freq_mhz == 0,
    ensures
        sample_value(
            kind,
            pos + phase_denom(sample_rate) / freq_mhz,
            freq_mhz,
            sample_rate,
        ) == sample_value(kind, pos, freq_mhz, sample_rate),
{
    let d = phase_denom(sample_rate) as int;
    let f = freq_mhz as int;
    let p = d / f;
    lemma_fundamental_div_mod(d, f);
    assert(p * f == d);
    lemma_mod_self_0(d);
    assert((p * f) % d == 0);
    lemma_sample_periodic(kind, pos, p as nat, freq_mhz, sample_rate);
}

} // verus!
