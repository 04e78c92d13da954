//! A fixed-point digital signal synthesis engine.
//!
//! The engine produces streams of audio samples from descriptions of
//! oscillating waveforms: plain mixes of fixed-frequency oscillators,
//! frequency-modulated carriers, and live note-driven polyphony.  All
//! amplitudes are carried in a Q15 fixed-point scale where `AMP_ONE`
//! stands for a full amplitude of 1.0, and all frequencies are carried
//! in millihertz, so every quantity the engine computes is an integer
//! with an exact contract.

#![allow(unused_imports)]
use vstd::prelude::*;

pub mod amplitude;
pub mod filter;
pub mod fm;
pub mod mixer;
pub mod osc;
pub mod period;
pub mod render;
pub mod wav;

verus! {

/// Full amplitude in the Q15 sample scale: the integer standing for 1.0.
pub const AMP_ONE: i32 = 32768;

/// Largest frequency the engine accepts, in millihertz (1 MHz).
pub const FREQ_MHZ_MAX: u32 = 1_000_000_000;

/// Largest sample rate the engine accepts, in Hz.
pub const RATE_MAX: u32 = 1_000_000;

/// Rejections surfaced when a synthesis session is configured.
#[derive(Clone, Copy, Debug, PartialEq, Eq, Structural)]
pub enum ConfigError {
    /// A non-silent oscillator was given a zero or out-of-range frequency,
    /// the sample rate was zero or out of range, or a filter cutoff did not
    /// lie strictly between zero and the Nyquist frequency.
    InvalidConfig,
}

/// Division of a signed value by a positive one, truncating toward zero.
/// This is the rounding rule every scaled Q15 quantity in the engine uses.
pub open spec fn tdiv(a: int, b: int) -> int {
    if a >= 0 {
        a / b
    } else {
        -((-a) / b)
    }
}

/// Truncating-toward-zero division stays within a scaled bound: if the
/// dividend is within `m` multiples of the divisor, the quotient is within
/// `m`.
pub proof fn lemma_tdiv_bound(a: int, b: int, m: int)
    requires
        1 <= b,
        0 <= m,
        -(m * b) <= a <= m * b,
    ensures
        -m <= tdiv(a, b) <= m,
{
    vstd::arithmetic::mul::lemma_mul_is_commutative(m, b);
    vstd::arithmetic::div_mod::lemma_div_multiples_vanish(m, b);
    if a >= 0 {
        vstd::arithmetic::div_mod::lemma_div_is_ordered(a, m * b, b);
        vstd::arithmetic::div_mod::lemma_div_pos_is_pos(a, b);
    } else {
        vstd::arithmetic::div_mod::lemma_div_is_ordered(-a, m * b, b);
        vstd::arithmetic::div_mod::lemma_div_pos_is_pos(-a, b);
    }
}

/// Executable truncating-toward-zero division of a signed accumulator by a
/// positive divisor.
pub fn div_to_zero(a: i64, b: u64) -> (r: i64)
    requires
        1 <= b,
        i64::MIN < a,
    ensures
        r == tdiv(a as int, b as int),
{
    if a >= 0 {
        proof {
            vstd::arithmetic::div_mod::lemma_div_nonincreasing(a as int, b as int);
            vstd::arithmetic::div_mod::lemma_div_pos_is_pos(a as int, b as int);
        }
        ((a as u64) / b) as i64
    } else {
        let m: u64 = (-a) as u64;
        proof {
            vstd::arithmetic::div_mod::lemma_div_nonincreasing(m as int, b as int);
            vstd::arithmetic::div_mod::lemma_div_pos_is_pos(m as int, b as int);
        }
        -((m / b) as i64)
    }
}

} // verus!
