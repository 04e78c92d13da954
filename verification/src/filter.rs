//! The single-pole IIR low-pass filter applied to a mixed signal.
//!
//! The coefficient `alpha` is derived once from a cutoff frequency and a
//! sample rate; each update then blends the new input with the previous
//! output: `y[n] = alpha * x[n] + (1 - alpha) * y[n-1]`, everything in the
//! Q15 scale with truncation toward zero.  One filter instance owns one
//! signal path's memory.

use vstd::prelude::*;
use vstd::arithmetic::div_mod::{
    lemma_div_is_ordered, lemma_div_multiples_vanish, lemma_fundamental_div_mod,
    lemma_multiply_divide_lt,
};
use crate::{div_to_zero, lemma_tdiv_bound, tdiv, AMP_ONE, ConfigError, RATE_MAX};

verus! {

/// Largest magnitude a filter input or state may take; leaves ample
/// headroom over any normalized mix while keeping products within `i64`.
pub const FILTER_RANGE: i64 = 1099511627776;

/// The filter coefficient for a cutoff and a sample rate, in Q15:
/// `alpha = nc / (nc + pi)` with `nc = cutoff / (rate / 2)` the normalized
/// cutoff, using the classic 355/113 rational approximation of pi.
pub open spec fn spec_alpha(cutoff_mhz: nat, sample_rate: nat) -> nat {
    ((AMP_ONE * (113 * (cutoff_mhz as int))) / (
    113 * (cutoff_mhz as int) + 177500 * (sample_rate as int))) as nat
}

/// What one filter update produces from the previous output and the new
/// input.
pub open spec fn spec_filter_step(alpha_q: int, prev: int, x: int) -> int {
    tdiv(alpha_q * x + (AMP_ONE - alpha_q) * prev, AMP_ONE as int)
}

/// Derives the filter coefficient, in Q15, from a sample rate and a
/// cutoff frequency in millihertz.  The coefficient is always strictly
/// below full scale: a finite cutoff always smooths at least a little.
pub fn calculate_alpha(sample_rate: u32, cutoff_mhz: u64) -> (alpha_q: u32)
    requires
        1 <= sample_rate <= RATE_MAX,
        1 <= cutoff_mhz,
        cutoff_mhz < 500 * sample_rate,
    ensures
        alpha_q == spec_alpha(cutoff_mhz as nat, sample_rate as nat),
        alpha_q < AMP_ONE,
{
    let num: u64 = (AMP_ONE as u64) * (113 * cutoff_mhz);
    let den: u64 = 113 * cutoff_mhz + 177500 * (sample_rate as u64);
    proof {
        lemma_multiply_divide_lt(num as int, den as int, AMP_ONE as int);
        assert(num < den * (AMP_ONE as int)) by (nonlinear_arith)
            requires
                num == (AMP_ONE as int) * (113 * cutoff_mhz),
                den == 113 * cutoff_mhz + 177500 * (sample_rate as int),
                1 <= sample_rate,
                1 <= cutoff_mhz;
    }
    (num / den) as u32
}

/// A single-pole low-pass filter: the Q15 coefficient and the previous
/// output sample, reset only at construction.
pub struct LowPassFilter {
    pub alpha_q: u32,
    pub prev: i64,
}

impl LowPassFilter {
    /// The filter's invariant: a coefficient within the Q15 unit scale
    /// and a memory within the engine's signal range.
    pub open spec fn wf(self) -> bool {
        self.alpha_q <= AMP_ONE && -FILTER_RANGE <= self.prev <= FILTER_RANGE
    }

    /// A filter with the given coefficient and cleared memory.
    pub fn with_alpha(alpha_q: u32) -> (r: LowPassFilter)
        requires
            alpha_q <= AMP_ONE,
        ensures
            r.wf(),
            r.alpha_q == alpha_q,
            r.prev == 0,
    {
        LowPassFilter { alpha_q, prev: 0 }
    }

    /// A filter for the given cutoff, rejecting a configuration whose
    /// sample rate is out of range, whose cutoff is zero or at or above
    /// the Nyquist frequency, or whose cutoff is so low that the Q15
    /// coefficient truncates to zero (such a filter would pass nothing).
    pub fn new(cutoff_mhz: u64, sample_rate: u32) -> (r: Result<LowPassFilter, ConfigError>)
        ensures
            r is Ok <==> (1 <= sample_rate <= RATE_MAX && 1 <= cutoff_mhz && cutoff_mhz < 500
                * sample_rate && spec_alpha(cutoff_mhz as nat, sample_rate as nat) >= 1),
            r is Ok ==> r->Ok_0.wf() && r->Ok_0.alpha_q == spec_alpha(
                cutoff_mhz as nat,
                sample_rate as nat,
            ) && 1 <= r->Ok_0.alpha_q && r->Ok_0.prev == 0,
            r is Err ==> r->Err_0 == ConfigError::InvalidConfig,
    {
        if sample_rate < 1 || sample_rate > RATE_MAX || cutoff_mhz < 1 || cutoff_mhz >= 500 * (
        sample_rate as u64) {
            Err(ConfigError::InvalidConfig)
        } else {
            let alpha_q = calculate_alpha(sample_rate, cutoff_mhz);
            if alpha_q < 1 {
                Err(ConfigError::InvalidConfig)
            } else {
                Ok(LowPassFilter { alpha_q, prev: 0 })
            }
        }
    }

    /// Advances the filter by one sample: the output blends the input
    /// with the previous output by the coefficient, becomes the new
    /// memory, and with a full-scale coefficient the filter is exactly
    /// the identity.
    pub fn step(&mut self, x: i64) -> (y: i64)
        requires
            old(self).wf(),
            -FILTER_RANGE <= x <= FILTER_RANGE,
        ensures
            y == spec_filter_step(old(self).alpha_q as int, old(self).prev as int, x as int),
            final(self).prev == y,
            final(self).alpha_q == old(self).alpha_q,
            final(self).wf(),
            -FILTER_RANGE <= y <= FILTER_RANGE,
            old(self).alpha_q == AMP_ONE ==> y == x,
    {
        let a = self.alpha_q as i64;
        proof {
            let ai = self.alpha_q as int;
            let xi = x as int;
            let pi = self.prev as int;
            assert(-36028797018963968int <= ai * xi <= 36028797018963968int) by (nonlinear_arith)
                requires
                    0 <= ai <= 32768,
                    -1099511627776 <= xi <= 1099511627776;
            assert(-36028797018963968int <= (32768 - ai) * pi <= 36028797018963968int)
                by (nonlinear_arith)
                requires
                    0 <= ai <= 32768,
                    -1099511627776 <= pi <= 1099511627776;
        }
        let num: i64 = a * x + ((AMP_ONE as i64) - a) * self.prev;
        proof {
            let ai = self.alpha_q as int;
            let xi = x as int;
            let pi = self.prev as int;
            assert(-((AMP_ONE as int) * (FILTER_RANGE as int)) <= ai * xi + ((AMP_ONE as int)
                - ai) * pi <= (AMP_ONE as int) * (FILTER_RANGE as int)) by (nonlinear_arith)
                requires
                    0 <= ai <= AMP_ONE as int,
                    -(FILTER_RANGE as int) <= xi <= FILTER_RANGE as int,
                    -(FILTER_RANGE as int) <= pi <= FILTER_RANGE as int;
            lemma_tdiv_bound(ai * xi + ((AMP_ONE as int) - ai) * pi, AMP_ONE as int,
                FILTER_RANGE as int);
            if ai == AMP_ONE as int {
                assert(ai * xi + ((AMP_ONE as int) - ai) * pi == (AMP_ONE as int) * xi)
                    by (nonlinear_arith)
                    requires ai == AMP_ONE as int;
                vstd::arithmetic::mul::lemma_mul_is_commutative(AMP_ONE as int, xi);
                lemma_div_multiples_vanish(xi, AMP_ONE as int);
                if xi < 0 {
                    lemma_div_multiples_vanish(-xi, AMP_ONE as int);
                    assert(-((AMP_ONE as int) * xi) == (AMP_ONE as int) * (-xi))
                        by (nonlinear_arith);
                    vstd::arithmetic::mul::lemma_mul_is_commutative(AMP_ONE as int, -xi);
                }
            }
        }
        let y = div_to_zero(num, AMP_ONE as u64);
        self.prev = y;
        y
    }
}

/// With a constant non-negative input at or above the memory, one filter
/// step never overshoots the input and never falls back: the output
/// climbs monotonically toward the input.
pub proof fn lemma_filter_step_monotone(alpha_q: int, prev: int, x: int)
    requires
        0 <= alpha_q <= AMP_ONE,
        0 <= prev <= x,
    ensures
        prev <= spec_filter_step(alpha_q, prev, x) <= x,
{
    let q = AMP_ONE as int;
    let num = alpha_q * x + (q - alpha_q) * prev;
    assert(q * prev <= alpha_q * x + (q - alpha_q) * prev <= q * x) by (nonlinear_arith)
        requires
            0 <= alpha_q <= q,
            0 <= prev <= x;
    lemma_div_is_ordered(q * prev, num, q);
    lemma_div_is_ordered(num, q * x, q);
    vstd::arithmetic::mul::lemma_mul_is_commutative(q, prev);
    vstd::arithmetic::mul::lemma_mul_is_commutative(q, x);
    lemma_div_multiples_vanish(prev, q);
    lemma_div_multiples_vanish(x, q);
    vstd::arithmetic::div_mod::lemma_div_pos_is_pos(num, q);
}

/// Geometric convergence, up to rounding: each step scales the remaining
/// gap to a constant input by `1 - alpha`, within one unit of the scale.
/// In particular the output converges to the input as steps accumulate,
/// to within the truncation granularity.
pub proof fn lemma_filter_step_gap(alpha_q: int, prev: int, x: int)
    requires
        0 <= alpha_q <= AMP_ONE,
        0 <= prev <= x,
    ensures
        (x - spec_filter_step(alpha_q, prev, x)) * AMP_ONE <= (AMP_ONE - alpha_q) * (x - prev)
            + AMP_ONE,
{
    let q = AMP_ONE as int;
    let num = alpha_q * x + (q - alpha_q) * prev;
    assert(0 <= alpha_q * x + (q - alpha_q) * prev) by (nonlinear_arith)
        requires
            0 <= alpha_q <= q,
            0 <= prev <= x;
    let y = spec_filter_step(alpha_q, prev, x);
    assert(y == num / q);
    lemma_fundamental_div_mod(num, q);
    vstd::arithmetic::div_mod::lemma_mod_bound(num, q);
    assert(q * y >= num - q + 1);
    assert((x - y) * q <= q * x - num + q - 1) by (nonlinear_arith)
        requires q * y >= num - q + 1;
    assert(q * x - num == (q - alpha_q) * (x - prev)) by (nonlinear_arith)
        requires num == alpha_q * x + (q - alpha_q) * prev;
}

} // verus!
