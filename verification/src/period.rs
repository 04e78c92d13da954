//! The period estimator: the least-common-multiple length, in samples,
//! over which a sum of fixed-frequency oscillators repeats.
//!
//! Each active oscillator contributes the ceiling of its true period in
//! samples (never shorter than one full cycle), and the contributions are
//! reduced pairwise by least common multiple.  A combined period of one
//! second or more is capped to exactly one second's worth of samples to
//! bound the cost of peak scans and offline renders.

use vstd::prelude::*;
use vstd::arithmetic::div_mod::{
    lemma_add_mod_noop, lemma_div_by_self, lemma_div_is_ordered, lemma_div_multiples_vanish,
    lemma_div_nonincreasing, lemma_fundamental_div_mod, lemma_mod_multiples_basic,
    lemma_mod_self_0, lemma_mul_mod_noop_left, lemma_mul_mod_noop_right, lemma_small_mod,
};
use vstd::arithmetic::mul::{lemma_mul_inequality, lemma_mul_is_commutative};
use crate::osc::{phase_denom, Oscillator};
use crate::RATE_MAX;

verus! {

/// Euclid's greatest common divisor.
pub open spec fn spec_gcd(a: nat, b: nat) -> nat
    decreases b,
{
    if b == 0 {
        a
    } else {
        spec_gcd(b, a % b)
    }
}

/// Least common multiple, through the product-over-gcd identity.
pub open spec fn spec_lcm(a: nat, b: nat) -> nat {
    (a * b) / spec_gcd(a, b)
}

/// The greatest common divisor is positive and divides both arguments.
pub proof fn lemma_gcd_properties(a: nat, b: nat)
    requires
        a >= 1 || b >= 1,
    ensures
        spec_gcd(a, b) >= 1,
        a % spec_gcd(a, b) == 0,
        b % spec_gcd(a, b) == 0,
    decreases b,
{
    let g = spec_gcd(a, b);
    if b == 0 {
        lemma_mod_self_0(a as int);
        lemma_small_mod(0, a);
    } else {
        lemma_gcd_properties(b, (a % b) as nat);
        lemma_fundamental_div_mod(a as int, b as int);
        let q = a as int / b as int;
        let r = a as int % b as int;
        lemma_mul_mod_noop_right(q, b as int, g as int);
        lemma_small_mod(0, g);
        lemma_add_mod_noop(q * (b as int), r, g as int);
        assert(a as int == q * (b as int) + r);
        assert((q * (b as int)) % (g as int) == 0);
        assert(a % g == 0);
    }
}

/// The least common multiple of two positive numbers is a common multiple
/// of both, at least as large as either, at most their product, and tied
/// to the greatest common divisor by `lcm * gcd == a * b`.
pub proof fn lemma_lcm_properties(a: nat, b: nat)
    requires
        a >= 1,
        b >= 1,
    ensures
        spec_lcm(a, b) % a == 0,
        spec_lcm(a, b) % b == 0,
        spec_lcm(a, b) >= a,
        spec_lcm(a, b) >= b,
        spec_lcm(a, b) <= a * b,
        spec_lcm(a, b) * spec_gcd(a, b) == a * b,
{
    let g = spec_gcd(a, b);
    let l = spec_lcm(a, b);
    lemma_gcd_properties(a, b);
    // a * b is a multiple of g, so the quotient is exact: l * g == a * b.
    lemma_mul_mod_noop_left(a as int, b as int, g as int);
    lemma_small_mod(0, g);
    assert((a * b) % g == 0);
    lemma_fundamental_div_mod((a * b) as int, g as int);
    assert((a * b) as int == (g as int) * (l as int));
    lemma_mul_is_commutative(g as int, l as int);
    // l == a * (b / g): substitute b == g * (b / g) into the product.
    lemma_fundamental_div_mod(b as int, g as int);
    let bq = b as int / g as int;
    assert(b as int == (g as int) * bq);
    assert((a as int) * (b as int) == (g as int) * ((a as int) * bq)) by (nonlinear_arith)
        requires b as int == (g as int) * bq;
    lemma_div_multiples_vanish((a as int) * bq, g as int);
    assert(l as int == (a as int) * bq);
    assert(bq >= 1) by (nonlinear_arith)
        requires
            b as int == (g as int) * bq,
            b >= 1,
            bq >= 0;
    lemma_mul_is_commutative(a as int, bq);
    lemma_mod_multiples_basic(bq, a as int);
    assert(l % a == 0);
    lemma_mul_inequality(1, bq, a as int);
    assert(l >= a);
    // l == b * (a / g), symmetrically.
    lemma_fundamental_div_mod(a as int, g as int);
    let aq = a as int / g as int;
    assert(a as int == (g as int) * aq);
    assert((a as int) * (b as int) == (g as int) * ((b as int) * aq)) by (nonlinear_arith)
        requires a as int == (g as int) * aq;
    lemma_div_multiples_vanish((b as int) * aq, g as int);
    assert(l as int == (b as int) * aq);
    assert(aq >= 1) by (nonlinear_arith)
        requires
            a as int == (g as int) * aq,
            a >= 1,
            aq >= 0;
    lemma_mul_is_commutative(b as int, aq);
    lemma_mod_multiples_basic(aq, b as int);
    assert(l % b == 0);
    lemma_mul_inequality(1, aq, b as int);
    assert(l >= b);
    lemma_div_nonincreasing((a * b) as int, g as int);
}

/// Greatest common divisor by Euclid's algorithm.
pub fn gcd(a: u64, b: u64) -> (r: u64)
    ensures
        r == spec_gcd(a as nat, b as nat),
{
    let mut x = a;
    let mut y = b;
    while y > 0
        invariant
            spec_gcd(x as nat, y as nat) == spec_gcd(a as nat, b as nat),
        decreases y,
    {
        let t = y;
        y = x % y;
        x = t;
    }
    x
}

/// Least common multiple: the product divided by the greatest common
/// divisor.  The product bound is a machine limit on the exact identity.
pub fn lcm(a: u64, b: u64) -> (r: u64)
    requires
        1 <= a,
        1 <= b,
        a * b <= u64::MAX,
    ensures
        r == spec_lcm(a as nat, b as nat),
        r % a == 0,
        r % b == 0,
        a <= r,
        b <= r,
        r <= a * b,
{
    proof {
        lemma_lcm_properties(a as nat, b as nat);
    }
    a * b / gcd(a, b)
}

/// Ceiling of one oscillator's period in samples: the least sample count
/// no shorter than one full cycle at the given frequency.
pub open spec fn spec_osc_period(freq_mhz: nat, sample_rate: nat) -> nat {
    ((phase_denom(sample_rate) + freq_mhz - 1) / (freq_mhz as int)) as nat
}

/// An active oscillator's ceiling period is positive and no longer than
/// the phase denominator plus the frequency.
pub proof fn lemma_osc_period_bounds(freq_mhz: nat, sample_rate: nat)
    requires
        1 <= freq_mhz,
        1 <= sample_rate,
    ensures
        1 <= spec_osc_period(freq_mhz, sample_rate),
        spec_osc_period(freq_mhz, sample_rate) <= phase_denom(sample_rate) + freq_mhz,
{
    let d = phase_denom(sample_rate) as int;
    let f = freq_mhz as int;
    lemma_div_is_ordered(f, d + f - 1, f);
    lemma_div_by_self(f);
    lemma_div_nonincreasing(d + f - 1, f);
}

/// Left fold of the least-common-multiple reduction over the oscillators
/// from index `i` on, with `acc == 0` standing for "no active oscillator
/// seen yet".
pub open spec fn combined_fold(
    oscs: Seq<Oscillator>,
    i: int,
    acc: nat,
    sample_rate: nat,
) -> nat
    decreases oscs.len() - i,
{
    if i < 0 || i >= oscs.len() {
        acc
    } else {
        let next = if oscs[i].active() {
            let p = spec_osc_period(oscs[i].freq_mhz as nat, sample_rate);
            if acc == 0 {
                p
            } else {
                spec_lcm(acc, p)
            }
        } else {
            acc
        };
        combined_fold(oscs, i + 1, next, sample_rate)
    }
}

/// The combined period of a set of oscillators before capping: the fold
/// over all of them, or 1 when none is active.
pub open spec fn spec_combined_period(oscs: Seq<Oscillator>, sample_rate: nat) -> nat {
    let v = combined_fold(oscs, 0, 0, sample_rate);
    if v == 0 {
        1
    } else {
        v
    }
}

/// The fold never shrinks a positive accumulator: every later least
/// common multiple is at least as large.
proof fn lemma_combined_fold_ge(oscs: Seq<Oscillator>, i: int, acc: nat, sample_rate: nat)
    requires
        0 <= i <= oscs.len(),
        1 <= acc,
        1 <= sample_rate,
    ensures
        combined_fold(oscs, i, acc, sample_rate) >= acc,
    decreases oscs.len() - i,
{
    if i < oscs.len() {
        if oscs[i].active() {
            let p = spec_osc_period(oscs[i].freq_mhz as nat, sample_rate);
            lemma_osc_period_bounds(oscs[i].freq_mhz as nat, sample_rate);
            lemma_lcm_properties(acc, p);
            lemma_combined_fold_ge(oscs, i + 1, spec_lcm(acc, p), sample_rate);
        } else {
            lemma_combined_fold_ge(oscs, i + 1, acc, sample_rate);
        }
    }
}

/// Computes the combined period of a set of oscillators, in samples,
/// capped at one second's worth of samples.  The result is exactly the
/// least-common-multiple reduction of the active oscillators' ceiling
/// periods when that stays under the cap, and exactly the cap otherwise.
pub fn combined_period(oscs: &Vec<Oscillator>, sample_rate: u32) -> (r: u64)
    requires
        1 <= sample_rate <= RATE_MAX,
        forall|i: int| 0 <= i < oscs@.len() ==> oscs@[i].valid(),
    ensures
        spec_combined_period(oscs@, sample_rate as nat) >= sample_rate ==> r == sample_rate,
        spec_combined_period(oscs@, sample_rate as nat) < sample_rate ==> r
            == spec_combined_period(oscs@, sample_rate as nat),
        1 <= r <= sample_rate,
{
    let ghost rate = sample_rate as nat;
    let cap: u64 = sample_rate as u64;
    let d: u64 = 1000 * (sample_rate as u64);
    let mut acc: u64 = 0;
    let mut i: usize = 0;
    while i < oscs.len()
        invariant
            0 <= i <= oscs@.len(),
            1 <= sample_rate <= RATE_MAX,
            cap == sample_rate,
            d == phase_denom(rate),
            rate == sample_rate,
            forall|j: int| 0 <= j < oscs@.len() ==> oscs@[j].valid(),
            acc < cap,
            combined_fold(oscs@, i as int, acc as nat, rate) == combined_fold(oscs@, 0, 0, rate),
        decreases oscs@.len() - i,
    {
        let o = oscs[i];
        let active = !matches!(o.kind, crate::osc::WaveformKind::Silence) && o.freq_mhz >= 1;
        if active {
            let f = o.freq_mhz as u64;
            let p: u64 = (d + f - 1) / f;
            proof {
                lemma_osc_period_bounds(f as nat, rate);
                assert(p == spec_osc_period(f as nat, rate));
                if acc >= 1 {
                    assert((acc as int) * (p as int) <= 3000000000000000) by (nonlinear_arith)
                        requires
                            1 <= acc < 1000000,
                            1 <= p <= 3000000000;
                }
            }
            let next: u64 = if acc == 0 {
                p
            } else {
                lcm(acc, p)
            };
            proof {
                if acc >= 1 {
                    lemma_lcm_properties(acc as nat, p as nat);
                }
                assert(combined_fold(oscs@, i as int, acc as nat, rate) == combined_fold(
                    oscs@,
                    i as int + 1,
                    next as nat,
                    rate,
                ));
            }
            if next >= cap {
                proof {
                    lemma_combined_fold_ge(oscs@, i as int + 1, next as nat, rate);
                }
                return cap;
            }
            acc = next;
        } else {
            proof {
                assert(combined_fold(oscs@, i as int, acc as nat, rate) == combined_fold(
                    oscs@,
                    i as int + 1,
                    acc as nat,
                    rate,
                ));
            }
        }
        i = i + 1;
    }
    if acc == 0 {
        1
    } else {
        acc
    }
}

} // verus!
