//! The relevance model: string similarity and frequency folded into one
//! 16-bit score under three weights.
//!
//! Weights live on a per-mille ladder, `1000` standing for a weight of one.
//! The score is `(s + f + 1) * total_weight * 10`, saturated to 16 bits,
//! where `s` is the weighted string score and `f` the weighted frequency,
//! each capped at `1000`; any non-zero frequency contributes at least one
//! point, so terms with frequency data outrank terms without.

pub mod item;

use vstd::prelude::*;

verus! {

/// The weights of a relevance calculation, in thousandths.
#[derive(Clone, Copy, Debug)]
pub struct RelevanceWeights {
    pub str_weight: u32,
    pub freq_weight: u32,
    pub total_weight: u32,
}

impl RelevanceWeights {
    /// Weights from their per-mille values.
    pub fn new(str_weight: u32, freq_weight: u32, total_weight: u32) -> (r: RelevanceWeights)
        ensures
            r.str_weight == str_weight,
            r.freq_weight == freq_weight,
            r.total_weight == total_weight,
    {
        RelevanceWeights { str_weight, freq_weight, total_weight }
    }
}

impl Default for RelevanceWeights {
    /// Every weight defaults to one.
    fn default() -> (r: RelevanceWeights)
        ensures
            r.str_weight == 1000,
            r.freq_weight == 1000,
            r.total_weight == 1000,
    {
        RelevanceWeights { str_weight: 1000, freq_weight: 1000, total_weight: 1000 }
    }
}

pub open spec fn min_cap(x: int, cap: int) -> int {
    if x <= cap {
        x
    } else {
        cap
    }
}

/// The combined score: capped weighted string score, capped weighted
/// frequency with the at-least-one-point rule, then the total weight,
/// saturated to 16 bits.
pub open spec fn spec_calc(w: RelevanceWeights, freq_ppm: int, str_rel: int) -> int {
    let s = min_cap(str_rel * w.str_weight / 1000, 1000);
    let fnum = freq_ppm * w.freq_weight;
    let f = if fnum == 0 {
        0
    } else if fnum / 1000 == 0 {
        1
    } else {
        min_cap(fnum / 1000, 1000)
    };
    min_cap((s + f + 1) * w.total_weight * 10 / 1000, 0xFFFF)
}

/// Calculates relevance scores for engine items under fixed weights.
#[derive(Clone, Copy, Debug)]
pub struct RelevanceCalc {
    pub weights: RelevanceWeights,
}

impl RelevanceCalc {
    /// A calculator using `weights`.
    pub fn new(weights: RelevanceWeights) -> (r: RelevanceCalc)
        ensures
            r.weights == weights,
    {
        RelevanceCalc { weights }
    }

    /// The same calculator with the total weight replaced.
    pub fn with_total_weight(self, total_weight: u32) -> (r: RelevanceCalc)
        ensures
            r.weights.str_weight == self.weights.str_weight,
            r.weights.freq_weight == self.weights.freq_weight,
            r.weights.total_weight == total_weight,
    {
        RelevanceCalc {
            weights: RelevanceWeights {
                str_weight: self.weights.str_weight,
                freq_weight: self.weights.freq_weight,
                total_weight,
            },
        }
    }

    /// Scores an item from its frequency and string score; see
    /// [`spec_calc`].
    pub fn calc(&self, item: &item::EngineItem, str_rel: u16) -> (r: u16)
        ensures
            r == spec_calc(self.weights, item.item.spec_frequency(), str_rel as int),
    {
        let freq = item.inner().frequency();
        self.calc_parts(freq, str_rel)
    }

    /// The scoring formula on plain values.
    pub fn calc_parts(&self, freq_ppm: u32, str_rel: u16) -> (r: u16)
        ensures
            r == spec_calc(self.weights, freq_ppm as int, str_rel as int),
    {
        let w = &self.weights;
        proof {
            assert((str_rel as int) * (w.str_weight as int) <= 0xFFFFint * 0xFFFF_FFFF) by (
            nonlinear_arith)
                requires
                    str_rel <= 0xFFFF,
                    w.str_weight <= 0xFFFF_FFFF,
            ;
            assert((freq_ppm as int) * (w.freq_weight as int) <= 0xFFFF_FFFFint * 0xFFFF_FFFF) by (
            nonlinear_arith)
                requires
                    freq_ppm <= 0xFFFF_FFFF,
                    w.freq_weight <= 0xFFFF_FFFF,
            ;
        }
        let snum: u64 = (str_rel as u64) * (w.str_weight as u64);
        let s: u64 = if snum / 1000 <= 1000 {
            snum / 1000
        } else {
            1000
        };
        let fnum: u64 = (freq_ppm as u64) * (w.freq_weight as u64);
        let f: u64 = if fnum == 0 {
            0
        } else if fnum / 1000 == 0 {
            1
        } else if fnum / 1000 <= 1000 {
            fnum / 1000
        } else {
            1000
        };
        proof {
            assert(snum == (str_rel as int) * (w.str_weight as int)) by (nonlinear_arith)
                requires
                    snum == (str_rel as u64) * (w.str_weight as u64),
            ;
            assert(fnum == (freq_ppm as int) * (w.freq_weight as int)) by (nonlinear_arith)
                requires
                    fnum == (freq_ppm as u64) * (w.freq_weight as u64),
            ;
            vstd::arithmetic::div_mod::lemma_div_pos_is_pos(snum as int, 1000);
            vstd::arithmetic::div_mod::lemma_div_pos_is_pos(fnum as int, 1000);
        }
        let base: u64 = s + f + 1;
        proof {
            assert(base <= 2001);
            assert((base as int) * (w.total_weight as int) <= 2001int * 0xFFFF_FFFF) by (
            nonlinear_arith)
                requires
                    base <= 2001,
                    w.total_weight <= 0xFFFF_FFFF,
            ;
        }
        let tnum: u64 = base * (w.total_weight as u64) * 10;
        let scaled: u64 = tnum / 1000;
        if scaled <= 0xFFFF {
            scaled as u16
        } else {
            0xFFFF
        }
    }
}

/// Holding the string score fixed, the combined score never falls as the
/// frequency rises; holding the frequency fixed, it never falls as the
/// string score rises.
pub proof fn lemma_calc_monotonic(w: RelevanceWeights, f1: int, f2: int, s1: int, s2: int)
    requires
        0 <= f1 <= f2,
        0 <= s1 <= s2,
    ensures
        spec_calc(w, f1, s1) <= spec_calc(w, f2, s2),
{
    lemma_mul_div_mono(s1, s2, w.str_weight as int, 1000);
    lemma_mul_div_mono(f1, f2, w.freq_weight as int, 1000);
    let sa = min_cap(s1 * w.str_weight / 1000, 1000);
    let sb = min_cap(s2 * w.str_weight / 1000, 1000);
    assert(sa <= sb);
    let fnum1 = f1 * w.freq_weight;
    let fnum2 = f2 * w.freq_weight;
    assert(fnum1 >= 0 && fnum2 >= 0) by (nonlinear_arith)
        requires
            f1 >= 0,
            f2 >= 0,
            w.freq_weight >= 0,
            fnum1 == f1 * w.freq_weight,
            fnum2 == f2 * w.freq_weight,
    ;
    assert(fnum1 <= fnum2) by (nonlinear_arith)
        requires
            0 <= f1 <= f2,
            w.freq_weight >= 0,
            fnum1 == f1 * w.freq_weight,
            fnum2 == f2 * w.freq_weight,
    ;
    vstd::arithmetic::div_mod::lemma_div_is_ordered(fnum1, fnum2, 1000);
    vstd::arithmetic::div_mod::lemma_div_pos_is_pos(fnum1, 1000);
    vstd::arithmetic::div_mod::lemma_div_pos_is_pos(fnum2, 1000);
    let fa = if fnum1 == 0 {
        0int
    } else if fnum1 / 1000 == 0 {
        1int
    } else {
        min_cap(fnum1 / 1000, 1000)
    };
    let fb = if fnum2 == 0 {
        0int
    } else if fnum2 / 1000 == 0 {
        1int
    } else {
        min_cap(fnum2 / 1000, 1000)
    };
    assert(fa <= fb);
    assert((sa + fa + 1) * w.total_weight <= (sb + fb + 1) * w.total_weight) by (nonlinear_arith)
        requires
            sa + fa <= sb + fb,
            w.total_weight >= 0,
    ;
    assert((sa + fa + 1) * w.total_weight * 10 <= (sb + fb + 1) * w.total_weight * 10);
    vstd::arithmetic::div_mod::lemma_div_is_ordered(
        (sa + fa + 1) * w.total_weight * 10,
        (sb + fb + 1) * w.total_weight * 10,
        1000,
    );
}

/// Multiplying by a non-negative factor and flooring by a positive divisor
/// both preserve order.
proof fn lemma_mul_div_mono(x1: int, x2: int, m: int, d: int)
    requires
        0 <= x1 <= x2,
        0 <= m,
        0 < d,
    ensures
        0 <= x1 * m / d <= x2 * m / d,
{
    assert(x1 * m <= x2 * m) by (nonlinear_arith)
        requires
            0 <= x1 <= x2,
            0 <= m,
    ;
    assert(x1 * m >= 0) by (nonlinear_arith)
        requires
            x1 >= 0,
            m >= 0,
    ;
    vstd::arithmetic::div_mod::lemma_div_is_ordered(x1 * m, x2 * m, d);
    vstd::arithmetic::div_mod::lemma_div_pos_is_pos(x1 * m, d);
}

} // verus!
