//! An injectable, seeded source of pseudo-random draws.
//!
//! Stochastic strategies take their randomness from this source rather than
//! from ambient process state, so solver runs are reproducible: the whole
//! stream is a pure function of the seed, and every contract in the crate
//! that involves a draw is exact. The generator is a 64-bit split-mix step.

use vstd::prelude::*;

use crate::fixed::{fx_add, fx_mul, fx_sub, tdiv, Fx, FX_ONE};

verus! {

/// The state that follows `s` in the stream.
pub open spec fn stream_next(s: u64) -> u64 {
    s.wrapping_add(0x9E3779B97F4A7C15)
}

/// The output word derived from a state by bit mixing.
pub open spec fn stream_mix(s: u64) -> u64 {
    let z1 = (s ^ (s >> 30)).wrapping_mul(0xBF58476D1CE4E5B9);
    let z2 = (z1 ^ (z1 >> 27)).wrapping_mul(0x94D049BB133111EB);
    z2 ^ (z2 >> 31)
}

/// The word drawn from state `s`: mix of the advanced state.
pub open spec fn stream_draw(s: u64) -> u64 {
    stream_mix(stream_next(s))
}

/// The unit-interval mantissa drawn from state `s`: the top 36 bits of the
/// drawn word, so a value in `[0, 1)`.
pub open spec fn unit_draw(s: u64) -> int {
    (stream_draw(s) >> 28) as int
}

/// The mantissa drawn from state `s` within `[lo, hi]`: the unit draw scaled
/// onto the width of the interval and shifted to its start.
pub open spec fn range_draw(s: u64, lo: int, hi: int) -> int {
    lo + fx_mul(fx_sub(hi, lo), unit_draw(s))
}

/// A deterministic pseudo-random source, seeded at construction.
pub struct RandomSource {
    state: u64,
}

impl RandomSource {
    pub closed spec fn spec_state(&self) -> u64 {
        self.state
    }

    pub fn new(seed: u64) -> (r: RandomSource)
        ensures
            r.spec_state() == seed,
    {
        RandomSource { state: seed }
    }

    /// Draws one word and advances the state.
    pub fn next_bits(&mut self) -> (r: u64)
        ensures
            final(self).spec_state() == stream_next(old(self).spec_state()),
            r == stream_draw(old(self).spec_state()),
    {
        self.state = self.state.wrapping_add(0x9E3779B97F4A7C15);
        let z1 = (self.state ^ (self.state >> 30)).wrapping_mul(0xBF58476D1CE4E5B9);
        let z2 = (z1 ^ (z1 >> 27)).wrapping_mul(0x94D049BB133111EB);
        z2 ^ (z2 >> 31)
    }

    /// Draws a value in the unit interval `[0, 1)`.
    pub fn next_unit(&mut self) -> (r: Fx)
        ensures
            final(self).spec_state() == stream_next(old(self).spec_state()),
            r@ == unit_draw(old(self).spec_state()),
            0 <= r@ < FX_ONE,
    {
        let w = self.next_bits();
        let m = w >> 28;
        proof {
            assert(m < 0x10_0000_0000) by (bit_vector)
                requires
                    m == w >> 28,
            ;
        }
        Fx::from_raw(m as i64)
    }

    /// Draws a value within `[lo, hi]`.
    pub fn next_in(&mut self, lo: Fx, hi: Fx) -> (r: Fx)
        requires
            lo@ <= hi@,
        ensures
            final(self).spec_state() == stream_next(old(self).spec_state()),
            r@ == range_draw(old(self).spec_state(), lo@, hi@),
            lo@ <= r@ <= hi@,
    {
        let u = self.next_unit();
        let width = hi.minus(lo);
        let off = width.times(u);
        proof {
            lemma_unit_scale_bounded(width@, u@);
            if hi@ - lo@ <= i64::MAX {
                assert(width@ == hi@ - lo@);
                assert(lo@ + off@ <= hi@);
            } else {
                assert(width@ == i64::MAX as int);
                assert(lo@ + off@ <= i64::MAX);
                assert(lo@ + off@ <= hi@);
            }
            assert(i64::MIN <= lo@ + off@);
            assert(fx_add(lo@, off@) == lo@ + off@);
        }
        let r = lo.plus(off);
        r
    }
}

/// A draw within `[lo, hi]` really lands within `[lo, hi]`.
pub proof fn lemma_range_draw_bounds(s: u64, lo: int, hi: int)
    requires
        i64::MIN <= lo <= hi <= i64::MAX,
    ensures
        lo <= range_draw(s, lo, hi) <= hi,
{
    let d = stream_draw(s);
    assert(d >> 28 < 0x10_0000_0000) by (bit_vector);
    lemma_unit_scale_bounded(fx_sub(hi, lo), unit_draw(s));
    if hi - lo <= i64::MAX {
        assert(fx_sub(hi, lo) == hi - lo);
    } else {
        assert(fx_sub(hi, lo) == i64::MAX as int);
    }
}

/// Scaling a nonnegative width by a unit-interval factor keeps it within
/// `[0, width]`.
proof fn lemma_unit_scale_bounded(w: int, u: int)
    requires
        0 <= w <= i64::MAX,
        0 <= u < FX_ONE,
    ensures
        0 <= fx_mul(w, u) <= w,
{
    let p = w * u;
    assert(0 <= w * u && w * u <= w * (FX_ONE as int)) by (nonlinear_arith)
        requires
            0 <= w,
            0 <= u <= FX_ONE as int,
    ;
    assert(tdiv(p, FX_ONE as int) == p / (FX_ONE as int));
    vstd::arithmetic::div_mod::lemma_div_is_ordered(p, w * (FX_ONE as int), FX_ONE as int);
    vstd::arithmetic::div_mod::lemma_div_by_multiple(w, FX_ONE as int);
    assert((w * (FX_ONE as int)) / (FX_ONE as int) == w);
    vstd::arithmetic::div_mod::lemma_div_basics(FX_ONE as int);
    assert(p / (FX_ONE as int) >= 0) by {
        vstd::arithmetic::div_mod::lemma_div_is_ordered(0, p, FX_ONE as int);
    };
}

} // verus!
