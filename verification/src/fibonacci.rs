//! Golden-ratio line search: shrinks a bracket by the reciprocal golden
//! ratio each step, reusing one interior evaluation per iteration.

use vstd::prelude::*;

use crate::fixed::{clamp, fx_add, fx_mid, fx_mul, fx_sub, lemma_fx_mid_between, tdiv, Fx, FX_ONE};
use crate::method::{value_fn, Objective1, Optimizer, Steps};

verus! {

/// Mantissa of the reciprocal golden ratio, about 0.618.
pub const GR_TAU: i64 = 0x9_e377_9b97;

/// A golden-ratio search over the bracket `[a, b]`, stopping once the
/// bracket width is at most `eps`.
#[derive(Clone, Copy)]
pub struct GoldenRatio {
    pub a: Fx,
    pub b: Fx,
    pub eps: Fx,
}

impl GoldenRatio {
    pub fn new(a: Fx, b: Fx, eps: Fx) -> (r: GoldenRatio)
        requires
            a@ <= b@,
            eps@ >= 0,
        ensures
            r.wf(),
            r.lo() == a@,
            r.hi() == b@,
            r.eps@ == eps@,
    {
        GoldenRatio { a, b, eps }
    }
}

/// The final bracket the search settles on: one step narrows the bracket
/// exactly as the loop does — probe at the golden sections, keep the side
/// the comparison against the carried value favours — until the width is
/// at most `eps`. A negative `eps` is outside the strategy's well-formed
/// domain and yields the bracket unchanged.
pub open spec fn golden_bracket(
    gv: spec_fn(int) -> int,
    eps: int,
    a: int,
    b: int,
    fxv: int,
    left: bool,
) -> (int, int)
    decreases b - a,
    via golden_bracket_decreases
{
    if eps < 0 || a < i64::MIN || i64::MAX < b || b < a || fx_sub(b, a) <= eps {
        (a, b)
    } else {
        let w = fx_sub(b, a);
        let d = fx_mul(w, GR_TAU as int);
        let x1 = fx_sub(b, d);
        let x2 = fx_add(a, d);
        if (left && fxv < gv(x2)) || (!left && gv(x1) < fxv) {
            golden_bracket(gv, eps, a, x2, gv(x1), false)
        } else {
            golden_bracket(gv, eps, x1, b, gv(x2), true)
        }
    }
}

#[via_fn]
proof fn golden_bracket_decreases(
    gv: spec_fn(int) -> int,
    eps: int,
    a: int,
    b: int,
    fxv: int,
    left: bool,
) {
    if !(eps < 0 || a < i64::MIN || i64::MAX < b || b < a || fx_sub(b, a) <= eps) {
        let w = fx_sub(b, a);
        assert(1 <= w <= i64::MAX);
        lemma_golden_shrink(w);
        let d = fx_mul(w, GR_TAU as int);
        assert(d < b - a);
        assert(fx_add(a, d) == a + d);
        assert(fx_sub(b, d) == b - d);
    }
}

/// The candidate the search returns: the midpoint of the final bracket
/// grown from `[a, b]`, with the carried value starting at `gv(a)` on the
/// left side.
pub open spec fn golden_point(gv: spec_fn(int) -> int, eps: int, a: int, b: int) -> int {
    let fin = golden_bracket(gv, eps, a, b, gv(a), true);
    fx_mid(fin.0, fin.1)
}

/// Shrinking a positive width by the golden ratio strictly shrinks it.
proof fn lemma_golden_shrink(w: int)
    requires
        1 <= w <= i64::MAX,
    ensures
        0 <= fx_mul(w, GR_TAU as int) < w,
{
    let p = w * (GR_TAU as int);
    assert(0 <= w * (GR_TAU as int) && w * (GR_TAU as int) < w * (FX_ONE as int))
        by (nonlinear_arith)
        requires
            1 <= w,
            0 < (GR_TAU as int),
            (GR_TAU as int) < (FX_ONE as int),
    ;
    assert(tdiv(p, FX_ONE as int) == p / (FX_ONE as int));
    vstd::arithmetic::div_mod::lemma_multiply_divide_lt(p, FX_ONE as int, w);
    assert(p / (FX_ONE as int) >= 0) by {
        vstd::arithmetic::div_mod::lemma_div_is_ordered(0, p, FX_ONE as int);
    };
}

impl Optimizer for GoldenRatio {
    open spec fn wf(&self) -> bool {
        self.a@ <= self.b@ && self.eps@ >= 0
    }

    open spec fn lo(&self) -> int {
        self.a@
    }

    open spec fn hi(&self) -> int {
        self.b@
    }

    /// Beyond the shared contract, the result is pinned exactly: it is the
    /// midpoint of the bracket `golden_bracket` computes from the search
    /// range, which lies inside the range with width at most `eps`.
    fn optimize<G: Objective1>(&self, g: &G) -> (r: (Fx, Fx, Steps))
        ensures
            self.lo() <= r.0@ <= self.hi(),
            r.0@ == golden_point(value_fn(*g), self.eps@, self.a@, self.b@),
            exists|lo2: int, hi2: int|
                self.lo() <= lo2 <= hi2 <= self.hi() && fx_sub(hi2, lo2) <= self.eps@ && r.0@
                    == #[trigger] fx_mid(lo2, hi2),
    {
        let ghost gv = value_fn(*g);
        let mut steps: usize = 0;
        let mut a = self.a;
        let mut b = self.b;
        let mut fx = g.eval(a);
        let mut left = true;
        let tau = Fx::from_raw(GR_TAU);
        while self.eps.lt(b.minus(a))
            invariant
                self.wf(),
                g.wf(),
                self.a@ <= a@ <= b@ <= self.b@,
                tau@ == GR_TAU as int,
                gv == value_fn(*g),
                golden_bracket(gv, self.eps@, a@, b@, fx@, left) == golden_bracket(
                    gv,
                    self.eps@,
                    self.a@,
                    self.b@,
                    gv(self.a@),
                    true,
                ),
            decreases b@ - a@,
        {
            let w = b.minus(a);
            proof {
                assert(w@ == clamp(b@ - a@));
                assert(1 <= w@);
                lemma_golden_shrink(w@);
            }
            let d = w.times(tau);
            proof {
                assert(0 <= d@ < w@);
                if b@ - a@ <= i64::MAX {
                    assert(w@ == b@ - a@);
                    assert(a@ < b@ - d@ <= b@);
                    assert(a@ <= a@ + d@ < b@);
                } else {
                    assert(w@ == i64::MAX as int);
                    assert(a@ < b@ - d@ <= b@);
                    assert(a@ <= a@ + d@ < b@);
                }
            }
            let x1 = b.minus(d);
            let x2 = a.plus(d);
            let ghost pre_a = a@;
            let ghost pre_b = b@;
            let ghost pre_f = fx@;
            let ghost pre_left = left;
            if (left && fx.lt(g.eval(x2))) || (!left && g.eval(x1).lt(fx)) {
                b = x2;
                fx = g.eval(x1);
                left = false;
                proof {
                    assert(golden_bracket(gv, self.eps@, pre_a, pre_b, pre_f, pre_left)
                        == golden_bracket(gv, self.eps@, a@, b@, fx@, left));
                }
            } else {
                a = x1;
                fx = g.eval(x2);
                left = true;
                proof {
                    assert(golden_bracket(gv, self.eps@, pre_a, pre_b, pre_f, pre_left)
                        == golden_bracket(gv, self.eps@, a@, b@, fx@, left));
                }
            }
            if steps < usize::MAX {
                steps = steps + 1;
            }
        }
        let x = a.midpoint(b);
        proof {
            lemma_fx_mid_between(a@, b@);
            assert(golden_bracket(gv, self.eps@, a@, b@, fx@, left) == (a@, b@));
            assert(x@ == golden_point(gv, self.eps@, self.a@, self.b@));
            assert(self.lo() <= a@ <= b@ <= self.hi() && fx_sub(b@, a@) <= self.eps@ && x@
                == fx_mid(a@, b@));
        }
        let v = g.eval(x);
        (x, v, Steps(steps))
    }
}

} // verus!
