//! Binary line search: probes a small offset on both sides of the bracket
//! midpoint and keeps the half that looks better.

use vstd::prelude::*;

use crate::fixed::{clamp, fx_add, fx_mid, fx_sub, lemma_fx_mid_between, tdiv, Fx};
use crate::method::{value_fn, Objective1, Optimizer, Steps};

verus! {

/// The candidate the search returns: one step probes `delta / 2` around
/// the bracket midpoint, keeps the half the comparison favours and carries
/// the midpoint as the current candidate, until the width is at most
/// `eps`. Arguments outside the strategy's well-formed domain yield the
/// carried candidate unchanged.
pub open spec fn binary_point(
    gv: spec_fn(int) -> int,
    eps: int,
    delta: int,
    a: int,
    b: int,
    cur: int,
) -> int
    decreases b - a,
    via binary_point_decreases
{
    if delta < 0 || eps < delta + 2 || a < i64::MIN || i64::MAX < b || b < a || fx_sub(b, a)
        <= eps {
        cur
    } else {
        let x = fx_mid(a, b);
        let d2 = tdiv(delta, 2);
        let x1 = fx_sub(x, d2);
        let x2 = fx_add(x, d2);
        if gv(x1) < gv(x2) {
            binary_point(gv, eps, delta, a, x2, x)
        } else {
            binary_point(gv, eps, delta, x1, b, x)
        }
    }
}

#[via_fn]
proof fn binary_point_decreases(
    gv: spec_fn(int) -> int,
    eps: int,
    delta: int,
    a: int,
    b: int,
    cur: int,
) {
    if !(delta < 0 || eps < delta + 2 || a < i64::MIN || i64::MAX < b || b < a || fx_sub(b, a)
        <= eps) {
        lemma_fx_mid_between(a, b);
        lemma_fx_mid_between(delta, 0);
        let x = fx_mid(a, b);
        let d2 = tdiv(delta, 2);
        assert(d2 == fx_mid(delta, 0));
        assert(fx_add(x, d2) - a < b - a);
        assert(b - fx_sub(x, d2) < b - a);
    }
}

/// A bisection search over `[a, b]` probing at `delta / 2` around each
/// midpoint, stopping once the bracket width is at most `eps`. The probe
/// offset must sit strictly inside the stopping width for the bracket to
/// shrink on every step.
#[derive(Clone, Copy)]
pub struct Binary {
    pub a: Fx,
    pub b: Fx,
    pub eps: Fx,
    pub delta: Fx,
}

impl Binary {
    pub fn new(a: Fx, b: Fx, eps: Fx, delta: Fx) -> (r: Binary)
        requires
            a@ <= b@,
            delta@ >= 0,
            eps@ >= delta@ + 2,
        ensures
            r.wf(),
            r.lo() == a@,
            r.hi() == b@,
            r.eps@ == eps@,
            r.delta@ == delta@,
    {
        Binary { a, b, eps, delta }
    }
}

impl Optimizer for Binary {
    open spec fn wf(&self) -> bool {
        self.a@ <= self.b@ && self.delta@ >= 0 && self.eps@ >= self.delta@ + 2
    }

    open spec fn lo(&self) -> int {
        self.a@
    }

    open spec fn hi(&self) -> int {
        self.b@
    }

    /// Beyond the shared contract, the result is pinned exactly to the
    /// probe-and-halve recursion `binary_point` starting from the range
    /// ends, and lies in a final bracket inside the search range whose
    /// width is at most `eps`.
    fn optimize<G: Objective1>(&self, g: &G) -> (r: (Fx, Fx, Steps))
        ensures
            self.lo() <= r.0@ <= self.hi(),
            r.0@ == binary_point(
                value_fn(*g),
                self.eps@,
                self.delta@,
                self.a@,
                self.b@,
                self.a@,
            ),
            exists|lo2: int, hi2: int|
                #![trigger clamp(lo2), clamp(hi2)]
                self.lo() <= lo2 <= hi2 <= self.hi() && fx_sub(hi2, lo2) <= self.eps@ && lo2
                    <= r.0@ <= hi2,
            fx_sub(self.b@, self.a@) <= self.eps@ ==> r.0@ == self.a@,
    {
        let ghost gv = value_fn(*g);
        let mut a = self.a;
        let mut b = self.b;
        let mut steps: usize = 1;
        let mut x = a;
        while self.eps.lt(b.minus(a))
            invariant
                self.wf(),
                g.wf(),
                self.a@ <= a@ <= b@ <= self.b@,
                a@ <= x@ <= b@,
                gv == value_fn(*g),
                binary_point(gv, self.eps@, self.delta@, a@, b@, x@) == binary_point(
                    gv,
                    self.eps@,
                    self.delta@,
                    self.a@,
                    self.b@,
                    self.a@,
                ),
            decreases b@ - a@,
        {
            let ghost pre_a = a@;
            let ghost pre_b = b@;
            let ghost pre_x = x@;
            x = a.midpoint(b);
            let d2 = self.delta.half();
            proof {
                lemma_fx_mid_between(a@, b@);
                lemma_fx_mid_between(self.delta@, 0);
                assert(fx_mid(self.delta@, 0) == tdiv(self.delta@ + 0, 2));
                assert(2 * d2@ <= self.delta@ + 1);
                assert(d2@ >= 0);
            }
            let x1 = x.minus(d2);
            let x2 = x.plus(d2);
            let f1 = g.eval(x1);
            let f2 = g.eval(x2);
            if f1.lt(f2) {
                b = x2;
                proof {
                    assert(binary_point(gv, self.eps@, self.delta@, pre_a, pre_b, pre_x)
                        == binary_point(gv, self.eps@, self.delta@, a@, b@, x@));
                }
            } else {
                a = x1;
                proof {
                    assert(binary_point(gv, self.eps@, self.delta@, pre_a, pre_b, pre_x)
                        == binary_point(gv, self.eps@, self.delta@, a@, b@, x@));
                }
            }
            if steps < usize::MAX {
                steps = steps + 1;
            }
        }
        proof {
            assert(binary_point(gv, self.eps@, self.delta@, a@, b@, x@) == x@);
        }
        proof {
            assert(clamp(a@) == a@ && clamp(b@) == b@);
            assert(self.lo() <= a@ <= b@ <= self.hi() && fx_sub(b@, a@) <= self.eps@ && a@ <= x@
                <= b@);
        }
        let v = g.eval(x);
        (x, v, Steps(steps))
    }
}

} // verus!
