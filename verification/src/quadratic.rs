//! Polynomial-fit line search: samples the bracket ends and midpoint, fits
//! a parabola through the three values, jumps to its vertex, and keeps the
//! best point seen. One fit, no iteration — on a quadratic section the
//! vertex lands on the exact minimizer up to rounding.

use vstd::prelude::*;

use crate::fixed::{fx_add, fx_div, fx_mid, fx_mul, fx_sub, tdiv, Fx};
use crate::method::{value_fn, Objective1, Optimizer, Steps};

verus! {

/// The candidate the fit returns: the best of the two bracket ends, the
/// midpoint, and — when the fitted parabola opens upward — its vertex,
/// clamped into the bracket; earlier candidates win ties.
pub open spec fn quadfit_point(gv: spec_fn(int) -> int, a: int, b: int) -> int {
    let x2 = fx_mid(a, b);
    let v1 = gv(a);
    let v2 = gv(x2);
    let v3 = gv(b);
    let bx1 = if v2 < v1 {
        x2
    } else {
        a
    };
    let bv1 = if v2 < v1 {
        v2
    } else {
        v1
    };
    let bx2 = if v3 < bv1 {
        b
    } else {
        bx1
    };
    let bv2 = if v3 < bv1 {
        v3
    } else {
        bv1
    };
    let den = fx_sub(fx_add(v1, v3), fx_add(v2, v2));
    if 0 < den {
        let h = fx_sub(x2, a);
        let t = fx_div(fx_sub(v1, v3), den);
        let cand0 = fx_add(x2, tdiv(fx_mul(h, t), 2));
        let cand = if cand0 < a {
            a
        } else if b < cand0 {
            b
        } else {
            cand0
        };
        if gv(cand) < bv2 {
            cand
        } else {
            bx2
        }
    } else {
        bx2
    }
}

/// A single-fit parabola search over the bracket `[a, b]`.
#[derive(Clone, Copy)]
pub struct QuadraticFit {
    pub a: Fx,
    pub b: Fx,
}

impl QuadraticFit {
    pub fn new(a: Fx, b: Fx) -> (r: QuadraticFit)
        requires
            a@ <= b@,
        ensures
            r.wf(),
            r.lo() == a@,
            r.hi() == b@,
    {
        QuadraticFit { a, b }
    }
}

impl Optimizer for QuadraticFit {
    open spec fn wf(&self) -> bool {
        self.a@ <= self.b@
    }

    open spec fn lo(&self) -> int {
        self.a@
    }

    open spec fn hi(&self) -> int {
        self.b@
    }

    /// Beyond the shared contract, the result is pinned exactly to the
    /// fitted candidate `quadfit_point`, and is never worse than any of
    /// the three sampled points: the two bracket ends and the midpoint.
    fn optimize<G: Objective1>(&self, g: &G) -> (r: (Fx, Fx, Steps))
        ensures
            self.lo() <= r.0@ <= self.hi(),
            r.0@ == quadfit_point(value_fn(*g), self.a@, self.b@),
            r.1@ <= g.value(self.a@),
            r.1@ <= g.value(self.b@),
            r.1@ <= g.value(fx_mid(self.a@, self.b@)),
    {
        let x1 = self.a;
        let x3 = self.b;
        let x2 = x1.midpoint(x3);
        proof {
            crate::fixed::lemma_fx_mid_between(x1@, x3@);
        }
        let v1 = g.eval(x1);
        let v2 = g.eval(x2);
        let v3 = g.eval(x3);
        let mut best_x = x1;
        let mut best_v = v1;
        if v2.lt(best_v) {
            best_x = x2;
            best_v = v2;
        }
        if v3.lt(best_v) {
            best_x = x3;
            best_v = v3;
        }
        // Curvature of the fitted parabola, up to a positive factor.
        let denom = v1.plus(v3).minus(v2.plus(v2));
        if Fx::zero().lt(denom) {
            // The vertex: the midpoint shifted by half the half-width,
            // scaled by the fitted slope ratio.
            let h = x2.minus(x1);
            let t = v1.minus(v3).div(denom);
            let shift = h.times(t).half();
            let mut cand = x2.plus(shift);
            if cand.lt(x1) {
                cand = x1;
            }
            if x3.lt(cand) {
                cand = x3;
            }
            let vc = g.eval(cand);
            if vc.lt(best_v) {
                best_x = cand;
                best_v = vc;
            }
        }
        (best_x, best_v, Steps(1))
    }
}

} // verus!
