//! Typed constraint predicates: an inequality `g(x) >= 0` or an equality
//! `h(x) = 0` over a scalar-valued function of the search space.

use vstd::prelude::*;

use crate::fixed::{fx_abs, fx_add, fx_sub, Fx};
use crate::method::Objective;
use crate::point::Point;

verus! {

/// A constraint over the search space: feasible where the underlying
/// function is nonnegative (inequality) or exactly zero (equality).
pub enum Restriction<G> {
    /// Feasible when the function is at least zero.
    Inequality(G),
    /// Feasible when the function is exactly zero.
    Equality(G),
}

impl<G> Restriction<G> {
    /// The function under the constraint.
    pub open spec fn func(self) -> G {
        match self {
            Restriction::Inequality(g) => g,
            Restriction::Equality(g) => g,
        }
    }

    /// Whether the constraint is an inequality.
    pub open spec fn spec_is_inequality(self) -> bool {
        self matches Restriction::Inequality(_)
    }
}

/// Whether the point `x` satisfies the restriction within tolerance `eps`:
/// an inequality tolerates a shortfall of `eps` below zero, an equality a
/// margin of less than `eps` around zero.
pub open spec fn spec_satisfies<G: Objective>(r: Restriction<G>, x: Seq<int>, eps: int) -> bool {
    match r {
        Restriction::Inequality(g) => fx_add(g.value(x), eps) >= 0,
        Restriction::Equality(g) => fx_abs(g.value(x)) < eps,
    }
}

impl<G: Objective> Restriction<G> {
    /// The feasibility test, given a tolerance.
    pub fn satisfies(&self, x: &Point, eps: Fx) -> (r: bool)
        requires
            self.func().wf(),
            x@.len() == self.func().dim(),
        ensures
            r == spec_satisfies(*self, x@, eps@),
    {
        match self {
            Restriction::Inequality(g) => {
                let v = g.eval(x).plus(eps);
                !v.lt(Fx::zero())
            },
            Restriction::Equality(g) => g.eval(x).abs_val().lt(eps),
        }
    }

    /// The raw signed value of the constraint function.
    pub fn apply(&self, x: &Point) -> (r: Fx)
        requires
            self.func().wf(),
            x@.len() == self.func().dim(),
        ensures
            r@ == self.func().value(x@),
    {
        match self {
            Restriction::Inequality(g) => g.eval(x),
            Restriction::Equality(g) => g.eval(x),
        }
    }

    pub fn is_inequality(&self) -> (r: bool)
        ensures
            r == self.spec_is_inequality(),
    {
        match self {
            Restriction::Inequality(_) => true,
            Restriction::Equality(_) => false,
        }
    }

    pub fn equality(f: G) -> (r: Self)
        ensures
            r == Restriction::Equality(f),
    {
        Restriction::Equality(f)
    }

    pub fn inequality(f: G) -> (r: Self)
        ensures
            r == Restriction::Inequality(f),
    {
        Restriction::Inequality(f)
    }
}

/// A one-dimensional bound, as a constraint function: the signed margin to
/// the lower or upper end of an interval.
pub enum IntervalBound {
    /// Margin above the lower end: `x - from`.
    Lower(Fx),
    /// Margin below the upper end: `to - x`.
    Upper(Fx),
}

impl Objective for IntervalBound {
    open spec fn wf(&self) -> bool {
        true
    }

    open spec fn dim(&self) -> nat {
        1
    }

    open spec fn value(&self, x: Seq<int>) -> int {
        match self {
            IntervalBound::Lower(from) => fx_sub(x[0], from@),
            IntervalBound::Upper(to) => fx_sub(to@, x[0]),
        }
    }

    fn eval(&self, x: &Point) -> (r: Fx) {
        match self {
            IntervalBound::Lower(from) => x.get(0).minus(*from),
            IntervalBound::Upper(to) => to.minus(x.get(0)),
        }
    }
}

impl Restriction<IntervalBound> {
    /// The pair of inequalities that keeps a scalar inside `[from, to]`.
    pub fn interval(from: Fx, to: Fx) -> (r: Vec<Restriction<IntervalBound>>)
        ensures
            r@.len() == 2,
            r@[0] == Restriction::Inequality(IntervalBound::Lower(from)),
            r@[1] == Restriction::Inequality(IntervalBound::Upper(to)),
    {
        let mut v: Vec<Restriction<IntervalBound>> = Vec::new();
        v.push(Restriction::Inequality(IntervalBound::Lower(from)));
        v.push(Restriction::Inequality(IntervalBound::Upper(to)));
        v
    }
}

} // verus!
