//! The uniform optimizer capability and the objective interfaces.
//!
//! Every strategy of the crate satisfies one optimizer contract: it hands
//! back a candidate, the objective's value at that candidate, and an
//! iteration count. One-dimensional strategies search a scalar domain;
//! space strategies search points. Objectives are pure: their executable
//! evaluation is pinned to a specification-level value function.

use vstd::prelude::*;

use crate::binary::Binary;
use crate::enumerate::{mc_best, ranges_of, MonteCarlo};
use crate::fibonacci::GoldenRatio;
use crate::fixed::Fx;
use crate::point::Point;
use crate::quadratic::QuadraticFit;
use crate::zeidel::{descent_result, reaches, GaussZeidel};

verus! {

/// A pure scalar objective: the 1-D domain that line searches minimize.
pub trait Objective1 {
    /// The objective's configuration is internally consistent.
    spec fn wf(&self) -> bool;

    /// The mantissa of the objective's value at the scalar with mantissa `t`.
    spec fn value(&self, t: int) -> int;

    fn eval(&self, t: Fx) -> (r: Fx)
        requires
            self.wf(),
        ensures
            r@ == self.value(t@),
    ;
}

/// A pure objective over points of a fixed dimension.
pub trait Objective {
    /// The objective's configuration is internally consistent.
    spec fn wf(&self) -> bool;

    spec fn dim(&self) -> nat;

    /// The mantissa of the objective's value at the coordinate mantissas `x`.
    spec fn value(&self, x: Seq<int>) -> int;

    fn eval(&self, x: &Point) -> (r: Fx)
        requires
            self.wf(),
            x@.len() == self.dim(),
        ensures
            r@ == self.value(x@),
    ;
}

/// The iteration count a strategy reports beside its result; diagnostic
/// only, never part of a convergence decision.
#[derive(Clone, Copy, Debug)]
pub struct Steps(pub usize);

/// The value function of a scalar objective, as a plain function of the
/// argument mantissa. Strategy contracts are pinned against this one
/// canonical form.
pub open spec fn value_fn<G: Objective1>(g: G) -> spec_fn(int) -> int {
    |t: int| g.value(t)
}

/// The value function of a space objective, as a plain function of the
/// coordinate mantissas.
pub open spec fn space_fn<F: Objective>(f: F) -> spec_fn(Seq<int>) -> int {
    |s: Seq<int>| f.value(s)
}

/// The capability every 1-D strategy offers: minimize a scalar objective,
/// returning a candidate inside the strategy's own search range, the
/// objective's value at that candidate, and the step count.
pub trait Optimizer {
    /// The strategy's configuration is consistent (range ordered,
    /// tolerances usable).
    spec fn wf(&self) -> bool;

    /// Lower end of the range the strategy searches.
    spec fn lo(&self) -> int;

    /// Upper end of the range the strategy searches.
    spec fn hi(&self) -> int;

    fn optimize<G: Objective1>(&self, g: &G) -> (r: (Fx, Fx, Steps))
        requires
            self.wf(),
            g.wf(),
        ensures
            r.1@ == g.value(r.0@),
    ;
}

/// The capability every space strategy offers: minimize an objective over
/// points of the strategy's dimension.
pub trait SpaceOptimizer {
    spec fn wf(&self) -> bool;

    spec fn dim(&self) -> nat;

    fn optimize<F: Objective>(&self, f: &F) -> (r: (Point, Fx, Steps))
        requires
            self.wf(),
            f.wf(),
            f.dim() == self.dim(),
        ensures
            r.0@.len() == f.dim(),
            r.1@ == f.value(r.0@),
    ;
}

/// The interchangeable local 1-D strategies a composition can be built on.
#[derive(Clone, Copy)]
pub enum OneDimensionalMethod {
    GoldenRatio(GoldenRatio),
    Binary(Binary),
    QuadraticFit(QuadraticFit),
}

/// The candidate the method returns on the value function `gv`: each
/// strategy is deterministic, so its result is pinned by its own mirror.
pub open spec fn method_point(m: OneDimensionalMethod, gv: spec_fn(int) -> int) -> int {
    match m {
        OneDimensionalMethod::GoldenRatio(s) => crate::fibonacci::golden_point(
            gv,
            s.eps@,
            s.a@,
            s.b@,
        ),
        OneDimensionalMethod::Binary(s) => crate::binary::binary_point(
            gv,
            s.eps@,
            s.delta@,
            s.a@,
            s.b@,
            s.a@,
        ),
        OneDimensionalMethod::QuadraticFit(s) => crate::quadratic::quadfit_point(gv, s.a@, s.b@),
    }
}

impl Optimizer for OneDimensionalMethod {
    open spec fn wf(&self) -> bool {
        match self {
            OneDimensionalMethod::GoldenRatio(m) => m.wf(),
            OneDimensionalMethod::Binary(m) => m.wf(),
            OneDimensionalMethod::QuadraticFit(m) => m.wf(),
        }
    }

    open spec fn lo(&self) -> int {
        match self {
            OneDimensionalMethod::GoldenRatio(m) => m.lo(),
            OneDimensionalMethod::Binary(m) => m.lo(),
            OneDimensionalMethod::QuadraticFit(m) => m.lo(),
        }
    }

    open spec fn hi(&self) -> int {
        match self {
            OneDimensionalMethod::GoldenRatio(m) => m.hi(),
            OneDimensionalMethod::Binary(m) => m.hi(),
            OneDimensionalMethod::QuadraticFit(m) => m.hi(),
        }
    }

    fn optimize<G: Objective1>(&self, g: &G) -> (r: (Fx, Fx, Steps))
        ensures
            self.lo() <= r.0@ <= self.hi(),
            r.0@ == method_point(*self, value_fn(*g)),
    {
        match self {
            OneDimensionalMethod::GoldenRatio(m) => m.optimize(g),
            OneDimensionalMethod::Binary(m) => m.optimize(g),
            OneDimensionalMethod::QuadraticFit(m) => m.optimize(g),
        }
    }
}

/// The interchangeable global 1-D strategies a per-axis decomposition can
/// be built on.
#[derive(Clone)]
pub enum GlobalOneDimensionalMethod {
    MonteCarlo(MonteCarlo),
}

impl SpaceOptimizer for GlobalOneDimensionalMethod {
    open spec fn wf(&self) -> bool {
        match self {
            GlobalOneDimensionalMethod::MonteCarlo(m) => m.wf(),
        }
    }

    open spec fn dim(&self) -> nat {
        match self {
            GlobalOneDimensionalMethod::MonteCarlo(m) => m.dim(),
        }
    }

    fn optimize<F: Objective>(&self, f: &F) -> (r: (Point, Fx, Steps))
        ensures
            self matches GlobalOneDimensionalMethod::MonteCarlo(m) ==> r.0@ == mc_best(
                *f,
                ranges_of(m.distributions@),
                m.seed,
                m.n as nat,
            ).0 && r.1@ == mc_best(*f, ranges_of(m.distributions@), m.seed, m.n as nat).1,
    {
        match self {
            GlobalOneDimensionalMethod::MonteCarlo(m) => m.optimize(f),
        }
    }
}

/// The interchangeable space strategies the constrained solver re-builds
/// around its moving start point.
#[derive(Clone)]
pub enum GlobalMultiMethod {
    GaussZeidel(GaussZeidel),
}

impl SpaceOptimizer for GlobalMultiMethod {
    open spec fn wf(&self) -> bool {
        match self {
            GlobalMultiMethod::GaussZeidel(m) => m.wf(),
        }
    }

    open spec fn dim(&self) -> nat {
        match self {
            GlobalMultiMethod::GaussZeidel(m) => m.dim(),
        }
    }

    fn optimize<F: Objective>(&self, f: &F) -> (r: (Point, Fx, Steps))
        ensures
            self matches GlobalMultiMethod::GaussZeidel(m) ==> r.0@ == descent_result(
                m.optimizer,
                space_fn(*f),
                m.eps_x@,
                m.eps_y@,
                m.start@,
            ).0,
            self matches GlobalMultiMethod::GaussZeidel(m) ==> exists|k: nat|
                reaches(m.optimizer, m.start@, r.0@, f.dim(), k),
    {
        match self {
            GlobalMultiMethod::GaussZeidel(m) => m.optimize(f),
        }
    }
}

} // verus!
