//! Binding an optimizer to a benchmark: solving, and checking the result
//! against the benchmark's known minimizer set.

use vstd::prelude::*;

use crate::fixed::{fx_abs, fx_ratio, fx_sub, Fx};
use crate::functions::Function;
use crate::method::{Objective, Objective1, Optimizer, SpaceOptimizer, Steps};
use crate::point::Point;
use crate::restriction::{spec_satisfies, Restriction};

verus! {

/// The default convergence tolerance of a check: one part in a hundred
/// thousand.
pub open spec fn default_tolerance() -> int {
    fx_ratio(1, 100000)
}

/// A pairing of an optimizer with the function it is to minimize.
pub struct Task<O, F> {
    pub optimizer: O,
    pub function: F,
}

impl<O, F> Task<O, F> {
    pub fn new(optimizer: O, function: F) -> (r: Task<O, F>)
        ensures
            r.optimizer == optimizer,
            r.function == function,
    {
        Task { optimizer, function }
    }
}

/// A one-coordinate objective seen as a scalar objective.
pub struct Scalarized<'a, F: Objective> {
    pub f: &'a F,
}

impl<'a, F: Objective> Objective1 for Scalarized<'a, F> {
    open spec fn wf(&self) -> bool {
        self.f.wf() && self.f.dim() == 1
    }

    open spec fn value(&self, t: int) -> int {
        self.f.value(seq![t])
    }

    fn eval(&self, t: Fx) -> (r: Fx) {
        let mut c: Vec<Fx> = Vec::new();
        c.push(t);
        let p = Point::new(c);
        proof {
            assert(p@ =~= seq![t@]);
        }
        self.f.eval(&p)
    }
}

impl<O: Optimizer, F: Objective> Task<O, F> {
    /// Minimizes a scalar-domain function with the 1-D strategy.
    pub fn solve(self) -> (r: (Fx, Fx, Steps))
        requires
            self.optimizer.wf(),
            self.function.wf(),
            self.function.dim() == 1,
        ensures
            r.1@ == self.function.value(seq![r.0@]),
    {
        let section = Scalarized { f: &self.function };
        self.optimizer.optimize(&section)
    }
}

impl<O: SpaceOptimizer, F: Objective> Task<O, F> {
    /// Minimizes a space function with the space strategy.
    pub fn solve_space(self) -> (r: (Point, Fx, Steps))
        requires
            self.optimizer.wf(),
            self.function.wf(),
            self.function.dim() == self.optimizer.dim(),
        ensures
            r.0@.len() == self.function.dim(),
            r.1@ == self.function.value(r.0@),
    {
        self.optimizer.optimize(&self.function)
    }
}

/// All coordinates of `a` lie within `eps` of the matching coordinate of
/// `b`.
pub open spec fn coords_close(a: Seq<int>, b: Seq<int>, eps: int) -> bool {
    a.len() == b.len() && forall|j: int|
        0 <= j < a.len() ==> fx_abs(#[trigger] fx_sub(a[j], b[j])) <= eps
}

/// A solved result held against a benchmark's known minimizer set: the
/// check passes when the point matches one known minimizer within `eps_x`
/// coordinate-wise, every given restriction holds at the point within
/// `eps_y`, and the reported value is within `eps_y` of the known minimum.
pub struct Check<const N: usize, F, R> {
    pub eps_x: Fx,
    pub eps_y: Fx,
    pub x: Point,
    pub f: Fx,
    pub restrictions: Vec<Restriction<R>>,
    pub marker: core::marker::PhantomData<F>,
}

impl<const N: usize, F: Function<N>, R: Objective> Check<N, F, R> {
    pub fn with_eps_x(self, eps_x: Fx) -> (r: Check<N, F, R>)
        ensures
            r.eps_x == eps_x,
            r.eps_y == self.eps_y,
            r.x@ == self.x@,
            r.f == self.f,
            r.restrictions@ == self.restrictions@,
    {
        Check { eps_x, ..self }
    }

    pub fn with_eps_y(self, eps_y: Fx) -> (r: Check<N, F, R>)
        ensures
            r.eps_x == self.eps_x,
            r.eps_y == eps_y,
            r.x@ == self.x@,
            r.f == self.f,
            r.restrictions@ == self.restrictions@,
    {
        Check { eps_y, ..self }
    }

    /// The same check, against the given restriction set.
    pub fn satisfy_restrictions<R2: Objective>(self, restrictions: Vec<Restriction<R2>>) -> (r:
        Check<N, F, R2>)
        ensures
            r.eps_x == self.eps_x,
            r.eps_y == self.eps_y,
            r.x@ == self.x@,
            r.f == self.f,
            r.restrictions@ == restrictions@,
    {
        Check {
            eps_x: self.eps_x,
            eps_y: self.eps_y,
            x: self.x,
            f: self.f,
            restrictions,
            marker: core::marker::PhantomData,
        }
    }

    /// Whether the result converged: some known minimizer is matched
    /// coordinate-wise within `eps_x`, all restrictions hold within
    /// `eps_y`, and the value is within `eps_y` of the known minimum.
    pub fn check(self) -> (r: bool)
        requires
            self.x@.len() == N,
            forall|i: int|
                0 <= i < self.restrictions@.len() ==> (
                #[trigger] self.restrictions@[i]).func().wf()
                    && self.restrictions@[i].func().dim() == N,
        ensures
            r == ((exists|i: int|
                0 <= i < F::spec_minima().len() && coords_close(
                    self.x@,
                    #[trigger] F::spec_minima()[i],
                    self.eps_x@,
                )) && (forall|i: int|
                0 <= i < self.restrictions@.len() ==> spec_satisfies(
                    #[trigger] self.restrictions@[i],
                    self.x@,
                    self.eps_y@,
                )) && fx_abs(fx_sub(self.f@, F::spec_minimum())) <= self.eps_y@),
    {
        let minima = F::X();
        let mut any_close = false;
        let mut i: usize = 0;
        while i < minima.len()
            invariant
                i <= minima@.len(),
                self.x@.len() == N,
                minima@.len() == F::spec_minima().len(),
                forall|j: int|
                    0 <= j < minima@.len() ==> #[trigger] minima@[j]@ == F::spec_minima()[j]
                        && minima@[j]@.len() == N,
                any_close == exists|j: int|
                    0 <= j < i && coords_close(self.x@, #[trigger] F::spec_minima()[j], self.eps_x@),
            decreases minima@.len() - i,
        {
            let candidate = &minima[i];
            let mut all = true;
            let mut j: usize = 0;
            while j < N
                invariant
                    j <= N,
                    self.x@.len() == N,
                    candidate@ == F::spec_minima()[i as int],
                    candidate@.len() == N,
                    all == forall|q: int|
                        0 <= q < j ==> fx_abs(#[trigger] fx_sub(self.x@[q], candidate@[q]))
                            <= self.eps_x@,
                decreases N - j,
            {
                let d = self.x.get(j).minus(candidate.get(j)).abs_val();
                if !d.le(self.eps_x) {
                    all = false;
                }
                j = j + 1;
            }
            if all {
                any_close = true;
                proof {
                    assert(coords_close(self.x@, F::spec_minima()[i as int], self.eps_x@));
                }
            }
            i = i + 1;
        }
        let mut rest_ok = true;
        let mut k: usize = 0;
        while k < self.restrictions.len()
            invariant
                k <= self.restrictions@.len(),
                self.x@.len() == N,
                forall|i2: int|
                    0 <= i2 < self.restrictions@.len() ==> (
                    #[trigger] self.restrictions@[i2]).func().wf()
                        && self.restrictions@[i2].func().dim() == N,
                rest_ok == forall|i2: int|
                    0 <= i2 < k ==> spec_satisfies(
                        #[trigger] self.restrictions@[i2],
                        self.x@,
                        self.eps_y@,
                    ),
            decreases self.restrictions@.len() - k,
        {
            let ok = self.restrictions[k].satisfies(&self.x, self.eps_y);
            if !ok {
                rest_ok = false;
            }
            k = k + 1;
        }
        let known = F::F();
        let value_ok = self.f.minus(known).abs_val().le(self.eps_y);
        any_close && rest_ok && value_ok
    }
}

impl<O: Optimizer, F: Function<1> + Objective> Task<O, F> {
    /// Solves on the scalar domain and wraps the result for checking, with
    /// the default tolerances and no restrictions.
    pub fn solve_check(self) -> (r: Check<1, F, F>)
        requires
            self.optimizer.wf(),
            self.function.wf(),
            self.function.dim() == 1,
        ensures
            r.x@.len() == 1,
            r.f@ == self.function.value(r.x@),
            r.eps_x@ == default_tolerance(),
            r.eps_y@ == default_tolerance(),
            r.restrictions@.len() == 0,
    {
        let (x, f, _steps) = self.solve();
        let mut c: Vec<Fx> = Vec::new();
        c.push(x);
        let p = Point::new(c);
        proof {
            assert(p@ =~= seq![x@]);
        }
        Check {
            eps_x: Fx::ratio(1, 100000),
            eps_y: Fx::ratio(1, 100000),
            x: p,
            f,
            restrictions: Vec::new(),
            marker: core::marker::PhantomData,
        }
    }
}

impl<O: SpaceOptimizer, F: Objective> Task<O, F> {
    /// Solves on the point domain and wraps the result for checking, with
    /// the default tolerances and no restrictions.
    pub fn solve_space_check<const N: usize>(self) -> (r: Check<N, F, F>) where F: Function<N>
        requires
            self.optimizer.wf(),
            self.function.wf(),
            self.function.dim() == self.optimizer.dim(),
            self.function.dim() == N,
        ensures
            r.x@.len() == N,
            r.f@ == self.function.value(r.x@),
            r.eps_x@ == default_tolerance(),
            r.eps_y@ == default_tolerance(),
            r.restrictions@.len() == 0,
    {
        let (x, f, _steps) = self.solve_space();
        Check {
            eps_x: Fx::ratio(1, 100000),
            eps_y: Fx::ratio(1, 100000),
            x,
            f,
            restrictions: Vec::new(),
            marker: core::marker::PhantomData,
        }
    }
}

} // verus!
