//! Coordinate descent (Gauss-Seidel sweep): lifts a 1-D line search into a
//! space optimizer by minimizing along one coordinate axis at a time.
//!
//! The contracts pin the composition, not the leaf: every move the solver
//! makes is an axis-aligned shift by a step the line search chose inside its
//! own range, sweeps fold the axes in order, and the loop stops exactly when
//! the either-or rule says so — as soon as the position delta or the value
//! delta falls at or below its threshold.

use vstd::prelude::*;

use crate::fixed::{fx_abs, fx_add, fx_sub, Fx};
use crate::method::{
    method_point, space_fn, value_fn, Objective, Objective1, OneDimensionalMethod, Optimizer,
    SpaceOptimizer, Steps,
};
use crate::point::{axis_shift, norm_of, sub_seq, Point};

verus! {

/// The scalar value function of the section of `fv` along one axis from
/// the base point: the 1-D domain a line search minimizes.
pub open spec fn section_fn(fv: spec_fn(Seq<int>) -> int, base: Seq<int>, axis: int) -> spec_fn(
    int,
) -> int {
    |t: int| fv(axis_shift(base, axis, t))
}

/// The point one line-search step reaches from `x`: the axis shifted by
/// exactly the step the configured method returns on that axis's section.
pub open spec fn axis_step_result(
    m: OneDimensionalMethod,
    fv: spec_fn(Seq<int>) -> int,
    x: Seq<int>,
    axis: int,
) -> Seq<int> {
    axis_shift(x, axis, method_point(m, section_fn(fv, x, axis)))
}

/// The point a full sweep reaches from `x`: the line-search steps of axes
/// `0, 1, .., i-1` folded forward in order.
pub open spec fn sweep_fold(
    m: OneDimensionalMethod,
    fv: spec_fn(Seq<int>) -> int,
    x: Seq<int>,
    i: nat,
) -> Seq<int>
    decreases i,
{
    if i == 0 {
        x
    } else {
        axis_step_result(m, fv, sweep_fold(m, fv, x, (i - 1) as nat), i - 1)
    }
}

/// The run of full sweeps from `x` against the previous iterate `xp`: it
/// continues exactly while the position delta exceeds `eps_x` and the
/// value delta exceeds `eps_y` and fuel remains, and returns the final
/// iterate with the number of sweeps done.
pub open spec fn descent_run(
    m: OneDimensionalMethod,
    fv: spec_fn(Seq<int>) -> int,
    eps_x: int,
    eps_y: int,
    x: Seq<int>,
    xp: Seq<int>,
    fuel: nat,
) -> (Seq<int>, nat)
    decreases fuel,
{
    if !(norm_of(sub_seq(x, xp)) > eps_x && fx_abs(fx_sub(fv(x), fv(xp))) > eps_y) || fuel == 0 {
        (x, 0)
    } else {
        let rec = descent_run(
            m,
            fv,
            eps_x,
            eps_y,
            sweep_fold(m, fv, x, x.len()),
            x,
            (fuel - 1) as nat,
        );
        (rec.0, (rec.1 + 1) as nat)
    }
}

/// The whole coordinate-descent run from its configured start: the first
/// comparison point is the start shifted by twice `eps_x` per coordinate,
/// and the sweep budget is the step counter's range.
pub open spec fn descent_result(
    m: OneDimensionalMethod,
    fv: spec_fn(Seq<int>) -> int,
    eps_x: int,
    eps_y: int,
    start: Seq<int>,
) -> (Seq<int>, nat) {
    descent_run(
        m,
        fv,
        eps_x,
        eps_y,
        start,
        offset_all(start, fx_add(eps_x, eps_x)),
        (usize::MAX - 1) as nat,
    )
}

/// `y` is `x` after line-search shifts along axes `0, 1, .., i-1` in order,
/// each by a step within the method's search range.
pub open spec fn sweep_prefix(m: OneDimensionalMethod, x: Seq<int>, y: Seq<int>, i: nat) -> bool
    decreases i,
{
    if i == 0 {
        y == x
    } else {
        exists|z: Seq<int>, lam: int|
            sweep_prefix(m, x, z, (i - 1) as nat) && m.lo() <= lam <= m.hi() && y
                == #[trigger] axis_shift(z, i - 1, lam)
    }
}

/// `y` is `x` after `k` full sweeps over `n` axes.
pub open spec fn reaches(m: OneDimensionalMethod, x: Seq<int>, y: Seq<int>, n: nat, k: nat) -> bool
    decreases k,
{
    if k == 0 {
        y == x
    } else {
        exists|z: Seq<int>| reaches(m, x, z, n, (k - 1) as nat) && sweep_prefix(m, z, y, n)
    }
}

/// A sweep prefix extends by one more axis step.
pub proof fn lemma_sweep_extend(
    m: OneDimensionalMethod,
    x: Seq<int>,
    z: Seq<int>,
    y: Seq<int>,
    i: nat,
    lam: int,
)
    requires
        sweep_prefix(m, x, z, i),
        m.lo() <= lam <= m.hi(),
        y == axis_shift(z, i as int, lam),
    ensures
        sweep_prefix(m, x, y, (i + 1) as nat),
{
    let j = (i + 1) as nat;
    assert(sweep_prefix(m, x, z, (j - 1) as nat));
    assert(y == axis_shift(z, j - 1, lam));
}

/// A reach extends by one more full sweep.
pub proof fn lemma_reaches_extend(
    m: OneDimensionalMethod,
    x: Seq<int>,
    z: Seq<int>,
    y: Seq<int>,
    n: nat,
    k: nat,
)
    requires
        reaches(m, x, z, n, k),
        sweep_prefix(m, z, y, n),
    ensures
        reaches(m, x, y, n, (k + 1) as nat),
{
    let j = (k + 1) as nat;
    assert(reaches(m, x, z, n, (j - 1) as nat));
}

/// Reaches compose: sweeps from `x` to `z` followed by sweeps from `z` to
/// `y` are sweeps from `x` to `y`.
pub proof fn lemma_reaches_trans(
    m: OneDimensionalMethod,
    x: Seq<int>,
    z: Seq<int>,
    y: Seq<int>,
    n: nat,
    k1: nat,
    k2: nat,
)
    requires
        reaches(m, x, z, n, k1),
        reaches(m, z, y, n, k2),
    ensures
        reaches(m, x, y, n, (k1 + k2) as nat),
    decreases k2,
{
    if k2 == 0 {
        assert(y == z);
    } else {
        let w = choose|w: Seq<int>|
            reaches(m, z, w, n, (k2 - 1) as nat) && sweep_prefix(m, w, y, n);
        lemma_reaches_trans(m, x, z, w, n, k1, (k2 - 1) as nat);
        lemma_reaches_extend(m, x, w, y, n, (k1 + k2 - 1) as nat);
    }
}

/// With a zero step an axis shift is no move at all: "no worse than the
/// section's value at step zero" means "no worse than the current point".
pub proof fn lemma_axis_shift_zero(x: Seq<int>, i: int)
    requires
        0 <= i < x.len(),
        i64::MIN <= x[i] <= i64::MAX,
    ensures
        axis_shift(x, i, 0) == x,
{
    assert(axis_shift(x, i, 0) =~= x);
}

/// `y` is `x` after line-search shifts along axes `0, 1, .., i-1` in
/// order, none of which increased the objective over the point it started
/// from.
pub open spec fn improving_sweep_prefix<F: Objective>(
    f: F,
    m: OneDimensionalMethod,
    x: Seq<int>,
    y: Seq<int>,
    i: nat,
) -> bool
    decreases i,
{
    if i == 0 {
        y == x
    } else {
        exists|z: Seq<int>, lam: int|
            improving_sweep_prefix(f, m, x, z, (i - 1) as nat) && m.lo() <= lam <= m.hi() && y
                == #[trigger] axis_shift(z, i - 1, lam) && f.value(axis_shift(z, i - 1, lam))
                <= f.value(z)
    }
}

/// An improving sweep is in particular a sweep.
pub proof fn lemma_improving_is_sweep<F: Objective>(
    f: F,
    m: OneDimensionalMethod,
    x: Seq<int>,
    y: Seq<int>,
    i: nat,
)
    requires
        improving_sweep_prefix(f, m, x, y, i),
    ensures
        sweep_prefix(m, x, y, i),
    decreases i,
{
    if i != 0 {
        let (z, lam): (Seq<int>, int) = choose|z: Seq<int>, lam: int|
            improving_sweep_prefix(f, m, x, z, (i - 1) as nat) && m.lo() <= lam <= m.hi() && y
                == #[trigger] axis_shift(z, i - 1, lam) && f.value(axis_shift(z, i - 1, lam))
                <= f.value(z);
        lemma_improving_is_sweep(f, m, x, z, (i - 1) as nat);
    }
}

/// Law (monotone non-worsening, coordinate descent): a sweep whose axis
/// moves each leave the objective no worse than where they started leaves
/// the objective no worse than the sweep's own starting point — so under
/// line searches that never return a step worse than standing still,
/// coordinate-descent iterates never worsen.
pub proof fn lemma_sweep_non_worsening<F: Objective>(
    f: F,
    m: OneDimensionalMethod,
    x: Seq<int>,
    y: Seq<int>,
    i: nat,
)
    requires
        improving_sweep_prefix(f, m, x, y, i),
    ensures
        f.value(y) <= f.value(x),
    decreases i,
{
    if i != 0 {
        let (z, lam): (Seq<int>, int) = choose|z: Seq<int>, lam: int|
            improving_sweep_prefix(f, m, x, z, (i - 1) as nat) && m.lo() <= lam <= m.hi() && y
                == #[trigger] axis_shift(z, i - 1, lam) && f.value(axis_shift(z, i - 1, lam))
                <= f.value(z);
        lemma_sweep_non_worsening(f, m, x, z, (i - 1) as nat);
    }
}

/// Law (monotone non-worsening, executable tie): when no line-search step
/// on the objective's sections worsens the objective over its base point,
/// the executable sweeps — pinned to `sweep_fold` by `full_step`'s
/// contract — never worsen it either.
pub proof fn lemma_sweep_fold_non_worsening<F: Objective>(
    f: F,
    m: OneDimensionalMethod,
    x: Seq<int>,
    i: nat,
)
    requires
        forall|z: Seq<int>, j: int|
            0 <= j ==> f.value(#[trigger] axis_step_result(m, space_fn(f), z, j)) <= f.value(z),
    ensures
        f.value(sweep_fold(m, space_fn(f), x, i)) <= f.value(x),
    decreases i,
{
    if i != 0 {
        lemma_sweep_fold_non_worsening(f, m, x, (i - 1) as nat);
        let z = sweep_fold(m, space_fn(f), x, (i - 1) as nat);
        assert(f.value(axis_step_result(m, space_fn(f), z, i - 1)) <= f.value(z));
    }
}

/// Law (monotone non-worsening, iterated executable tie): under the same
/// hypothesis, no iterate of the pinned descent run — and in particular
/// the result `GaussZeidel::optimize` is pinned to — is worse than the
/// point the run started from.
pub proof fn lemma_descent_run_non_worsening<F: Objective>(
    f: F,
    m: OneDimensionalMethod,
    eps_x: int,
    eps_y: int,
    x: Seq<int>,
    xp: Seq<int>,
    fuel: nat,
)
    requires
        forall|z: Seq<int>, j: int|
            0 <= j ==> f.value(#[trigger] axis_step_result(m, space_fn(f), z, j)) <= f.value(z),
    ensures
        f.value(descent_run(m, space_fn(f), eps_x, eps_y, x, xp, fuel).0) <= f.value(x),
    decreases fuel,
{
    let fv = space_fn(f);
    if (norm_of(sub_seq(x, xp)) > eps_x && fx_abs(fx_sub(fv(x), fv(xp))) > eps_y) && fuel != 0 {
        lemma_sweep_fold_non_worsening(f, m, x, x.len());
        lemma_descent_run_non_worsening(
            f,
            m,
            eps_x,
            eps_y,
            sweep_fold(m, fv, x, x.len()),
            x,
            (fuel - 1) as nat,
        );
    }
}

/// `y` is `x` after `k` full improving sweeps.
pub open spec fn improving_reaches<F: Objective>(
    f: F,
    m: OneDimensionalMethod,
    x: Seq<int>,
    y: Seq<int>,
    n: nat,
    k: nat,
) -> bool
    decreases k,
{
    if k == 0 {
        y == x
    } else {
        exists|z: Seq<int>|
            improving_reaches(f, m, x, z, n, (k - 1) as nat) && improving_sweep_prefix(
                f,
                m,
                z,
                y,
                n,
            )
    }
}

/// Law (monotone non-worsening, iterated): along any run of improving
/// sweeps, the objective at each later iterate is at most the objective at
/// the start.
pub proof fn lemma_descent_non_worsening<F: Objective>(
    f: F,
    m: OneDimensionalMethod,
    x: Seq<int>,
    y: Seq<int>,
    n: nat,
    k: nat,
)
    requires
        improving_reaches(f, m, x, y, n, k),
    ensures
        f.value(y) <= f.value(x),
        exists|kk: nat| reaches(m, x, y, n, kk),
    decreases k,
{
    if k == 0 {
        assert(reaches(m, x, y, n, 0));
    } else {
        let z = choose|z: Seq<int>|
            improving_reaches(f, m, x, z, n, (k - 1) as nat) && improving_sweep_prefix(
                f,
                m,
                z,
                y,
                n,
            );
        lemma_descent_non_worsening(f, m, x, z, n, (k - 1) as nat);
        lemma_sweep_non_worsening(f, m, z, y, n);
        lemma_improving_is_sweep(f, m, z, y, n);
        let kk = choose|kk: nat| reaches(m, x, z, n, kk);
        lemma_reaches_extend(m, x, z, y, n, kk);
    }
}

/// Every coordinate shifted by `d`, saturated.
pub open spec fn offset_all(x: Seq<int>, d: int) -> Seq<int> {
    Seq::new(x.len(), |i: int| fx_add(x[i], d))
}

/// The either-or stopping rule: the position delta is at or below `eps_x`,
/// or the value delta is at or below `eps_y`.
pub open spec fn either_stop(
    cur: Seq<int>,
    prev: Seq<int>,
    v_cur: int,
    v_prev: int,
    eps_x: int,
    eps_y: int,
) -> bool {
    norm_of(sub_seq(cur, prev)) <= eps_x || fx_abs(fx_sub(v_cur, v_prev)) <= eps_y
}

/// Coordinate descent from a start point, driven by a 1-D line search.
#[derive(Clone)]
pub struct GaussZeidel {
    pub optimizer: OneDimensionalMethod,
    pub start: Point,
    pub eps_x: Fx,
    pub eps_y: Fx,
}

/// The scalar section of an objective along one axis: the 1-D objective
/// `lam -> f(x + lam * e_axis)` that a line search minimizes.
pub struct AxisSection<'a, F: Objective> {
    pub f: &'a F,
    pub base: &'a Point,
    pub axis: usize,
}

impl<'a, F: Objective> Objective1 for AxisSection<'a, F> {
    open spec fn wf(&self) -> bool {
        self.f.wf() && self.base@.len() == self.f.dim() && (self.axis as int) < self.f.dim()
    }

    open spec fn value(&self, t: int) -> int {
        self.f.value(axis_shift(self.base@, self.axis as int, t))
    }

    fn eval(&self, t: Fx) -> (r: Fx) {
        let p = self.base.axis_shifted(self.axis, t);
        self.f.eval(&p)
    }
}

impl GaussZeidel {
    pub fn new(start: Point, inner: OneDimensionalMethod, eps_x: Fx, eps_y: Fx) -> (r: GaussZeidel)
        ensures
            r.optimizer == inner,
            r.start@ == start@,
            r.eps_x == eps_x,
            r.eps_y == eps_y,
    {
        GaussZeidel { optimizer: inner, start, eps_x, eps_y }
    }

    /// One line search along axis `direction` from `x`: the result is `x`
    /// shifted along that axis by exactly the step the line search returns
    /// on that axis's section, a step within the search range.
    pub fn step<F: Objective>(&self, f: &F, direction: usize, x: &Point) -> (r: Point)
        requires
            self.wf(),
            f.wf(),
            f.dim() == self.dim(),
            x@.len() == f.dim(),
            (direction as int) < x@.len(),
        ensures
            r@ == axis_step_result(self.optimizer, space_fn(*f), x@, direction as int),
            exists|lam: int|
                self.optimizer.lo() <= lam <= self.optimizer.hi() && r@ == axis_shift(
                    x@,
                    direction as int,
                    lam,
                ),
    {
        let section = AxisSection { f, base: x, axis: direction };
        let (lam, _value, _steps) = self.optimizer.optimize(&section);
        let r = x.axis_shifted(direction, lam);
        proof {
            assert(value_fn(section) =~= section_fn(space_fn(*f), x@, direction as int));
            assert(self.optimizer.lo() <= lam@ <= self.optimizer.hi() && r@ == axis_shift(
                x@,
                direction as int,
                lam@,
            ));
        }
        r
    }

    /// One full sweep: applies `step` for each axis in order, folding the
    /// result forward.
    pub fn full_step<F: Objective>(&self, f: &F, x: Point) -> (r: Point)
        requires
            self.wf(),
            f.wf(),
            f.dim() == self.dim(),
            x@.len() == f.dim(),
        ensures
            r@.len() == x@.len(),
            r@ == sweep_fold(self.optimizer, space_fn(*f), x@, x@.len() as nat),
            sweep_prefix(self.optimizer, x@, r@, x@.len() as nat),
    {
        let ghost x0 = x@;
        let n = x.len();
        let mut cur = x;
        let mut i: usize = 0;
        while i < n
            invariant
                i <= n,
                n == f.dim(),
                self.wf(),
                f.wf(),
                f.dim() == self.dim(),
                cur@.len() == n,
                cur@ == sweep_fold(self.optimizer, space_fn(*f), x0, i as nat),
                sweep_prefix(self.optimizer, x0, cur@, i as nat),
            decreases n - i,
        {
            let next = self.step(f, i, &cur);
            proof {
                let lam = choose|lam: int|
                    self.optimizer.lo() <= lam <= self.optimizer.hi() && next@
                        == #[trigger] axis_shift(cur@, i as int, lam);
                lemma_sweep_extend(self.optimizer, x0, cur@, next@, i as nat, lam);
                assert(sweep_fold(self.optimizer, space_fn(*f), x0, (i + 1) as nat)
                    == axis_step_result(
                    self.optimizer,
                    space_fn(*f),
                    sweep_fold(self.optimizer, space_fn(*f), x0, i as nat),
                    i as int,
                ));
            }
            cur = next;
            i = i + 1;
        }
        cur
    }
}

impl SpaceOptimizer for GaussZeidel {
    open spec fn wf(&self) -> bool {
        self.optimizer.wf() && self.start@.len() >= 1
    }

    open spec fn dim(&self) -> nat {
        self.start@.len()
    }

    /// The run is pinned exactly: the result is `descent_result`'s final
    /// iterate, and the reported count is one more than its sweep count —
    /// so the iterates, the either-or stopping rule, and the count all
    /// follow from one deterministic recursion.
    #[verifier::rlimit(100)]
    #[verifier::spinoff_prover]
    fn optimize<F: Objective>(&self, f: &F) -> (r: (Point, Fx, Steps))
        ensures
            r.0@ == descent_result(
                self.optimizer,
                space_fn(*f),
                self.eps_x@,
                self.eps_y@,
                self.start@,
            ).0,
            r.2.0 == descent_result(
                self.optimizer,
                space_fn(*f),
                self.eps_x@,
                self.eps_y@,
                self.start@,
            ).1 + 1,
            r.2.0 >= 1,
            exists|k: nat| reaches(self.optimizer, self.start@, r.0@, f.dim(), k),
            r.2.0 == usize::MAX || (r.0@ == self.start@ && either_stop(
                r.0@,
                offset_all(self.start@, fx_add(self.eps_x@, self.eps_x@)),
                f.value(r.0@),
                f.value(offset_all(self.start@, fx_add(self.eps_x@, self.eps_x@))),
                self.eps_x@,
                self.eps_y@,
            )) || (exists|prev: Seq<int>, k: nat|
                reaches(self.optimizer, self.start@, prev, f.dim(), k) && sweep_prefix(
                    self.optimizer,
                    prev,
                    r.0@,
                    f.dim(),
                ) && either_stop(r.0@, prev, f.value(r.0@), f.value(prev), self.eps_x@, self.eps_y@)),
    {
        let ghost fv = space_fn(*f);
        let n = self.start.len();
        let two_eps = self.eps_x.plus(self.eps_x);
        let mut x = self.start.duplicate();
        let mut x_prev = self.start.plus(&Point::splat(n, two_eps));
        proof {
            assert(x_prev@ =~= offset_all(self.start@, fx_add(self.eps_x@, self.eps_x@)));
            assert(reaches(self.optimizer, self.start@, x@, f.dim(), 0));
        }
        let ghost initial_prev = x_prev@;
        let mut steps: usize = 1;
        while self.eps_x.lt(x.minus(&x_prev).norm()) && self.eps_y.lt(
            f.eval(&x).minus(f.eval(&x_prev)).abs_val(),
        ) && steps < usize::MAX
            invariant
                self.wf(),
                f.wf(),
                f.dim() == self.dim(),
                x@.len() == f.dim(),
                x_prev@.len() == f.dim(),
                steps >= 1,
                fv == space_fn(*f),
                descent_result(self.optimizer, fv, self.eps_x@, self.eps_y@, self.start@) == ({
                    let sub = descent_run(
                        self.optimizer,
                        fv,
                        self.eps_x@,
                        self.eps_y@,
                        x@,
                        x_prev@,
                        (usize::MAX - steps) as nat,
                    );
                    (sub.0, (sub.1 + steps - 1) as nat)
                }),
                exists|k: nat| reaches(self.optimizer, self.start@, x@, f.dim(), k),
                (x@ == self.start@ && x_prev@ == initial_prev) || (exists|
                    prev: Seq<int>,
                    k: nat,
                |
                    prev == x_prev@ && reaches(self.optimizer, self.start@, prev, f.dim(), k)
                        && sweep_prefix(self.optimizer, prev, x@, f.dim())),
                initial_prev == offset_all(self.start@, fx_add(self.eps_x@, self.eps_x@)),
            decreases usize::MAX - steps,
        {
            let ghost pre_x = x@;
            let ghost pre_prev = x_prev@;
            let ghost pre_steps = steps;
            let old_x = x.duplicate();
            x = self.full_step(f, x);
            x_prev = old_x;
            proof {
                let k0 = choose|k: nat| reaches(self.optimizer, self.start@, x_prev@, f.dim(), k);
                lemma_reaches_extend(self.optimizer, self.start@, x_prev@, x@, f.dim(), k0);
                assert(descent_run(
                    self.optimizer,
                    fv,
                    self.eps_x@,
                    self.eps_y@,
                    pre_x,
                    pre_prev,
                    (usize::MAX - pre_steps) as nat,
                ) == ({
                    let rec = descent_run(
                        self.optimizer,
                        fv,
                        self.eps_x@,
                        self.eps_y@,
                        x@,
                        pre_x,
                        (usize::MAX - (pre_steps + 1)) as nat,
                    );
                    (rec.0, (rec.1 + 1) as nat)
                }));
            }
            steps = steps + 1;
        }
        proof {
            assert(descent_run(
                self.optimizer,
                fv,
                self.eps_x@,
                self.eps_y@,
                x@,
                x_prev@,
                (usize::MAX - steps) as nat,
            ) == (x@, 0nat));
        }
        let v = f.eval(&x);
        let result = (x, v, Steps(steps));
        proof {
            let k0 = choose|k: nat|
                reaches(self.optimizer, self.start@, result.0@, f.dim(), k);
            assert(reaches(self.optimizer, self.start@, result.0@, f.dim(), k0));
            if steps != usize::MAX && !(x@ == self.start@ && x_prev@ == initial_prev) {
                let (prev, k): (Seq<int>, nat) = choose|prev: Seq<int>, k: nat|
                    prev == x_prev@ && reaches(self.optimizer, self.start@, prev, f.dim(), k)
                        && sweep_prefix(self.optimizer, prev, x@, f.dim());
                assert(reaches(self.optimizer, self.start@, prev, f.dim(), k) && sweep_prefix(
                    self.optimizer,
                    prev,
                    result.0@,
                    f.dim(),
                ) && either_stop(
                    result.0@,
                    prev,
                    f.value(result.0@),
                    f.value(prev),
                    self.eps_x@,
                    self.eps_y@,
                ));
            }
        }
        result
    }
}

} // verus!
