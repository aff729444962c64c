//! Conjugate directions (Powell-style): combines one axis step and one full
//! coordinate sweep into a synthesized search direction, then line-searches
//! along it — escaping the axis-aligned zig-zag of plain coordinate descent.

use vstd::prelude::*;

use crate::fixed::{fx_abs, fx_sub, Fx};
use crate::method::{
    method_point, space_fn, value_fn, Objective, Objective1, OneDimensionalMethod, Optimizer,
    SpaceOptimizer, Steps,
};
use crate::point::{add_seq, axis_shift, norm_of, scale_seq, sub_seq, Point};
use crate::zeidel::{axis_step_result, sweep_fold, sweep_prefix, GaussZeidel};

verus! {

/// The scalar value function of `fv` along a direction from a base point.
pub open spec fn direction_fn(
    fv: spec_fn(Seq<int>) -> int,
    base: Seq<int>,
    dir: Seq<int>,
) -> spec_fn(int) -> int {
    |t: int| fv(add_seq(base, scale_seq(dir, t)))
}

/// One conjugate-direction iteration from `x`, pinned exactly: the axis-0
/// line-search step, the full sweep from its result, and the line search
/// along the synthesized direction between the two.
pub open spec fn conj_iter(
    m: OneDimensionalMethod,
    fv: spec_fn(Seq<int>) -> int,
    x: Seq<int>,
) -> Seq<int> {
    let x0 = axis_step_result(m, fv, x, 0);
    let xn = sweep_fold(m, fv, x0, x0.len());
    let p = sub_seq(xn, x0);
    let lam = method_point(m, direction_fn(fv, x0, p));
    add_seq(x0, scale_seq(p, lam))
}

/// The run of conjugate iterations from `x`: it stops as soon as the value
/// delta falls strictly below `eps_y` or the position delta strictly below
/// `eps_x`, and exhausting the iteration budget stops with the saturated
/// count. Returns the final iterate and the count of earlier iterations.
pub open spec fn conj_run(
    m: OneDimensionalMethod,
    fv: spec_fn(Seq<int>) -> int,
    eps_x: int,
    eps_y: int,
    x: Seq<int>,
    fuel: nat,
) -> (Seq<int>, nat)
    decreases fuel,
{
    let x2 = conj_iter(m, fv, x);
    if fx_abs(fx_sub(fv(x2), fv(x))) < eps_y || norm_of(sub_seq(x2, x)) < eps_x {
        (x2, 0)
    } else if fuel == 0 {
        (x2, (usize::MAX - 1) as nat)
    } else {
        let rec = conj_run(m, fv, eps_x, eps_y, x2, (fuel - 1) as nat);
        (
            rec.0,
            if rec.1 == (usize::MAX - 1) as nat {
                rec.1
            } else {
                (rec.1 + 1) as nat
            },
        )
    }
}

/// A run's count is either the saturation marker or at most its budget.
pub proof fn lemma_conj_run_count(
    m: OneDimensionalMethod,
    fv: spec_fn(Seq<int>) -> int,
    eps_x: int,
    eps_y: int,
    x: Seq<int>,
    fuel: nat,
)
    ensures
        conj_run(m, fv, eps_x, eps_y, x, fuel).1 == (usize::MAX - 1) as nat || conj_run(
            m,
            fv,
            eps_x,
            eps_y,
            x,
            fuel,
        ).1 <= fuel,
    decreases fuel,
{
    let x2 = conj_iter(m, fv, x);
    if !(fx_abs(fx_sub(fv(x2), fv(x))) < eps_y || norm_of(sub_seq(x2, x)) < eps_x) && fuel != 0 {
        lemma_conj_run_count(m, fv, eps_x, eps_y, x2, (fuel - 1) as nat);
    }
}

/// The whole conjugate-direction run from its configured start, with the
/// step counter's iteration budget.
pub open spec fn conj_result(
    m: OneDimensionalMethod,
    fv: spec_fn(Seq<int>) -> int,
    eps_x: int,
    eps_y: int,
    start: Seq<int>,
) -> (Seq<int>, nat) {
    conj_run(m, fv, eps_x, eps_y, start, (usize::MAX - 2) as nat)
}

/// One outer iteration of the conjugate-direction scheme from `x` to `y`:
/// an axis-0 line-search step to `x0`, a full sweep from `x0` to `xn`, and
/// a line search along the synthesized direction `xn - x0`.
pub open spec fn conj_step(m: OneDimensionalMethod, x: Seq<int>, y: Seq<int>, n: nat) -> bool {
    exists|lam0: int, xn: Seq<int>, lam: int|
        #![trigger axis_shift(x, 0, lam0), sweep_prefix(m, axis_shift(x, 0, lam0), xn, n), scale_seq(sub_seq(xn, axis_shift(x, 0, lam0)), lam)]
        m.lo() <= lam0 <= m.hi() && sweep_prefix(m, axis_shift(x, 0, lam0), xn, n) && m.lo() <= lam
            <= m.hi() && y == add_seq(
            axis_shift(x, 0, lam0),
            scale_seq(sub_seq(xn, axis_shift(x, 0, lam0)), lam),
        )
}

/// `y` is `x` after `k` outer conjugate-direction iterations.
pub open spec fn conj_reaches(
    m: OneDimensionalMethod,
    x: Seq<int>,
    y: Seq<int>,
    n: nat,
    k: nat,
) -> bool
    decreases k,
{
    if k == 0 {
        y == x
    } else {
        exists|z: Seq<int>| conj_reaches(m, x, z, n, (k - 1) as nat) && conj_step(m, z, y, n)
    }
}

pub proof fn lemma_conj_reaches_extend(
    m: OneDimensionalMethod,
    x: Seq<int>,
    z: Seq<int>,
    y: Seq<int>,
    n: nat,
    k: nat,
)
    requires
        conj_reaches(m, x, z, n, k),
        conj_step(m, z, y, n),
    ensures
        conj_reaches(m, x, y, n, (k + 1) as nat),
{
    let j = (k + 1) as nat;
    assert(conj_reaches(m, x, z, n, (j - 1) as nat));
}

/// With a zero step a direction shift is no move at all: "no worse than
/// the direction section's value at step zero" means "no worse than the
/// point the direction search started from".
pub proof fn lemma_direction_shift_zero(x: Seq<int>, d: Seq<int>)
    requires
        d.len() == x.len(),
        forall|j: int| 0 <= j < x.len() ==> i64::MIN <= #[trigger] x[j] <= i64::MAX,
    ensures
        add_seq(x, scale_seq(d, 0)) == x,
{
    assert forall|j: int| 0 <= j < x.len() implies add_seq(x, scale_seq(d, 0))[j] == x[j] by {
        crate::fixed::lemma_fx_mul_zero(d[j]);
    }
    assert(add_seq(x, scale_seq(d, 0)) =~= x);
}

/// One conjugate-direction iteration whose two searched moves — the first
/// axis step and the final direction step — each leave the objective no
/// worse than the point they started from.
pub open spec fn improving_conj_step<F: Objective>(
    f: F,
    m: OneDimensionalMethod,
    x: Seq<int>,
    y: Seq<int>,
    n: nat,
) -> bool {
    exists|lam0: int, xn: Seq<int>, lam: int|
        #![trigger axis_shift(x, 0, lam0), sweep_prefix(m, axis_shift(x, 0, lam0), xn, n), scale_seq(sub_seq(xn, axis_shift(x, 0, lam0)), lam)]
        m.lo() <= lam0 <= m.hi() && sweep_prefix(m, axis_shift(x, 0, lam0), xn, n) && m.lo() <= lam
            <= m.hi() && y == add_seq(
            axis_shift(x, 0, lam0),
            scale_seq(sub_seq(xn, axis_shift(x, 0, lam0)), lam),
        ) && f.value(axis_shift(x, 0, lam0)) <= f.value(x) && f.value(y) <= f.value(
            axis_shift(x, 0, lam0),
        )
}

/// `y` is `x` after `k` improving conjugate-direction iterations.
pub open spec fn improving_conj_reaches<F: Objective>(
    f: F,
    m: OneDimensionalMethod,
    x: Seq<int>,
    y: Seq<int>,
    n: nat,
    k: nat,
) -> bool
    decreases k,
{
    if k == 0 {
        y == x
    } else {
        exists|z: Seq<int>|
            improving_conj_reaches(f, m, x, z, n, (k - 1) as nat) && improving_conj_step(
                f,
                m,
                z,
                y,
                n,
            )
    }
}

/// Law (monotone non-worsening, conjugate directions): along any run of
/// iterations whose searched moves never worsen the objective over their
/// own starting points, the objective at each later iterate is at most the
/// objective at the start, and each iterate is a genuine conjugate step
/// from the one before.
pub proof fn lemma_conj_non_worsening<F: Objective>(
    f: F,
    m: OneDimensionalMethod,
    x: Seq<int>,
    y: Seq<int>,
    n: nat,
    k: nat,
)
    requires
        improving_conj_reaches(f, m, x, y, n, k),
    ensures
        f.value(y) <= f.value(x),
        conj_reaches(m, x, y, n, k),
    decreases k,
{
    if k != 0 {
        let z = choose|z: Seq<int>|
            improving_conj_reaches(f, m, x, z, n, (k - 1) as nat) && improving_conj_step(
                f,
                m,
                z,
                y,
                n,
            );
        lemma_conj_non_worsening(f, m, x, z, n, (k - 1) as nat);
        assert(conj_step(m, z, y, n));
        lemma_conj_reaches_extend(m, x, z, y, n, (k - 1) as nat);
    }
}

/// The scalar section of an objective along an arbitrary direction: the
/// 1-D objective `lam -> f(base + lam * dir)`.
pub struct DirectionSection<'a, F: Objective> {
    pub f: &'a F,
    pub base: &'a Point,
    pub dir: &'a Point,
}

impl<'a, F: Objective> Objective1 for DirectionSection<'a, F> {
    open spec fn wf(&self) -> bool {
        self.f.wf() && self.base@.len() == self.f.dim() && self.dir@.len() == self.f.dim()
    }

    open spec fn value(&self, t: int) -> int {
        self.f.value(add_seq(self.base@, scale_seq(self.dir@, t)))
    }

    fn eval(&self, t: Fx) -> (r: Fx) {
        let p = self.base.plus(&self.dir.scaled(t));
        self.f.eval(&p)
    }
}

/// The conjugate-direction solver: a start point, the 1-D line search the
/// sweeps and the direction search share, and the two stopping tolerances.
#[derive(Clone)]
pub struct ConjugateDirections {
    pub start: Point,
    pub optimizer: OneDimensionalMethod,
    pub eps_x: Fx,
    pub eps_y: Fx,
}

impl ConjugateDirections {
    pub fn new(start: Point, optimizer: OneDimensionalMethod, eps_x: Fx, eps_y: Fx) -> (r:
        ConjugateDirections)
        ensures
            r.start@ == start@,
            r.optimizer == optimizer,
            r.eps_x == eps_x,
            r.eps_y == eps_y,
    {
        ConjugateDirections { start, optimizer, eps_x, eps_y }
    }
}

impl SpaceOptimizer for ConjugateDirections {
    open spec fn wf(&self) -> bool {
        self.optimizer.wf() && self.start@.len() >= 1
    }

    open spec fn dim(&self) -> nat {
        self.start@.len()
    }

    /// The run is pinned exactly: the result and the reported count are
    /// `conj_result`'s, so the per-iteration structure and the strict
    /// either-or stop both follow from one deterministic recursion.
    #[verifier::rlimit(30)]
    #[verifier::spinoff_prover]
    fn optimize<F: Objective>(&self, f: &F) -> (r: (Point, Fx, Steps))
        ensures
            r.0@ == conj_result(
                self.optimizer,
                space_fn(*f),
                self.eps_x@,
                self.eps_y@,
                self.start@,
            ).0,
            r.2.0 == conj_result(
                self.optimizer,
                space_fn(*f),
                self.eps_x@,
                self.eps_y@,
                self.start@,
            ).1,
            exists|k: nat| conj_reaches(self.optimizer, self.start@, r.0@, f.dim(), k),
            r.2.0 >= usize::MAX - 1 || exists|prev: Seq<int>, k: nat|
                conj_reaches(self.optimizer, self.start@, prev, f.dim(), k) && conj_step(
                    self.optimizer,
                    prev,
                    r.0@,
                    f.dim(),
                ) && (fx_abs(fx_sub(f.value(r.0@), f.value(prev))) < self.eps_y@ || norm_of(
                    sub_seq(r.0@, prev),
                ) < self.eps_x@),
    {
        let ghost fv = space_fn(*f);
        let mut steps: usize = 0;
        let mut x = self.start.duplicate();
        proof {
            assert(conj_reaches(self.optimizer, self.start@, x@, f.dim(), 0));
        }
        loop
            invariant_except_break
                self.wf(),
                f.wf(),
                f.dim() == self.dim(),
                x@.len() == f.dim(),
                steps < usize::MAX - 1,
                fv == space_fn(*f),
                conj_result(self.optimizer, fv, self.eps_x@, self.eps_y@, self.start@) == ({
                    let sub = conj_run(
                        self.optimizer,
                        fv,
                        self.eps_x@,
                        self.eps_y@,
                        x@,
                        (usize::MAX - 2 - steps) as nat,
                    );
                    (
                        sub.0,
                        if sub.1 == (usize::MAX - 1) as nat {
                            sub.1
                        } else {
                            (sub.1 + steps) as nat
                        },
                    )
                }),
                exists|k: nat| conj_reaches(self.optimizer, self.start@, x@, f.dim(), k),
            ensures
                x@.len() == f.dim(),
                x@ == conj_result(self.optimizer, fv, self.eps_x@, self.eps_y@, self.start@).0,
                steps == conj_result(self.optimizer, fv, self.eps_x@, self.eps_y@, self.start@).1,
                fv == space_fn(*f),
                exists|k: nat| conj_reaches(self.optimizer, self.start@, x@, f.dim(), k),
                steps >= usize::MAX - 1 || exists|prev: Seq<int>, k: nat|
                    conj_reaches(self.optimizer, self.start@, prev, f.dim(), k) && conj_step(
                        self.optimizer,
                        prev,
                        x@,
                        f.dim(),
                    ) && (fx_abs(fx_sub(f.value(x@), f.value(prev))) < self.eps_y@ || norm_of(
                        sub_seq(x@, prev),
                    ) < self.eps_x@),
            decreases usize::MAX - steps,
        {
            let ghost pre_x = x@;
            let ghost pre_steps = steps;
            let gauss = GaussZeidel::new(
                x.duplicate(),
                self.optimizer,
                self.eps_x,
                self.eps_y,
            );
            let x0 = gauss.step(f, 0, &x);
            let gauss_sweep = GaussZeidel::new(
                x0.duplicate(),
                self.optimizer,
                self.eps_x,
                self.eps_x,
            );
            let xn = gauss_sweep.full_step(f, x0.duplicate());
            let p = xn.minus(&x0);
            let section = DirectionSection { f, base: &x0, dir: &p };
            let (lam, _value, _inner_steps) = self.optimizer.optimize(&section);
            let x_prev = x;
            x = x0.plus(&p.scaled(lam));
            proof {
                assert(value_fn(section) =~= direction_fn(fv, x0@, p@));
                assert(x@ == conj_iter(self.optimizer, fv, pre_x));
                let lam0 = choose|lam0: int|
                    self.optimizer.lo() <= lam0 <= self.optimizer.hi() && x0@
                        == #[trigger] axis_shift(x_prev@, 0, lam0);
                assert(conj_step(self.optimizer, x_prev@, x@, f.dim()));
                let k0 = choose|k: nat|
                    conj_reaches(self.optimizer, self.start@, x_prev@, f.dim(), k);
                lemma_conj_reaches_extend(
                    self.optimizer,
                    self.start@,
                    x_prev@,
                    x@,
                    f.dim(),
                    k0,
                );
            }
            let v_new = f.eval(&x);
            let v_old = f.eval(&x_prev);
            if v_new.minus(v_old).abs_val().lt(self.eps_y) || x.minus(&x_prev).norm().lt(
                self.eps_x,
            ) {
                proof {
                    assert(conj_run(
                        self.optimizer,
                        fv,
                        self.eps_x@,
                        self.eps_y@,
                        pre_x,
                        (usize::MAX - 2 - pre_steps) as nat,
                    ) == (x@, 0nat));
                }
                break ;
            }
            if steps >= usize::MAX - 2 {
                steps = usize::MAX - 1;
                proof {
                    assert(conj_run(self.optimizer, fv, self.eps_x@, self.eps_y@, pre_x, 0nat)
                        == (x@, (usize::MAX - 1) as nat));
                }
                break ;
            }
            steps = steps + 1;
            proof {
                lemma_conj_run_count(
                    self.optimizer,
                    fv,
                    self.eps_x@,
                    self.eps_y@,
                    x@,
                    (usize::MAX - 2 - (pre_steps + 1)) as nat,
                );
                assert(conj_run(
                    self.optimizer,
                    fv,
                    self.eps_x@,
                    self.eps_y@,
                    pre_x,
                    (usize::MAX - 2 - pre_steps) as nat,
                ) == ({
                    let rec = conj_run(
                        self.optimizer,
                        fv,
                        self.eps_x@,
                        self.eps_y@,
                        x@,
                        (usize::MAX - 2 - (pre_steps + 1)) as nat,
                    );
                    (
                        rec.0,
                        if rec.1 == (usize::MAX - 1) as nat {
                            rec.1
                        } else {
                            (rec.1 + 1) as nat
                        },
                    )
                }));
            }
        }
        let v = f.eval(&x);
        let result = (x, v, Steps(steps));
        proof {
            let k0 = choose|k: nat|
                conj_reaches(self.optimizer, self.start@, result.0@, f.dim(), k);
            assert(conj_reaches(self.optimizer, self.start@, result.0@, f.dim(), k0));
        }
        result
    }
}

} // verus!
