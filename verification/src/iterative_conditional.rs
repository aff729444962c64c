//! The constrained solver: adaptive quadratic penalty iteration.
//!
//! It wraps a space optimizer around an augmented objective — the bare
//! objective plus a weighted sum of squared constraint violations — and
//! re-instantiates the inner optimizer at the current point each outer
//! iteration (warm-starting), while a caller-supplied rule grows the
//! penalty weights. Every second iteration it compares the current point
//! against the point recorded two iterations earlier and stops once their
//! distance falls below the tolerance.

use vstd::prelude::*;

use crate::fixed::{fx_add, fx_mul, lemma_fx_mul_zero, seq_views, Fx};
use crate::method::{
    space_fn, GlobalMultiMethod, Objective, OneDimensionalMethod, Optimizer, SpaceOptimizer,
    Steps,
};
use crate::point::{norm_of, sub_seq, Point};
use crate::restriction::Restriction;
use crate::zeidel::{descent_result, lemma_reaches_trans, reaches, GaussZeidel};

verus! {

/// The mutable penalty weights: one `lambda` per equality, one `mu` per
/// inequality, and the two global growth factors.
pub struct Parameters {
    pub lambda: Vec<Fx>,
    pub mu: Vec<Fx>,
    pub alpha_h: Fx,
    pub alpha_g: Fx,
}

/// A fresh vector with the same scalars.
fn copy_scalars(v: &Vec<Fx>) -> (r: Vec<Fx>)
    ensures
        r@ == v@,
{
    let mut out: Vec<Fx> = Vec::new();
    let mut k: usize = 0;
    while k < v.len()
        invariant
            k <= v@.len(),
            out@.len() == k,
            forall|i: int| 0 <= i < k ==> out@[i] == v@[i],
        decreases v@.len() - k,
    {
        out.push(v[k]);
        k = k + 1;
    }
    proof {
        assert(out@ =~= v@);
    }
    out
}

impl Parameters {
    /// A fresh record with the same weights.
    pub fn duplicate(&self) -> (r: Parameters)
        ensures
            r.lambda@ == self.lambda@,
            r.mu@ == self.mu@,
            r.alpha_h == self.alpha_h,
            r.alpha_g == self.alpha_g,
    {
        Parameters {
            lambda: copy_scalars(&self.lambda),
            mu: copy_scalars(&self.mu),
            alpha_h: self.alpha_h,
            alpha_g: self.alpha_g,
        }
    }
}

/// The caller-supplied adaptation rule, as an explicit state transition:
/// each outer iteration multiplies the two growth factors by fixed ratios.
#[derive(Clone, Copy)]
pub struct ParameterUpdate {
    pub factor_h: Fx,
    pub factor_g: Fx,
}

impl ParameterUpdate {
    pub fn new(factor_h: Fx, factor_g: Fx) -> (r: ParameterUpdate)
        ensures
            r.factor_h == factor_h,
            r.factor_g == factor_g,
    {
        ParameterUpdate { factor_h, factor_g }
    }

    /// Applies the rule once, in place.
    pub fn apply(&self, p: &mut Parameters)
        ensures
            final(p).lambda@ == old(p).lambda@,
            final(p).mu@ == old(p).mu@,
            final(p).alpha_h@ == fx_mul(old(p).alpha_h@, self.factor_h@),
            final(p).alpha_g@ == fx_mul(old(p).alpha_g@, self.factor_g@),
    {
        p.alpha_h = p.alpha_h.times(self.factor_h);
        p.alpha_g = p.alpha_g.times(self.factor_g);
    }
}

/// Builds the inner space optimizer afresh around a start point, so each
/// outer iteration warm-starts where the previous one ended.
#[derive(Clone, Copy)]
pub enum GlobalMultiBuilder {
    GaussZeidel { inner: OneDimensionalMethod, eps_x: Fx, eps_y: Fx },
}

impl GlobalMultiBuilder {
    pub open spec fn wf(&self) -> bool {
        match self {
            GlobalMultiBuilder::GaussZeidel { inner, eps_x, eps_y } => inner.wf(),
        }
    }

    /// The 1-D line search the built optimizer moves along.
    pub open spec fn line_search(&self) -> OneDimensionalMethod {
        match self {
            GlobalMultiBuilder::GaussZeidel { inner, eps_x, eps_y } => *inner,
        }
    }

    /// The position tolerance the built optimizer stops on.
    pub open spec fn inner_eps_x(&self) -> int {
        match self {
            GlobalMultiBuilder::GaussZeidel { inner, eps_x, eps_y } => eps_x@,
        }
    }

    /// The value tolerance the built optimizer stops on.
    pub open spec fn inner_eps_y(&self) -> int {
        match self {
            GlobalMultiBuilder::GaussZeidel { inner, eps_x, eps_y } => eps_y@,
        }
    }

    pub fn build(&self, start: Point) -> (r: GlobalMultiMethod)
        ensures
            (r matches GlobalMultiMethod::GaussZeidel(gz) && gz.optimizer == self.line_search()
                && gz.start@ == start@ && gz.eps_x@ == self.inner_eps_x() && gz.eps_y@
                == self.inner_eps_y()),
    {
        match self {
            GlobalMultiBuilder::GaussZeidel { inner, eps_x, eps_y } => {
                GlobalMultiMethod::GaussZeidel(GaussZeidel::new(start, *inner, *eps_x, *eps_y))
            },
        }
    }
}

/// The inequalities of a restriction list, in order.
pub open spec fn ineq_of<G>(rs: Seq<Restriction<G>>) -> Seq<Restriction<G>> {
    rs.filter(|r: Restriction<G>| r.spec_is_inequality())
}

/// The equalities of a restriction list, in order.
pub open spec fn eq_of<G>(rs: Seq<Restriction<G>>) -> Seq<Restriction<G>> {
    rs.filter(|r: Restriction<G>| !r.spec_is_inequality())
}

/// The squared violation a single restriction contributes at `x`: an
/// equality is always penalized, an inequality only where it is violated.
pub open spec fn penalty_term<G: Objective>(r: Restriction<G>, x: Seq<int>) -> int {
    match r {
        Restriction::Inequality(g) => {
            let v = if g.value(x) < 0 {
                g.value(x)
            } else {
                0
            };
            fx_mul(v, v)
        },
        Restriction::Equality(g) => fx_mul(g.value(x), g.value(x)),
    }
}

/// The weighted sum of penalty terms, folded left.
pub open spec fn weighted_sum<G: Objective>(
    rs: Seq<Restriction<G>>,
    ws: Seq<int>,
    x: Seq<int>,
) -> int
    decreases rs.len(),
{
    if rs.len() == 0 {
        0
    } else {
        fx_add(
            weighted_sum(rs.drop_last(), ws.drop_last(), x),
            fx_mul(ws[rs.len() - 1], penalty_term(rs.last(), x)),
        )
    }
}

/// The whole penalty at `x`: the equality sum scaled by `alpha_h` plus the
/// inequality sum scaled by `alpha_g`.
pub open spec fn tax_spec<G: Objective>(
    eqs: Seq<Restriction<G>>,
    ineqs: Seq<Restriction<G>>,
    lambda: Seq<int>,
    mu: Seq<int>,
    alpha_h: int,
    alpha_g: int,
    x: Seq<int>,
) -> int {
    fx_add(
        fx_mul(alpha_h, weighted_sum(eqs, lambda, x)),
        fx_mul(alpha_g, weighted_sum(ineqs, mu, x)),
    )
}

/// Law (penalty vacuity): wherever every restriction is satisfied exactly —
/// each inequality nonnegative, each equality zero — the penalty vanishes,
/// so the augmented objective coincides with the bare one there.
pub proof fn lemma_penalty_vacuity<G: Objective>(
    eqs: Seq<Restriction<G>>,
    ineqs: Seq<Restriction<G>>,
    lambda: Seq<int>,
    mu: Seq<int>,
    alpha_h: int,
    alpha_g: int,
    x: Seq<int>,
)
    requires
        forall|i: int| 0 <= i < eqs.len() ==> (#[trigger] eqs[i]).func().value(x) == 0,
        forall|i: int|
            0 <= i < ineqs.len() ==> (#[trigger] ineqs[i]).func().value(x) >= 0
                && ineqs[i].spec_is_inequality(),
    ensures
        tax_spec(eqs, ineqs, lambda, mu, alpha_h, alpha_g, x) == 0,
        forall|v: int|
            i64::MIN <= v <= i64::MAX ==> fx_add(
                v,
                tax_spec(eqs, ineqs, lambda, mu, alpha_h, alpha_g, x),
            ) == v,
{
    assert forall|i: int|
        0 <= i < eqs.len() implies ((#[trigger] eqs[i]) matches Restriction::Equality(g)
        ==> g.value(x) == 0) && (eqs[i] matches Restriction::Inequality(g) ==> g.value(x)
        >= 0) by {
        assert(eqs[i].func().value(x) == 0);
    }
    assert forall|i: int|
        0 <= i < ineqs.len() implies ((#[trigger] ineqs[i]) matches Restriction::Equality(g)
        ==> g.value(x) == 0) && (ineqs[i] matches Restriction::Inequality(g) ==> g.value(x)
        >= 0) by {
        assert(ineqs[i].func().value(x) >= 0);
        assert(ineqs[i].spec_is_inequality());
    }
    lemma_weighted_sum_vacuous(eqs, lambda, x);
    lemma_weighted_sum_vacuous(ineqs, mu, x);
    lemma_fx_mul_zero(alpha_h);
    lemma_fx_mul_zero(alpha_g);
}

/// Each term of a satisfied restriction list is zero, so the weighted sum
/// is zero.
proof fn lemma_weighted_sum_vacuous<G: Objective>(
    rs: Seq<Restriction<G>>,
    ws: Seq<int>,
    x: Seq<int>,
)
    requires
        forall|i: int|
            0 <= i < rs.len() ==> ((#[trigger] rs[i]) matches Restriction::Equality(g) ==> g.value(
                x,
            ) == 0) && (rs[i] matches Restriction::Inequality(g) ==> g.value(x) >= 0),
    ensures
        weighted_sum(rs, ws, x) == 0,
    decreases rs.len(),
{
    if rs.len() > 0 {
        assert(forall|i: int|
            0 <= i < rs.drop_last().len() ==> #[trigger] rs.drop_last()[i] == rs[i]);
        lemma_weighted_sum_vacuous(rs.drop_last(), ws.drop_last(), x);
        let last = rs.last();
        assert(last == rs[rs.len() - 1]);
        match last {
            Restriction::Inequality(g) => {
                assert(g.value(x) >= 0);
                lemma_fx_mul_zero(0);
            },
            Restriction::Equality(g) => {
                assert(g.value(x) == 0);
                lemma_fx_mul_zero(0);
            },
        }
        lemma_fx_mul_zero(ws[rs.len() - 1]);
    }
}

/// The penalized value function: the bare objective plus the tax of the
/// restriction lists under the given weights.
pub open spec fn penalized_fn<G: Objective>(
    fv: spec_fn(Seq<int>) -> int,
    eqs: Seq<Restriction<G>>,
    ineqs: Seq<Restriction<G>>,
    lambda: Seq<int>,
    mu: Seq<int>,
    alpha_h: int,
    alpha_g: int,
) -> spec_fn(Seq<int>) -> int {
    |s: Seq<int>| fx_add(fv(s), tax_spec(eqs, ineqs, lambda, mu, alpha_h, alpha_g, s))
}

/// The outer penalty iteration, pinned exactly: each iterate is the inner
/// coordinate-descent run on the objective penalized under the current
/// weights; the growth factors multiply the weights once per iteration;
/// on even iterations the fresh iterate is compared to the anchor recorded
/// two iterations earlier and the run stops once they are within `eps`;
/// passing the counter's cap stops with the saturated count.
pub open spec fn constrained_run<G: Objective>(
    b: GlobalMultiBuilder,
    fv: spec_fn(Seq<int>) -> int,
    eqs: Seq<Restriction<G>>,
    ineqs: Seq<Restriction<G>>,
    lambda: Seq<int>,
    mu: Seq<int>,
    alpha_h: int,
    alpha_g: int,
    fh: int,
    fg: int,
    eps: int,
    x: Seq<int>,
    anchor: Seq<int>,
    steps: nat,
    fuel: nat,
) -> (Seq<int>, nat)
    decreases fuel,
{
    let q = penalized_fn(fv, eqs, ineqs, lambda, mu, alpha_h, alpha_g);
    let xq = descent_result(b.line_search(), q, b.inner_eps_x(), b.inner_eps_y(), x).0;
    if steps % 2 == 0 && norm_of(sub_seq(xq, anchor)) < eps {
        (xq, steps)
    } else {
        let anchor2 = if steps % 2 == 0 {
            xq
        } else {
            anchor
        };
        if steps >= (usize::MAX - 2) as nat || fuel == 0 {
            (xq, (usize::MAX - 1) as nat)
        } else {
            constrained_run(
                b,
                fv,
                eqs,
                ineqs,
                lambda,
                mu,
                fx_mul(alpha_h, fh),
                fx_mul(alpha_g, fg),
                fh,
                fg,
                eps,
                xq,
                anchor2,
                (steps + 1) as nat,
                (fuel - 1) as nat,
            )
        }
    }
}

/// Law (penalty vacuity, executable tie): under a restriction set that is
/// satisfied at every point — each inequality nonnegative, each equality
/// zero, everywhere — the penalized value function is the bare one, for
/// any weights the adaptation may have grown. Every inner solve of the
/// pinned constrained run therefore coincides, by congruence, with the
/// unconstrained coordinate-descent run from the same start.
pub proof fn lemma_vacuous_penalty_is_bare<G: Objective>(
    fv: spec_fn(Seq<int>) -> int,
    eqs: Seq<Restriction<G>>,
    ineqs: Seq<Restriction<G>>,
    lambda: Seq<int>,
    mu: Seq<int>,
    alpha_h: int,
    alpha_g: int,
)
    requires
        forall|s: Seq<int>, i: int|
            0 <= i < eqs.len() ==> (#[trigger] eqs[i].func().value(s)) == 0,
        forall|s: Seq<int>, i: int|
            0 <= i < ineqs.len() ==> (#[trigger] ineqs[i].func().value(s)) >= 0,
        forall|i: int| 0 <= i < ineqs.len() ==> (#[trigger] ineqs[i]).spec_is_inequality(),
        forall|s: Seq<int>| i64::MIN <= #[trigger] fv(s) <= i64::MAX,
    ensures
        penalized_fn(fv, eqs, ineqs, lambda, mu, alpha_h, alpha_g) == fv,
{
    let q = penalized_fn(fv, eqs, ineqs, lambda, mu, alpha_h, alpha_g);
    assert forall|s: Seq<int>| #[trigger] q(s) == fv(s) by {
        lemma_penalty_vacuity(eqs, ineqs, lambda, mu, alpha_h, alpha_g, s);
    }
    assert(q =~= fv);
}

/// The constrained solver: minimizes an objective under a restriction set
/// by repeated inner solves of the penalized objective.
pub struct IterativeConditional<G> {
    pub inequalities: Vec<Restriction<G>>,
    pub equalities: Vec<Restriction<G>>,
    pub start: Point,
    pub optimizer: GlobalMultiBuilder,
    pub eps: Fx,
    pub parameters: Parameters,
    pub control_hook: ParameterUpdate,
}

impl<G: Objective> IterativeConditional<G> {
    /// Partitions the restrictions and validates the weight counts: the
    /// solver exists exactly when there is one `mu` per inequality and one
    /// `lambda` per equality.
    pub fn new(
        restrictions: Vec<Restriction<G>>,
        start: Point,
        optimizer: GlobalMultiBuilder,
        eps: Fx,
        parameters: Parameters,
        control_hook: ParameterUpdate,
    ) -> (r: Option<IterativeConditional<G>>)
        ensures
            (r is Some) <==> (ineq_of(restrictions@).len() == parameters.mu@.len() && eq_of(
                restrictions@,
            ).len() == parameters.lambda@.len()),
            r matches Some(ic) ==> ic.inequalities@ == ineq_of(restrictions@) && ic.equalities@
                == eq_of(restrictions@) && ic.start@ == start@ && ic.optimizer == optimizer
                && ic.eps == eps && ic.parameters == parameters && ic.control_hook == control_hook,
    {
        let ghost orig = restrictions@;
        let mut rest = restrictions;
        let mut ineq: Vec<Restriction<G>> = Vec::new();
        let mut eq: Vec<Restriction<G>> = Vec::new();
        proof {
            reveal(Seq::filter);
            assert(orig.subrange(0, 0) =~= Seq::<Restriction<G>>::empty());
            assert(ineq_of(orig.subrange(0, 0)) =~= Seq::<Restriction<G>>::empty());
            assert(eq_of(orig.subrange(0, 0)) =~= Seq::<Restriction<G>>::empty());
        }
        let mut k: usize = 0;
        let total = rest.len();
        while rest.len() > 0
            invariant
                orig.len() == total,
                k + rest@.len() == orig.len(),
                rest@ =~= orig.skip(k as int),
                ineq@ == ineq_of(orig.subrange(0, k as int)),
                eq@ == eq_of(orig.subrange(0, k as int)),
            decreases rest@.len(),
        {
            proof {
                assert(k + rest@.len() == orig.len());
                assert(rest@.len() > 0);
                assert(k as int + 1 <= orig.len());
            }
            let r = rest.remove(0);
            let ghost pre = orig.subrange(0, k as int);
            let ghost post = orig.subrange(0, k as int + 1);
            proof {
                reveal(Seq::filter);
                assert(rest@ =~= orig.skip(k as int + 1));
                assert(r == orig.skip(k as int)[0]);
                assert(r == orig[k as int]);
                assert(post.len() == k + 1);
                assert(post.drop_last() =~= pre);
                assert(post.last() == orig[k as int]);
                assert(ineq_of(post) == if r.spec_is_inequality() {
                    ineq_of(pre).push(r)
                } else {
                    ineq_of(pre)
                });
                assert(eq_of(post) == if !r.spec_is_inequality() {
                    eq_of(pre).push(r)
                } else {
                    eq_of(pre)
                });
            }
            if r.is_inequality() {
                ineq.push(r);
            } else {
                eq.push(r);
            }
            k = k + 1;
        }
        proof {
            assert(orig.subrange(0, orig.len() as int) =~= orig);
        }
        if ineq.len() != parameters.mu.len() || eq.len() != parameters.lambda.len() {
            return None;
        }
        Some(
            IterativeConditional {
                inequalities: ineq,
                equalities: eq,
                start,
                optimizer,
                eps,
                parameters,
                control_hook,
            },
        )
    }

    /// The penalty this solver's restriction set charges at `x` under the
    /// given weights.
    pub fn tax(&self, x: &Point, params: &Parameters) -> (r: Fx)
        requires
            forall|i: int|
                0 <= i < self.equalities@.len() ==> (#[trigger] self.equalities@[i]).func().wf()
                    && self.equalities@[i].func().dim() == x@.len(),
            forall|i: int|
                0 <= i < self.inequalities@.len() ==> (#[trigger] self.inequalities@[i]).func().wf()
                    && self.inequalities@[i].func().dim() == x@.len(),
            params.lambda@.len() == self.equalities@.len(),
            params.mu@.len() == self.inequalities@.len(),
        ensures
            r@ == tax_spec(
                self.equalities@,
                self.inequalities@,
                seq_views(params.lambda@),
                seq_views(params.mu@),
                params.alpha_h@,
                params.alpha_g@,
                x@,
            ),
    {
        let eq_sum = weighted_sum_exec(&self.equalities, &params.lambda, x);
        let ineq_sum = weighted_sum_exec(&self.inequalities, &params.mu, x);
        params.alpha_h.times(eq_sum).plus(params.alpha_g.times(ineq_sum))
    }
}

/// The weighted penalty sum over one restriction list.
fn weighted_sum_exec<G: Objective>(rs: &Vec<Restriction<G>>, ws: &Vec<Fx>, x: &Point) -> (r: Fx)
    requires
        forall|i: int|
            0 <= i < rs@.len() ==> (#[trigger] rs@[i]).func().wf() && rs@[i].func().dim()
                == x@.len(),
        ws@.len() == rs@.len(),
    ensures
        r@ == weighted_sum(rs@, seq_views(ws@), x@),
{
    let mut acc = Fx::zero();
    let mut k: usize = 0;
    proof {
        assert(rs@.subrange(0, 0) =~= Seq::<Restriction<G>>::empty());
    }
    while k < rs.len()
        invariant
            k <= rs@.len(),
            ws@.len() == rs@.len(),
            forall|i: int|
                0 <= i < rs@.len() ==> (#[trigger] rs@[i]).func().wf() && rs@[i].func().dim()
                    == x@.len(),
            acc@ == weighted_sum(
                rs@.subrange(0, k as int),
                seq_views(ws@).subrange(0, k as int),
                x@,
            ),
        decreases rs@.len() - k,
    {
        let term = match &rs[k] {
            Restriction::Inequality(g) => {
                let v = g.eval(x).min_val(Fx::zero());
                v.times(v)
            },
            Restriction::Equality(g) => {
                let v = g.eval(x);
                v.times(v)
            },
        };
        acc = acc.plus(ws[k].times(term));
        proof {
            let pre = rs@.subrange(0, k as int);
            let post = rs@.subrange(0, k as int + 1);
            let wpre = seq_views(ws@).subrange(0, k as int);
            let wpost = seq_views(ws@).subrange(0, k as int + 1);
            assert(post.drop_last() =~= pre);
            assert(wpost.drop_last() =~= wpre);
            assert(post.last() == rs@[k as int]);
            assert(wpost[post.len() - 1] == ws@[k as int]@);
            assert(term@ == penalty_term(rs@[k as int], x@));
        }
        k = k + 1;
    }
    proof {
        assert(rs@.subrange(0, rs@.len() as int) =~= rs@);
        assert(seq_views(ws@).subrange(0, ws@.len() as int) =~= seq_views(ws@));
    }
    acc
}

/// The augmented objective the inner optimizer minimizes: the bare
/// objective plus the solver's penalty under the current weights.
pub struct Penalized<'a, F: Objective, G> {
    pub f: &'a F,
    pub solver: &'a IterativeConditional<G>,
    pub params: Parameters,
}

impl<'a, F: Objective, G: Objective> Objective for Penalized<'a, F, G> {
    open spec fn wf(&self) -> bool {
        self.f.wf() && (forall|i: int|
            0 <= i < self.solver.equalities@.len() ==> (
            #[trigger] self.solver.equalities@[i]).func().wf()
                && self.solver.equalities@[i].func().dim() == self.f.dim()) && (forall|i: int|
            0 <= i < self.solver.inequalities@.len() ==> (
            #[trigger] self.solver.inequalities@[i]).func().wf()
                && self.solver.inequalities@[i].func().dim() == self.f.dim())
            && self.params.lambda@.len() == self.solver.equalities@.len() && self.params.mu@.len()
            == self.solver.inequalities@.len()
    }

    open spec fn dim(&self) -> nat {
        self.f.dim()
    }

    open spec fn value(&self, x: Seq<int>) -> int {
        fx_add(
            self.f.value(x),
            tax_spec(
                self.solver.equalities@,
                self.solver.inequalities@,
                seq_views(self.params.lambda@),
                seq_views(self.params.mu@),
                self.params.alpha_h@,
                self.params.alpha_g@,
                x,
            ),
        )
    }

    fn eval(&self, x: &Point) -> (r: Fx) {
        let base = self.f.eval(x);
        let penalty = self.solver.tax(x, &self.params);
        base.plus(penalty)
    }
}

impl<G: Objective> SpaceOptimizer for IterativeConditional<G> {
    open spec fn wf(&self) -> bool {
        self.optimizer.wf() && self.start@.len() >= 1 && self.parameters.lambda@.len()
            == self.equalities@.len() && self.parameters.mu@.len() == self.inequalities@.len() && (
        forall|i: int|
            0 <= i < self.equalities@.len() ==> (#[trigger] self.equalities@[i]).func().wf()
                && self.equalities@[i].func().dim() == self.start@.len()) && (forall|i: int|
            0 <= i < self.inequalities@.len() ==> (#[trigger] self.inequalities@[i]).func().wf()
                && self.inequalities@[i].func().dim() == self.start@.len())
    }

    open spec fn dim(&self) -> nat {
        self.start@.len()
    }

    /// Runs the outer penalty iteration. The result is reachable from the
    /// start by line-search sweeps of the configured inner method, its
    /// reported value is the bare, unpenalized objective there, and unless
    /// the iteration cap was hit, the run stopped because the point moved
    /// less than `eps` over two outer iterations.
    #[verifier::rlimit(30)]
    #[verifier::spinoff_prover]
    fn optimize<F: Objective>(&self, f: &F) -> (r: (Point, Fx, Steps))
        ensures
            r.0@ == constrained_run(
                self.optimizer,
                space_fn(*f),
                self.equalities@,
                self.inequalities@,
                seq_views(self.parameters.lambda@),
                seq_views(self.parameters.mu@),
                self.parameters.alpha_h@,
                self.parameters.alpha_g@,
                self.control_hook.factor_h@,
                self.control_hook.factor_g@,
                self.eps@,
                self.start@,
                self.start@,
                0,
                usize::MAX as nat,
            ).0,
            r.2.0 == constrained_run(
                self.optimizer,
                space_fn(*f),
                self.equalities@,
                self.inequalities@,
                seq_views(self.parameters.lambda@),
                seq_views(self.parameters.mu@),
                self.parameters.alpha_h@,
                self.parameters.alpha_g@,
                self.control_hook.factor_h@,
                self.control_hook.factor_g@,
                self.eps@,
                self.start@,
                self.start@,
                0,
                usize::MAX as nat,
            ).1,
            r.2.0 == usize::MAX - 1 || r.2.0 % 2 == 0,
            exists|k: nat| reaches(self.optimizer.line_search(), self.start@, r.0@, f.dim(), k),
            r.2.0 >= usize::MAX - 1 || exists|prev: Seq<int>|
                #![trigger sub_seq(r.0@, prev)]
                (exists|k: nat| reaches(self.optimizer.line_search(), self.start@, prev, f.dim(), k))
                    && (exists|k: nat| reaches(self.optimizer.line_search(), prev, r.0@, f.dim(), k))
                    && norm_of(sub_seq(r.0@, prev)) < self.eps@,
    {
        let ghost fv = space_fn(*f);
        let ghost fh = self.control_hook.factor_h@;
        let ghost fg = self.control_hook.factor_g@;
        let mut steps: usize = 0;
        let mut x = self.start.duplicate();
        let mut x_anchor = self.start.duplicate();
        let mut params = self.parameters.duplicate();
        let ghost mut stop_prev: Seq<int> = self.start@;
        proof {
            assert(reaches(self.optimizer.line_search(), self.start@, x@, f.dim(), 0));
            assert(reaches(self.optimizer.line_search(), x_anchor@, x@, f.dim(), 0));
        }
        loop
            invariant_except_break
                self.wf(),
                f.wf(),
                f.dim() == self.dim(),
                x@.len() == f.dim(),
                x_anchor@.len() == f.dim(),
                steps < usize::MAX - 1,
                params.lambda@.len() == self.equalities@.len(),
                params.mu@.len() == self.inequalities@.len(),
                fv == space_fn(*f),
                fh == self.control_hook.factor_h@,
                fg == self.control_hook.factor_g@,
                params.lambda@ == self.parameters.lambda@,
                params.mu@ == self.parameters.mu@,
                constrained_run(
                    self.optimizer,
                    fv,
                    self.equalities@,
                    self.inequalities@,
                    seq_views(self.parameters.lambda@),
                    seq_views(self.parameters.mu@),
                    self.parameters.alpha_h@,
                    self.parameters.alpha_g@,
                    fh,
                    fg,
                    self.eps@,
                    self.start@,
                    self.start@,
                    0,
                    usize::MAX as nat,
                ) == constrained_run(
                    self.optimizer,
                    fv,
                    self.equalities@,
                    self.inequalities@,
                    seq_views(params.lambda@),
                    seq_views(params.mu@),
                    params.alpha_h@,
                    params.alpha_g@,
                    fh,
                    fg,
                    self.eps@,
                    x@,
                    x_anchor@,
                    steps as nat,
                    (usize::MAX - steps) as nat,
                ),
                exists|k: nat| reaches(self.optimizer.line_search(), self.start@, x@, f.dim(), k),
                exists|k: nat| reaches(self.optimizer.line_search(), self.start@, x_anchor@, f.dim(), k),
                exists|k: nat| reaches(self.optimizer.line_search(), x_anchor@, x@, f.dim(), k),
            ensures
                x@.len() == f.dim(),
                fv == space_fn(*f),
                x@ == constrained_run(
                    self.optimizer,
                    fv,
                    self.equalities@,
                    self.inequalities@,
                    seq_views(self.parameters.lambda@),
                    seq_views(self.parameters.mu@),
                    self.parameters.alpha_h@,
                    self.parameters.alpha_g@,
                    fh,
                    fg,
                    self.eps@,
                    self.start@,
                    self.start@,
                    0,
                    usize::MAX as nat,
                ).0,
                steps == constrained_run(
                    self.optimizer,
                    fv,
                    self.equalities@,
                    self.inequalities@,
                    seq_views(self.parameters.lambda@),
                    seq_views(self.parameters.mu@),
                    self.parameters.alpha_h@,
                    self.parameters.alpha_g@,
                    fh,
                    fg,
                    self.eps@,
                    self.start@,
                    self.start@,
                    0,
                    usize::MAX as nat,
                ).1,
                steps == usize::MAX - 1 || steps % 2 == 0,
                fh == self.control_hook.factor_h@,
                fg == self.control_hook.factor_g@,
                exists|k: nat| reaches(self.optimizer.line_search(), self.start@, x@, f.dim(), k),
                steps >= usize::MAX - 1 || ((exists|k: nat|
                    reaches(self.optimizer.line_search(), self.start@, stop_prev, f.dim(), k)) && (
                exists|k: nat|
                    reaches(self.optimizer.line_search(), stop_prev, x@, f.dim(), k)) && norm_of(
                    sub_seq(x@, stop_prev),
                ) < self.eps@),
            decreases usize::MAX - steps,
        {
            let ghost pre_x = x@;
            let ghost pre_anchor = x_anchor@;
            let ghost pre_steps = steps;
            let ghost pre_ah = params.alpha_h@;
            let ghost pre_ag = params.alpha_g@;
            let q = Penalized { f, solver: self, params: params.duplicate() };
            let method = self.optimizer.build(x.duplicate());
            let (new_x, _inner_value, _inner_steps) = method.optimize(&q);
            proof {
                assert(space_fn(q) =~= penalized_fn(
                    fv,
                    self.equalities@,
                    self.inequalities@,
                    seq_views(params.lambda@),
                    seq_views(params.mu@),
                    params.alpha_h@,
                    params.alpha_g@,
                ));
                assert(new_x@ == descent_result(
                    self.optimizer.line_search(),
                    penalized_fn(
                        fv,
                        self.equalities@,
                        self.inequalities@,
                        seq_views(params.lambda@),
                        seq_views(params.mu@),
                        params.alpha_h@,
                        params.alpha_g@,
                    ),
                    self.optimizer.inner_eps_x(),
                    self.optimizer.inner_eps_y(),
                    pre_x,
                ).0);
                let k_prev = choose|k: nat|
                    reaches(self.optimizer.line_search(), self.start@, x@, f.dim(), k);
                let k_anchor = choose|k: nat|
                    reaches(self.optimizer.line_search(), x_anchor@, x@, f.dim(), k);
                let k_inner = choose|k: nat|
                    reaches(self.optimizer.line_search(), x@, new_x@, f.dim(), k);
                lemma_reaches_trans(
                    self.optimizer.line_search(),
                    self.start@,
                    x@,
                    new_x@,
                    f.dim(),
                    k_prev,
                    k_inner,
                );
                lemma_reaches_trans(
                    self.optimizer.line_search(),
                    x_anchor@,
                    x@,
                    new_x@,
                    f.dim(),
                    k_anchor,
                    k_inner,
                );
            }
            x = new_x;
            self.control_hook.apply(&mut params);
            if steps % 2 == 0 {
                if x.minus(&x_anchor).norm().lt(self.eps) {
                    proof {
                        stop_prev = x_anchor@;
                        assert(constrained_run(
                            self.optimizer,
                            fv,
                            self.equalities@,
                            self.inequalities@,
                            seq_views(params.lambda@),
                            seq_views(params.mu@),
                            pre_ah,
                            pre_ag,
                            fh,
                            fg,
                            self.eps@,
                            pre_x,
                            pre_anchor,
                            pre_steps as nat,
                            (usize::MAX - pre_steps) as nat,
                        ) == (x@, pre_steps as nat));
                    }
                    break ;
                }
                x_anchor = x.duplicate();
                proof {
                    assert(reaches(self.optimizer.line_search(), x_anchor@, x@, f.dim(), 0));
                }
            }
            if steps >= usize::MAX - 2 {
                steps = usize::MAX - 1;
                proof {
                    assert(constrained_run(
                        self.optimizer,
                        fv,
                        self.equalities@,
                        self.inequalities@,
                        seq_views(params.lambda@),
                        seq_views(params.mu@),
                        pre_ah,
                        pre_ag,
                        fh,
                        fg,
                        self.eps@,
                        pre_x,
                        pre_anchor,
                        pre_steps as nat,
                        (usize::MAX - pre_steps) as nat,
                    ) == (x@, (usize::MAX - 1) as nat));
                }
                break ;
            }
            steps = steps + 1;
            proof {
                assert(constrained_run(
                    self.optimizer,
                    fv,
                    self.equalities@,
                    self.inequalities@,
                    seq_views(params.lambda@),
                    seq_views(params.mu@),
                    pre_ah,
                    pre_ag,
                    fh,
                    fg,
                    self.eps@,
                    pre_x,
                    pre_anchor,
                    pre_steps as nat,
                    (usize::MAX - pre_steps) as nat,
                ) == constrained_run(
                    self.optimizer,
                    fv,
                    self.equalities@,
                    self.inequalities@,
                    seq_views(params.lambda@),
                    seq_views(params.mu@),
                    params.alpha_h@,
                    params.alpha_g@,
                    fh,
                    fg,
                    self.eps@,
                    x@,
                    x_anchor@,
                    (pre_steps + 1) as nat,
                    (usize::MAX - pre_steps - 1) as nat,
                ));
            }
        }
        proof {
            if steps < usize::MAX - 1 {
                assert((exists|k: nat|
                    reaches(self.optimizer.line_search(), self.start@, stop_prev, f.dim(), k)) && (
                exists|k: nat|
                    reaches(self.optimizer.line_search(), stop_prev, x@, f.dim(), k)) && norm_of(
                    sub_seq(x@, stop_prev),
                ) < self.eps@);
                assert(exists|prev: Seq<int>|
                    #![trigger sub_seq(x@, prev)]
                    (exists|k: nat|
                        reaches(self.optimizer.line_search(), self.start@, prev, f.dim(), k)) && (
                    exists|k: nat|
                        reaches(self.optimizer.line_search(), prev, x@, f.dim(), k)) && norm_of(
                        sub_seq(x@, prev),
                    ) < self.eps@);
            }
        }
        let value = f.eval(&x);
        let result = (x, value, Steps(steps));
        proof {
            let k0 = choose|k: nat|
                reaches(self.optimizer.line_search(), self.start@, result.0@, f.dim(), k);
            assert(reaches(self.optimizer.line_search(), self.start@, result.0@, f.dim(), k0));
        }
        result
    }
}

} // verus!
