//! Recursive per-axis decomposition: builds an N-dimensional global
//! optimizer purely from independent 1-D global searches, one per axis
//! range.
//!
//! For the first axis, every candidate coordinate is scored by recursively
//! solving the remaining axes; the winning candidate carries the tail point
//! its own evaluation found, so the concatenated result never pairs a
//! winner with a tail computed for a different candidate. With the seeded
//! sampler as the leaf, the whole recursion is a pure function of the axis
//! ranges, the sample count and the seed — and the contracts pin that
//! function exactly.

use vstd::prelude::*;

use crate::enumerate::{mc_best, ranges_of, sample_point, MonteCarlo};
use crate::fixed::Fx;
use crate::method::{GlobalOneDimensionalMethod, Objective, SpaceOptimizer, Steps};
use crate::point::Point;
use crate::rng::{range_draw, stream_next, RandomSource};

verus! {

/// Builds the 1-D global search for one axis range.
#[derive(Clone, Copy)]
pub enum GlobalBuilder {
    MonteCarlo { samples: usize, seed: u64 },
}

impl GlobalBuilder {
    pub open spec fn wf(&self) -> bool {
        match self {
            GlobalBuilder::MonteCarlo { samples, seed } => samples >= 1,
        }
    }

    /// The number of candidates each built search draws.
    pub open spec fn samples(&self) -> nat {
        match self {
            GlobalBuilder::MonteCarlo { samples, seed } => *samples as nat,
        }
    }

    /// The seed each built search starts from.
    pub open spec fn seed_of(&self) -> u64 {
        match self {
            GlobalBuilder::MonteCarlo { samples, seed } => *seed,
        }
    }

    /// A sampler of `samples` draws per axis, from the given seed.
    pub fn monte_carlo(samples: usize, seed: u64) -> (r: GlobalBuilder)
        ensures
            r.samples() == samples as nat,
            r.seed_of() == seed,
    {
        GlobalBuilder::MonteCarlo { samples, seed }
    }

    /// Builds the 1-D global search over `[lo, hi]`.
    pub fn build(&self, lo: Fx, hi: Fx) -> (r: GlobalOneDimensionalMethod)
        ensures
            (r matches GlobalOneDimensionalMethod::MonteCarlo(m) && ranges_of(m.distributions@)
                =~= seq![(lo@, hi@)] && m.n as nat == self.samples() && m.seed == self.seed_of()
                && m.distributions@.len() == 1 && m.distributions@[0].0 == lo
                && m.distributions@[0].1 == hi),
    {
        match self {
            GlobalBuilder::MonteCarlo { samples, seed } => {
                let mut dists: Vec<(Fx, Fx)> = Vec::new();
                dists.push((lo, hi));
                let m = MonteCarlo::seeded(dists, *samples, *seed);
                proof {
                    assert(ranges_of(m.distributions@) =~= seq![(lo@, hi@)]);
                }
                GlobalOneDimensionalMethod::MonteCarlo(m)
            },
        }
    }
}

/// The best of `k` seeded draws for a single trailing axis: each candidate
/// `t` is scored at `prefix ++ [t]`, and the earlier candidate wins ties.
/// Returns the winning coordinate, its score, and the final random state.
pub open spec fn mc_base<F: Objective>(
    f: F,
    prefix: Seq<int>,
    lo: int,
    hi: int,
    s: u64,
    k: nat,
) -> (int, int, u64)
    decreases k,
{
    if k <= 1 {
        let t = range_draw(s, lo, hi);
        (t, f.value(prefix.push(t)), stream_next(s))
    } else {
        let prev = mc_base(f, prefix, lo, hi, s, (k - 1) as nat);
        let t = range_draw(prev.2, lo, hi);
        let v = f.value(prefix.push(t));
        if v < prev.1 {
            (t, v, stream_next(prev.2))
        } else {
            (prev.0, prev.1, stream_next(prev.2))
        }
    }
}

/// The best of `k` seeded draws for an inner axis: each candidate `t` is
/// scored by recursively solving the remaining axes at `prefix ++ [t]`, and
/// the winning candidate keeps the tail point its own evaluation found.
/// Returns the winning coordinate, its tail, its score, and the final
/// random state.
pub open spec fn mc_nested<F: Objective>(
    f: F,
    ranges: Seq<(int, int)>,
    idx: nat,
    prefix: Seq<int>,
    n: nat,
    seed: u64,
    s: u64,
    k: nat,
) -> (int, Seq<int>, int, u64)
    decreases ranges.len() - idx, 0int, k,
{
    if idx + 1 >= ranges.len() {
        (0, Seq::empty(), 0, s)
    } else if k <= 1 {
        let t = range_draw(s, ranges[idx as int].0, ranges[idx as int].1);
        let sub = decomp_solve(f, ranges, (idx + 1) as nat, prefix.push(t), n, seed);
        (t, sub.0, sub.1, stream_next(s))
    } else {
        let prev = mc_nested(f, ranges, idx, prefix, n, seed, s, (k - 1) as nat);
        let t = range_draw(prev.3, ranges[idx as int].0, ranges[idx as int].1);
        let sub = decomp_solve(f, ranges, (idx + 1) as nat, prefix.push(t), n, seed);
        if sub.1 < prev.2 {
            (t, sub.0, sub.1, stream_next(prev.3))
        } else {
            (prev.0, prev.1, prev.2, stream_next(prev.3))
        }
    }
}

/// The decomposition's solve over axes `idx ..` given the coordinates
/// already fixed for the axes before `idx`: the suffix point found and its
/// score. Every inner search starts afresh from the builder's seed.
pub open spec fn decomp_solve<F: Objective>(
    f: F,
    ranges: Seq<(int, int)>,
    idx: nat,
    prefix: Seq<int>,
    n: nat,
    seed: u64,
) -> (Seq<int>, int)
    decreases ranges.len() - idx, 1int, 0nat,
{
    if idx >= ranges.len() {
        (Seq::empty(), 0)
    } else if idx + 1 == ranges.len() {
        let best = mc_base(f, prefix, ranges[idx as int].0, ranges[idx as int].1, seed, n);
        (seq![best.0], best.1)
    } else {
        let best = mc_nested(f, ranges, idx, prefix, n, seed, seed, n);
        (seq![best.0] + best.1, best.2)
    }
}

/// The whole decomposition: the concatenated optimum over all axes and its
/// objective value, as a pure function of ranges, sample count and seed.
pub open spec fn decomp_spec<F: Objective>(
    f: F,
    ranges: Seq<(int, int)>,
    n: nat,
    seed: u64,
) -> (Seq<int>, int) {
    decomp_solve(f, ranges, 0, Seq::empty(), n, seed)
}

/// An objective with its leading coordinates already fixed: the tail
/// objective `y -> f(prefix ++ y)` of the decomposition.
pub struct PrefixObjective<'a, F: Objective> {
    pub f: &'a F,
    pub prefix: &'a Point,
}

impl<'a, F: Objective> Objective for PrefixObjective<'a, F> {
    open spec fn wf(&self) -> bool {
        self.f.wf() && self.prefix@.len() <= self.f.dim()
    }

    open spec fn dim(&self) -> nat {
        (self.f.dim() - self.prefix@.len()) as nat
    }

    open spec fn value(&self, x: Seq<int>) -> int {
        self.f.value(self.prefix@ + x)
    }

    fn eval(&self, x: &Point) -> (r: Fx) {
        let mut whole = self.prefix.duplicate();
        let mut k: usize = 0;
        let n = x.len();
        while k < n
            invariant
                k <= n,
                n == x@.len(),
                whole@ == self.prefix@ + x@.subrange(0, k as int),
            decreases n - k,
        {
            whole = whole.appended(x.get(k));
            proof {
                assert(whole@ =~= self.prefix@ + x@.subrange(0, k as int + 1));
            }
            k = k + 1;
        }
        proof {
            assert(x@.subrange(0, n as int) =~= x@);
            assert(whole@ =~= self.prefix@ + x@);
        }
        self.f.eval(&whole)
    }
}

/// Over a single-axis box, the general sampler and the trailing-axis
/// recursion agree draw for draw.
proof fn lemma_base_agrees<'a, F: Objective>(
    po: PrefixObjective<'a, F>,
    lo: int,
    hi: int,
    s: u64,
    k: nat,
)
    ensures
        mc_best(po, seq![(lo, hi)], s, k).0 == seq![
            mc_base(*po.f, po.prefix@, lo, hi, s, k).0,
        ],
        mc_best(po, seq![(lo, hi)], s, k).1 == mc_base(*po.f, po.prefix@, lo, hi, s, k).1,
        mc_best(po, seq![(lo, hi)], s, k).2 == mc_base(*po.f, po.prefix@, lo, hi, s, k).2,
    decreases k,
{
    let rs = seq![(lo, hi)];
    lemma_single_sample(rs, s);
    let t = range_draw(s, lo, hi);
    assert(po.value(seq![t]) == po.f.value(po.prefix@ + seq![t]));
    assert(po.prefix@ + seq![t] =~= po.prefix@.push(t));
    if k <= 1 {
    } else {
        lemma_base_agrees(po, lo, hi, s, (k - 1) as nat);
        let s1 = mc_base(*po.f, po.prefix@, lo, hi, s, (k - 1) as nat).2;
        lemma_single_sample(rs, s1);
        let t1 = range_draw(s1, lo, hi);
        assert(po.value(seq![t1]) == po.f.value(po.prefix@ + seq![t1]));
        assert(po.prefix@ + seq![t1] =~= po.prefix@.push(t1));
    }
}

/// A one-axis sample is the single draw from the current state.
proof fn lemma_single_sample(rs: Seq<(int, int)>, s: u64)
    requires
        rs.len() == 1,
    ensures
        sample_point(rs, s).0 == seq![range_draw(s, rs[0].0, rs[0].1)],
        sample_point(rs, s).1 == stream_next(s),
{
    assert(rs.drop_first() =~= Seq::<(int, int)>::empty());
    assert(sample_point(Seq::<(int, int)>::empty(), stream_next(s)) == (
        Seq::<int>::empty(),
        stream_next(s),
    ));
    assert(seq![range_draw(s, rs[0].0, rs[0].1)] + Seq::<int>::empty() =~= seq![
        range_draw(s, rs[0].0, rs[0].1),
    ]);
}

/// The recursive nested-search solver over axis ranges.
pub struct NestedTasks {
    pub restrictions: Vec<(Fx, Fx)>,
    pub builder: GlobalBuilder,
}

impl NestedTasks {
    pub fn new(restrictions: Vec<(Fx, Fx)>, builder: GlobalBuilder) -> (r: NestedTasks)
        ensures
            r.restrictions == restrictions,
            r.builder == builder,
    {
        NestedTasks { restrictions, builder }
    }
}

/// One trailing or inner axis of the decomposition: draws the builder's
/// sample count of candidates for axis `idx`, scoring each by a recursive
/// solve of the remaining axes, and keeps the first best together with its
/// tail.
fn nested_axis<F: Objective>(
    ranges: &Vec<(Fx, Fx)>,
    idx: usize,
    prefix: &Point,
    f: &F,
    builder: &GlobalBuilder,
) -> (r: (Fx, Point, Fx))
    requires
        builder.wf(),
        f.wf(),
        ranges@.len() == f.dim(),
        idx + 1 < ranges@.len(),
        prefix@.len() == idx,
        forall|i: int|
            0 <= i < ranges@.len() ==> (#[trigger] ranges@[i]).0@ <= ranges@[i].1@,
    ensures
        r.0@ == mc_nested(
            *f,
            ranges_of(ranges@),
            idx as nat,
            prefix@,
            builder.samples(),
            builder.seed_of(),
            builder.seed_of(),
            builder.samples(),
        ).0,
        r.1@ == mc_nested(
            *f,
            ranges_of(ranges@),
            idx as nat,
            prefix@,
            builder.samples(),
            builder.seed_of(),
            builder.seed_of(),
            builder.samples(),
        ).1,
        r.2@ == mc_nested(
            *f,
            ranges_of(ranges@),
            idx as nat,
            prefix@,
            builder.samples(),
            builder.seed_of(),
            builder.seed_of(),
            builder.samples(),
        ).2,
    decreases ranges@.len() - idx, 0int,
{
    let ghost rs = ranges_of(ranges@);
    let rn = ranges.len();
    let (n, seed) = match builder {
        GlobalBuilder::MonteCarlo { samples, seed } => (*samples, *seed),
    };
    let (lo, hi) = ranges[idx];
    proof {
        assert(rs[idx as int] == (ranges@[idx as int].0@, ranges@[idx as int].1@));
    }
    let mut src = RandomSource::new(seed);
    let t0 = src.next_in(lo, hi);
    let (y0, v0) = decomp_axis(ranges, idx + 1, &prefix.appended(t0), f, builder);
    let mut best_t = t0;
    let mut best_y = y0;
    let mut best_v = v0;
    let mut k: usize = 1;
    while k < n
        invariant
            1 <= k <= n,
            builder.wf(),
            f.wf(),
            ranges@.len() == f.dim(),
            idx + 1 < ranges@.len(),
            prefix@.len() == idx,
            forall|i: int|
                0 <= i < ranges@.len() ==> (#[trigger] ranges@[i]).0@ <= ranges@[i].1@,
            rs == ranges_of(ranges@),
            rn == ranges@.len(),
            n as nat == builder.samples(),
            seed == builder.seed_of(),
            lo@ == rs[idx as int].0,
            hi@ == rs[idx as int].1,
            lo@ <= hi@,
            best_t@ == mc_nested(*f, rs, idx as nat, prefix@, n as nat, seed, seed, k as nat).0,
            best_y@ == mc_nested(*f, rs, idx as nat, prefix@, n as nat, seed, seed, k as nat).1,
            best_v@ == mc_nested(*f, rs, idx as nat, prefix@, n as nat, seed, seed, k as nat).2,
            src.spec_state() == mc_nested(
                *f,
                rs,
                idx as nat,
                prefix@,
                n as nat,
                seed,
                seed,
                k as nat,
            ).3,
        decreases n - k,
    {
        let t = src.next_in(lo, hi);
        let (y, v) = decomp_axis(ranges, idx + 1, &prefix.appended(t), f, builder);
        if v.lt(best_v) {
            best_t = t;
            best_y = y;
            best_v = v;
        }
        k = k + 1;
    }
    (best_t, best_y, best_v)
}

/// The decomposition's solve over axes `idx ..`: the suffix point found and
/// its score, exactly the specification-level recursion.
fn decomp_axis<F: Objective>(
    ranges: &Vec<(Fx, Fx)>,
    idx: usize,
    prefix: &Point,
    f: &F,
    builder: &GlobalBuilder,
) -> (r: (Point, Fx))
    requires
        builder.wf(),
        f.wf(),
        ranges@.len() == f.dim(),
        idx < ranges@.len(),
        prefix@.len() == idx,
        forall|i: int|
            0 <= i < ranges@.len() ==> (#[trigger] ranges@[i]).0@ <= ranges@[i].1@,
    ensures
        r.0@ == decomp_solve(
            *f,
            ranges_of(ranges@),
            idx as nat,
            prefix@,
            builder.samples(),
            builder.seed_of(),
        ).0,
        r.1@ == decomp_solve(
            *f,
            ranges_of(ranges@),
            idx as nat,
            prefix@,
            builder.samples(),
            builder.seed_of(),
        ).1,
    decreases ranges@.len() - idx, 1int,
{
    let ghost rs = ranges_of(ranges@);
    let rn = ranges.len();
    let (lo, hi) = ranges[idx];
    proof {
        assert(rs[idx as int] == (ranges@[idx as int].0@, ranges@[idx as int].1@));
    }
    if idx + 1 == rn {
        let method = builder.build(lo, hi);
        let section = PrefixObjective { f, prefix };
        let (x1, v, _steps) = method.optimize(&section);
        proof {
            lemma_base_agrees(section, lo@, hi@, builder.seed_of(), builder.samples());
            assert(seq![(lo@, hi@)][0] == rs[idx as int]);
            assert(seq![(lo@, hi@)] =~= seq![rs[idx as int]]);
        }
        (x1, v)
    } else {
        let (t, y, v) = nested_axis(ranges, idx, prefix, f, builder);
        let mut coords: Vec<Fx> = Vec::new();
        coords.push(t);
        let mut k: usize = 0;
        let yn = y.len();
        proof {
            assert(coords@.map_values(|c: Fx| c@) =~= seq![t@] + y@.subrange(0, 0));
        }
        while k < yn
            invariant
                k <= yn,
                yn == y@.len(),
                coords@.map_values(|c: Fx| c@) == seq![t@] + y@.subrange(0, k as int),
            decreases yn - k,
        {
            let ghost before = coords@.map_values(|c: Fx| c@);
            coords.push(y.get(k));
            proof {
                assert(coords@.map_values(|c: Fx| c@) =~= before.push(y@[k as int]));
                assert(before.push(y@[k as int]) =~= seq![t@] + y@.subrange(0, k as int + 1));
            }
            k = k + 1;
        }
        let combined = Point::new(coords);
        proof {
            assert(y@.subrange(0, yn as int) =~= y@);
            assert(combined@ =~= seq![t@] + y@);
        }
        (combined, v)
    }
}

impl SpaceOptimizer for NestedTasks {
    open spec fn wf(&self) -> bool {
        self.builder.wf() && self.restrictions@.len() >= 1 && forall|i: int|
            0 <= i < self.restrictions@.len() ==> (#[trigger] self.restrictions@[i]).0@
                <= self.restrictions@[i].1@
    }

    open spec fn dim(&self) -> nat {
        self.restrictions@.len()
    }

    fn optimize<F: Objective>(&self, f: &F) -> (r: (Point, Fx, Steps))
        ensures
            r.0@ == decomp_spec(
                *f,
                ranges_of(self.restrictions@),
                self.builder.samples(),
                self.builder.seed_of(),
            ).0,
            r.1@ == decomp_spec(
                *f,
                ranges_of(self.restrictions@),
                self.builder.samples(),
                self.builder.seed_of(),
            ).1,
    {
        let empty = Point::new(Vec::new());
        proof {
            assert(empty@ =~= Seq::<int>::empty());
        }
        let (x, v) = decomp_axis(&self.restrictions, 0, &empty, f, &self.builder);
        proof {
            crate::enumerate::lemma_ranges_bounds(self.restrictions@);
            lemma_decomp_shape(
                *f,
                ranges_of(self.restrictions@),
                0,
                Seq::empty(),
                self.builder.samples(),
                self.builder.seed_of(),
            );
            assert(Seq::<int>::empty() + x@ =~= x@);
        }
        (x, v, Steps(0))
    }
}

/// The decomposition's result has one coordinate per remaining axis, each
/// inside its range, and carries its own objective value.
pub proof fn lemma_decomp_shape<F: Objective>(
    f: F,
    ranges: Seq<(int, int)>,
    idx: nat,
    prefix: Seq<int>,
    n: nat,
    seed: u64,
)
    requires
        idx < ranges.len(),
        forall|i: int|
            0 <= i < ranges.len() ==> i64::MIN <= (#[trigger] ranges[i]).0 <= ranges[i].1
                <= i64::MAX,
    ensures
        decomp_solve(f, ranges, idx, prefix, n, seed).0.len() == ranges.len() - idx,
        decomp_solve(f, ranges, idx, prefix, n, seed).1 == f.value(
            prefix + decomp_solve(f, ranges, idx, prefix, n, seed).0,
        ),
        forall|j: int|
            0 <= j < ranges.len() - idx ==> (#[trigger] ranges[idx + j]).0 <= decomp_solve(
                f,
                ranges,
                idx,
                prefix,
                n,
                seed,
            ).0[j] <= ranges[idx + j].1,
    decreases ranges.len() - idx, 1int,
{
    let ds = decomp_solve(f, ranges, idx, prefix, n, seed);
    if idx + 1 == ranges.len() {
        lemma_mc_base_shape(f, prefix, ranges[idx as int].0, ranges[idx as int].1, seed, n);
        let best = mc_base(f, prefix, ranges[idx as int].0, ranges[idx as int].1, seed, n);
        assert(prefix + seq![best.0] =~= prefix.push(best.0));
        assert forall|j: int|
            0 <= j < ranges.len() - idx implies (#[trigger] ranges[idx + j]).0 <= ds.0[j]
            <= ranges[idx + j].1 by {
            assert(j == 0);
            assert(ds.0[0] == best.0);
        }
    } else {
        lemma_mc_nested_shape(f, ranges, idx, prefix, n, seed, seed, n);
        let best = mc_nested(f, ranges, idx, prefix, n, seed, seed, n);
        assert(prefix + (seq![best.0] + best.1) =~= (prefix.push(best.0)) + best.1);
        assert forall|j: int|
            0 <= j < ranges.len() - idx implies (#[trigger] ranges[idx + j]).0 <= ds.0[j]
            <= ranges[idx + j].1 by {
            if j == 0 {
                assert(ds.0[0] == best.0);
            } else {
                assert(ds.0[j] == best.1[j - 1]);
                assert(ranges[idx + j] == ranges[idx + 1 + (j - 1)]);
                assert(ranges[idx + 1 + (j - 1)].0 <= best.1[j - 1] <= ranges[idx + 1 + (j - 1)].1);
            }
        }
    }
}

/// The trailing-axis winner lies in its range and carries its own value.
proof fn lemma_mc_base_shape<F: Objective>(
    f: F,
    prefix: Seq<int>,
    lo: int,
    hi: int,
    s: u64,
    k: nat,
)
    requires
        i64::MIN <= lo <= hi <= i64::MAX,
    ensures
        lo <= mc_base(f, prefix, lo, hi, s, k).0 <= hi,
        mc_base(f, prefix, lo, hi, s, k).1 == f.value(prefix.push(mc_base(f, prefix, lo, hi, s, k).0)),
    decreases k,
{
    crate::rng::lemma_range_draw_bounds(s, lo, hi);
    if k > 1 {
        lemma_mc_base_shape(f, prefix, lo, hi, s, (k - 1) as nat);
        crate::rng::lemma_range_draw_bounds(mc_base(f, prefix, lo, hi, s, (k - 1) as nat).2, lo, hi);
    }
}

/// The inner-axis winner lies in its range, its tail has one coordinate per
/// deeper axis, each inside its range, and its score is the objective at
/// the concatenation.
proof fn lemma_mc_nested_shape<F: Objective>(
    f: F,
    ranges: Seq<(int, int)>,
    idx: nat,
    prefix: Seq<int>,
    n: nat,
    seed: u64,
    s: u64,
    k: nat,
)
    requires
        idx + 1 < ranges.len(),
        forall|i: int|
            0 <= i < ranges.len() ==> i64::MIN <= (#[trigger] ranges[i]).0 <= ranges[i].1
                <= i64::MAX,
    ensures
        ranges[idx as int].0 <= mc_nested(f, ranges, idx, prefix, n, seed, s, k).0
            <= ranges[idx as int].1,
        mc_nested(f, ranges, idx, prefix, n, seed, s, k).1.len() == ranges.len() - idx - 1,
        mc_nested(f, ranges, idx, prefix, n, seed, s, k).2 == f.value(
            prefix.push(mc_nested(f, ranges, idx, prefix, n, seed, s, k).0) + mc_nested(
                f,
                ranges,
                idx,
                prefix,
                n,
                seed,
                s,
                k,
            ).1,
        ),
        forall|j: int|
            0 <= j < ranges.len() - idx - 1 ==> (#[trigger] ranges[idx + 1 + j]).0 <= mc_nested(
                f,
                ranges,
                idx,
                prefix,
                n,
                seed,
                s,
                k,
            ).1[j] <= ranges[idx + 1 + j].1,
    decreases ranges.len() - idx, 0int, k,
{
    if k <= 1 {
        crate::rng::lemma_range_draw_bounds(s, ranges[idx as int].0, ranges[idx as int].1);
        let t = range_draw(s, ranges[idx as int].0, ranges[idx as int].1);
        lemma_decomp_shape(f, ranges, (idx + 1) as nat, prefix.push(t), n, seed);
    } else {
        lemma_mc_nested_shape(f, ranges, idx, prefix, n, seed, s, (k - 1) as nat);
        let prev = mc_nested(f, ranges, idx, prefix, n, seed, s, (k - 1) as nat);
        crate::rng::lemma_range_draw_bounds(prev.3, ranges[idx as int].0, ranges[idx as int].1);
        let t = range_draw(prev.3, ranges[idx as int].0, ranges[idx as int].1);
        lemma_decomp_shape(f, ranges, (idx + 1) as nat, prefix.push(t), n, seed);
    }
}

/// Law (identity): over a single axis, the decomposition is the leaf
/// search. Its result — candidate and value — equals, draw for draw, what
/// the seeded sampler itself returns on the same range, count and seed.
pub proof fn lemma_single_axis_identity<F: Objective>(
    f: F,
    lo: int,
    hi: int,
    n: nat,
    seed: u64,
)
    ensures
        decomp_spec(f, seq![(lo, hi)], n, seed).0 == mc_best(f, seq![(lo, hi)], seed, n).0,
        decomp_spec(f, seq![(lo, hi)], n, seed).1 == mc_best(f, seq![(lo, hi)], seed, n).1,
{
    lemma_base_vs_best(f, lo, hi, seed, n);
}

/// The trailing-axis recursion with an empty prefix is the plain sampler.
proof fn lemma_base_vs_best<F: Objective>(f: F, lo: int, hi: int, s: u64, k: nat)
    ensures
        seq![mc_base(f, Seq::empty(), lo, hi, s, k).0] == mc_best(f, seq![(lo, hi)], s, k).0,
        mc_base(f, Seq::empty(), lo, hi, s, k).1 == mc_best(f, seq![(lo, hi)], s, k).1,
        mc_base(f, Seq::empty(), lo, hi, s, k).2 == mc_best(f, seq![(lo, hi)], s, k).2,
    decreases k,
{
    let rs = seq![(lo, hi)];
    lemma_single_sample(rs, s);
    let t = range_draw(s, lo, hi);
    assert(Seq::<int>::empty().push(t) =~= seq![t]);
    if k <= 1 {
    } else {
        lemma_base_vs_best(f, lo, hi, s, (k - 1) as nat);
        let s1 = mc_base(f, Seq::empty(), lo, hi, s, (k - 1) as nat).2;
        lemma_single_sample(rs, s1);
        let t1 = range_draw(s1, lo, hi);
        assert(Seq::<int>::empty().push(t1) =~= seq![t1]);
    }
}

} // verus!
