//! Enumeration strategies: exhaustive grid search over one dimension, and
//! Monte Carlo sampling over a box of several dimensions.
//!
//! The Monte Carlo sampler draws from the crate's seeded random source, so
//! its whole run — every candidate and the winner — is pinned down exactly
//! as a function of the seed.

use vstd::prelude::*;

use crate::fixed::Fx;
use crate::method::{value_fn, Objective, Objective1, Optimizer, SpaceOptimizer, Steps};
use crate::point::Point;
use crate::rng::{range_draw, stream_next, RandomSource};
use crate::utils::{grid_from, grid_spacing, linspace};

verus! {

/// The first minimizer of the value function `gv` over the candidates `s`
/// in order: a later candidate replaces the best only when strictly better.
pub open spec fn first_argmin(gv: spec_fn(int) -> int, s: Seq<int>) -> int
    decreases s.len(),
{
    if s.len() <= 1 {
        s[0]
    } else {
        let best = first_argmin(gv, s.drop_last());
        if gv(s.last()) < gv(best) {
            s.last()
        } else {
            best
        }
    }
}

/// Exhaustive search over the grid between `a` and `b` with `n` points.
#[derive(Clone, Copy)]
pub struct Enumerate {
    pub a: Fx,
    pub b: Fx,
    pub n: usize,
}

impl Enumerate {
    pub fn new(a: Fx, b: Fx, n: usize) -> (r: Enumerate)
        ensures
            r.a == a,
            r.b == b,
            r.n == n,
    {
        Enumerate { a, b, n }
    }

    /// The grid this strategy walks.
    pub open spec fn grid(&self) -> Seq<int> {
        grid_from(self.a@, grid_spacing(self.a@, self.b@, self.n as int))
    }
}

impl Optimizer for Enumerate {
    open spec fn wf(&self) -> bool {
        2 <= self.n <= 0x7fff_ffff_ffff_ffff && 1 <= grid_spacing(self.a@, self.b@, self.n as int)
            < i64::MAX && self.a@ <= grid_spacing(self.a@, self.b@, self.n as int)
    }

    open spec fn lo(&self) -> int {
        self.a@
    }

    open spec fn hi(&self) -> int {
        self.b@
    }

    fn optimize<G: Objective1>(&self, g: &G) -> (r: (Fx, Fx, Steps))
        ensures
            r.0@ == first_argmin(value_fn(*g), self.grid()),
            self.grid().contains(r.0@),
            forall|i: int| 0 <= i < self.grid().len() ==> g.value(#[trigger] self.grid()[i])
                >= g.value(r.0@),
    {
        let ghost gv = value_fn(*g);
        let grid = linspace(self.a, self.b, self.n);
        proof {
            assert(grid@.map_values(|f: Fx| f@) == self.grid());
            assert(self.grid().len() >= 1);
        }
        let mut best = grid[0];
        let mut best_value = g.eval(best);
        let mut k: usize = 1;
        proof {
            assert(self.grid().subrange(0, 1) =~= seq![self.grid()[0]]);
        }
        while k < grid.len()
            invariant
                1 <= k <= grid@.len(),
                g.wf(),
                grid@.map_values(|f: Fx| f@) == self.grid(),
                grid@.len() == self.grid().len(),
                gv == value_fn(*g),
                best@ == first_argmin(gv, self.grid().subrange(0, k as int)),
                best_value@ == g.value(best@),
                self.grid().subrange(0, k as int).contains(best@),
                forall|i: int| 0 <= i < k ==> g.value(#[trigger] self.grid()[i]) >= g.value(best@),
            decreases grid@.len() - k,
        {
            let cand = grid[k];
            let v = g.eval(cand);
            proof {
                let pre = self.grid().subrange(0, k as int);
                let post = self.grid().subrange(0, k as int + 1);
                assert(post.drop_last() =~= pre);
                assert(post.last() == self.grid()[k as int]);
                assert(cand@ == self.grid()[k as int]);
            }
            if v.lt(best_value) {
                best = cand;
                best_value = v;
                proof {
                    let post = self.grid().subrange(0, k as int + 1);
                    assert(post[k as int] == best@);
                    assert(post.contains(best@));
                }
            } else {
                proof {
                    let pre = self.grid().subrange(0, k as int);
                    let post = self.grid().subrange(0, k as int + 1);
                    let j = choose|j: int| 0 <= j < pre.len() && pre[j] == best@;
                    assert(post[j] == best@);
                    assert(post.contains(best@));
                }
            }
            k = k + 1;
        }
        proof {
            assert(self.grid().subrange(0, grid@.len() as int) =~= self.grid());
        }
        (best, best_value, Steps(0))
    }
}

/// The coordinate ranges of a sampled box, as mantissa pairs.
pub open spec fn ranges_of(v: Seq<(Fx, Fx)>) -> Seq<(int, int)> {
    v.map_values(|p: (Fx, Fx)| (p.0@, p.1@))
}

/// One sampled point: a draw per axis, threading the random state.
pub open spec fn sample_point(rs: Seq<(int, int)>, s: u64) -> (Seq<int>, u64)
    decreases rs.len(),
{
    if rs.len() == 0 {
        (Seq::empty(), s)
    } else {
        let v = range_draw(s, rs[0].0, rs[0].1);
        let (tail, s2) = sample_point(rs.drop_first(), stream_next(s));
        (seq![v] + tail, s2)
    }
}

/// The best of the first `k` sampled points (the first sample when `k <= 1`),
/// keeping the earlier candidate on ties.
pub open spec fn mc_best<F: Objective>(f: F, rs: Seq<(int, int)>, s: u64, k: nat) -> (
    Seq<int>,
    int,
    u64,
)
    decreases k,
{
    if k <= 1 {
        let (x, s1) = sample_point(rs, s);
        (x, f.value(x), s1)
    } else {
        let (bx, bv, s1) = mc_best(f, rs, s, (k - 1) as nat);
        let (x, s2) = sample_point(rs, s1);
        if f.value(x) < bv {
            (x, f.value(x), s2)
        } else {
            (bx, bv, s2)
        }
    }
}

/// The ranges of a box of scalar pairs sit inside the mantissa range.
pub proof fn lemma_ranges_bounds(v: Seq<(Fx, Fx)>)
    requires
        forall|i: int| 0 <= i < v.len() ==> (#[trigger] v[i]).0@ <= v[i].1@,
    ensures
        ranges_of(v).len() == v.len(),
        forall|i: int|
            0 <= i < ranges_of(v).len() ==> i64::MIN <= (#[trigger] ranges_of(v)[i]).0
                <= ranges_of(v)[i].1 <= i64::MAX,
{
    assert forall|i: int|
        0 <= i < ranges_of(v).len() implies i64::MIN <= (#[trigger] ranges_of(v)[i]).0
        <= ranges_of(v)[i].1 <= i64::MAX by {
        assert(ranges_of(v)[i] == (v[i].0@, v[i].1@));
    }
}

/// Every sampled point has one coordinate per axis, each inside its range.
pub proof fn lemma_sample_point_shape(rs: Seq<(int, int)>, s: u64)
    requires
        forall|i: int|
            0 <= i < rs.len() ==> i64::MIN <= (#[trigger] rs[i]).0 <= rs[i].1 <= i64::MAX,
    ensures
        sample_point(rs, s).0.len() == rs.len(),
        forall|i: int|
            0 <= i < rs.len() ==> (#[trigger] rs[i]).0 <= sample_point(rs, s).0[i] <= rs[i].1,
    decreases rs.len(),
{
    if rs.len() > 0 {
        crate::rng::lemma_range_draw_bounds(s, rs[0].0, rs[0].1);
        assert(forall|i: int|
            0 <= i < rs.drop_first().len() ==> #[trigger] rs.drop_first()[i] == rs[i + 1]);
        lemma_sample_point_shape(rs.drop_first(), stream_next(s));
        assert forall|i: int|
            0 <= i < rs.len() implies (#[trigger] rs[i]).0 <= sample_point(rs, s).0[i]
            <= rs[i].1 by {
            if i > 0 {
                assert(sample_point(rs, s).0[i] == sample_point(rs.drop_first(), stream_next(s)).0[
                    i - 1]);
                assert(rs.drop_first()[i - 1] == rs[i]);
            }
        }
    }
}

/// The winning sample has one coordinate per axis, each inside its range,
/// and carries its own objective value.
pub proof fn lemma_mc_best_shape<F: Objective>(f: F, rs: Seq<(int, int)>, s: u64, k: nat)
    requires
        forall|i: int|
            0 <= i < rs.len() ==> i64::MIN <= (#[trigger] rs[i]).0 <= rs[i].1 <= i64::MAX,
    ensures
        mc_best(f, rs, s, k).0.len() == rs.len(),
        mc_best(f, rs, s, k).1 == f.value(mc_best(f, rs, s, k).0),
        forall|i: int|
            0 <= i < rs.len() ==> (#[trigger] rs[i]).0 <= mc_best(f, rs, s, k).0[i] <= rs[i].1,
    decreases k,
{
    if k <= 1 {
        lemma_sample_point_shape(rs, s);
    } else {
        lemma_mc_best_shape(f, rs, s, (k - 1) as nat);
        lemma_sample_point_shape(rs, mc_best(f, rs, s, (k - 1) as nat).2);
    }
}

/// Monte Carlo sampling over a box: `n` seeded draws, keeping the best.
#[derive(Clone)]
pub struct MonteCarlo {
    pub distributions: Vec<(Fx, Fx)>,
    pub n: usize,
    pub seed: u64,
}

/// The seed a sampler starts from when none is injected.
pub const DEFAULT_SEED: u64 = 0x5eed_0f_00_00_00_01;

impl MonteCarlo {
    pub fn new(distributions: Vec<(Fx, Fx)>, n: usize) -> (r: MonteCarlo)
        ensures
            r.distributions == distributions,
            r.n == n,
            r.seed == DEFAULT_SEED,
    {
        MonteCarlo { distributions, n, seed: DEFAULT_SEED }
    }

    /// The same sampler with an explicitly injected random seed.
    pub fn seeded(distributions: Vec<(Fx, Fx)>, n: usize, seed: u64) -> (r: MonteCarlo)
        ensures
            r.distributions == distributions,
            r.n == n,
            r.seed == seed,
    {
        MonteCarlo { distributions, n, seed }
    }

    /// Draws one point of the box, one coordinate per axis.
    fn sample(&self, src: &mut RandomSource) -> (p: Point)
        requires
            forall|i: int|
                0 <= i < self.distributions@.len() ==> (#[trigger] self.distributions@[i]).0@
                    <= self.distributions@[i].1@,
        ensures
            p@ == sample_point(ranges_of(self.distributions@), old(src).spec_state()).0,
            final(src).spec_state() == sample_point(
                ranges_of(self.distributions@),
                old(src).spec_state(),
            ).1,
    {
        let ghost rs = ranges_of(self.distributions@);
        let ghost s0 = src.spec_state();
        let mut c: Vec<Fx> = Vec::new();
        let mut k: usize = 0;
        let dim = self.distributions.len();
        proof {
            assert(rs.skip(0) =~= rs);
            assert(c@.map_values(|f: Fx| f@) =~= Seq::<int>::empty());
            assert(Seq::<int>::empty() + sample_point(rs, s0).0 =~= sample_point(rs, s0).0);
        }
        while k < dim
            invariant
                k <= dim,
                dim == self.distributions@.len(),
                rs == ranges_of(self.distributions@),
                rs.len() == dim,
                forall|i: int|
                    0 <= i < self.distributions@.len() ==> (#[trigger] self.distributions@[i]).0@
                        <= self.distributions@[i].1@,
                c@.len() == k,
                sample_point(rs, s0).0 =~= c@.map_values(|f: Fx| f@) + sample_point(
                    rs.skip(k as int),
                    src.spec_state(),
                ).0,
                sample_point(rs, s0).1 == sample_point(rs.skip(k as int), src.spec_state()).1,
            decreases dim - k,
        {
            let (lo, hi) = self.distributions[k];
            let ghost s_cur = src.spec_state();
            let v = src.next_in(lo, hi);
            let ghost pre = c@.map_values(|f: Fx| f@);
            c.push(v);
            proof {
                let tail = rs.skip(k as int);
                assert(tail[0] == rs[k as int]);
                assert(tail.drop_first() =~= rs.skip(k as int + 1));
                assert(v@ == range_draw(s_cur, tail[0].0, tail[0].1));
                assert(c@.map_values(|f: Fx| f@) =~= pre + seq![v@]);
                assert(pre + (seq![v@] + sample_point(rs.skip(k as int + 1), stream_next(s_cur)).0)
                    =~= (pre + seq![v@]) + sample_point(
                    rs.skip(k as int + 1),
                    stream_next(s_cur),
                ).0);
            }
            k = k + 1;
        }
        proof {
            assert(rs.skip(dim as int) =~= Seq::<(int, int)>::empty());
            assert(c@.map_values(|f: Fx| f@) + Seq::<int>::empty() =~= c@.map_values(|f: Fx| f@));
        }
        let p = Point::new(c);
        proof {
            assert(p@ =~= c@.map_values(|f: Fx| f@));
        }
        p
    }
}

impl SpaceOptimizer for MonteCarlo {
    open spec fn wf(&self) -> bool {
        self.distributions@.len() >= 1 && self.n >= 1 && forall|i: int|
            0 <= i < self.distributions@.len() ==> (#[trigger] self.distributions@[i]).0@
                <= self.distributions@[i].1@
    }

    open spec fn dim(&self) -> nat {
        self.distributions@.len()
    }

    fn optimize<F: Objective>(&self, f: &F) -> (r: (Point, Fx, Steps))
        ensures
            r.0@ == mc_best(*f, ranges_of(self.distributions@), self.seed, self.n as nat).0,
            r.1@ == mc_best(*f, ranges_of(self.distributions@), self.seed, self.n as nat).1,
            forall|i: int|
                0 <= i < self.distributions@.len() ==> (#[trigger] self.distributions@[i]).0@
                    <= r.0@[i] <= self.distributions@[i].1@,
    {
        let ghost rs = ranges_of(self.distributions@);
        let mut src = RandomSource::new(self.seed);
        proof {
            lemma_ranges_bounds(self.distributions@);
        }
        let mut best = self.sample(&mut src);
        proof {
            lemma_sample_point_shape(rs, self.seed);
        }
        let mut best_value = f.eval(&best);
        let mut k: usize = 1;
        while k < self.n
            invariant
                1 <= k <= self.n,
                f.wf(),
                self.wf(),
                f.dim() == self.dim(),
                rs == ranges_of(self.distributions@),
                best@ == mc_best(*f, rs, self.seed, k as nat).0,
                best_value@ == mc_best(*f, rs, self.seed, k as nat).1,
                src.spec_state() == mc_best(*f, rs, self.seed, k as nat).2,
            decreases self.n - k,
        {
            proof {
                lemma_ranges_bounds(self.distributions@);
            }
            let cand = self.sample(&mut src);
            proof {
                lemma_mc_best_shape(*f, rs, self.seed, k as nat);
                lemma_sample_point_shape(rs, mc_best(*f, rs, self.seed, k as nat).2);
            }
            let v = f.eval(&cand);
            if v.lt(best_value) {
                best = cand;
                best_value = v;
            }
            k = k + 1;
        }
        proof {
            lemma_ranges_bounds(self.distributions@);
            lemma_mc_best_shape(*f, rs, self.seed, self.n as nat);
            assert forall|i: int|
                0 <= i < self.distributions@.len() implies (#[trigger] self.distributions@[i]).0@
                <= best@[i] <= self.distributions@[i].1@ by {
                assert(rs[i] == (self.distributions@[i].0@, self.distributions@[i].1@));
                assert(rs[i].0 <= mc_best(*f, rs, self.seed, self.n as nat).0[i] <= rs[i].1);
            }
        }
        (best, best_value, Steps(0))
    }
}

} // verus!
