//! Uniform refinement search: walks an evenly spaced grid, then shrinks the
//! bracket around the best grid point and repeats until the bracket is
//! narrow. Where the shrunken bracket can no longer carry a valid grid, the
//! search stops with the best candidate found so far.

use vstd::prelude::*;

use crate::enumerate::first_argmin;
use crate::fixed::{fx_add, fx_mul, fx_ratio, fx_sub, Fx};
use crate::method::{value_fn, Objective1, Optimizer, Steps};
use crate::utils::{grid_from, grid_spacing, linspace};

verus! {

/// The refinement recursion, pinned exactly: while the bracket is wider
/// than `eps` and the bracket carries a valid grid, the candidate becomes
/// the first minimizer of that grid and the bracket shrinks around it by
/// one grid step per side; otherwise the carried candidate stands. Returns
/// the final candidate and the number of rounds done.
pub open spec fn uniform_run(
    gv: spec_fn(int) -> int,
    eps: int,
    n: int,
    step: int,
    a: int,
    b: int,
    x: int,
    fuel: nat,
) -> (int, nat)
    decreases fuel,
{
    if !(fx_sub(b, a) > eps) || fuel == 0 {
        (x, 0)
    } else {
        let dx = grid_spacing(a, b, n);
        if !(1 <= dx && dx < i64::MAX && a <= dx) {
            (x, 0)
        } else {
            let x2 = first_argmin(gv, grid_from(a, dx));
            let a2 = fx_sub(x2, fx_mul(step, fx_sub(b, a)));
            let b2 = fx_add(x2, fx_mul(step, fx_sub(b, a2)));
            let rec = uniform_run(gv, eps, n, step, a2, b2, x2, (fuel - 1) as nat);
            (rec.0, (rec.1 + 1) as nat)
        }
    }
}

/// A grid-refinement search over `[a, b]` with `n` points per round,
/// stopping once the bracket width is at most `eps`.
#[derive(Clone, Copy)]
pub struct Uniform {
    pub a: Fx,
    pub b: Fx,
    pub n: usize,
    pub eps: Fx,
}

impl Uniform {
    pub fn new(a: Fx, b: Fx, n: usize, eps: Fx) -> (r: Uniform)
        requires
            2 <= n <= 0x7fff_ffff_ffff_ffff,
        ensures
            r.wf(),
            r.a == a,
            r.b == b,
            r.n == n,
            r.eps == eps,
    {
        Uniform { a, b, n, eps }
    }
}

impl Optimizer for Uniform {
    open spec fn wf(&self) -> bool {
        2 <= self.n <= 0x7fff_ffff_ffff_ffff
    }

    open spec fn lo(&self) -> int {
        self.a@
    }

    open spec fn hi(&self) -> int {
        self.b@
    }

    /// The run is pinned exactly: the result and the reported count are
    /// `uniform_run`'s, starting from the range ends with the range start
    /// as the carried candidate.
    fn optimize<G: Objective1>(&self, g: &G) -> (r: (Fx, Fx, Steps))
        ensures
            r.0@ == uniform_run(
                value_fn(*g),
                self.eps@,
                self.n as int,
                fx_ratio(1, self.n as int),
                self.a@,
                self.b@,
                self.a@,
                (usize::MAX - 1) as nat,
            ).0,
            r.2.0 == uniform_run(
                value_fn(*g),
                self.eps@,
                self.n as int,
                fx_ratio(1, self.n as int),
                self.a@,
                self.b@,
                self.a@,
                (usize::MAX - 1) as nat,
            ).1 + 1,
            r.0@ == self.a@ || exists|ga: int, gb: int|
                r.0@ == first_argmin(
                    value_fn(*g),
                    grid_from(ga, #[trigger] grid_spacing(ga, gb, self.n as int)),
                ),
    {
        let ghost gv = value_fn(*g);
        let n = self.n;
        let mut a = self.a;
        let mut b = self.b;
        let mut x = self.a;
        let step = Fx::ratio(1, n as i64);
        let mut rounds: usize = 1;
        while self.eps.lt(b.minus(a)) && rounds < usize::MAX
            invariant
                self.wf(),
                g.wf(),
                n == self.n,
                rounds >= 1,
                gv == value_fn(*g),
                step@ == fx_ratio(1, self.n as int),
                uniform_run(
                    gv,
                    self.eps@,
                    self.n as int,
                    step@,
                    self.a@,
                    self.b@,
                    self.a@,
                    (usize::MAX - 1) as nat,
                ) == ({
                    let sub = uniform_run(
                        gv,
                        self.eps@,
                        self.n as int,
                        step@,
                        a@,
                        b@,
                        x@,
                        (usize::MAX - rounds) as nat,
                    );
                    (sub.0, (sub.1 + rounds - 1) as nat)
                }),
                x@ == self.a@ || exists|ga: int, gb: int|
                    x@ == first_argmin(
                        gv,
                        grid_from(ga, #[trigger] grid_spacing(ga, gb, self.n as int)),
                    ),
            ensures
                x@ == uniform_run(
                    gv,
                    self.eps@,
                    self.n as int,
                    step@,
                    self.a@,
                    self.b@,
                    self.a@,
                    (usize::MAX - 1) as nat,
                ).0,
                rounds == uniform_run(
                    gv,
                    self.eps@,
                    self.n as int,
                    step@,
                    self.a@,
                    self.b@,
                    self.a@,
                    (usize::MAX - 1) as nat,
                ).1 + 1,
                gv == value_fn(*g),
                step@ == fx_ratio(1, self.n as int),
                x@ == self.a@ || exists|ga: int, gb: int|
                    x@ == first_argmin(
                        gv,
                        grid_from(ga, #[trigger] grid_spacing(ga, gb, self.n as int)),
                    ),
            decreases usize::MAX - rounds,
        {
            let ghost pre_a = a@;
            let ghost pre_b = b@;
            let ghost pre_x = x@;
            let ghost pre_rounds = rounds;
            let dx = b.minus(a).div_int((n - 1) as i64);
            proof {
                assert(dx@ == grid_spacing(a@, b@, n as int));
            }
            if !(Fx::from_raw(1).le(dx) && dx.lt(Fx::from_raw(i64::MAX)) && a.le(dx)) {
                proof {
                    assert(uniform_run(
                        gv,
                        self.eps@,
                        self.n as int,
                        step@,
                        pre_a,
                        pre_b,
                        pre_x,
                        (usize::MAX - pre_rounds) as nat,
                    ) == (pre_x, 0nat));
                }
                break ;
            }
            let grid = linspace(a, b, n);
            proof {
                assert(grid@.map_values(|f: Fx| f@) == grid_from(a@, dx@));
                assert(grid_from(a@, dx@).len() >= 1);
            }
            let mut best = grid[0];
            let mut best_value = g.eval(best);
            let mut k: usize = 1;
            proof {
                assert(grid_from(a@, dx@).subrange(0, 1) =~= seq![grid_from(a@, dx@)[0]]);
            }
            while k < grid.len()
                invariant
                    1 <= k <= grid@.len(),
                    g.wf(),
                    grid@.map_values(|f: Fx| f@) == grid_from(a@, dx@),
                    grid@.len() == grid_from(a@, dx@).len(),
                    gv == value_fn(*g),
                    best@ == first_argmin(gv, grid_from(a@, dx@).subrange(0, k as int)),
                    best_value@ == g.value(best@),
                decreases grid@.len() - k,
            {
                let cand = grid[k];
                let v = g.eval(cand);
                proof {
                    let pre = grid_from(a@, dx@).subrange(0, k as int);
                    let post = grid_from(a@, dx@).subrange(0, k as int + 1);
                    assert(post.drop_last() =~= pre);
                    assert(post.last() == grid_from(a@, dx@)[k as int]);
                    assert(cand@ == grid_from(a@, dx@)[k as int]);
                }
                if v.lt(best_value) {
                    best = cand;
                    best_value = v;
                }
                k = k + 1;
            }
            proof {
                assert(grid_from(a@, dx@).subrange(0, grid@.len() as int) =~= grid_from(a@, dx@));
            }
            x = best;
            a = x.minus(step.times(b.minus(a)));
            b = x.plus(step.times(b.minus(a)));
            rounds = rounds + 1;
            proof {
                assert(uniform_run(
                    gv,
                    self.eps@,
                    self.n as int,
                    step@,
                    pre_a,
                    pre_b,
                    pre_x,
                    (usize::MAX - pre_rounds) as nat,
                ) == ({
                    let rec = uniform_run(
                        gv,
                        self.eps@,
                        self.n as int,
                        step@,
                        a@,
                        b@,
                        x@,
                        (usize::MAX - pre_rounds - 1) as nat,
                    );
                    (rec.0, (rec.1 + 1) as nat)
                }));
            }
        }
        let v = g.eval(x);
        (x, v, Steps(rounds))
    }
}

} // verus!
