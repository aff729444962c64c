//! Benchmark objective functions with their known minimizer sets, used to
//! validate the composition strategies.
//!
//! Each benchmark pins its executable evaluation to a specification-level
//! formula over the exact fixed-point semantics, and exposes the known
//! minimum value and minimizer set that the harness checks against.

use vstd::prelude::*;

use crate::fixed::{
    fx_abs, fx_add, fx_int, fx_mul, fx_ratio, fx_sqrt, fx_sub, tdiv, Fx, FX_ONE,
};
use crate::method::Objective;
use crate::point::Point;

verus! {

/// The contract a benchmark satisfies: a pure objective together with its
/// known minimum value and minimizer set.
pub trait Function<const N: usize> {
    /// The objective's value at coordinate mantissas `x`.
    spec fn spec_f(x: Seq<int>) -> int;

    /// The known minimum value.
    spec fn spec_minimum() -> int;

    /// The known minimizer set, one coordinate sequence per minimizer.
    spec fn spec_minima() -> Seq<Seq<int>>;

    /// The known minimum value, as a scalar.
    #[allow(non_snake_case)]
    fn F() -> (r: Fx)
        ensures
            r@ == Self::spec_minimum(),
    ;

    /// The known minimizers, as points.
    #[allow(non_snake_case)]
    fn X() -> (r: Vec<Point>)
        ensures
            r@.len() == Self::spec_minima().len(),
            r@.len() >= 1,
            forall|i: int|
                0 <= i < r@.len() ==> #[trigger] r@[i]@ == Self::spec_minima()[i]
                    && r@[i]@.len() == N,
    ;

    /// Evaluates the objective.
    fn f(x: &Point) -> (r: Fx)
        requires
            x@.len() == N,
        ensures
            r@ == Self::spec_f(x@),
    ;
}

/// The square of a scalar mantissa.
pub open spec fn sq(a: int) -> int {
    fx_mul(a, a)
}

/// Mantissa of the full turn, two pi.
pub const FX_TURN: i64 = 431777206544;

/// Mantissa of a quarter turn of phase: one fourth of the unit.
pub const FX_QUARTER: i64 = 0x4_0000_0000;

/// Cosine of a quarter-turn phase `u` in `[0, 1/4]`, by a Taylor sum in
/// `z = two_pi * u` through the tenth power.
pub open spec fn cos_quarter(u: int) -> int {
    let z = fx_mul(FX_TURN as int, u);
    let z2 = fx_mul(z, z);
    let z4 = fx_mul(z2, z2);
    let z6 = fx_mul(z4, z2);
    let z8 = fx_mul(z4, z4);
    let z10 = fx_mul(z8, z2);
    fx_sub(
        fx_add(fx_sub(fx_add(fx_sub(fx_int(1), tdiv(z2, 2)), tdiv(z4, 24)), tdiv(z6, 720)), tdiv(z8, 40320)),
        tdiv(z10, 3628800),
    )
}

/// Cosine of a whole number of turns: `cos(two_pi * a)`, folded into the
/// first quarter by the symmetries of the cosine.
pub open spec fn cos_turns(a: int) -> int {
    let t = a % (FX_ONE as int);
    if t < FX_QUARTER {
        cos_quarter(t)
    } else if t < 2 * FX_QUARTER {
        fx_sub(0, cos_quarter(2 * FX_QUARTER - t))
    } else if t < 3 * FX_QUARTER {
        fx_sub(0, cos_quarter(t - 2 * FX_QUARTER))
    } else {
        cos_quarter(FX_ONE - t)
    }
}

/// The phase of `x`: its mantissa reduced to one period, in `[0, 1)`.
fn phase_of(x: Fx) -> (t: i64)
    ensures
        t as int == x@ % (FX_ONE as int),
        0 <= t < FX_ONE,
{
    let m = x.raw();
    if m >= 0 {
        let t = ((m as u64) % (FX_ONE as u64)) as i64;
        proof {
            assert(t as int == m as int % (FX_ONE as int));
        }
        t
    } else {
        let neg: u64 = if m == i64::MIN {
            0x8000_0000_0000_0000u64
        } else {
            (-m) as u64
        };
        let r: u64 = neg % (FX_ONE as u64);
        proof {
            let s = FX_ONE as int;
            let q = (neg as int) / s;
            vstd::arithmetic::div_mod::lemma_fundamental_div_mod(neg as int, s);
            vstd::arithmetic::div_mod::lemma_mod_bound(neg as int, s);
            assert(m as int == (-q) * s + (-(r as int))) by (nonlinear_arith)
                requires
                    neg as int == q * s + r as int,
                    m as int == -(neg as int),
            ;
            if r == 0 {
                vstd::arithmetic::div_mod::lemma_fundamental_div_mod_converse(
                    m as int,
                    s,
                    -q,
                    0,
                );
            } else {
                assert(m as int == (-q - 1) * s + (s - r as int)) by (nonlinear_arith)
                    requires
                        m as int == (-q) * s + (-(r as int)),
                ;
                vstd::arithmetic::div_mod::lemma_fundamental_div_mod_converse(
                    m as int,
                    s,
                    -q - 1,
                    s - r as int,
                );
            }
        }
        if r == 0 {
            0
        } else {
            (FX_ONE as u64 - r) as i64
        }
    }
}

/// Cosine of `two_pi` times the argument: the periodic term the Rastrigin
/// benchmark uses.
pub fn cos_of_turns(x: Fx) -> (r: Fx)
    ensures
        r@ == cos_turns(x@),
{
    let t = phase_of(x);
    let (flip, u) = if t < FX_QUARTER {
        (false, Fx::from_raw(t))
    } else if t < 2 * FX_QUARTER {
        (true, Fx::from_raw(2 * FX_QUARTER - t))
    } else if t < 3 * FX_QUARTER {
        (true, Fx::from_raw(t - 2 * FX_QUARTER))
    } else {
        (false, Fx::from_raw(FX_ONE - t))
    };
    let z = Fx::from_raw(FX_TURN).times(u);
    let z2 = z.times(z);
    let z4 = z2.times(z2);
    let z6 = z4.times(z2);
    let z8 = z4.times(z4);
    let z10 = z8.times(z2);
    let one = Fx::one();
    proof {
        assert(fx_int(1) == FX_ONE as int);
    }
    let c = one.minus(z2.div_int(2)).plus(z4.div_int(24)).minus(z6.div_int(720)).plus(
        z8.div_int(40320),
    ).minus(z10.div_int(3628800));
    if flip {
        Fx::zero().minus(c)
    } else {
        c
    }
}

/// Styblinski-Tang term: `v^4 - 16 v^2 + 5 v`.
pub open spec fn tang_term(v: int) -> int {
    fx_add(fx_sub(fx_mul(sq(v), sq(v)), fx_mul(fx_int(16), sq(v))), fx_mul(fx_int(5), v))
}

/// Left fold of the Styblinski-Tang terms.
pub open spec fn tang_sum(s: Seq<int>) -> int
    decreases s.len(),
{
    if s.len() == 0 {
        0
    } else {
        fx_add(tang_sum(s.drop_last()), tang_term(s.last()))
    }
}

/// The known Styblinski-Tang minimum value for `n` axes.
pub open spec fn tang_min(n: nat) -> int
    decreases n,
{
    if n == 0 {
        0
    } else {
        fx_add(tang_min((n - 1) as nat), fx_ratio(-3916617, 100000))
    }
}

/// The Styblinski-Tang benchmark over `N` axes.
pub struct Tang<const N: usize>;

impl<const N: usize> Function<N> for Tang<N> {
    open spec fn spec_f(x: Seq<int>) -> int {
        tdiv(tang_sum(x), 2)
    }

    open spec fn spec_minimum() -> int {
        tang_min(N as nat)
    }

    open spec fn spec_minima() -> Seq<Seq<int>> {
        seq![Seq::new(N as nat, |i: int| fx_ratio(-2903534, 1000000))]
    }

    fn F() -> (r: Fx) {
        let mut acc = Fx::zero();
        let per_axis = Fx::ratio(-3916617, 100000);
        let mut k: usize = 0;
        while k < N
            invariant
                k <= N,
                per_axis@ == fx_ratio(-3916617, 100000),
                acc@ == tang_min(k as nat),
            decreases N - k,
        {
            acc = acc.plus(per_axis);
            k = k + 1;
        }
        acc
    }

    fn X() -> (r: Vec<Point>) {
        let p = Point::splat(N, Fx::ratio(-2903534, 1000000));
        let mut v: Vec<Point> = Vec::new();
        proof {
            assert(p@ =~= Self::spec_minima()[0]);
        }
        v.push(p);
        v
    }

    fn f(x: &Point) -> (r: Fx) {
        let n = x.len();
        let mut acc = Fx::zero();
        let mut k: usize = 0;
        let sixteen = Fx::from_int(16);
        let five = Fx::from_int(5);
        while k < n
            invariant
                k <= n,
                n == x@.len(),
                sixteen@ == fx_int(16),
                five@ == fx_int(5),
                acc@ == tang_sum(x@.subrange(0, k as int)),
            decreases n - k,
        {
            let v = x.get(k);
            let t = v.times(v);
            let q = t.times(t);
            let term = q.minus(sixteen.times(t)).plus(five.times(v));
            acc = acc.plus(term);
            proof {
                let pre = x@.subrange(0, k as int);
                let post = x@.subrange(0, k as int + 1);
                assert(post.drop_last() =~= pre);
                assert(post.last() == x@[k as int]);
            }
            k = k + 1;
        }
        proof {
            assert(x@.subrange(0, n as int) =~= x@);
        }
        acc.half()
    }
}

/// Left fold of the Rastrigin terms: each axis contributes
/// `10 + v^2 - 10 cos(two_pi v)`.
pub open spec fn rastrigin_sum(s: Seq<int>) -> int
    decreases s.len(),
{
    if s.len() == 0 {
        0
    } else {
        fx_add(
            rastrigin_sum(s.drop_last()),
            fx_add(fx_int(10), fx_sub(sq(s.last()), fx_mul(fx_int(10), cos_turns(s.last())))),
        )
    }
}

/// The Rastrigin benchmark over `N` axes.
pub struct Rastrigin<const N: usize>;

impl<const N: usize> Function<N> for Rastrigin<N> {
    open spec fn spec_f(x: Seq<int>) -> int {
        rastrigin_sum(x)
    }

    open spec fn spec_minimum() -> int {
        0
    }

    open spec fn spec_minima() -> Seq<Seq<int>> {
        seq![Seq::new(N as nat, |i: int| 0)]
    }

    fn F() -> (r: Fx) {
        Fx::zero()
    }

    fn X() -> (r: Vec<Point>) {
        let p = Point::splat(N, Fx::zero());
        let mut v: Vec<Point> = Vec::new();
        proof {
            assert(p@ =~= Self::spec_minima()[0]);
        }
        v.push(p);
        v
    }

    fn f(x: &Point) -> (r: Fx) {
        let n = x.len();
        let mut acc = Fx::zero();
        let mut k: usize = 0;
        let ten = Fx::from_int(10);
        while k < n
            invariant
                k <= n,
                n == x@.len(),
                ten@ == fx_int(10),
                acc@ == rastrigin_sum(x@.subrange(0, k as int)),
            decreases n - k,
        {
            let v = x.get(k);
            let c = cos_of_turns(v);
            let term = ten.plus(v.times(v).minus(ten.times(c)));
            acc = acc.plus(term);
            proof {
                let pre = x@.subrange(0, k as int);
                let post = x@.subrange(0, k as int + 1);
                assert(post.drop_last() =~= pre);
                assert(post.last() == x@[k as int]);
            }
            k = k + 1;
        }
        proof {
            assert(x@.subrange(0, n as int) =~= x@);
        }
        acc
    }
}

/// Left fold of squared coordinates.
pub open spec fn sphere_sum(s: Seq<int>) -> int
    decreases s.len(),
{
    if s.len() == 0 {
        0
    } else {
        fx_add(sphere_sum(s.drop_last()), sq(s.last()))
    }
}

/// The sphere benchmark over `N` axes: the sum of squared coordinates.
pub struct Sphere<const N: usize>;

impl<const N: usize> Function<N> for Sphere<N> {
    open spec fn spec_f(x: Seq<int>) -> int {
        sphere_sum(x)
    }

    open spec fn spec_minimum() -> int {
        0
    }

    open spec fn spec_minima() -> Seq<Seq<int>> {
        seq![Seq::new(N as nat, |i: int| 0)]
    }

    fn F() -> (r: Fx) {
        Fx::zero()
    }

    fn X() -> (r: Vec<Point>) {
        let p = Point::splat(N, Fx::zero());
        let mut v: Vec<Point> = Vec::new();
        proof {
            assert(p@ =~= Self::spec_minima()[0]);
        }
        v.push(p);
        v
    }

    fn f(x: &Point) -> (r: Fx) {
        let n = x.len();
        let mut acc = Fx::zero();
        let mut k: usize = 0;
        while k < n
            invariant
                k <= n,
                n == x@.len(),
                acc@ == sphere_sum(x@.subrange(0, k as int)),
            decreases n - k,
        {
            let v = x.get(k);
            acc = acc.plus(v.times(v));
            proof {
                let pre = x@.subrange(0, k as int);
                let post = x@.subrange(0, k as int + 1);
                assert(post.drop_last() =~= pre);
                assert(post.last() == x@[k as int]);
            }
            k = k + 1;
        }
        proof {
            assert(x@.subrange(0, n as int) =~= x@);
        }
        acc
    }
}

/// The Rosenbrock banana valley in two dimensions.
pub struct Rosenbrok;

/// `100 (y - x^2)^2 + (1 - x)^2`.
pub open spec fn rosenbrok_val(x: int, y: int) -> int {
    fx_add(fx_mul(fx_int(100), sq(fx_sub(y, sq(x)))), sq(fx_sub(fx_int(1), x)))
}

impl Function<2> for Rosenbrok {
    open spec fn spec_f(x: Seq<int>) -> int {
        rosenbrok_val(x[0], x[1])
    }

    open spec fn spec_minimum() -> int {
        0
    }

    open spec fn spec_minima() -> Seq<Seq<int>> {
        seq![seq![fx_int(1), fx_int(1)]]
    }

    fn F() -> (r: Fx) {
        Fx::zero()
    }

    fn X() -> (r: Vec<Point>) {
        let one = Fx::from_int(1);
        let mut coords: Vec<Fx> = Vec::new();
        coords.push(one);
        coords.push(one);
        let p = Point::new(coords);
        let mut v: Vec<Point> = Vec::new();
        proof {
            assert(p@ =~= Self::spec_minima()[0]);
        }
        v.push(p);
        v
    }

    fn f(xs: &Point) -> (r: Fx) {
        let x = xs.get(0);
        let y = xs.get(1);
        let hundred = Fx::from_int(100);
        let one = Fx::from_int(1);
        let inner = y.minus(x.times(x));
        let left = hundred.times(inner.times(inner));
        let edge = one.minus(x);
        left.plus(edge.times(edge))
    }
}

/// The Bukin N.6 benchmark in two dimensions.
pub struct Bukin6;

/// `100 sqrt(|y - 0.01 x^2|) + 0.01 |x + 10|`.
pub open spec fn bukin6_val(x: int, y: int) -> int {
    fx_add(
        fx_mul(fx_int(100), fx_sqrt(fx_abs(fx_sub(y, fx_mul(fx_ratio(1, 100), sq(x)))))),
        fx_mul(fx_ratio(1, 100), fx_abs(fx_add(x, fx_int(10)))),
    )
}

impl Function<2> for Bukin6 {
    open spec fn spec_f(x: Seq<int>) -> int {
        bukin6_val(x[0], x[1])
    }

    open spec fn spec_minimum() -> int {
        0
    }

    open spec fn spec_minima() -> Seq<Seq<int>> {
        seq![seq![fx_int(-10), fx_int(1)]]
    }

    fn F() -> (r: Fx) {
        Fx::zero()
    }

    fn X() -> (r: Vec<Point>) {
        let mut coords: Vec<Fx> = Vec::new();
        coords.push(Fx::from_int(-10));
        coords.push(Fx::from_int(1));
        let p = Point::new(coords);
        let mut v: Vec<Point> = Vec::new();
        proof {
            assert(p@ =~= Self::spec_minima()[0]);
        }
        v.push(p);
        v
    }

    fn f(xs: &Point) -> (r: Fx) {
        let x = xs.get(0);
        let y = xs.get(1);
        let hundredth = Fx::ratio(1, 100);
        let hundred = Fx::from_int(100);
        let ten = Fx::from_int(10);
        let inner = y.minus(hundredth.times(x.times(x))).abs_val();
        let left = hundred.times(inner.sqrt_val());
        let right = hundredth.times(x.plus(ten).abs_val());
        left.plus(right)
    }
}

/// The Himmelblau benchmark in two dimensions, with four known minima.
pub struct Himmelblau;

/// `(x^2 + y - 11)^2 + (x + y^2 - 7)^2`.
pub open spec fn himmelblau_val(x: int, y: int) -> int {
    fx_add(sq(fx_sub(fx_add(sq(x), y), fx_int(11))), sq(fx_sub(fx_add(x, sq(y)), fx_int(7))))
}

impl Function<2> for Himmelblau {
    open spec fn spec_f(x: Seq<int>) -> int {
        himmelblau_val(x[0], x[1])
    }

    open spec fn spec_minimum() -> int {
        0
    }

    open spec fn spec_minima() -> Seq<Seq<int>> {
        seq![
            seq![fx_ratio(-3779310, 1000000), fx_ratio(-3283186, 1000000)],
            seq![fx_int(3), fx_int(2)],
            seq![fx_ratio(3584428, 1000000), fx_ratio(-1848126, 1000000)],
            seq![fx_ratio(-2805118, 1000000), fx_ratio(3131312, 1000000)],
        ]
    }

    fn F() -> (r: Fx) {
        Fx::zero()
    }

    fn X() -> (r: Vec<Point>) {
        let mut v: Vec<Point> = Vec::new();
        let mut c0: Vec<Fx> = Vec::new();
        c0.push(Fx::ratio(-3779310, 1000000));
        c0.push(Fx::ratio(-3283186, 1000000));
        let p0 = Point::new(c0);
        proof {
            assert(p0@ =~= Self::spec_minima()[0]);
        }
        v.push(p0);
        let mut c1: Vec<Fx> = Vec::new();
        c1.push(Fx::from_int(3));
        c1.push(Fx::from_int(2));
        let p1 = Point::new(c1);
        proof {
            assert(p1@ =~= Self::spec_minima()[1]);
        }
        v.push(p1);
        let mut c2: Vec<Fx> = Vec::new();
        c2.push(Fx::ratio(3584428, 1000000));
        c2.push(Fx::ratio(-1848126, 1000000));
        let p2 = Point::new(c2);
        proof {
            assert(p2@ =~= Self::spec_minima()[2]);
        }
        v.push(p2);
        let mut c3: Vec<Fx> = Vec::new();
        c3.push(Fx::ratio(-2805118, 1000000));
        c3.push(Fx::ratio(3131312, 1000000));
        let p3 = Point::new(c3);
        proof {
            assert(p3@ =~= Self::spec_minima()[3]);
        }
        v.push(p3);
        v
    }

    fn f(xs: &Point) -> (r: Fx) {
        let x = xs.get(0);
        let y = xs.get(1);
        let eleven = Fx::from_int(11);
        let seven = Fx::from_int(7);
        let left = x.times(x).plus(y).minus(eleven);
        let right = x.plus(y.times(y)).minus(seven);
        left.times(left).plus(right.times(right))
    }
}

/// The Booth benchmark in two dimensions.
pub struct Booth;

/// `(x + 2y - 7)^2 + (2x + y - 5)^2`.
pub open spec fn booth_val(x: int, y: int) -> int {
    fx_add(
        sq(fx_sub(fx_add(x, fx_mul(fx_int(2), y)), fx_int(7))),
        sq(fx_sub(fx_add(fx_mul(fx_int(2), x), y), fx_int(5))),
    )
}

impl Function<2> for Booth {
    open spec fn spec_f(x: Seq<int>) -> int {
        booth_val(x[0], x[1])
    }

    open spec fn spec_minimum() -> int {
        0
    }

    open spec fn spec_minima() -> Seq<Seq<int>> {
        seq![seq![fx_int(1), fx_int(3)]]
    }

    fn F() -> (r: Fx) {
        Fx::zero()
    }

    fn X() -> (r: Vec<Point>) {
        let mut coords: Vec<Fx> = Vec::new();
        coords.push(Fx::from_int(1));
        coords.push(Fx::from_int(3));
        let p = Point::new(coords);
        let mut v: Vec<Point> = Vec::new();
        proof {
            assert(p@ =~= Self::spec_minima()[0]);
        }
        v.push(p);
        v
    }

    fn f(xs: &Point) -> (r: Fx) {
        let x = xs.get(0);
        let y = xs.get(1);
        let two = Fx::from_int(2);
        let seven = Fx::from_int(7);
        let five = Fx::from_int(5);
        let left = x.plus(two.times(y)).minus(seven);
        let right = two.times(x).plus(y).minus(five);
        left.times(left).plus(right.times(right))
    }
}

/// One axis's contribution to a separable polynomial:
/// `a v^3 + b v^2 + c v`.
pub open spec fn separable_term(a: int, b: int, c: int, v: int) -> int {
    fx_add(fx_add(fx_mul(a, fx_mul(v, fx_mul(v, v))), fx_mul(b, sq(v))), fx_mul(c, v))
}

/// Left fold of separable-polynomial terms onto a base value.
pub open spec fn separable_sum(
    cubic: Seq<int>,
    square: Seq<int>,
    linear: Seq<int>,
    base: int,
    x: Seq<int>,
) -> int
    decreases x.len(),
{
    if x.len() == 0 {
        base
    } else {
        fx_add(
            separable_sum(cubic, square, linear, base, x.drop_last()),
            separable_term(
                cubic[x.len() - 1],
                square[x.len() - 1],
                linear[x.len() - 1],
                x.last(),
            ),
        )
    }
}

/// An axis-separable polynomial of degree at most three: a constant plus,
/// per axis, a cubic, a square and a linear term. General enough for the
/// usual quadratic objectives and for polynomial restriction functions.
pub struct SeparablePolynomial {
    pub cubic: Vec<Fx>,
    pub square: Vec<Fx>,
    pub linear: Vec<Fx>,
    pub constant: Fx,
}

impl SeparablePolynomial {
    pub fn new(cubic: Vec<Fx>, square: Vec<Fx>, linear: Vec<Fx>, constant: Fx) -> (r:
        SeparablePolynomial)
        ensures
            r.cubic == cubic,
            r.square == square,
            r.linear == linear,
            r.constant == constant,
    {
        SeparablePolynomial { cubic, square, linear, constant }
    }
}

impl Objective for SeparablePolynomial {
    open spec fn wf(&self) -> bool {
        self.cubic@.len() == self.linear@.len() && self.square@.len() == self.linear@.len()
    }

    open spec fn dim(&self) -> nat {
        self.linear@.len()
    }

    open spec fn value(&self, x: Seq<int>) -> int {
        separable_sum(
            crate::fixed::seq_views(self.cubic@),
            crate::fixed::seq_views(self.square@),
            crate::fixed::seq_views(self.linear@),
            self.constant@,
            x,
        )
    }

    fn eval(&self, x: &Point) -> (r: Fx) {
        let ghost c3 = crate::fixed::seq_views(self.cubic@);
        let ghost c2 = crate::fixed::seq_views(self.square@);
        let ghost c1 = crate::fixed::seq_views(self.linear@);
        let n = x.len();
        let mut acc = self.constant;
        let mut k: usize = 0;
        proof {
            assert(x@.subrange(0, 0) =~= Seq::<int>::empty());
        }
        while k < n
            invariant
                k <= n,
                n == x@.len(),
                n == self.cubic@.len(),
                n == self.square@.len(),
                n == self.linear@.len(),
                c3 == crate::fixed::seq_views(self.cubic@),
                c2 == crate::fixed::seq_views(self.square@),
                c1 == crate::fixed::seq_views(self.linear@),
                acc@ == separable_sum(c3, c2, c1, self.constant@, x@.subrange(0, k as int)),
            decreases n - k,
        {
            let v = x.get(k);
            let v2 = v.times(v);
            let v3 = v.times(v2);
            let term = self.cubic[k].times(v3).plus(self.square[k].times(v2)).plus(
                self.linear[k].times(v),
            );
            acc = acc.plus(term);
            proof {
                let pre = x@.subrange(0, k as int);
                let post = x@.subrange(0, k as int + 1);
                assert(post.drop_last() =~= pre);
                assert(post.last() == x@[k as int]);
                assert(fx_mul(v@, fx_mul(v@, v@)) == fx_mul(v@, fx_mul(v@, v@)));
                assert(term@ == separable_term(c3[k as int], c2[k as int], c1[k as int], v@));
            }
            k = k + 1;
        }
        proof {
            assert(x@.subrange(0, n as int) =~= x@);
        }
        acc
    }
}

/// Benchmarks are objectives: the solvers minimize them directly.
impl<const N: usize> Objective for Tang<N> {
    open spec fn wf(&self) -> bool {
        true
    }

    open spec fn dim(&self) -> nat {
        N as nat
    }

    open spec fn value(&self, x: Seq<int>) -> int {
        <Tang<N> as Function<N>>::spec_f(x)
    }

    fn eval(&self, x: &Point) -> (r: Fx) {
        <Tang<N> as Function<N>>::f(x)
    }
}

impl<const N: usize> Objective for Rastrigin<N> {
    open spec fn wf(&self) -> bool {
        true
    }

    open spec fn dim(&self) -> nat {
        N as nat
    }

    open spec fn value(&self, x: Seq<int>) -> int {
        <Rastrigin<N> as Function<N>>::spec_f(x)
    }

    fn eval(&self, x: &Point) -> (r: Fx) {
        <Rastrigin<N> as Function<N>>::f(x)
    }
}

impl<const N: usize> Objective for Sphere<N> {
    open spec fn wf(&self) -> bool {
        true
    }

    open spec fn dim(&self) -> nat {
        N as nat
    }

    open spec fn value(&self, x: Seq<int>) -> int {
        <Sphere<N> as Function<N>>::spec_f(x)
    }

    fn eval(&self, x: &Point) -> (r: Fx) {
        <Sphere<N> as Function<N>>::f(x)
    }
}

impl Objective for Rosenbrok {
    open spec fn wf(&self) -> bool {
        true
    }

    open spec fn dim(&self) -> nat {
        2
    }

    open spec fn value(&self, x: Seq<int>) -> int {
        <Rosenbrok as Function<2>>::spec_f(x)
    }

    fn eval(&self, x: &Point) -> (r: Fx) {
        <Rosenbrok as Function<2>>::f(x)
    }
}

impl Objective for Bukin6 {
    open spec fn wf(&self) -> bool {
        true
    }

    open spec fn dim(&self) -> nat {
        2
    }

    open spec fn value(&self, x: Seq<int>) -> int {
        <Bukin6 as Function<2>>::spec_f(x)
    }

    fn eval(&self, x: &Point) -> (r: Fx) {
        <Bukin6 as Function<2>>::f(x)
    }
}

impl Objective for Himmelblau {
    open spec fn wf(&self) -> bool {
        true
    }

    open spec fn dim(&self) -> nat {
        2
    }

    open spec fn value(&self, x: Seq<int>) -> int {
        <Himmelblau as Function<2>>::spec_f(x)
    }

    fn eval(&self, x: &Point) -> (r: Fx) {
        <Himmelblau as Function<2>>::f(x)
    }
}

impl Objective for Booth {
    open spec fn wf(&self) -> bool {
        true
    }

    open spec fn dim(&self) -> nat {
        2
    }

    open spec fn value(&self, x: Seq<int>) -> int {
        <Booth as Function<2>>::spec_f(x)
    }

    fn eval(&self, x: &Point) -> (r: Fx) {
        <Booth as Function<2>>::f(x)
    }
}

} // verus!
