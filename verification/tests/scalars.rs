//! Exact-value tests of the fixed-point scalar domain, the random stream,
//! and the benchmark formulas.

use minsearch::fixed::{Fx, FX_ONE};
use minsearch::functions::{
    cos_of_turns, Booth, Bukin6, Function, Himmelblau, Rastrigin, Rosenbrok, Sphere, Tang,
};
use minsearch::point::Point;
use minsearch::rng::RandomSource;
use minsearch::task::Check;

fn fx(i: i64) -> Fx {
    Fx::from_int(i)
}

fn pt(coords: &[i64]) -> Point {
    let mut v: Vec<Fx> = Vec::new();
    for &c in coords {
        v.push(Fx::from_int(c));
    }
    Point::new(v)
}

#[test]
fn scalar_arithmetic_is_exact() {
    assert_eq!(fx(3).plus(fx(4)).raw(), 7 * FX_ONE);
    assert_eq!(fx(3).minus(fx(4)).raw(), -FX_ONE);
    assert_eq!(Fx::ratio(1, 2).times(Fx::ratio(1, 2)).raw(), FX_ONE / 4);
    assert_eq!(fx(-7).abs_val().raw(), 7 * FX_ONE);
    assert_eq!(fx(1).midpoint(fx(2)).raw(), 3 * FX_ONE / 2);
    assert_eq!(fx(9).sqrt_val().raw(), 3 * FX_ONE);
    assert_eq!(Fx::ratio(1, 100000).raw(), 687194);
}

#[test]
fn scalar_saturates_at_range_ends() {
    let huge = Fx::from_raw(i64::MAX);
    assert_eq!(huge.plus(huge).raw(), i64::MAX);
    assert_eq!(huge.neg().plus(huge.neg()).raw(), i64::MIN);
    assert_eq!(huge.times(huge).raw(), i64::MAX);
}

#[test]
fn norm_of_three_four_is_five() {
    assert_eq!(pt(&[3, 4]).norm().raw(), 5 * FX_ONE);
}

#[test]
fn random_stream_is_reproducible() {
    let mut a = RandomSource::new(1);
    let mut b = RandomSource::new(1);
    let first = a.next_bits();
    assert_eq!(first, 10451216379200822465);
    assert_eq!(b.next_bits(), first);
    let u = RandomSource::new(1).next_unit();
    assert!(0 <= u.raw() && u.raw() < FX_ONE);
}

#[test]
fn benchmark_minima_evaluate_exactly() {
    assert_eq!(Booth::f(&pt(&[1, 3])).raw(), 0);
    assert_eq!(Himmelblau::f(&pt(&[3, 2])).raw(), 0);
    assert_eq!(Rosenbrok::f(&pt(&[1, 1])).raw(), 0);
    assert_eq!(<Sphere<2> as Function<2>>::f(&pt(&[1, 2])).raw(), 5 * FX_ONE);
    assert_eq!(<Rastrigin<2> as Function<2>>::f(&pt(&[0, 0])).raw(), 0);
    assert_eq!(Bukin6::f(&pt(&[-10, 1])).raw(), 157286400);
}

#[test]
fn tang_value_at_declared_minimizer() {
    let x = Point::new(vec![Fx::ratio(-2903534, 1000000)]);
    let v = <Tang<1> as Function<1>>::f(&x);
    assert_eq!(v.raw(), -2691478412919);
    let declared = <Tang<1> as Function<1>>::F();
    assert!(v.minus(declared).abs_val().le(Fx::ratio(1, 100000)));
}

#[test]
fn cosine_of_whole_turns() {
    assert_eq!(cos_of_turns(fx(1)).raw(), FX_ONE);
    assert_eq!(cos_of_turns(Fx::ratio(1, 2)).raw(), -FX_ONE);
    let quarter = cos_of_turns(Fx::ratio(1, 4));
    assert!(quarter.abs_val().le(Fx::ratio(1, 1000000)));
    let full_negative = cos_of_turns(fx(-3));
    assert_eq!(full_negative.raw(), FX_ONE);
}

#[test]
fn harness_rejects_a_point_away_from_the_minimizers() {
    let off: Check<2, Booth, Booth> = Check {
        eps_x: Fx::ratio(1, 100000),
        eps_y: Fx::ratio(1, 100000),
        x: pt(&[0, 0]),
        f: Booth::f(&pt(&[0, 0])),
        restrictions: Vec::new(),
        marker: std::marker::PhantomData,
    };
    assert!(!off.check());
    let exact: Check<2, Booth, Booth> = Check {
        eps_x: Fx::ratio(1, 100000),
        eps_y: Fx::ratio(1, 100000),
        x: pt(&[1, 3]),
        f: Booth::f(&pt(&[1, 3])),
        restrictions: Vec::new(),
        marker: std::marker::PhantomData,
    };
    assert!(exact.check());
}
