//! Coordinate descent and conjugate directions on the benchmark set.

use minsearch::conjugate_directions::ConjugateDirections;
use minsearch::fibonacci::GoldenRatio;
use minsearch::fixed::Fx;
use minsearch::functions::{Function, Himmelblau, Sphere};
use minsearch::method::{OneDimensionalMethod, SpaceOptimizer};
use minsearch::point::Point;
use minsearch::task::Task;
use minsearch::zeidel::GaussZeidel;

fn fx(i: i64) -> Fx {
    Fx::from_int(i)
}

fn unit() -> Fx {
    Fx::from_raw(1)
}

fn golden(eps_num: i64, eps_den: i64) -> OneDimensionalMethod {
    OneDimensionalMethod::GoldenRatio(GoldenRatio::new(fx(-10), fx(10), Fx::ratio(eps_num, eps_den)))
}

#[test]
fn test_gauss_zeidel_sphere_golden_ratio() {
    let start = Point::new(vec![fx(-4), fx(-4)]);
    let solver = GaussZeidel::new(start, golden(1, 1000000), unit(), unit());
    let check = Task::new(solver, Sphere::<2>).solve_space_check::<2>();
    assert!(check.check());
}

#[test]
fn descent_never_worsens_the_objective() {
    let start = Point::new(vec![fx(-4), fx(-4)]);
    let at_start = <Sphere<2> as Function<2>>::f(&start);
    let solver = GaussZeidel::new(start, golden(1, 1000000), unit(), unit());
    let (_x, value, _steps) = solver.optimize(&Sphere::<2>);
    assert!(value.le(at_start));
}

fn conjugate() -> ConjugateDirections {
    ConjugateDirections::new(
        Point::new(vec![fx(-2), fx(-5)]),
        golden(1, 1000000000),
        Fx::ratio(1, 1000000000),
        Fx::from_raw(1),
    )
}

#[test]
fn test_conjugate_dirs_himmelblau_golden_ratio() {
    let check = Task::new(conjugate(), Himmelblau).solve_space_check::<2>();
    assert!(check.check());
}

#[test]
fn test_conjugate_dirs_sphere_golden_ratio() {
    let check = Task::new(conjugate(), Sphere::<2>).solve_space_check::<2>();
    assert!(check.check());
}
