//! Seeded sampling strategies and the per-axis decomposition.

use minsearch::compound::{GlobalBuilder, NestedTasks};
use minsearch::enumerate::MonteCarlo;
use minsearch::fixed::Fx;
use minsearch::functions::{Booth, Himmelblau, Tang};
use minsearch::method::SpaceOptimizer;
use minsearch::task::Task;

fn fx(i: i64) -> Fx {
    Fx::from_int(i)
}

#[test]
fn test_monte_karlo_tang() {
    let ranges = vec![
        (Fx::ratio(-2904, 1000), Fx::ratio(-2903, 1000)),
        (Fx::ratio(-2904, 1000), Fx::ratio(-2903, 1000)),
    ];
    let method = MonteCarlo::new(ranges, 100000);
    let check = Task::new(method, Tang::<2>).solve_space_check::<2>();
    assert!(check.check());
}

#[test]
fn test_monte_karlo_booth() {
    let ranges = vec![(fx(0), Fx::ratio(7, 2)), (fx(0), Fx::ratio(7, 2))];
    let method = MonteCarlo::new(ranges, 100000);
    let check = Task::new(method, Booth)
        .solve_space_check::<2>()
        .with_eps_x(Fx::ratio(1, 100))
        .with_eps_y(Fx::ratio(1, 1000));
    assert!(check.check());
}

#[test]
fn single_axis_decomposition_equals_direct_leaf_run() {
    let direct = MonteCarlo::seeded(vec![(fx(-5), fx(0))], 500, 42);
    let (x_direct, v_direct, _) = direct.optimize(&Tang::<1>);
    let nested = NestedTasks::new(
        vec![(fx(-5), fx(0))],
        GlobalBuilder::monte_carlo(500, 42),
    );
    let (x_nested, v_nested, _) = nested.optimize(&Tang::<1>);
    assert_eq!(x_direct.get(0).raw(), x_nested.get(0).raw());
    assert_eq!(v_direct.raw(), v_nested.raw());
}

#[test]
fn himmelblau_by_decomposition_lands_near_a_minimum() {
    let nested = NestedTasks::new(
        vec![(fx(-10), fx(10)), (fx(-10), fx(10))],
        GlobalBuilder::monte_carlo(1000, 7),
    );
    let check = Task::new(nested, Himmelblau)
        .solve_space_check::<2>()
        .with_eps_x(Fx::ratio(1, 10))
        .with_eps_y(Fx::ratio(1, 10));
    assert!(check.check());
}
