//! Line searches and grid enumeration against benchmark objectives.

use minsearch::binary::Binary;
use minsearch::enumerate::Enumerate;
use minsearch::fibonacci::GoldenRatio;
use minsearch::fixed::Fx;
use minsearch::functions::{Sphere, Tang};
use minsearch::task::Task;
use minsearch::uniform::Uniform;

fn fx(i: i64) -> Fx {
    Fx::from_int(i)
}

#[test]
fn test_golden_ratio_tang() {
    let method = GoldenRatio::new(fx(-5), fx(0), Fx::ratio(1, 1000000));
    let check = Task::new(method, Tang::<1>).solve_check();
    assert!(check.check());
}

#[test]
fn test_golden_ratio_sphere() {
    let method = GoldenRatio::new(fx(-5), fx(0), Fx::ratio(1, 1000000));
    let check = Task::new(method, Sphere::<1>).solve_check();
    assert!(check.check());
}

#[test]
fn test_binary_tang() {
    let method = Binary::new(fx(-5), fx(0), Fx::ratio(1, 1000000), Fx::ratio(1, 10000000));
    let check = Task::new(method, Tang::<1>).solve_check();
    assert!(check.check());
}

#[test]
fn test_binary_sphere() {
    let method = Binary::new(fx(-5), fx(0), Fx::ratio(1, 1000000), Fx::ratio(1, 10000000));
    let check = Task::new(method, Sphere::<1>).solve_check();
    assert!(check.check());
}

#[test]
fn test_enumeration() {
    let method = Enumerate::new(fx(-5), fx(5), 1000000);
    let check = Task::new(method, Tang::<1>).solve_check();
    assert!(check.check());
}

#[test]
fn test_uniform_tang() {
    let method = Uniform::new(fx(-5), fx(0), 100, Fx::ratio(1, 1000000));
    let check = Task::new(method, Tang::<1>).solve_check();
    assert!(check.check());
}

#[test]
fn test_uniform_sphere() {
    let method = Uniform::new(fx(-5), fx(5), 1000, Fx::ratio(1, 10000000));
    let check = Task::new(method, Sphere::<1>).solve_check();
    assert!(check.check());
}
