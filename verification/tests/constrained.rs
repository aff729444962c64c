//! The adaptive-penalty constrained solver and the restriction model.

use minsearch::fibonacci::GoldenRatio;
use minsearch::fixed::Fx;
use minsearch::functions::{Rosenbrok, SeparablePolynomial, Sphere};
use minsearch::iterative_conditional::{
    GlobalMultiBuilder, IterativeConditional, ParameterUpdate, Parameters,
};
use minsearch::method::{OneDimensionalMethod, SpaceOptimizer};
use minsearch::point::Point;
use minsearch::quadratic::QuadraticFit;
use minsearch::restriction::Restriction;
use minsearch::zeidel::GaussZeidel;

fn fx(i: i64) -> Fx {
    Fx::from_int(i)
}

fn tol() -> Fx {
    Fx::ratio(1, 100000)
}

fn golden(eps_num: i64, eps_den: i64) -> OneDimensionalMethod {
    OneDimensionalMethod::GoldenRatio(GoldenRatio::new(fx(-10), fx(10), Fx::ratio(eps_num, eps_den)))
}

fn parabola() -> OneDimensionalMethod {
    OneDimensionalMethod::QuadraticFit(QuadraticFit::new(fx(-10), fx(10)))
}

/// A degree-two polynomial over two axes.
fn quadratic2(square: [i64; 2], linear: [i64; 2], constant: i64) -> SeparablePolynomial {
    SeparablePolynomial::new(
        vec![fx(0), fx(0)],
        vec![fx(square[0]), fx(square[1])],
        vec![fx(linear[0]), fx(linear[1])],
        fx(constant),
    )
}

/// The equality `x + y - 4 = 0`.
fn sum_is_four() -> Restriction<SeparablePolynomial> {
    Restriction::equality(quadratic2([0, 0], [1, 1], -4))
}

#[test]
fn test_intervals() {
    let restrictions = Restriction::interval(fx(0), fx(10));
    let point = Point::new(vec![fx(4)]);
    for r in &restrictions {
        assert!(r.satisfies(&point, Fx::from_raw(0)));
    }
}

#[test]
fn constrained_sum_line_reaches_its_optimum() {
    // Minimize (x - 3)^2 + (y - 2)^2 subject to x + y = 4, weights starting
    // at one and growing fourfold per iteration: the solver settles on the
    // restriction line at the constrained optimum value of one half.
    let objective = quadratic2([1, 1], [-6, -4], 13);
    let method = IterativeConditional::new(
        vec![sum_is_four()],
        Point::new(vec![fx(-4), Fx::ratio(23, 10)]),
        GlobalMultiBuilder::GaussZeidel {
            inner: parabola(),
            eps_x: Fx::from_raw(1),
            eps_y: Fx::from_raw(1),
        },
        tol(),
        Parameters { lambda: vec![fx(1)], mu: vec![], alpha_h: fx(1), alpha_g: fx(1) },
        ParameterUpdate::new(fx(4), fx(1)),
    );
    let method = match method {
        Some(m) => m,
        None => panic!("restriction and weight counts match"),
    };
    let (x, value, _steps) = method.optimize(&objective);
    let near = Fx::ratio(1, 10000);
    assert!(sum_is_four().satisfies(&x, near));
    assert!(value.minus(Fx::ratio(1, 2)).abs_val().le(near));
}

#[test]
fn test_iterative_conditional_rosenbrok() {
    // x1 - 1 - (x0 - 1)^3 >= 0, expanded per axis.
    let cubic_edge = SeparablePolynomial::new(
        vec![fx(-1), fx(0)],
        vec![fx(3), fx(0)],
        vec![fx(-3), fx(1)],
        fx(0),
    );
    let restrictions = vec![
        Restriction::inequality(cubic_edge),
        Restriction::inequality(quadratic2([0, 0], [-1, -1], 2)),
    ];
    let method = IterativeConditional::new(
        restrictions,
        Point::new(vec![Fx::ratio(-1, 2), fx(12)]),
        GlobalMultiBuilder::GaussZeidel {
            inner: golden(1, 1000000000000),
            eps_x: Fx::ratio(1, 100),
            eps_y: Fx::ratio(1, 100),
        },
        tol(),
        Parameters { lambda: vec![], mu: vec![fx(1), fx(1)], alpha_h: fx(1), alpha_g: fx(1) },
        ParameterUpdate::new(fx(1), fx(4)),
    );
    let method = match method {
        Some(m) => m,
        None => panic!("restriction and weight counts match"),
    };
    let (x, value, _steps) = method.optimize(&Rosenbrok);
    assert!(x.get(0).minus(fx(1)).abs_val().le(tol()));
    assert!(x.get(1).minus(fx(1)).abs_val().le(tol()));
    let satisfied = vec![
        Restriction::inequality(SeparablePolynomial::new(
            vec![fx(-1), fx(0)],
            vec![fx(3), fx(0)],
            vec![fx(-3), fx(1)],
            fx(0),
        )),
        Restriction::inequality(quadratic2([0, 0], [-1, -1], 2)),
    ];
    for r in &satisfied {
        assert!(r.satisfies(&x, tol()));
    }
    assert!(value.abs_val().le(tol()));
}

#[test]
fn solver_construction_validates_weight_counts() {
    let restrictions = vec![sum_is_four()];
    let built = IterativeConditional::new(
        restrictions,
        Point::new(vec![fx(0), fx(0)]),
        GlobalMultiBuilder::GaussZeidel {
            inner: golden(1, 1000000),
            eps_x: tol(),
            eps_y: tol(),
        },
        tol(),
        // One equality but no lambda weight: rejected.
        Parameters { lambda: vec![], mu: vec![], alpha_h: fx(1), alpha_g: fx(1) },
        ParameterUpdate::new(fx(4), fx(1)),
    );
    assert!(built.is_none());
    let accepted = IterativeConditional::new(
        vec![sum_is_four()],
        Point::new(vec![fx(0), fx(0)]),
        GlobalMultiBuilder::GaussZeidel {
            inner: golden(1, 1000000),
            eps_x: tol(),
            eps_y: tol(),
        },
        tol(),
        Parameters { lambda: vec![fx(1)], mu: vec![], alpha_h: fx(1), alpha_g: fx(1) },
        ParameterUpdate::new(fx(4), fx(1)),
    );
    assert!(accepted.is_some());
}

#[test]
fn vacuous_restrictions_do_not_move_the_optimum() {
    // An inequality that holds everywhere taxes nothing, so the constrained
    // solver lands where the unconstrained sweep lands.
    let always_holds = Restriction::inequality(quadratic2([0, 0], [0, 0], 1));
    let start = Point::new(vec![fx(2), fx(2)]);
    let unconstrained = GaussZeidel::new(
        start.clone(),
        golden(1, 1000000),
        Fx::from_raw(1),
        Fx::from_raw(1),
    );
    let (x_free, _v, _s) = unconstrained.optimize(&Sphere::<2>);
    let method = IterativeConditional::new(
        vec![always_holds],
        start,
        GlobalMultiBuilder::GaussZeidel {
            inner: golden(1, 1000000),
            eps_x: Fx::from_raw(1),
            eps_y: Fx::from_raw(1),
        },
        tol(),
        Parameters { lambda: vec![], mu: vec![fx(1)], alpha_h: fx(1), alpha_g: fx(1) },
        ParameterUpdate::new(fx(4), fx(4)),
    );
    let method = match method {
        Some(m) => m,
        None => panic!("restriction and weight counts match"),
    };
    let (x_tied, _value, _steps) = method.optimize(&Sphere::<2>);
    assert!(x_tied.minus(&x_free).norm().le(tol()));
}
