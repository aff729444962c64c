//! Numerical optimization strategies over a fixed-point scalar domain.
//!
//! The crate provides a composition framework for minimizing scalar-valued
//! functions over one or several dimensions: 1-D line searches are lifted
//! into multi-dimensional solvers via coordinate descent, accelerated via
//! conjugate directions, generalized via recursive per-axis decomposition,
//! and wrapped with adaptive-penalty constraint handling. Every strategy
//! satisfies one optimizer contract, and every contract is stated over the
//! exact fixed-point semantics of the scalar domain.

pub mod binary;
pub mod compound;
pub mod conjugate_directions;
pub mod enumerate;
pub mod fibonacci;
pub mod fixed;
pub mod functions;
pub mod iterative_conditional;
pub mod method;
pub mod point;
pub mod quadratic;
pub mod restriction;
pub mod rng;
pub mod task;
pub mod uniform;
pub mod utils;
pub mod zeidel;
