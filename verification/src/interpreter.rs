//! Running programs: histograms of outcomes, argument binding and the
//! runtime.
pub mod argument_solver;
pub mod computation;
pub mod runtime;
