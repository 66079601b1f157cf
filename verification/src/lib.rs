//! Convex-objective path parameterization: the integer and decision layer.
//!
//! The modules here hold the bookkeeping that the numerical solvers rest on:
//! station windows over a circular buffer, the piecewise-constant row-count
//! maps of the constraint families, the validation of indices and lengths,
//! the capacity estimates of the conic programs, the acceptance policy for
//! solver statuses, and the verbosity switches of the diagnostics layer.

pub mod text;
pub mod error;
pub mod valid_rows;
pub mod constraints;
pub mod capacity;
pub mod problem;
pub mod assembly;
pub mod objective_assembly;
pub mod objectives;
pub mod verbosity;
pub mod diagnostics;
pub mod solver_options;
