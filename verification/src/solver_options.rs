//! Options shared by the conic-solver backends: which termination statuses
//! count as success, the verbosity of the library, and whether the solver
//! may print its own log.
//!
//! The numerical settings of the solver stay with the application; of them
//! this module decides only the `verbose` switch, so that the solver's log
//! and the library's log do not interleave.

use vstd::prelude::*;
use crate::verbosity::{Verbosity, rank};
use crate::error::CoppError;

verus! {

/// Termination status of the conic solver.
#[derive(Clone, Copy, Debug, PartialEq, Eq, Structural)]
pub enum SolverStatusKind {
    /// The solver has not run.
    Unsolved,
    /// Solved.
    Solved,
    /// Primal infeasibility certificate.
    PrimalInfeasible,
    /// Dual infeasibility certificate.
    DualInfeasible,
    /// Solved to reduced accuracy.
    AlmostSolved,
    /// Primal infeasibility certificate of reduced accuracy.
    AlmostPrimalInfeasible,
    /// Dual infeasibility certificate of reduced accuracy.
    AlmostDualInfeasible,
    /// Iteration limit reached.
    MaxIterations,
    /// Time limit reached.
    MaxTime,
    /// Numerical error.
    NumericalError,
    /// Insufficient progress.
    InsufficientProgress,
    /// Stopped by a user callback.
    CallbackTerminated,
}

/// Runtime options of the conic backends.
#[derive(Clone, Copy, Debug, PartialEq, Eq, Structural)]
pub struct ClarabelOptions {
    pub verbosity: Verbosity,
    /// Whether the solver prints its own log.
    pub clarabel_verbose: bool,
    pub allow_almost_solved: bool,
    pub allow_max_iterations: bool,
    pub allow_max_time: bool,
    pub allow_callback_terminated: bool,
    pub allow_insufficient_progress: bool,
}

/// Whether `o` accepts a solver result of status `s`: `Solved` always, the
/// reduced-accuracy and limit statuses when their switch is on, the
/// infeasibility, numerical-error and not-run statuses never.
pub open spec fn accepts(o: ClarabelOptions, s: SolverStatusKind) -> bool {
    match s {
        SolverStatusKind::Solved => true,
        SolverStatusKind::AlmostSolved => o.allow_almost_solved,
        SolverStatusKind::MaxIterations => o.allow_max_iterations,
        SolverStatusKind::MaxTime => o.allow_max_time,
        SolverStatusKind::CallbackTerminated => o.allow_callback_terminated,
        SolverStatusKind::InsufficientProgress => o.allow_insufficient_progress,
        _ => false,
    }
}

impl ClarabelOptions {
    /// The library verbosity.
    pub fn verbosity(&self) -> (r: Verbosity)
        ensures
            r == self.verbosity,
    {
        self.verbosity
    }

    /// Whether a solver result of status `status` is accepted.
    pub fn is_allow(&self, status: SolverStatusKind) -> (r: bool)
        ensures
            r == accepts(*self, status),
    {
        match status {
            SolverStatusKind::Solved => true,
            SolverStatusKind::AlmostSolved => self.allow_almost_solved,
            SolverStatusKind::MaxIterations => self.allow_max_iterations,
            SolverStatusKind::MaxTime => self.allow_max_time,
            SolverStatusKind::CallbackTerminated => self.allow_callback_terminated,
            SolverStatusKind::InsufficientProgress => self.allow_insufficient_progress,
            _ => false,
        }
    }
}

/// Builder of [`ClarabelOptions`].
#[derive(Clone, Copy, Debug, PartialEq, Eq, Structural)]
pub struct ClarabelOptionsBuilder {
    /// Whether the solver settings ask for the solver's own log.
    pub clarabel_verbose: bool,
    pub allow_almost_solved: bool,
    pub allow_max_iterations: bool,
    pub allow_max_time: bool,
    pub allow_callback_terminated: bool,
    pub allow_insufficient_progress: bool,
    pub verbosity: Verbosity,
}

/// Whether the solver may print its log: when its settings ask for it and
/// the library verbosity is above `Summary`.
pub open spec fn solver_log_allowed(verbosity: Verbosity, requested: bool) -> bool {
    requested && rank(verbosity) > rank(Verbosity::Summary)
}

impl ClarabelOptionsBuilder {
    /// A builder for solver settings whose `verbose` switch is
    /// `clarabel_verbose`; silent library, no relaxed status accepted.
    pub fn with_clarabel_setting(clarabel_verbose: bool) -> (r: Self)
        ensures
            r == (ClarabelOptionsBuilder {
                clarabel_verbose,
                allow_almost_solved: false,
                allow_max_iterations: false,
                allow_max_time: false,
                allow_callback_terminated: false,
                allow_insufficient_progress: false,
                verbosity: Verbosity::Silent,
            }),
    {
        ClarabelOptionsBuilder {
            clarabel_verbose,
            allow_almost_solved: false,
            allow_max_iterations: false,
            allow_max_time: false,
            allow_callback_terminated: false,
            allow_insufficient_progress: false,
            verbosity: Verbosity::Silent,
        }
    }

    /// Set the library verbosity.
    pub fn verbosity(self, verbosity: Verbosity) -> (r: Self)
        ensures
            r == (Self { verbosity, ..self }),
    {
        Self { verbosity, ..self }
    }

    /// Replace the solver settings, of which only `verbose` matters here.
    pub fn clarabel_setting(self, clarabel_verbose: bool) -> (r: Self)
        ensures
            r == (Self { clarabel_verbose, ..self }),
    {
        Self { clarabel_verbose, ..self }
    }

    /// Accept or reject results solved to reduced accuracy.
    pub fn allow_almost_solved(self, allow: bool) -> (r: Self)
        ensures
            r == (Self { allow_almost_solved: allow, ..self }),
    {
        Self { allow_almost_solved: allow, ..self }
    }

    /// Accept or reject results at the iteration limit.
    pub fn allow_max_iterations(self, allow: bool) -> (r: Self)
        ensures
            r == (Self { allow_max_iterations: allow, ..self }),
    {
        Self { allow_max_iterations: allow, ..self }
    }

    /// Accept or reject results at the time limit.
    pub fn allow_max_time(self, allow: bool) -> (r: Self)
        ensures
            r == (Self { allow_max_time: allow, ..self }),
    {
        Self { allow_max_time: allow, ..self }
    }

    /// Accept or reject results stopped by a user callback.
    pub fn allow_callback_terminated(self, allow: bool) -> (r: Self)
        ensures
            r == (Self { allow_callback_terminated: allow, ..self }),
    {
        Self { allow_callback_terminated: allow, ..self }
    }

    /// Accept or reject results stopped for insufficient progress.
    pub fn allow_insufficient_progress(self, allow: bool) -> (r: Self)
        ensures
            r == (Self { allow_insufficient_progress: allow, ..self }),
    {
        Self { allow_insufficient_progress: allow, ..self }
    }

    /// The options (always built): the switches as set, and the solver's own log only when
    /// the library verbosity is above `Summary`.
    pub fn build(self) -> (r: Result<ClarabelOptions, CoppError>)
        ensures
            r == Ok::<ClarabelOptions, CoppError>(ClarabelOptions {
                verbosity: self.verbosity,
                clarabel_verbose: solver_log_allowed(self.verbosity, self.clarabel_verbose),
                allow_almost_solved: self.allow_almost_solved,
                allow_max_iterations: self.allow_max_iterations,
                allow_max_time: self.allow_max_time,
                allow_callback_terminated: self.allow_callback_terminated,
                allow_insufficient_progress: self.allow_insufficient_progress,
            }),
    {
        let quiet = !self.verbosity.at_least(Verbosity::Debug);
        Ok(ClarabelOptions {
            verbosity: self.verbosity,
            clarabel_verbose: if quiet {
                false
            } else {
                self.clarabel_verbose
            },
            allow_almost_solved: self.allow_almost_solved,
            allow_max_iterations: self.allow_max_iterations,
            allow_max_time: self.allow_max_time,
            allow_callback_terminated: self.allow_callback_terminated,
            allow_insufficient_progress: self.allow_insufficient_progress,
        })
    }
}

/// Each relaxed status is accepted exactly when its own switch is on,
/// whatever the other switches; `Solved` is always accepted; the
/// infeasibility, numerical-error and not-run statuses never are.
pub proof fn lemma_each_status_follows_its_own_switch(o: ClarabelOptions, p: ClarabelOptions)
    ensures
        accepts(o, SolverStatusKind::Solved),
        accepts(o, SolverStatusKind::AlmostSolved) == o.allow_almost_solved,
        accepts(o, SolverStatusKind::MaxIterations) == o.allow_max_iterations,
        accepts(o, SolverStatusKind::MaxTime) == o.allow_max_time,
        accepts(o, SolverStatusKind::CallbackTerminated) == o.allow_callback_terminated,
        accepts(o, SolverStatusKind::InsufficientProgress) == o.allow_insufficient_progress,
        !accepts(o, SolverStatusKind::Unsolved),
        !accepts(o, SolverStatusKind::PrimalInfeasible),
        !accepts(o, SolverStatusKind::DualInfeasible),
        !accepts(o, SolverStatusKind::AlmostPrimalInfeasible),
        !accepts(o, SolverStatusKind::AlmostDualInfeasible),
        !accepts(o, SolverStatusKind::NumericalError),
        o.allow_max_time == p.allow_max_time ==> accepts(o, SolverStatusKind::MaxTime) == accepts(
            p,
            SolverStatusKind::MaxTime,
        ),
        o.allow_max_iterations == p.allow_max_iterations ==> accepts(o, SolverStatusKind::MaxIterations)
            == accepts(p, SolverStatusKind::MaxIterations),
        o.allow_almost_solved == p.allow_almost_solved ==> accepts(o, SolverStatusKind::AlmostSolved)
            == accepts(p, SolverStatusKind::AlmostSolved),
        o.allow_callback_terminated == p.allow_callback_terminated ==> accepts(
            o,
            SolverStatusKind::CallbackTerminated,
        ) == accepts(p, SolverStatusKind::CallbackTerminated),
        o.allow_insufficient_progress == p.allow_insufficient_progress ==> accepts(
            o,
            SolverStatusKind::InsufficientProgress,
        ) == accepts(p, SolverStatusKind::InsufficientProgress),
{
}

/// A builder's switches reach the built options unchanged: a status set to
/// be accepted on the builder is accepted by what it builds.
pub proof fn lemma_built_options_accept_as_set(b: ClarabelOptionsBuilder, o: ClarabelOptions)
    requires
        o.allow_almost_solved == b.allow_almost_solved,
        o.allow_max_iterations == b.allow_max_iterations,
        o.allow_max_time == b.allow_max_time,
        o.allow_callback_terminated == b.allow_callback_terminated,
        o.allow_insufficient_progress == b.allow_insufficient_progress,
    ensures
        accepts(o, SolverStatusKind::MaxTime) == b.allow_max_time,
        accepts(o, SolverStatusKind::MaxIterations) == b.allow_max_iterations,
        accepts(o, SolverStatusKind::AlmostSolved) == b.allow_almost_solved,
        accepts(o, SolverStatusKind::CallbackTerminated) == b.allow_callback_terminated,
        accepts(o, SolverStatusKind::InsufficientProgress) == b.allow_insufficient_progress,
{
}

} // verus!
