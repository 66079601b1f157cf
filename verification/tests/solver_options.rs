use copp::solver_options::{ClarabelOptionsBuilder, SolverStatusKind};
use copp::verbosity::Verbosity;

#[test]
fn default_policy_accepts_only_solved() {
    let o = ClarabelOptionsBuilder::with_clarabel_setting(true).build().unwrap();
    assert!(o.is_allow(SolverStatusKind::Solved));
    assert!(!o.is_allow(SolverStatusKind::AlmostSolved));
    assert!(!o.is_allow(SolverStatusKind::MaxIterations));
    assert!(!o.is_allow(SolverStatusKind::PrimalInfeasible));
    assert_eq!(o.verbosity(), Verbosity::Silent);
    // a silent library silences the solver too
    assert!(!o.clarabel_verbose);
}

#[test]
fn switches_accept_their_status() {
    let o = ClarabelOptionsBuilder::with_clarabel_setting(false)
        .allow_almost_solved(true)
        .allow_max_iterations(true)
        .allow_max_time(true)
        .allow_callback_terminated(true)
        .allow_insufficient_progress(true)
        .build()
        .unwrap();
    assert!(o.is_allow(SolverStatusKind::AlmostSolved));
    assert!(o.is_allow(SolverStatusKind::MaxIterations));
    assert!(o.is_allow(SolverStatusKind::MaxTime));
    assert!(o.is_allow(SolverStatusKind::CallbackTerminated));
    assert!(o.is_allow(SolverStatusKind::InsufficientProgress));
    assert!(!o.is_allow(SolverStatusKind::NumericalError));
    assert!(!o.is_allow(SolverStatusKind::Unsolved));
    assert!(!o.is_allow(SolverStatusKind::AlmostDualInfeasible));
}

#[test]
fn solver_log_follows_verbosity() {
    let b = ClarabelOptionsBuilder::with_clarabel_setting(true);
    assert!(!b.verbosity(Verbosity::Summary).build().unwrap().clarabel_verbose);
    assert!(b.verbosity(Verbosity::Debug).build().unwrap().clarabel_verbose);
    assert!(!b.verbosity(Verbosity::Trace).clarabel_setting(false).build().unwrap().clarabel_verbose);
}
