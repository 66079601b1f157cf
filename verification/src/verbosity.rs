//! Verbosity levels of the diagnostics layer, ordered
//! `Silent < Summary < Debug < Trace`.

use vstd::prelude::*;
use vstd::std_specs::cmp::PartialOrdSpecImpl;
use core::cmp::Ordering;

verus! {

/// The verbosity level for logging; the default is [`Silent`](Verbosity::Silent).
#[derive(Clone, Copy, Debug, PartialEq, Eq, Structural, Ord)]
pub enum Verbosity {
    /// No log is emitted.
    Silent,
    /// Summary information: start and end of each algorithm, its total
    /// computation time, its success or failure.
    Summary,
    /// Detailed debug information: failures or degeneration at each grid point.
    Debug,
    /// Trace information: intermediate values at each step.
    Trace,
}

/// Position of a level in the order `Silent < Summary < Debug < Trace`.
pub open spec fn rank(v: Verbosity) -> nat {
    match v {
        Verbosity::Silent => 0,
        Verbosity::Summary => 1,
        Verbosity::Debug => 2,
        Verbosity::Trace => 3,
    }
}

/// Three-way comparison of two ranks.
pub open spec fn compare_ranks(a: nat, b: nat) -> Ordering {
    if a < b {
        Ordering::Less
    } else if a == b {
        Ordering::Equal
    } else {
        Ordering::Greater
    }
}

impl Verbosity {
    /// Position of the level in the order `Silent < Summary < Debug < Trace`.
    pub fn level_rank(&self) -> (r: u8)
        ensures
            r == rank(*self),
    {
        match self {
            Verbosity::Silent => 0,
            Verbosity::Summary => 1,
            Verbosity::Debug => 2,
            Verbosity::Trace => 3,
        }
    }

    /// Whether `self` is at least as verbose as `level`.
    pub fn at_least(&self, level: Verbosity) -> (r: bool)
        ensures
            r == (rank(*self) >= rank(level)),
    {
        self.level_rank() >= level.level_rank()
    }
}

impl Default for Verbosity {
    fn default() -> (r: Self)
        ensures
            r == Verbosity::Silent,
    {
        Verbosity::Silent
    }
}

impl PartialOrd for Verbosity {
    fn partial_cmp(&self, other: &Self) -> (r: Option<Ordering>) {
        let a = self.level_rank();
        let b = other.level_rank();
        if a < b {
            Some(Ordering::Less)
        } else if a == b {
            Some(Ordering::Equal)
        } else {
            Some(Ordering::Greater)
        }
    }
}

impl PartialOrdSpecImpl for Verbosity {
    open spec fn obeys_partial_cmp_spec() -> bool {
        true
    }

    open spec fn partial_cmp_spec(&self, other: &Self) -> Option<Ordering> {
        Some(compare_ranks(rank(*self), rank(*other)))
    }
}

} // verus!
