//! Checks made when a path-parameterization problem is set up: its station
//! interval, the interval covered by a linearization profile, and how many
//! stationary stations its boundaries get.

use vstd::prelude::*;
use crate::constraints::Constraints;
use crate::error::{ConstraintError, CoppError, check_s_interval_valid, s_interval_msg};

verus! {

/// Number of stations of the closed interval `[idx_s_start, idx_s_final]`.
pub fn s_len(idx_s_interval: (usize, usize)) -> (r: usize)
    requires
        idx_s_interval.0 <= idx_s_interval.1 < usize::MAX,
    ensures
        r == idx_s_interval.1 - idx_s_interval.0 + 1,
{
    idx_s_interval.1 - idx_s_interval.0 + 1
}

/// Validate the station interval `[idx_s_start, idx_s_final]` of a problem
/// on stored constraints: it must hold at least three stations (else
/// invalid input reported by `function_name`) and lie in the window (else
/// `OutOfSBounds` over its stations).
pub fn validate_s_interval(function_name: &str, constraints: &Constraints, idx_s_interval: (usize, usize)) -> (r:
    Result<(), CoppError>)
    requires
        constraints.wf(),
        idx_s_interval.1 - idx_s_interval.0 + 1 <= usize::MAX,
    ensures
        idx_s_interval.1 < idx_s_interval.0 + 2 ==> (r matches Err(e) && e.is_invalid_input(
            function_name@,
            s_interval_msg(idx_s_interval.0 as nat, idx_s_interval.1 as nat),
        )),
        idx_s_interval.1 >= idx_s_interval.0 + 2 && !constraints.in_bounds(
            idx_s_interval.0 as int,
            idx_s_interval.1 - idx_s_interval.0 + 1,
        ) ==> r == Err::<(), CoppError>(
            CoppError::ConstraintError(
                ConstraintError::OutOfSBounds {
                    idx_s: idx_s_interval.0,
                    len: (idx_s_interval.1 - idx_s_interval.0 + 1) as usize,
                },
            ),
        ),
        idx_s_interval.1 >= idx_s_interval.0 + 2 && constraints.in_bounds(
            idx_s_interval.0 as int,
            idx_s_interval.1 - idx_s_interval.0 + 1,
        ) ==> r is Ok,
{
    if let Err(e) = check_s_interval_valid(function_name, idx_s_interval.0, idx_s_interval.1) {
        return Err(e);
    }
    match constraints.check_s_in_bounds(idx_s_interval.0, idx_s_interval.1 - idx_s_interval.0 + 1) {
        Err(e) => Err(CoppError::ConstraintError(e)),
        Ok(()) => Ok(()),
    }
}

/// Last station `idx_s_start + len - 1` of a linearization profile of `len`
/// values starting at `idx_s_start`. The profile must not be empty (else
/// invalid input: `a_linearization cannot be empty`) and must cover at
/// least three stations (else the message of [`check_s_interval_valid`]).
pub fn linearization_interval(function_name: &str, idx_s_start: usize, len: usize) -> (r: Result<usize, CoppError>)
    requires
        idx_s_start + len <= usize::MAX,
    ensures
        len == 0 ==> (r matches Err(e) && e.is_invalid_input(function_name@, "a_linearization cannot be empty"@)),
        len > 0 && len < 3 ==> (r matches Err(e) && e.is_invalid_input(
            function_name@,
            s_interval_msg(idx_s_start as nat, (idx_s_start + len - 1) as nat),
        )),
        len >= 3 ==> r == Ok::<usize, CoppError>((idx_s_start + len - 1) as usize),
{
    if len == 0 {
        return Err(
            CoppError::InvalidInput(
                String::from_str(function_name),
                String::from_str("a_linearization cannot be empty"),
            ),
        );
    }
    let idx_s_final = idx_s_start + len - 1;
    match check_s_interval_valid(function_name, idx_s_start, idx_s_final) {
        Err(e) => Err(e),
        Ok(()) => Ok(idx_s_final),
    }
}

/// Stationary stations of one boundary: `num_stationary_max` when the
/// boundary is at rest (`a` and `b` both zero, as the owner of the values
/// found), none otherwise.
pub fn determine_num_stationary_side(at_rest: bool, num_stationary_max: usize) -> (r: usize)
    ensures
        r == if at_rest {
            num_stationary_max
        } else {
            0
        },
{
    if at_rest {
        num_stationary_max
    } else {
        0
    }
}

/// Stationary stations of the start and final boundaries.
pub fn determine_num_stationary_pair(at_rest: (bool, bool), num_stationary_max: (usize, usize)) -> (r: (
    usize,
    usize,
))
    ensures
        r.0 == if at_rest.0 {
            num_stationary_max.0
        } else {
            0
        },
        r.1 == if at_rest.1 {
            num_stationary_max.1
        } else {
            0
        },
{
    (
        determine_num_stationary_side(at_rest.0, num_stationary_max.0),
        determine_num_stationary_side(at_rest.1, num_stationary_max.1),
    )
}

} // verus!
