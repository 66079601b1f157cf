//! Sizes of the conic programs: preallocation estimates for the constraint
//! triplets, the layout of the auxiliary variables of the third-order
//! programs, and the admissibility of stationary head and tail counts.

use vstd::prelude::*;
use crate::constraints::{Constraints, row_sum};
use crate::error::{CoppError, check_input_len_at_least, len_at_least_msg};

verus! {

/// `x`, raised to at least `1`.
pub open spec fn at_least_one(x: int) -> int {
    if x < 1 {
        1
    } else {
        x
    }
}

/// Number of auxiliary variables `xi[k] = sqrt(a[k + k_skip])` of a
/// third-order program over `n + 1` stations whose head and tail hold
/// `num_stationary` stationary stations: every station but the first
/// `max(num_stationary.0, 1)` and the last `max(num_stationary.1, 1)`.
pub fn length_xi(n: usize, num_stationary: (usize, usize)) -> (r: usize)
    requires
        at_least_one(num_stationary.0 as int) + at_least_one(num_stationary.1 as int) <= n + 1,
    ensures
        r == n + 1 - at_least_one(num_stationary.0 as int) - at_least_one(num_stationary.1 as int),
{
    let head = skip_a_for_xi(num_stationary.0);
    let tail = skip_a_for_xi(num_stationary.1);
    n - head + 1 - tail
}

/// Number of auxiliary variables `xi` and `eta` (each) of the third-order
/// second-order-cone program; the same count as [`length_xi`].
pub fn length_xi_eta(n: usize, num_stationary: (usize, usize)) -> (r: usize)
    requires
        at_least_one(num_stationary.0 as int) + at_least_one(num_stationary.1 as int) <= n + 1,
    ensures
        r == n + 1 - at_least_one(num_stationary.0 as int) - at_least_one(num_stationary.1 as int),
{
    length_xi(n, num_stationary)
}

/// Offset `k_skip` of the auxiliary variables: `xi[k]` stands for
/// `sqrt(a[k + k_skip])`, with `k_skip = max(num_stationary_start, 1)`.
pub fn skip_a_for_xi(num_stationary_start: usize) -> (r: usize)
    ensures
        r == at_least_one(num_stationary_start as int),
{
    if num_stationary_start < 1 {
        1
    } else {
        num_stationary_start
    }
}

/// Check that stationary head and tail counts leave at least one motion
/// interval: `s_len >= num_stationary.0 + num_stationary.1 + 2`. A minimum
/// that does not fit in `usize` is reported as invalid input.
pub fn check_stationary_counts(function_name: &str, s_len: usize, num_stationary: (usize, usize)) -> (r:
    Result<(), CoppError>)
    ensures
        num_stationary.0 + num_stationary.1 + 2 > usize::MAX ==> (r matches Err(e) && e.is_invalid_input(
            function_name@,
            "`num_stationary` overflowed while checking dimensions"@,
        )),
        num_stationary.0 + num_stationary.1 + 2 <= usize::MAX ==> {
            &&& r is Ok <==> s_len >= num_stationary.0 + num_stationary.1 + 2
            &&& r matches Err(e) ==> e.is_invalid_input(
                function_name@,
                len_at_least_msg(
                    "`s.len()`"@,
                    s_len as nat,
                    (num_stationary.0 + num_stationary.1 + 2) as nat,
                ),
            )
        },
{
    if num_stationary.0 > usize::MAX - 2 || num_stationary.1 > usize::MAX - 2 - num_stationary.0 {
        return Err(
            CoppError::InvalidInput(
                String::from_str(function_name),
                String::from_str("`num_stationary` overflowed while checking dimensions"),
            ),
        );
    }
    let min_len = num_stationary.0 + num_stationary.1 + 2;
    check_input_len_at_least(function_name, "`s.len()`", s_len, min_len)
}

/// Preallocation `(nonzeros, rows, cone blocks)` of the standard second-order
/// feasibility program over the stations `[idx_s_start, idx_s_final]`, where
/// `n = idx_s_final - idx_s_start` and `c` counts the second-order rows of
/// those stations: `(4 c + 2 (n + 1), 2 c + 2 (n + 1), 3)`.
pub fn clarabel_standard_capacity_topp2(constraints: &Constraints, idx_s_interval: (usize, usize)) -> (r: (
    usize,
    usize,
    usize,
))
    requires
        constraints.wf(),
        idx_s_interval.0 <= idx_s_interval.1 < usize::MAX,
        4 * row_sum(|k: int| constraints.rows_acc(k), idx_s_interval.0 as int, idx_s_interval.1 + 1) + 2 * (
        idx_s_interval.1 - idx_s_interval.0 + 1) <= usize::MAX,
    ensures
        ({
            let c = row_sum(|k: int| constraints.rows_acc(k), idx_s_interval.0 as int, idx_s_interval.1 + 1);
            let n = idx_s_interval.1 - idx_s_interval.0;
            r == ((4 * c + 2 * (n + 1)) as usize, (2 * c + 2 * (n + 1)) as usize, 3usize)
        }),
{
    let (idx_s_start, idx_s_final) = idx_s_interval;
    let n = idx_s_final - idx_s_start;
    let count_acc = constraints.count_rows_acc(idx_s_start, idx_s_final + 1);
    (4 * count_acc + 2 * (n + 1), 2 * count_acc + 2 * (n + 1), 3)
}

/// Preallocation `(nonzeros, rows, cone blocks)` of the standard third-order
/// feasibility program over the stations `[idx_s_start, idx_s_final]`, where
/// `n = idx_s_final - idx_s_start` and `ca`, `cj` count the second- and
/// third-order rows of those stations:
/// `(2 + 6 n + 2 ca + 6 cj, 2 + 3 n + ca + 2 cj, 2)`.
pub fn clarabel_standard_capacity_topp3(constraints: &Constraints, idx_s_interval: (usize, usize)) -> (r: (
    usize,
    usize,
    usize,
))
    requires
        constraints.wf(),
        idx_s_interval.0 <= idx_s_interval.1 < usize::MAX,
        2 + 6 * (idx_s_interval.1 - idx_s_interval.0) + 2 * row_sum(
            |k: int| constraints.rows_acc(k),
            idx_s_interval.0 as int,
            idx_s_interval.1 + 1,
        ) + 6 * row_sum(|k: int| constraints.rows_jerk(k), idx_s_interval.0 as int, idx_s_interval.1 + 1)
            <= usize::MAX,
    ensures
        ({
            let ca = row_sum(|k: int| constraints.rows_acc(k), idx_s_interval.0 as int, idx_s_interval.1 + 1);
            let cj = row_sum(|k: int| constraints.rows_jerk(k), idx_s_interval.0 as int, idx_s_interval.1 + 1);
            let n = idx_s_interval.1 - idx_s_interval.0;
            r == ((2 + 6 * n + 2 * ca + 6 * cj) as usize, (2 + 3 * n + ca + 2 * cj) as usize, 2usize)
        }),
{
    let (idx_s_start, idx_s_final) = idx_s_interval;
    let n = idx_s_final - idx_s_start;
    let count_acc = constraints.count_rows_acc(idx_s_start, idx_s_final + 1);
    let count_jerk = constraints.count_rows_jerk(idx_s_start, idx_s_final + 1);
    (2 + 6 * n + 2 * count_acc + 6 * count_jerk, 2 + 3 * n + count_acc + 2 * count_jerk, 2)
}

/// Preallocation `(nonzeros, rows, cone blocks)` of the auxiliary cones of
/// the third-order quadratic program over `n + 1` stations, bounding the
/// number of auxiliary variables by `n + 1`:
/// `(9 (n + 1), 8 (n + 1), 2 (n + 1) + 1)`.
pub fn clarabel_capacity_topp3_qp(n: usize) -> (r: (usize, usize, usize))
    requires
        9 * (n + 1) <= usize::MAX,
    ensures
        r == ((9 * (n + 1)) as usize, (8 * (n + 1)) as usize, (2 * (n + 1) + 1) as usize),
{
    let len_xi_upper_bound = n + 1;
    (9 * len_xi_upper_bound, 8 * len_xi_upper_bound, 2 * len_xi_upper_bound + 1)
}

} // verus!
