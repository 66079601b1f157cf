//! Sparsity structure of the second- and third-order feasibility programs.
//!
//! The decision vector of the third-order program is
//! `x = [a[0 ..= n], b[0 ..= n]]`: `a[k]` sits in column `k` and `b[k]` in
//! column `n + 1 + k`; that of the second-order program is `a[0 ..= n]`. Constraints are stored as
//! triplets `(row, col, val)` with a right-hand side `b` per row; rows are
//! numbered in the order they are appended. The functions here append the
//! row and column indices of each block; the owner of the values appends
//! the values, in the same order.

use vstd::prelude::*;
use crate::constraints::{Constraints, row_sum};

verus! {

/// `len` consecutive indices from `start`.
pub open spec fn range_seq(start: int, len: int) -> Seq<usize> {
    Seq::new(len as nat, |i: int| (start + i) as usize)
}

/// `len` copies of the index `v`.
pub open spec fn repeat_seq(v: int, len: int) -> Seq<usize> {
    Seq::new(len as nat, |i: int| v as usize)
}

/// Append `len` consecutive indices from `start`.
pub(crate) fn push_range(v: &mut Vec<usize>, start: usize, len: usize)
    requires
        start + len <= usize::MAX,
    ensures
        final(v)@ == old(v)@ + range_seq(start as int, len as int),
{
    let ghost base = v@;
    let mut i: usize = 0;
    while i < len
        invariant
            0 <= i <= len,
            start + len <= usize::MAX,
            v@ == base + range_seq(start as int, i as int),
        decreases len - i,
    {
        v.push(start + i);
        i = i + 1;
        proof {
            assert(v@ =~= base + range_seq(start as int, i as int));
        }
    }
}

/// Append `len` copies of `value`.
pub(crate) fn push_repeat(v: &mut Vec<usize>, value: usize, len: usize)
    ensures
        final(v)@ == old(v)@ + repeat_seq(value as int, len as int),
{
    let ghost base = v@;
    let mut i: usize = 0;
    while i < len
        invariant
            0 <= i <= len,
            v@ == base + repeat_seq(value as int, i as int),
        decreases len - i,
    {
        v.push(value);
        i = i + 1;
        proof {
            assert(v@ =~= base + repeat_seq(value as int, i as int));
        }
    }
}

/// Boundary equalities `a[0]`, `a[n]`, `b[0]`, `b[n]` fixed: rows
/// `b_len .. b_len + 4`, columns `0`, `n`, `n + 1`, `2 n + 1`.
pub fn boundary_pattern_topp3(row: &mut Vec<usize>, col: &mut Vec<usize>, b_len: usize, n: usize)
    requires
        b_len + 4 <= usize::MAX,
        2 * n + 1 <= usize::MAX,
    ensures
        final(row)@ == old(row)@ + range_seq(b_len as int, 4),
        final(col)@ == old(col)@ + seq![0usize, n, (n + 1) as usize, (2 * n + 1) as usize],
{
    push_range(row, b_len, 4);
    let ghost c0 = col@;
    col.push(0);
    col.push(n);
    col.push(n + 1);
    col.push(2 * n + 1);
    proof {
        assert(col@ =~= c0 + seq![0usize, n, (n + 1) as usize, (2 * n + 1) as usize]);
    }
}

/// Representative station of a stationary head (`reverse == false`) or
/// tail of `num_stationary` stations.
pub open spec fn stationary_station(n: int, num_stationary: int, reverse: bool) -> int {
    if reverse {
        n - num_stationary
    } else {
        num_stationary
    }
}

/// The equality tying `a` and `b` at the representative station `id_a` of
/// a stationary boundary: one row `b_len`, columns `id_a` and `n + 1 + id_a`.
pub fn dynamic_stationary_pattern_topp3(
    row: &mut Vec<usize>,
    col: &mut Vec<usize>,
    b_len: usize,
    n: usize,
    num_stationary: usize,
    reverse: bool,
)
    requires
        num_stationary <= n,
        2 * n + 1 <= usize::MAX,
    ensures
        final(row)@ == old(row)@ + seq![b_len, b_len],
        final(col)@ == old(col)@ + seq![
            stationary_station(n as int, num_stationary as int, reverse) as usize,
            (n + 1 + stationary_station(n as int, num_stationary as int, reverse)) as usize,
        ],
{
    let id_a = if reverse {
        n - num_stationary
    } else {
        num_stationary
    };
    let ghost r0 = row@;
    let ghost c0 = col@;
    row.push(b_len);
    row.push(b_len);
    col.push(id_a);
    col.push(n + 1 + id_a);
    proof {
        assert(row@ =~= r0 + seq![b_len, b_len]);
        assert(col@ =~= c0 + seq![id_a, (n + 1 + id_a) as usize]);
    }
}

/// The dynamics `a[k] - a[k+1] + ds (b[k] + b[k+1]) = 0` on every moving
/// interval `k` of `num_stationary.0 .. n - num_stationary.1`: with
/// `m = n - num_stationary.0 - num_stationary.1`, the rows `b_len .. b_len + m`
/// four times, and the columns of `a[k]`, `a[k+1]`, `b[k]`, `b[k+1]` in four blocks.
pub fn dynamic_moving_pattern_topp3(
    row: &mut Vec<usize>,
    col: &mut Vec<usize>,
    b_len: usize,
    n: usize,
    num_stationary: (usize, usize),
)
    requires
        num_stationary.0 + num_stationary.1 <= n,
        b_len + n <= usize::MAX,
        2 * n + 2 <= usize::MAX,
    ensures
        ({
            let m = n - num_stationary.0 - num_stationary.1;
            let s0 = num_stationary.0 as int;
            &&& final(row)@ == old(row)@ + range_seq(b_len as int, m) + range_seq(b_len as int, m) + range_seq(
                b_len as int,
                m,
            ) + range_seq(b_len as int, m)
            &&& final(col)@ == old(col)@ + range_seq(s0, m) + range_seq(s0 + 1, m) + range_seq(n + s0 + 1, m)
                + range_seq(n + s0 + 2, m)
        }),
{
    let m = n - num_stationary.0 - num_stationary.1;
    let s0 = num_stationary.0;
    push_range(row, b_len, m);
    push_range(row, b_len, m);
    push_range(row, b_len, m);
    push_range(row, b_len, m);
    push_range(col, s0, m);
    push_range(col, s0 + 1, m);
    push_range(col, n + s0 + 1, m);
    push_range(col, n + s0 + 2, m);
}

/// Rows appended by the second-order block of stations `lo ..= k - 1`
/// (local ids, the problem starting at global station `idx`), the first at
/// row `b0`: for each station `k`, its `r` second-order rows twice.
pub open spec fn acc_pattern_rows(c: Constraints, idx: int, lo: int, hi: int, b0: int) -> Seq<usize>
    decreases hi - lo,
{
    if hi <= lo {
        Seq::empty()
    } else {
        let k = hi - 1;
        let r = c.rows_acc(idx + k) as int;
        let at = b0 + row_sum(|j: int| c.rows_acc(j), idx + lo, idx + k);
        acc_pattern_rows(c, idx, lo, k, b0) + range_seq(at, r) + range_seq(at, r)
    }
}

/// Columns appended by the second-order block: for each station `k`, the
/// column of `a[k]` and then that of `b[k]`, once per row.
pub open spec fn acc_pattern_cols(c: Constraints, idx: int, n: int, lo: int, hi: int) -> Seq<usize>
    decreases hi - lo,
{
    if hi <= lo {
        Seq::empty()
    } else {
        let k = hi - 1;
        let r = c.rows_acc(idx + k) as int;
        acc_pattern_cols(c, idx, n, lo, k) + repeat_seq(k, r) + repeat_seq(n + k + 1, r)
    }
}

/// The second-order rows `acc_a a[k] + acc_b b[k] <= acc_max` of the local
/// stations `lo .. hi` of a problem starting at global station `idx` over
/// `n + 1` stations, from row `b_len` on; returns the next free row.
pub fn second_order_pattern_topp3(
    c: &Constraints,
    row: &mut Vec<usize>,
    col: &mut Vec<usize>,
    b_len: usize,
    idx: usize,
    n: usize,
    lo: usize,
    hi: usize,
) -> (r: usize)
    requires
        c.wf(),
        lo <= hi <= n + 1,
        2 * n + 2 <= usize::MAX,
        c.in_bounds(idx + lo, hi - lo),
        b_len + row_sum(|j: int| c.rows_acc(j), idx + lo, idx + hi) <= usize::MAX,
    ensures
        final(row)@ == old(row)@ + acc_pattern_rows(*c, idx as int, lo as int, hi as int, b_len as int),
        final(col)@ == old(col)@ + acc_pattern_cols(*c, idx as int, n as int, lo as int, hi as int),
        r == b_len + row_sum(|j: int| c.rows_acc(j), idx + lo, idx + hi),
{
    let ghost r0 = row@;
    let ghost c0 = col@;
    let ghost f = |j: int| c.rows_acc(j);
    proof {
        c.lemma_window_fits();
    }
    let mut k = lo;
    let mut next = b_len;
    while k < hi
        invariant
            c.wf(),
            lo <= k <= hi <= n + 1,
            2 * n + 2 <= usize::MAX,
            c.in_bounds(idx + lo, hi - lo),
            c.spec_end() <= usize::MAX,
            f == (|j: int| c.rows_acc(j)),
            b_len + row_sum(f, idx + lo, idx + hi) <= usize::MAX,
            next == b_len + row_sum(f, idx + lo, idx + k),
            row@ == r0 + acc_pattern_rows(*c, idx as int, lo as int, k as int, b_len as int),
            col@ == c0 + acc_pattern_cols(*c, idx as int, n as int, lo as int, k as int),
        decreases hi - k,
    {
        let rows = match c.get_acc_constraints(idx + k) {
            Ok(p) => p.rows,
            Err(_) => 0,
        };
        proof {
            crate::constraints::lemma_row_sum_split(f, idx + lo, idx + k + 1, idx + hi);
        }
        push_range(row, next, rows);
        push_range(row, next, rows);
        push_repeat(col, k, rows);
        push_repeat(col, n + k + 1, rows);
        proof {
            assert(row@ =~= r0 + acc_pattern_rows(*c, idx as int, lo as int, k + 1, b_len as int));
            assert(col@ =~= c0 + acc_pattern_cols(*c, idx as int, n as int, lo as int, k + 1));
        }
        next = next + rows;
        k = k + 1;
    }
    next
}

/// Rows the third-order block spends on local station `k` of `lo ..= last`:
/// one group of `r` rows for the interval before `k` (when `k > lo`) and
/// one for the interval after it (when `k < last`).
pub open spec fn jerk_station_rows(k: int, lo: int, last: int, r: int) -> int {
    (if k > lo {
        r
    } else {
        0
    }) + (if k < last {
        r
    } else {
        0
    })
}

/// Rows spent by the third-order block on the local stations `lo .. k`.
pub open spec fn jerk_rows_before(c: Constraints, idx: int, lo: int, last: int, k: int) -> int
    decreases k - lo,
{
    if k <= lo {
        0
    } else {
        jerk_rows_before(c, idx, lo, last, k - 1) + jerk_station_rows(
            k - 1,
            lo,
            last,
            c.rows_jerk(idx + k - 1) as int,
        )
    }
}

/// Spending never shrinks as stations are added.
proof fn lemma_jerk_rows_before_mono(c: Constraints, idx: int, lo: int, last: int, k: int, m: int)
    requires
        lo <= k <= m,
    ensures
        0 <= jerk_rows_before(c, idx, lo, last, k) <= jerk_rows_before(c, idx, lo, last, m),
    decreases m - k,
{
    if k < m {
        lemma_jerk_rows_before_mono(c, idx, lo, last, k, m - 1);
    } else {
        lemma_jerk_rows_before_nonneg(c, idx, lo, last, k);
    }
}

proof fn lemma_jerk_rows_before_nonneg(c: Constraints, idx: int, lo: int, last: int, k: int)
    ensures
        0 <= jerk_rows_before(c, idx, lo, last, k),
    decreases k - lo,
{
    if k > lo {
        lemma_jerk_rows_before_nonneg(c, idx, lo, last, k - 1);
    }
}

/// Rows of the groups of local station `k`, the first at row `at`: each
/// group lists its `r` rows three times.
pub open spec fn jerk_step_rows(k: int, lo: int, last: int, at: int, r: int) -> Seq<usize> {
    let second_at = if k > lo {
        at + r
    } else {
        at
    };
    (if k > lo {
        range_seq(at, r) + range_seq(at, r) + range_seq(at, r)
    } else {
        Seq::empty()
    }) + (if k < last {
        range_seq(second_at, r) + range_seq(second_at, r) + range_seq(second_at, r)
    } else {
        Seq::empty()
    })
}

/// Columns of the groups of local station `k`: the interval before `k`
/// couples `a[k]`, `b[k-1]`, `b[k]`; the interval after it `a[k]`, `b[k]`,
/// `b[k+1]`; each column once per row.
pub open spec fn jerk_step_cols(k: int, lo: int, last: int, n: int, r: int) -> Seq<usize> {
    (if k > lo {
        repeat_seq(k, r) + repeat_seq(n + k, r) + repeat_seq(n + k + 1, r)
    } else {
        Seq::empty()
    }) + (if k < last {
        repeat_seq(k, r) + repeat_seq(n + k + 1, r) + repeat_seq(n + k + 2, r)
    } else {
        Seq::empty()
    })
}

/// Rows appended by the third-order block for the local stations `lo .. k`.
pub open spec fn jerk_pattern_rows(c: Constraints, idx: int, lo: int, last: int, k: int, b0: int) -> Seq<usize>
    decreases k - lo,
{
    if k <= lo {
        Seq::empty()
    } else {
        jerk_pattern_rows(c, idx, lo, last, k - 1, b0) + jerk_step_rows(
            k - 1,
            lo,
            last,
            b0 + jerk_rows_before(c, idx, lo, last, k - 1),
            c.rows_jerk(idx + k - 1) as int,
        )
    }
}

/// Columns appended by the third-order block for the local stations `lo .. k`.
pub open spec fn jerk_pattern_cols(c: Constraints, idx: int, lo: int, last: int, n: int, k: int) -> Seq<usize>
    decreases k - lo,
{
    if k <= lo {
        Seq::empty()
    } else {
        jerk_pattern_cols(c, idx, lo, last, n, k - 1) + jerk_step_cols(
            k - 1,
            lo,
            last,
            n,
            c.rows_jerk(idx + k - 1) as int,
        )
    }
}

/// Append the groups of local station `k`, the first at row `at`; returns
/// the next free row.
fn push_jerk_station(
    row: &mut Vec<usize>,
    col: &mut Vec<usize>,
    at: usize,
    k: usize,
    lo: usize,
    last: usize,
    n: usize,
    r: usize,
) -> (next: usize)
    requires
        lo <= k <= last <= n,
        2 * n + 2 <= usize::MAX,
        at + jerk_station_rows(k as int, lo as int, last as int, r as int) <= usize::MAX,
    ensures
        final(row)@ == old(row)@ + jerk_step_rows(k as int, lo as int, last as int, at as int, r as int),
        final(col)@ == old(col)@ + jerk_step_cols(k as int, lo as int, last as int, n as int, r as int),
        next == at + jerk_station_rows(k as int, lo as int, last as int, r as int),
{
    let ghost r0 = row@;
    let ghost c0 = col@;
    let mut next = at;
    if k > lo {
        push_range(row, next, r);
        push_range(row, next, r);
        push_range(row, next, r);
        push_repeat(col, k, r);
        push_repeat(col, n + k, r);
        push_repeat(col, n + k + 1, r);
        next = next + r;
    }
    if k < last {
        push_range(row, next, r);
        push_range(row, next, r);
        push_range(row, next, r);
        push_repeat(col, k, r);
        push_repeat(col, n + k + 1, r);
        push_repeat(col, n + k + 2, r);
        next = next + r;
    }
    proof {
        assert(row@ =~= r0 + jerk_step_rows(k as int, lo as int, last as int, at as int, r as int));
        assert(col@ =~= c0 + jerk_step_cols(k as int, lo as int, last as int, n as int, r as int));
    }
    next
}

/// The linearized third-order rows of the local stations `lo ..= last` of a
/// problem starting at global station `idx` over `n + 1` stations, from row
/// `b_len` on; returns the next free row.
pub fn third_order_pattern_topp3(
    c: &Constraints,
    row: &mut Vec<usize>,
    col: &mut Vec<usize>,
    b_len: usize,
    idx: usize,
    n: usize,
    lo: usize,
    last: usize,
) -> (r: usize)
    requires
        c.wf(),
        lo <= last <= n,
        2 * n + 2 <= usize::MAX,
        c.in_bounds(idx + lo, last + 1 - lo),
        b_len + jerk_rows_before(*c, idx as int, lo as int, last as int, last + 1) <= usize::MAX,
    ensures
        final(row)@ == old(row)@ + jerk_pattern_rows(*c, idx as int, lo as int, last as int, last + 1, b_len as int),
        final(col)@ == old(col)@ + jerk_pattern_cols(*c, idx as int, lo as int, last as int, n as int, last + 1),
        r == b_len + jerk_rows_before(*c, idx as int, lo as int, last as int, last + 1),
{
    let ghost r0 = row@;
    let ghost c0 = col@;
    proof {
        c.lemma_window_fits();
    }
    let mut k = lo;
    let mut next = b_len;
    while k <= last
        invariant
            c.wf(),
            lo <= k <= last + 1,
            last <= n,
            2 * n + 2 <= usize::MAX,
            c.in_bounds(idx + lo, last + 1 - lo),
            c.spec_end() <= usize::MAX,
            b_len + jerk_rows_before(*c, idx as int, lo as int, last as int, last + 1) <= usize::MAX,
            next == b_len + jerk_rows_before(*c, idx as int, lo as int, last as int, k as int),
            row@ == r0 + jerk_pattern_rows(*c, idx as int, lo as int, last as int, k as int, b_len as int),
            col@ == c0 + jerk_pattern_cols(*c, idx as int, lo as int, last as int, n as int, k as int),
        decreases last + 1 - k,
    {
        let rows = match c.get_jerk_constraints(idx + k) {
            Ok(p) => p.rows,
            Err(_) => 0,
        };
        proof {
            lemma_jerk_rows_before_mono(*c, idx as int, lo as int, last as int, k + 1, last + 1);
        }
        next = push_jerk_station(row, col, next, k, lo, last, n, rows);
        proof {
            assert(row@ =~= r0 + jerk_pattern_rows(*c, idx as int, lo as int, last as int, k + 1, b_len as int));
            assert(col@ =~= c0 + jerk_pattern_cols(*c, idx as int, lo as int, last as int, n as int, k + 1));
        }
        k = k + 1;
    }
    next
}

/// Rows of the cones `[xi[k] + eta[k], xi[k] - eta[k], 2]` for `k < len`,
/// the first cone at row `b1`: two rows with entries and a constant row each.
pub open spec fn qp_pair_rows(b1: int, len: int) -> Seq<usize>
    decreases len,
{
    if len <= 0 {
        Seq::empty()
    } else {
        let at = b1 + 3 * (len - 1);
        qp_pair_rows(b1, len - 1) + seq![at as usize, at as usize, (at + 1) as usize, (at + 1) as usize]
    }
}

/// Columns of the cones `[xi[k] + eta[k], xi[k] - eta[k], 2]`.
pub open spec fn qp_pair_cols(id_xi: int, id_eta: int, len: int) -> Seq<usize>
    decreases len,
{
    if len <= 0 {
        Seq::empty()
    } else {
        let k = len - 1;
        qp_pair_cols(id_xi, id_eta, k) + seq![
            (id_xi + k) as usize,
            (id_eta + k) as usize,
            (id_xi + k) as usize,
            (id_eta + k) as usize,
        ]
    }
}

/// Rows of the cones `[a[k_skip + k] + 1, a[k_skip + k] - 1, 2 xi[k]]`, the
/// first at row `b2`.
pub open spec fn qp_sqrt_rows(b2: int, len: int) -> Seq<usize>
    decreases len,
{
    if len <= 0 {
        Seq::empty()
    } else {
        let at = b2 + 3 * (len - 1);
        qp_sqrt_rows(b2, len - 1) + seq![at as usize, (at + 1) as usize, (at + 2) as usize]
    }
}

/// Columns of the cones `[a[k_skip + k] + 1, a[k_skip + k] - 1, 2 xi[k]]`.
pub open spec fn qp_sqrt_cols(k_skip: int, id_xi: int, len: int) -> Seq<usize>
    decreases len,
{
    if len <= 0 {
        Seq::empty()
    } else {
        let k = len - 1;
        qp_sqrt_cols(k_skip, id_xi, k) + seq![(k_skip + k) as usize, (k_skip + k) as usize, (id_xi + k) as usize]
    }
}

/// The auxiliary block of the third-order quadratic program over `len`
/// pairs `(xi[k], eta[k])` in columns `id_xi + k`, `id_eta + k`, with
/// `xi[k]^2 <= a[k_skip + k]`: the rows of `xi >= 0`, `eta >= 0`, then of
/// the cones `[xi + eta, xi - eta, 2]` and `[a + 1, a - 1, 2 xi]`, from row
/// `b_len` on; returns the next free row, `b_len + 8 len`.
pub fn qp_aux_pattern_topp3(
    row: &mut Vec<usize>,
    col: &mut Vec<usize>,
    b_len: usize,
    len: usize,
    k_skip: usize,
    id_xi: usize,
    id_eta: usize,
) -> (r: usize)
    requires
        b_len + 8 * len <= usize::MAX,
        id_xi + len <= usize::MAX,
        id_eta + len <= usize::MAX,
        k_skip + len <= usize::MAX,
    ensures
        final(row)@ == old(row)@ + range_seq(b_len as int, len as int) + range_seq(b_len + len, len as int)
            + qp_pair_rows(b_len + 2 * len, len as int) + qp_sqrt_rows(b_len + 5 * len, len as int),
        final(col)@ == old(col)@ + range_seq(id_xi as int, len as int) + range_seq(id_eta as int, len as int)
            + qp_pair_cols(id_xi as int, id_eta as int, len as int) + qp_sqrt_cols(
            k_skip as int,
            id_xi as int,
            len as int,
        ),
        r == b_len + 8 * len,
{
    let ghost r0 = row@;
    let ghost c0 = col@;
    push_range(row, b_len, len);
    push_range(row, b_len + len, len);
    push_range(col, id_xi, len);
    push_range(col, id_eta, len);
    let ghost r1 = row@;
    let ghost c1 = col@;
    let b1 = b_len + 2 * len;
    let mut k: usize = 0;
    while k < len
        invariant
            0 <= k <= len,
            b1 == b_len + 2 * len,
            b_len + 8 * len <= usize::MAX,
            id_xi + len <= usize::MAX,
            id_eta + len <= usize::MAX,
            row@ == r1 + qp_pair_rows(b1 as int, k as int),
            col@ == c1 + qp_pair_cols(id_xi as int, id_eta as int, k as int),
        decreases len - k,
    {
        let at = b1 + 3 * k;
        row.push(at);
        row.push(at);
        row.push(at + 1);
        row.push(at + 1);
        col.push(id_xi + k);
        col.push(id_eta + k);
        col.push(id_xi + k);
        col.push(id_eta + k);
        k = k + 1;
        proof {
            assert(row@ =~= r1 + qp_pair_rows(b1 as int, k as int));
            assert(col@ =~= c1 + qp_pair_cols(id_xi as int, id_eta as int, k as int));
        }
    }
    let ghost r2 = row@;
    let ghost c2 = col@;
    let b2 = b1 + 3 * len;
    let mut k: usize = 0;
    while k < len
        invariant
            0 <= k <= len,
            b2 == b_len + 5 * len,
            b_len + 8 * len <= usize::MAX,
            id_xi + len <= usize::MAX,
            k_skip + len <= usize::MAX,
            row@ == r2 + qp_sqrt_rows(b2 as int, k as int),
            col@ == c2 + qp_sqrt_cols(k_skip as int, id_xi as int, k as int),
        decreases len - k,
    {
        let at = b2 + 3 * k;
        row.push(at);
        row.push(at + 1);
        row.push(at + 2);
        col.push(k_skip + k);
        col.push(k_skip + k);
        col.push(id_xi + k);
        k = k + 1;
        proof {
            assert(row@ =~= r2 + qp_sqrt_rows(b2 as int, k as int));
            assert(col@ =~= c2 + qp_sqrt_cols(k_skip as int, id_xi as int, k as int));
        }
    }
    proof {
        assert(row@ =~= r0 + range_seq(b_len as int, len as int) + range_seq(b_len + len, len as int)
            + qp_pair_rows(b_len + 2 * len, len as int) + qp_sqrt_rows(b_len + 5 * len, len as int));
        assert(col@ =~= c0 + range_seq(id_xi as int, len as int) + range_seq(id_eta as int, len as int)
            + qp_pair_cols(id_xi as int, id_eta as int, len as int) + qp_sqrt_cols(
            k_skip as int,
            id_xi as int,
            len as int,
        ));
    }
    b2 + 3 * len
}

/// The stations `k` of `lo .. hi` with `bounded[k]` (a finite first-order
/// bound), in increasing order.
pub open spec fn bounded_stations(bounded: Seq<bool>, lo: int, hi: int) -> Seq<usize>
    decreases hi - lo,
{
    if hi <= lo {
        Seq::empty()
    } else {
        let prev = bounded_stations(bounded, lo, hi - 1);
        if bounded[hi - 1] {
            prev.push((hi - 1) as usize)
        } else {
            prev
        }
    }
}

/// The bounded stations of `lo .. hi` are exactly the stations `k` of that
/// range with `bounded[k]`, each once, in increasing order.
pub proof fn lemma_bounded_stations_are_the_bounded(bounded: Seq<bool>, lo: int, hi: int)
    requires
        0 <= lo <= hi <= bounded.len(),
        hi <= usize::MAX,
    ensures
        ({
            let ks = bounded_stations(bounded, lo, hi);
            &&& forall|j: int| 0 <= j < ks.len() ==> lo <= #[trigger] ks[j] < hi && bounded[ks[j] as int]
            &&& forall|k: int| lo <= k < hi && bounded[k] ==> exists|j: int| 0 <= j < ks.len() && #[trigger] ks[j] == k
            &&& forall|i: int, j: int| 0 <= i < j < ks.len() ==> ks[i] < ks[j]
        }),
    decreases hi - lo,
{
    if hi > lo {
        lemma_bounded_stations_are_the_bounded(bounded, lo, hi - 1);
        let prev = bounded_stations(bounded, lo, hi - 1);
        let ks = bounded_stations(bounded, lo, hi);
        if bounded[hi - 1] {
            assert(ks == prev.push((hi - 1) as usize));
            assert(ks[prev.len() as int] == hi - 1);
            assert forall|k: int| lo <= k < hi && bounded[k] implies exists|j: int|
                0 <= j < ks.len() && #[trigger] ks[j] == k by {
                if k == hi - 1 {
                    assert(ks[prev.len() as int] == k);
                } else {
                    let j = choose|j: int| 0 <= j < prev.len() && #[trigger] prev[j] == k;
                    assert(ks[j] == k);
                }
            }
        }
    }
}

proof fn lemma_bounded_stations_len(bounded: Seq<bool>, lo: int, hi: int)
    requires
        lo <= hi,
    ensures
        bounded_stations(bounded, lo, hi).len() <= hi - lo,
    decreases hi - lo,
{
    if hi > lo {
        lemma_bounded_stations_len(bounded, lo, hi - 1);
    }
}

/// The first-order block of the second-order program over `n + 1`
/// stations: the lower bounds `-a[k] <= 0` of the interior stations
/// `1 <= k < n`, then the upper bounds `a[k] <= amax[k]` of those interior
/// stations whose bound is finite (`bounded[k]`). The block adds the rows
/// `b_len ..` of its right-hand side, `n - 1` for the lower bounds and one
/// per upper bound; the row indices of the lower-bound entries run from
/// `b_len + 1` to `b_len + n - 1`, those of the upper-bound entries from
/// `b_len + n - 1` on. Returns the next free row and the bounded stations,
/// whose values the caller appends in that order.
pub fn first_order_pattern_topp2(
    row: &mut Vec<usize>,
    col: &mut Vec<usize>,
    b_len: usize,
    n: usize,
    bounded: &Vec<bool>,
) -> (r: (usize, Vec<usize>))
    requires
        n >= 1,
        bounded@.len() == n + 1,
        b_len + 2 * n <= usize::MAX,
    ensures
        ({
            let ks = bounded_stations(bounded@, 1, n as int);
            &&& r.1@ == ks
            &&& final(row)@ == old(row)@ + range_seq(b_len + 1, n - 1) + range_seq(b_len + n - 1, ks.len() as int)
            &&& final(col)@ == old(col)@ + range_seq(1, n - 1) + ks
            &&& r.0 == b_len + n - 1 + ks.len()
        }),
{
    let ghost c0 = col@;
    push_range(row, b_len + 1, n - 1);
    push_range(col, 1, n - 1);
    let ghost c1 = col@;
    let mut ks: Vec<usize> = Vec::new();
    let mut k: usize = 1;
    while k < n
        invariant
            1 <= k <= n,
            bounded@.len() == n + 1,
            ks@ == bounded_stations(bounded@, 1, k as int),
            col@ == c1 + ks@,
        decreases n - k,
    {
        if bounded[k] {
            ks.push(k);
            col.push(k);
        }
        k = k + 1;
    }
    proof {
        lemma_bounded_stations_len(bounded@, 1, n as int);
        assert(col@ =~= c0 + range_seq(1, n - 1) + ks@);
    }
    push_range(row, b_len + n - 1, ks.len());
    (b_len + n - 1 + ks.len(), ks)
}

/// Rows the second-order block of the second-order program spends on
/// station `k` of `0 ..= n`: one group of `r` rows coupling `a[k - 1]` and
/// `a[k]` (when `k > 0`) and one coupling `a[k]` and `a[k + 1]` (when `k < n`).
pub open spec fn acc2_station_rows(k: int, n: int, r: int) -> int {
    (if k > 0 {
        r
    } else {
        0
    }) + (if k < n {
        r
    } else {
        0
    })
}

/// Rows spent by that block on the local stations `0 .. k`.
pub open spec fn acc2_rows_before(c: Constraints, idx: int, n: int, k: int) -> int
    decreases k,
{
    if k <= 0 {
        0
    } else {
        acc2_rows_before(c, idx, n, k - 1) + acc2_station_rows(k - 1, n, c.rows_acc(idx + k - 1) as int)
    }
}

proof fn lemma_acc2_rows_before_bound(c: Constraints, idx: int, n: int, k: int, m: int)
    requires
        0 <= k <= m,
    ensures
        0 <= acc2_rows_before(c, idx, n, k) <= acc2_rows_before(c, idx, n, m),
        acc2_rows_before(c, idx, n, k) <= 2 * row_sum(|j: int| c.rows_acc(j), idx, idx + k),
    decreases m,
{
    if k < m {
        lemma_acc2_rows_before_bound(c, idx, n, k, m - 1);
    } else if k > 0 {
        lemma_acc2_rows_before_bound(c, idx, n, k - 1, k - 1);
    }
}

/// Rows of the groups of station `k`, the first at row `at`: each group
/// lists its `r` rows twice.
pub open spec fn acc2_step_rows(k: int, n: int, at: int, r: int) -> Seq<usize> {
    let second_at = if k > 0 {
        at + r
    } else {
        at
    };
    (if k > 0 {
        range_seq(at, r) + range_seq(at, r)
    } else {
        Seq::empty()
    }) + (if k < n {
        range_seq(second_at, r) + range_seq(second_at, r)
    } else {
        Seq::empty()
    })
}

/// Columns of the groups of station `k`: `a[k - 1]` then `a[k]`, and `a[k]`
/// then `a[k + 1]`, each once per row.
pub open spec fn acc2_step_cols(k: int, n: int, r: int) -> Seq<usize> {
    (if k > 0 {
        repeat_seq(k - 1, r) + repeat_seq(k, r)
    } else {
        Seq::empty()
    }) + (if k < n {
        repeat_seq(k, r) + repeat_seq(k + 1, r)
    } else {
        Seq::empty()
    })
}

/// Rows appended by the second-order block for the local stations `0 .. k`.
pub open spec fn acc2_pattern_rows(c: Constraints, idx: int, n: int, k: int, b0: int) -> Seq<usize>
    decreases k,
{
    if k <= 0 {
        Seq::empty()
    } else {
        acc2_pattern_rows(c, idx, n, k - 1, b0) + acc2_step_rows(
            k - 1,
            n,
            b0 + acc2_rows_before(c, idx, n, k - 1),
            c.rows_acc(idx + k - 1) as int,
        )
    }
}

/// Columns appended by the second-order block for the local stations `0 .. k`.
pub open spec fn acc2_pattern_cols(c: Constraints, idx: int, n: int, k: int) -> Seq<usize>
    decreases k,
{
    if k <= 0 {
        Seq::empty()
    } else {
        acc2_pattern_cols(c, idx, n, k - 1) + acc2_step_cols(k - 1, n, c.rows_acc(idx + k - 1) as int)
    }
}

proof fn lemma_acc2_pattern_len(c: Constraints, idx: int, n: int, k: int, b0: int)
    requires
        0 <= k,
    ensures
        acc2_pattern_rows(c, idx, n, k, b0).len() == 2 * acc2_rows_before(c, idx, n, k),
    decreases k,
{
    if k > 0 {
        lemma_acc2_pattern_len(c, idx, n, k - 1, b0);
    }
}

/// Append the groups of station `k` of `0 ..= n`, the first at row `at`;
/// returns the next free row.
fn push_acc2_station(row: &mut Vec<usize>, col: &mut Vec<usize>, at: usize, k: usize, n: usize, r: usize) -> (next:
    usize)
    requires
        k <= n,
        n + 2 <= usize::MAX,
        at + acc2_station_rows(k as int, n as int, r as int) <= usize::MAX,
    ensures
        final(row)@ == old(row)@ + acc2_step_rows(k as int, n as int, at as int, r as int),
        final(col)@ == old(col)@ + acc2_step_cols(k as int, n as int, r as int),
        next == at + acc2_station_rows(k as int, n as int, r as int),
{
    let ghost r0 = row@;
    let ghost c0 = col@;
    let mut next = at;
    if k > 0 {
        push_range(row, next, r);
        push_range(row, next, r);
        push_repeat(col, k - 1, r);
        push_repeat(col, k, r);
        next = next + r;
    }
    if k < n {
        push_range(row, next, r);
        push_range(row, next, r);
        push_repeat(col, k, r);
        push_repeat(col, k + 1, r);
        next = next + r;
    }
    proof {
        assert(row@ =~= r0 + acc2_step_rows(k as int, n as int, at as int, r as int));
        assert(col@ =~= c0 + acc2_step_cols(k as int, n as int, r as int));
    }
    next
}

/// The second-order rows `acc_a a[k] + acc_b b <= acc_max` of the
/// second-order program over the local stations `0 ..= n` of a problem
/// starting at global station `idx`, with `b` replaced by the difference
/// quotient of the interval before and after station `k`; from row `b_len`
/// on. Returns the next free row.
pub fn second_order_pattern_topp2(
    c: &Constraints,
    row: &mut Vec<usize>,
    col: &mut Vec<usize>,
    b_len: usize,
    idx: usize,
    n: usize,
) -> (r: usize)
    requires
        c.wf(),
        n + 2 <= usize::MAX,
        c.in_bounds(idx as int, n + 1),
        b_len + acc2_rows_before(*c, idx as int, n as int, n + 1) <= usize::MAX,
    ensures
        final(row)@ == old(row)@ + acc2_pattern_rows(*c, idx as int, n as int, n + 1, b_len as int),
        final(col)@ == old(col)@ + acc2_pattern_cols(*c, idx as int, n as int, n + 1),
        r == b_len + acc2_rows_before(*c, idx as int, n as int, n + 1),
{
    let ghost r0 = row@;
    let ghost c0 = col@;
    proof {
        c.lemma_window_fits();
    }
    let mut k: usize = 0;
    let mut next = b_len;
    while k <= n
        invariant
            c.wf(),
            0 <= k <= n + 1,
            n + 2 <= usize::MAX,
            c.in_bounds(idx as int, n + 1),
            c.spec_end() <= usize::MAX,
            b_len + acc2_rows_before(*c, idx as int, n as int, n + 1) <= usize::MAX,
            next == b_len + acc2_rows_before(*c, idx as int, n as int, k as int),
            row@ == r0 + acc2_pattern_rows(*c, idx as int, n as int, k as int, b_len as int),
            col@ == c0 + acc2_pattern_cols(*c, idx as int, n as int, k as int),
        decreases n + 1 - k,
    {
        let r = match c.get_acc_constraints(idx + k) {
            Ok(p) => p.rows,
            Err(_) => 0,
        };
        proof {
            lemma_acc2_rows_before_bound(*c, idx as int, n as int, k + 1, n + 1);
        }
        next = push_acc2_station(row, col, next, k, n, r);
        k = k + 1;
        proof {
            assert(row@ =~= r0 + acc2_pattern_rows(*c, idx as int, n as int, k as int, b_len as int));
            assert(col@ =~= c0 + acc2_pattern_cols(*c, idx as int, n as int, k as int));
        }
    }
    next
}

/// The standard feasibility program of second order over the local
/// stations `0 ..= n` of a problem starting at global station `idx`: the
/// boundary equalities `a[0] = a_start`, `a[n] = a_final` (rows `b_len` and
/// `b_len + 1`), the first-order block, then the second-order block.
/// Returns the next free row and the stations with a finite first-order
/// upper bound.
pub fn standard_pattern_topp2(
    c: &Constraints,
    row: &mut Vec<usize>,
    col: &mut Vec<usize>,
    b_len: usize,
    idx: usize,
    n: usize,
    bounded: &Vec<bool>,
) -> (r: (usize, Vec<usize>))
    requires
        c.wf(),
        n >= 1,
        bounded@.len() == n + 1,
        c.in_bounds(idx as int, n + 1),
        b_len + 2 * n + 2 + 2 * row_sum(|j: int| c.rows_acc(j), idx as int, idx + n + 1) <= usize::MAX,
    ensures
        ({
            let ks = bounded_stations(bounded@, 1, n as int);
            let b1 = b_len + 2;
            let b2 = b1 + n - 1 + ks.len();
            &&& r.1@ == ks
            &&& final(row)@ == old(row)@ + seq![b_len, (b_len + 1) as usize] + range_seq(b1 + 1, n - 1)
                + range_seq(b1 + n - 1, ks.len() as int) + acc2_pattern_rows(
                *c,
                idx as int,
                n as int,
                n + 1,
                b2,
            )
            &&& final(col)@ == old(col)@ + seq![0usize, n] + range_seq(1, n - 1) + ks + acc2_pattern_cols(
                *c,
                idx as int,
                n as int,
                n + 1,
            )
            &&& r.0 == b2 + acc2_rows_before(*c, idx as int, n as int, n + 1)
        }),
{
    let ghost r0 = row@;
    let ghost c0 = col@;
    proof {
        lemma_acc2_rows_before_bound(*c, idx as int, n as int, n + 1, n + 1);
        lemma_bounded_stations_len(bounded@, 1, n as int);
    }
    row.push(b_len);
    row.push(b_len + 1);
    col.push(0);
    col.push(n);
    proof {
        assert(row@ =~= r0 + seq![b_len, (b_len + 1) as usize]);
        assert(col@ =~= c0 + seq![0usize, n]);
    }
    let (b2, ks) = first_order_pattern_topp2(row, col, b_len + 2, n, bounded);
    let next = second_order_pattern_topp2(c, row, col, b2, idx, n);
    (next, ks)
}

/// The room that [`clarabel_standard_capacity_topp2`](crate::capacity::clarabel_standard_capacity_topp2)
/// reserves covers what the standard second-order feasibility program
/// appends: its nonzeros (one row index per entry) and its rows.
pub proof fn lemma_standard_topp2_fits_capacity(c: Constraints, b_len: int, idx: int, n: int, bounded: Seq<bool>)
    requires
        c.wf(),
        n >= 1,
        bounded.len() == n + 1,
    ensures
        ({
            let total = row_sum(|j: int| c.rows_acc(j), idx, idx + n + 1);
            let ks = bounded_stations(bounded, 1, n);
            let b1 = b_len + 2;
            let b2 = b1 + n - 1 + ks.len();
            &&& (seq![b_len as usize, (b_len + 1) as usize] + range_seq(b1 + 1, n - 1) + range_seq(
                b1 + n - 1,
                ks.len() as int,
            ) + acc2_pattern_rows(c, idx, n, n + 1, b2)).len() <= 4 * total + 2 * (n + 1)
            &&& b2 + acc2_rows_before(c, idx, n, n + 1) - b_len <= 2 * total + 2 * (n + 1)
        }),
{
    let ks = bounded_stations(bounded, 1, n);
    lemma_bounded_stations_len(bounded, 1, n);
    lemma_acc2_rows_before_bound(c, idx, n, n + 1, n + 1);
    lemma_acc2_pattern_len(c, idx, n, n + 1, b_len + 2 + n - 1 + ks.len());
}

/// Entries of the bound on `a` at the representative station of a
/// stationary boundary, from row `at`: the upper bound (when `capped`) and
/// then the lower bound, one row each.
pub open spec fn stationary_bound_rows(at: int, capped: bool) -> Seq<usize> {
    if capped {
        seq![at as usize, (at + 1) as usize]
    } else {
        seq![at as usize]
    }
}

/// Rows taken by [`stationary_bound_rows`].
pub open spec fn stationary_bound_count(capped: bool) -> int {
    if capped {
        2
    } else {
        1
    }
}

/// Rows of the bounds of both stationary boundaries from row `b_len`: the
/// head's (when `num_stationary.0 > 0`), then the tail's.
pub open spec fn stationary_bounds_rows(b_len: int, num_stationary: (usize, usize), head_capped: bool, tail_capped: bool) -> Seq<
    usize,
> {
    let head = num_stationary.0 > 0;
    let b1 = b_len + if head {
        stationary_bound_count(head_capped)
    } else {
        0
    };
    (if head {
        stationary_bound_rows(b_len, head_capped)
    } else {
        Seq::empty()
    }) + (if num_stationary.1 > 0 {
        stationary_bound_rows(b1, tail_capped)
    } else {
        Seq::empty()
    })
}

/// Columns of those bounds: `a[num_stationary.0]` for the head and
/// `a[n - num_stationary.1]` for the tail, once per row.
pub open spec fn stationary_bounds_cols(n: int, num_stationary: (usize, usize), head_capped: bool, tail_capped: bool) -> Seq<
    usize,
> {
    (if num_stationary.0 > 0 {
        repeat_seq(num_stationary.0 as int, stationary_bound_count(head_capped))
    } else {
        Seq::empty()
    }) + (if num_stationary.1 > 0 {
        repeat_seq(n - num_stationary.1, stationary_bound_count(tail_capped))
    } else {
        Seq::empty()
    })
}

/// Rows taken by both stationary bounds.
pub open spec fn stationary_bounds_count(num_stationary: (usize, usize), head_capped: bool, tail_capped: bool) -> int {
    (if num_stationary.0 > 0 {
        stationary_bound_count(head_capped)
    } else {
        0
    }) + (if num_stationary.1 > 0 {
        stationary_bound_count(tail_capped)
    } else {
        0
    })
}

/// The bounds of the stationary boundaries take consecutive rows from
/// `b_len`, one per entry; the head's entries (two when capped, else one)
/// come first and all lie in the column of `a[num_stationary.0]`, the
/// tail's entries follow and all lie in the column of
/// `a[n - num_stationary.1]`.
pub proof fn lemma_stationary_bounds_columns(
    b_len: int,
    n: int,
    num_stationary: (usize, usize),
    head_capped: bool,
    tail_capped: bool,
)
    requires
        num_stationary.1 <= n <= usize::MAX,
        0 <= b_len,
        b_len + 4 <= usize::MAX,
    ensures
        ({
            let rows = stationary_bounds_rows(b_len, num_stationary, head_capped, tail_capped);
            let cols = stationary_bounds_cols(n, num_stationary, head_capped, tail_capped);
            let head = if num_stationary.0 > 0 {
                if head_capped {
                    2int
                } else {
                    1
                }
            } else {
                0
            };
            let tail = if num_stationary.1 > 0 {
                if tail_capped {
                    2int
                } else {
                    1
                }
            } else {
                0
            };
            &&& rows.len() == head + tail
            &&& cols.len() == head + tail
            &&& forall|e: int| 0 <= e < head + tail ==> rows[e] == b_len + e
            &&& forall|e: int| 0 <= e < head ==> cols[e] == num_stationary.0
            &&& forall|e: int| head <= e < head + tail ==> cols[e] == n - num_stationary.1
        }),
{
    let rows = stationary_bounds_rows(b_len, num_stationary, head_capped, tail_capped);
    let cols = stationary_bounds_cols(n, num_stationary, head_capped, tail_capped);
    let hr = if num_stationary.0 > 0 {
        stationary_bound_rows(b_len, head_capped)
    } else {
        Seq::empty()
    };
    let hc = if num_stationary.0 > 0 {
        repeat_seq(num_stationary.0 as int, stationary_bound_count(head_capped))
    } else {
        Seq::empty()
    };
    let b1 = b_len + hr.len();
    let tr = if num_stationary.1 > 0 {
        stationary_bound_rows(b1, tail_capped)
    } else {
        Seq::empty()
    };
    let tc = if num_stationary.1 > 0 {
        repeat_seq(n - num_stationary.1, stationary_bound_count(tail_capped))
    } else {
        Seq::empty()
    };
    assert(rows =~= hr + tr);
    assert(cols =~= hc + tc);
}

/// Append the bounds of both stationary boundaries from row `b_len`;
/// returns the next free row.
fn push_stationary_bounds(
    row: &mut Vec<usize>,
    col: &mut Vec<usize>,
    b_len: usize,
    n: usize,
    num_stationary: (usize, usize),
    head_capped: bool,
    tail_capped: bool,
) -> (next: usize)
    requires
        num_stationary.1 <= n,
        b_len + 4 <= usize::MAX,
    ensures
        final(row)@ == old(row)@ + stationary_bounds_rows(b_len as int, num_stationary, head_capped, tail_capped),
        final(col)@ == old(col)@ + stationary_bounds_cols(n as int, num_stationary, head_capped, tail_capped),
        next == b_len + stationary_bounds_count(num_stationary, head_capped, tail_capped),
{
    let ghost r0 = row@;
    let ghost c0 = col@;
    let mut next = b_len;
    if num_stationary.0 > 0 {
        if head_capped {
            row.push(next);
            col.push(num_stationary.0);
            next = next + 1;
        }
        row.push(next);
        col.push(num_stationary.0);
        next = next + 1;
    }
    if num_stationary.1 > 0 {
        if tail_capped {
            row.push(next);
            col.push(n - num_stationary.1);
            next = next + 1;
        }
        row.push(next);
        col.push(n - num_stationary.1);
        next = next + 1;
    }
    proof {
        assert(row@ =~= r0 + stationary_bounds_rows(b_len as int, num_stationary, head_capped, tail_capped));
        assert(col@ =~= c0 + stationary_bounds_cols(n as int, num_stationary, head_capped, tail_capped));
    }
    next
}

/// The first-order block of the third-order program over `n + 1` stations:
/// for each stationary boundary (the head first) the bounds on `a` at its
/// representative station, the upper one only when `head_capped` or
/// `tail_capped` (a finite bound); then the lower bounds `-a[k] <= 0` of the
/// moving stations `num_stationary.0 < k < n - num_stationary.1`; then
/// their upper bounds where `bounded[k]` (a finite bound). One row per
/// entry, from row `b_len` on. Returns the next free row and the bounded
/// moving stations, whose values the caller appends in that order.
#[verifier::spinoff_prover]
pub fn first_order_pattern_topp3(
    row: &mut Vec<usize>,
    col: &mut Vec<usize>,
    b_len: usize,
    n: usize,
    num_stationary: (usize, usize),
    head_capped: bool,
    tail_capped: bool,
    bounded: &Vec<bool>,
) -> (r: (usize, Vec<usize>))
    requires
        num_stationary.0 + num_stationary.1 + 1 <= n,
        bounded@.len() == n + 1,
        b_len + 2 * n + 4 <= usize::MAX,
    ensures
        ({
            let lo = num_stationary.0 + 1;
            let hi = n - num_stationary.1;
            let ks = bounded_stations(bounded@, lo, hi);
            let b1 = b_len + stationary_bounds_count(num_stationary, head_capped, tail_capped);
            &&& r.1@ == ks
            &&& final(row)@ == old(row)@ + stationary_bounds_rows(
                b_len as int,
                num_stationary,
                head_capped,
                tail_capped,
            ) + range_seq(b1, hi - lo) + range_seq(b1 + hi - lo, ks.len() as int)
            &&& final(col)@ == old(col)@ + stationary_bounds_cols(n as int, num_stationary, head_capped, tail_capped)
                + range_seq(lo, hi - lo) + ks
            &&& r.0 == b1 + hi - lo + ks.len()
        }),
{
    let next = push_stationary_bounds(row, col, b_len, n, num_stationary, head_capped, tail_capped);
    let ghost r1 = row@;
    let ghost c1 = col@;
    let lo = num_stationary.0 + 1;
    let hi = n - num_stationary.1;
    push_range(row, next, hi - lo);
    push_range(col, lo, hi - lo);
    let ghost c2 = col@;
    let mut ks: Vec<usize> = Vec::new();
    let mut k: usize = lo;
    while k < hi
        invariant
            lo <= k <= hi,
            hi <= n,
            bounded@.len() == n + 1,
            ks@ == bounded_stations(bounded@, lo as int, k as int),
            col@ == c2 + ks@,
        decreases hi - k,
    {
        if bounded[k] {
            ks.push(k);
            col.push(k);
        }
        k = k + 1;
    }
    proof {
        lemma_bounded_stations_len(bounded@, lo as int, hi as int);
    }
    push_range(row, next + (hi - lo), ks.len());
    proof {
        assert(row@ =~= r1 + range_seq(next as int, hi - lo) + range_seq(next + hi - lo, ks@.len() as int));
        assert(col@ =~= c1 + range_seq(lo as int, hi - lo) + ks@);
    }
    (next + (hi - lo) + ks.len(), ks)
}

proof fn lemma_acc_pattern_len(c: Constraints, idx: int, lo: int, hi: int, b0: int)
    requires
        lo <= hi,
    ensures
        acc_pattern_rows(c, idx, lo, hi, b0).len() == 2 * row_sum(|j: int| c.rows_acc(j), idx + lo, idx + hi),
    decreases hi - lo,
{
    if hi > lo {
        lemma_acc_pattern_len(c, idx, lo, hi - 1, b0);
    }
}

proof fn lemma_jerk_pattern_len(c: Constraints, idx: int, lo: int, last: int, k: int, b0: int)
    requires
        lo <= k,
    ensures
        jerk_pattern_rows(c, idx, lo, last, k, b0).len() == 3 * jerk_rows_before(c, idx, lo, last, k),
        jerk_rows_before(c, idx, lo, last, k) <= 2 * row_sum(|j: int| c.rows_jerk(j), idx + lo, idx + k),
    decreases k - lo,
{
    if k > lo {
        lemma_jerk_pattern_len(c, idx, lo, last, k - 1, b0);
    }
}

/// Row index of every entry of the standard feasibility program of third
/// order over the local stations `0 ..= n` of a problem starting at global
/// station `idx`, from row `b_len` on, in the order of its blocks: the
/// boundary equalities, the dynamics of the stationary boundaries and of the
/// moving intervals, the first-order block (with the finiteness flags of its
/// upper bounds), the second-order rows of the moving stations
/// `num_stationary.0 < k < n - num_stationary.1`, and the linearized
/// third-order rows of the stations `num_stationary.0 ..= n - num_stationary.1`.
pub open spec fn standard_topp3_rows(
    c: Constraints,
    b_len: int,
    idx: int,
    n: int,
    num_stationary: (usize, usize),
    head_capped: bool,
    tail_capped: bool,
    bounded: Seq<bool>,
) -> Seq<usize> {
    let s0 = num_stationary.0 as int;
    let s1 = num_stationary.1 as int;
    let m = n - s0 - s1;
    let b1 = b_len + 4;
    let b2 = b1 + if s0 > 0 {
        1int
    } else {
        0
    };
    let b3 = b2 + if s1 > 0 {
        1int
    } else {
        0
    };
    let b4 = b3 + m;
    let lo = s0 + 1;
    let hi = n - s1;
    let ks = bounded_stations(bounded, lo, hi);
    let b5 = b4 + stationary_bounds_count(num_stationary, head_capped, tail_capped);
    let b6 = b5 + (hi - lo) + ks.len();
    let b7 = b6 + row_sum(|j: int| c.rows_acc(j), idx + lo, idx + hi);
    range_seq(b_len, 4) + (if s0 > 0 {
        seq![b1 as usize, b1 as usize]
    } else {
        Seq::empty()
    }) + (if s1 > 0 {
        seq![b2 as usize, b2 as usize]
    } else {
        Seq::empty()
    }) + range_seq(b3, m) + range_seq(b3, m) + range_seq(b3, m) + range_seq(b3, m) + stationary_bounds_rows(
        b4,
        num_stationary,
        head_capped,
        tail_capped,
    ) + range_seq(b5, hi - lo) + range_seq(b5 + hi - lo, ks.len() as int) + acc_pattern_rows(c, idx, lo, hi, b6)
        + jerk_pattern_rows(c, idx, s0, hi, hi + 1, b7)
}

/// Number of rows of that program.
pub open spec fn standard_topp3_row_count(
    c: Constraints,
    idx: int,
    n: int,
    num_stationary: (usize, usize),
    head_capped: bool,
    tail_capped: bool,
    bounded: Seq<bool>,
) -> int {
    let s0 = num_stationary.0 as int;
    let s1 = num_stationary.1 as int;
    let lo = s0 + 1;
    let hi = n - s1;
    4 + (if s0 > 0 {
        1int
    } else {
        0
    }) + (if s1 > 0 {
        1int
    } else {
        0
    }) + (n - s0 - s1) + stationary_bounds_count(num_stationary, head_capped, tail_capped) + (hi - lo)
        + bounded_stations(bounded, lo, hi).len() + row_sum(|j: int| c.rows_acc(j), idx + lo, idx + hi)
        + jerk_rows_before(c, idx, s0, hi, hi + 1)
}

/// The room that [`clarabel_standard_capacity_topp3`](crate::capacity::clarabel_standard_capacity_topp3)
/// reserves covers the standard feasibility program of third order: its
/// nonzeros (one row index per entry) and its rows, whatever the stationary
/// counts that leave a motion interval and whatever bounds are finite.
pub proof fn lemma_standard_topp3_fits_capacity(
    c: Constraints,
    b_len: int,
    idx: int,
    n: int,
    num_stationary: (usize, usize),
    head_capped: bool,
    tail_capped: bool,
    bounded: Seq<bool>,
)
    requires
        num_stationary.0 + num_stationary.1 + 1 <= n,
    ensures
        ({
            let ca = row_sum(|j: int| c.rows_acc(j), idx, idx + n + 1);
            let cj = row_sum(|j: int| c.rows_jerk(j), idx, idx + n + 1);
            &&& standard_topp3_rows(c, b_len, idx, n, num_stationary, head_capped, tail_capped, bounded).len()
                <= 2 + 6 * n + 2 * ca + 6 * cj
            &&& standard_topp3_row_count(c, idx, n, num_stationary, head_capped, tail_capped, bounded) <= 2 + 3
                * n + ca + 2 * cj
        }),
{
    let s0 = num_stationary.0 as int;
    let s1 = num_stationary.1 as int;
    let lo = s0 + 1;
    let hi = n - s1;
    let fa = |j: int| c.rows_acc(j);
    let fj = |j: int| c.rows_jerk(j);
    lemma_bounded_stations_len(bounded, lo, hi);
    crate::constraints::lemma_row_sum_split(fa, idx, idx + lo, idx + hi);
    crate::constraints::lemma_row_sum_split(fa, idx, idx + hi, idx + n + 1);
    crate::constraints::lemma_row_sum_split(fj, idx, idx + s0, idx + hi + 1);
    crate::constraints::lemma_row_sum_split(fj, idx, idx + hi + 1, idx + n + 1);
    let m = n - s0 - s1;
    let b1 = b_len + 4;
    let b2 = b1 + if s0 > 0 {
        1int
    } else {
        0
    };
    let b3 = b2 + if s1 > 0 {
        1int
    } else {
        0
    };
    let b4 = b3 + m;
    let ks = bounded_stations(bounded, lo, hi);
    let b5 = b4 + stationary_bounds_count(num_stationary, head_capped, tail_capped);
    let b6 = b5 + (hi - lo) + ks.len();
    let b7 = b6 + row_sum(fa, idx + lo, idx + hi);
    lemma_acc_pattern_len(c, idx, lo, hi, b6);
    lemma_jerk_pattern_len(c, idx, s0, hi, hi + 1, b7);
}

/// The first-order block of the third-order program puts one entry in each
/// of its rows, `b_len` on; after the bounds of the stationary boundaries
/// come the lower bounds of the moving stations
/// `num_stationary.0 < k < n - num_stationary.1`, one per station in
/// increasing order, then the upper bounds, each on a moving station with a
/// finite bound.
pub proof fn lemma_first_order_topp3_layout(
    b_len: int,
    n: int,
    num_stationary: (usize, usize),
    head_capped: bool,
    tail_capped: bool,
    bounded: Seq<bool>,
)
    requires
        num_stationary.0 + num_stationary.1 + 1 <= n <= usize::MAX,
        bounded.len() == n + 1,
        0 <= b_len,
        b_len + 2 * n + 4 <= usize::MAX,
    ensures
        ({
            let lo = num_stationary.0 + 1;
            let hi = n - num_stationary.1;
            let ks = bounded_stations(bounded, lo, hi);
            let h = stationary_bounds_count(num_stationary, head_capped, tail_capped);
            let b1 = b_len + h;
            let rows = stationary_bounds_rows(b_len, num_stationary, head_capped, tail_capped) + range_seq(b1, hi - lo)
                + range_seq(b1 + hi - lo, ks.len() as int);
            let cols = stationary_bounds_cols(n, num_stationary, head_capped, tail_capped) + range_seq(lo, hi - lo)
                + ks;
            &&& rows.len() == cols.len() == h + (hi - lo) + ks.len()
            &&& forall|e: int| 0 <= e < rows.len() ==> #[trigger] rows[e] == b_len + e
            &&& forall|e: int| h <= e < h + (hi - lo) ==> #[trigger] cols[e] == lo + (e - h)
            &&& forall|e: int|
                h + (hi - lo) <= e < cols.len() ==> lo <= #[trigger] cols[e] < hi && bounded[cols[e] as int]
        }),
{
    let lo = num_stationary.0 + 1;
    let hi = n - num_stationary.1;
    let ks = bounded_stations(bounded, lo, hi);
    lemma_stationary_bounds_columns(b_len, n, num_stationary, head_capped, tail_capped);
    lemma_bounded_stations_are_the_bounded(bounded, lo, hi);
    lemma_bounded_stations_len(bounded, lo, hi);
    let h = stationary_bounds_count(num_stationary, head_capped, tail_capped);
    let sr = stationary_bounds_rows(b_len, num_stationary, head_capped, tail_capped);
    let sc = stationary_bounds_cols(n, num_stationary, head_capped, tail_capped);
    assert(sr.len() == h && sc.len() == h);
    let b1 = b_len + h;
    let rows = sr + range_seq(b1, hi - lo) + range_seq(b1 + hi - lo, ks.len() as int);
    let cols = sc + range_seq(lo, hi - lo) + ks;
    assert forall|e: int| 0 <= e < rows.len() implies #[trigger] rows[e] == b_len + e by {
        if e < h {
            assert(rows[e] == sr[e]);
        } else if e < h + (hi - lo) {
            assert(rows[e] == range_seq(b1, hi - lo)[e - h]);
        } else {
            assert(rows[e] == range_seq(b1 + hi - lo, ks.len() as int)[e - h - (hi - lo)]);
        }
    }
    assert forall|e: int| h <= e < h + (hi - lo) implies #[trigger] cols[e] == lo + (e - h) by {
        assert(cols[e] == range_seq(lo, hi - lo)[e - h]);
    }
    assert forall|e: int| h + (hi - lo) <= e < cols.len() implies lo <= #[trigger] cols[e] < hi && bounded[cols[e] as int] by {
        assert(cols[e] == ks[e - h - (hi - lo)]);
    }
}

} // verus!
