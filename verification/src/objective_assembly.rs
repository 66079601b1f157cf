//! Sparsity structure of the objective blocks of the third-order cone program.
//!
//! The decision vector starts as in the feasibility program, `a[0 ..= n]` in
//! columns `0 ..= n` and `b[0 ..= n]` in columns `n + 1 ..= 2 n + 1`, followed
//! by `xi[k] = sqrt(a[k + k_skip])` in columns `2 (n + 1) + k` for
//! `k < len_xi`. Each objective then appends its own auxiliary variables at
//! the end of the vector (`var_len` is the length of the vector before the
//! objective) and its rows after the last row (`b_len`). As in
//! [`crate::assembly`], the functions here append the row and column indices
//! of each block; the owner of the values appends the values in the same
//! order.

use vstd::prelude::*;
use crate::assembly::{
    push_range, push_repeat, qp_pair_cols, qp_pair_rows, qp_sqrt_cols, range_seq, repeat_seq,
};
use crate::capacity::{at_least_one, length_xi, skip_a_for_xi};
use crate::objectives::{ObjectiveKind, base_capacity, copp2_term_capacity, copp3_term_capacity, needs_sqrt_a};

verus! {

/// Column of `xi[0]` in a program over `n + 1` stations.
pub open spec fn xi_column(n: int) -> int {
    2 * (n + 1)
}

/// The time objective `sum w[k] / xi[k]` over `len_xi` pairs, with
/// `eta[k]` in column `var_len + k` and `xi[k]` in column `2 (n + 1) + k`:
/// the rows of `eta >= 0`, then of the cones `[xi + eta, xi - eta, 2]`, from
/// row `b_len` on; returns the next free row, `b_len + 4 len_xi`. The
/// objective adds `len_xi` variables.
pub fn time_pattern_copp3(
    row: &mut Vec<usize>,
    col: &mut Vec<usize>,
    b_len: usize,
    var_len: usize,
    n: usize,
    len_xi: usize,
) -> (r: usize)
    requires
        b_len + 4 * len_xi <= usize::MAX,
        var_len + len_xi <= usize::MAX,
        2 * (n + 1) + len_xi <= usize::MAX,
    ensures
        final(row)@ == old(row)@ + range_seq(b_len as int, len_xi as int) + qp_pair_rows(
            b_len + len_xi,
            len_xi as int,
        ),
        final(col)@ == old(col)@ + range_seq(var_len as int, len_xi as int) + qp_pair_cols(
            xi_column(n as int),
            var_len as int,
            len_xi as int,
        ),
        r == b_len + 4 * len_xi,
{
    let ghost r0 = row@;
    let ghost c0 = col@;
    push_range(row, b_len, len_xi);
    push_range(col, var_len, len_xi);
    let ghost r1 = row@;
    let ghost c1 = col@;
    let id_xi = 2 * (n + 1);
    let b1 = b_len + len_xi;
    let mut k: usize = 0;
    while k < len_xi
        invariant
            0 <= k <= len_xi,
            b1 == b_len + len_xi,
            id_xi == xi_column(n as int),
            b_len + 4 * len_xi <= usize::MAX,
            var_len + len_xi <= usize::MAX,
            id_xi + len_xi <= usize::MAX,
            row@ == r1 + qp_pair_rows(b1 as int, k as int),
            col@ == c1 + qp_pair_cols(id_xi as int, var_len as int, k as int),
        decreases len_xi - k,
    {
        let at = b1 + 3 * k;
        row.push(at);
        row.push(at);
        row.push(at + 1);
        row.push(at + 1);
        col.push(id_xi + k);
        col.push(var_len + k);
        col.push(id_xi + k);
        col.push(var_len + k);
        k = k + 1;
        proof {
            assert(row@ =~= r1 + qp_pair_rows(b1 as int, k as int));
            assert(col@ =~= c1 + qp_pair_cols(id_xi as int, var_len as int, k as int));
        }
    }
    proof {
        assert(row@ =~= r0 + range_seq(b_len as int, len_xi as int) + qp_pair_rows(b1 as int, len_xi as int));
        assert(col@ =~= c0 + range_seq(var_len as int, len_xi as int) + qp_pair_cols(
            id_xi as int,
            var_len as int,
            len_xi as int,
        ));
    }
    b1 + 3 * len_xi
}

/// Rows of one torque cone `[t + xi, t - xi, tau_0, ..., tau_{dim-1}]` whose
/// first row is `at`: its two leading rows twice (for `t`, then for `xi`),
/// then its `dim` torque rows twice (for `a`, then for `b`).
pub open spec fn torque_cone_rows(at: int, dim: int) -> Seq<usize> {
    range_seq(at, 2) + range_seq(at, 2) + range_seq(at + 2, dim) + range_seq(at + 2, dim)
}

/// Columns of one torque cone: `t` and `xi` once per leading row, then the
/// columns `col_a` of `a` and `col_b` of `b` once per torque row.
pub open spec fn torque_cone_cols(t: int, xi: int, col_a: int, col_b: int, dim: int) -> Seq<usize> {
    repeat_seq(t, 2) + repeat_seq(xi, 2) + repeat_seq(col_a, dim) + repeat_seq(col_b, dim)
}

/// Append one torque cone from row `at`; returns the next free row.
fn push_torque_cone(
    row: &mut Vec<usize>,
    col: &mut Vec<usize>,
    at: usize,
    t: usize,
    xi: usize,
    col_a: usize,
    col_b: usize,
    dim: usize,
) -> (next: usize)
    requires
        at + dim + 2 <= usize::MAX,
    ensures
        final(row)@ == old(row)@ + torque_cone_rows(at as int, dim as int),
        final(col)@ == old(col)@ + torque_cone_cols(t as int, xi as int, col_a as int, col_b as int, dim as int),
        next == at + dim + 2,
{
    let ghost r0 = row@;
    let ghost c0 = col@;
    push_range(row, at, 2);
    push_range(row, at, 2);
    push_range(row, at + 2, dim);
    push_range(row, at + 2, dim);
    push_repeat(col, t, 2);
    push_repeat(col, xi, 2);
    push_repeat(col, col_a, dim);
    push_repeat(col, col_b, dim);
    proof {
        assert(row@ =~= r0 + torque_cone_rows(at as int, dim as int));
        assert(col@ =~= c0 + torque_cone_cols(t as int, xi as int, col_a as int, col_b as int, dim as int));
    }
    at + dim + 2
}

/// Rows of the torque cones of the moving stations `k < len`, the first
/// cone at row `at`, each cone `dim + 2` rows long.
pub open spec fn thermal_moving_rows(at: int, dim: int, len: int) -> Seq<usize>
    decreases len,
{
    if len <= 0 {
        Seq::empty()
    } else {
        thermal_moving_rows(at, dim, len - 1) + torque_cone_rows(at + (len - 1) * (dim + 2), dim)
    }
}

/// Columns of the torque cones of the moving stations `k < len`: cone `k`
/// bounds `t[k]` (column `t0 + k`) against `xi[k]` with the torques of
/// station `k_skip + k`.
pub open spec fn thermal_moving_cols(t0: int, n: int, k_skip: int, dim: int, len: int) -> Seq<usize>
    decreases len,
{
    if len <= 0 {
        Seq::empty()
    } else {
        let k = len - 1;
        thermal_moving_cols(t0, n, k_skip, dim, k) + torque_cone_cols(
            t0 + k,
            xi_column(n) + k,
            k_skip + k,
            n + 1 + k_skip + k,
            dim,
        )
    }
}

/// `1` where a stationary head or tail is present, else `0`.
pub open spec fn present(count: int) -> int {
    if count > 0 {
        1
    } else {
        0
    }
}

/// Number of torque cones of the thermal-energy objective: one per moving
/// station with an `xi`, and one for each stationary end.
pub open spec fn thermal_cone_count(n: int, num_stationary: (usize, usize)) -> int {
    n + 1 - at_least_one(num_stationary.0 as int) - at_least_one(num_stationary.1 as int) + present(
        num_stationary.0 as int,
    ) + present(num_stationary.1 as int)
}

/// Rows of the cones of the stationary ends, from row `b_len`, with `t` of
/// the head in column `var_len` and that of the tail after it.
pub open spec fn thermal_end_rows(b_len: int, dim: int, num_stationary: (usize, usize)) -> Seq<usize> {
    let b1 = b_len + present(num_stationary.0 as int) * (dim + 2);
    (if num_stationary.0 > 0 {
        torque_cone_rows(b_len, dim)
    } else {
        Seq::empty()
    }) + (if num_stationary.1 > 0 {
        torque_cone_rows(b1, dim)
    } else {
        Seq::empty()
    })
}

/// Columns of the cones of the stationary ends: the head cone couples its
/// `t` with `xi[0]` and the torques of station `num_stationary.0`; the tail
/// cone couples its `t` with the last `xi` and the torques of station
/// `n - num_stationary.1`.
pub open spec fn thermal_end_cols(var_len: int, n: int, dim: int, len_xi: int, num_stationary: (usize, usize)) -> Seq<
    usize,
> {
    let s0 = num_stationary.0 as int;
    let s1 = num_stationary.1 as int;
    let t1 = var_len + present(s0);
    (if s0 > 0 {
        torque_cone_cols(var_len, xi_column(n), s0, n + 1 + s0, dim)
    } else {
        Seq::empty()
    }) + (if s1 > 0 {
        torque_cone_cols(t1, xi_column(n) + len_xi - 1, n - s1, 2 * n + 1 - s1, dim)
    } else {
        Seq::empty()
    })
}

proof fn lemma_cone_step(at: int, dim: int, k: int)
    requires
        0 <= k,
        0 <= dim,
    ensures
        at + (k + 1) * (dim + 2) == at + k * (dim + 2) + dim + 2,
{
    assert((k + 1) * (dim + 2) == k * (dim + 2) + (dim + 2)) by (nonlinear_arith);
}

proof fn lemma_cone_bound(dim: int, k: int, m: int)
    requires
        0 <= k <= m,
        0 <= dim,
    ensures
        k * (dim + 2) <= m * (dim + 2),
{
    assert(k * (dim + 2) <= m * (dim + 2)) by (nonlinear_arith)
        requires
            0 <= k <= m,
            0 <= dim,
    ;
}

/// The thermal-energy objective of `dim` joints over `n + 1` stations:
/// a torque cone `[t + xi, t - xi, tau]` for each stationary end (the head
/// first), then one per moving station `k_skip + k`, `k < len_xi`, each
/// bounding a new variable `t`; from row `b_len` on, the new variables from
/// column `var_len` on. Returns the next free row and the next free column,
/// `b_len + cones (dim + 2)` and `var_len + cones`.
pub fn thermal_energy_pattern_copp3(
    row: &mut Vec<usize>,
    col: &mut Vec<usize>,
    b_len: usize,
    var_len: usize,
    n: usize,
    dim: usize,
    num_stationary: (usize, usize),
) -> (r: (usize, usize))
    requires
        at_least_one(num_stationary.0 as int) + at_least_one(num_stationary.1 as int) <= n + 1,
        3 * (n + 1) <= usize::MAX,
        b_len + thermal_cone_count(n as int, num_stationary) * (dim + 2) <= usize::MAX,
        var_len + thermal_cone_count(n as int, num_stationary) <= usize::MAX,
    ensures
        ({
            let len_xi = n + 1 - at_least_one(num_stationary.0 as int) - at_least_one(num_stationary.1 as int);
            let k_skip = at_least_one(num_stationary.0 as int);
            let ends = present(num_stationary.0 as int) + present(num_stationary.1 as int);
            let b2 = b_len + ends * (dim + 2);
            let t2 = var_len + ends;
            &&& final(row)@ == old(row)@ + thermal_end_rows(b_len as int, dim as int, num_stationary)
                + thermal_moving_rows(b2, dim as int, len_xi)
            &&& final(col)@ == old(col)@ + thermal_end_cols(
                var_len as int,
                n as int,
                dim as int,
                len_xi,
                num_stationary,
            ) + thermal_moving_cols(t2, n as int, k_skip, dim as int, len_xi)
            &&& r.0 == b_len + thermal_cone_count(n as int, num_stationary) * (dim + 2)
            &&& r.1 == var_len + thermal_cone_count(n as int, num_stationary)
        }),
{
    let ghost r0 = row@;
    let ghost c0 = col@;
    let len_xi = length_xi(n, num_stationary);
    let k_skip = skip_a_for_xi(num_stationary.0);
    let ghost ends = present(num_stationary.0 as int) + present(num_stationary.1 as int);
    let ghost count = thermal_cone_count(n as int, num_stationary);
    assert(count == len_xi + ends);
    proof {
        lemma_cone_bound(dim as int, ends, count);
        lemma_cone_bound(dim as int, present(num_stationary.0 as int), count);
        assert(ends * (dim + 2) == present(num_stationary.0 as int) * (dim + 2) + present(
            num_stationary.1 as int,
        ) * (dim + 2)) by (nonlinear_arith)
            requires
                ends == present(num_stationary.0 as int) + present(num_stationary.1 as int),
        ;
        assert(count * (dim + 2) == ends * (dim + 2) + len_xi * (dim + 2)) by (nonlinear_arith)
            requires
                count == len_xi + ends,
        ;
    }
    let id_xi = 2 * (n + 1);
    let mut next = b_len;
    let mut t = var_len;
    if num_stationary.0 > 0 {
        next = push_torque_cone(row, col, next, t, id_xi, num_stationary.0, n + 1 + num_stationary.0, dim);
        t = t + 1;
    }
    assert(next == b_len + present(num_stationary.0 as int) * (dim + 2));
    if num_stationary.1 > 0 {
        next = push_torque_cone(
            row,
            col,
            next,
            t,
            id_xi + len_xi - 1,
            n - num_stationary.1,
            2 * n + 1 - num_stationary.1,
            dim,
        );
        t = t + 1;
    }
    assert(next == b_len + ends * (dim + 2)) by (nonlinear_arith)
        requires
            next == b_len + present(num_stationary.0 as int) * (dim + 2) + present(num_stationary.1 as int) * (
            dim + 2),
            ends == present(num_stationary.0 as int) + present(num_stationary.1 as int),
    ;
    proof {
        assert(row@ =~= r0 + thermal_end_rows(b_len as int, dim as int, num_stationary));
        assert(col@ =~= c0 + thermal_end_cols(var_len as int, n as int, dim as int, len_xi as int, num_stationary));
    }
    let ghost r1 = row@;
    let ghost c1 = col@;
    let b2 = next;
    let t2 = t;
    let mut k: usize = 0;
    while k < len_xi
        invariant
            0 <= k <= len_xi,
            len_xi + k_skip <= n + 1,
            3 * (n + 1) <= usize::MAX,
            id_xi == xi_column(n as int),
            b2 + len_xi * (dim + 2) <= usize::MAX,
            t2 + len_xi <= usize::MAX,
            next == b2 + k * (dim + 2),
            row@ == r1 + thermal_moving_rows(b2 as int, dim as int, k as int),
            col@ == c1 + thermal_moving_cols(t2 as int, n as int, k_skip as int, dim as int, k as int),
        decreases len_xi - k,
    {
        proof {
            lemma_cone_step(b2 as int, dim as int, k as int);
            lemma_cone_bound(dim as int, k + 1, len_xi as int);
        }
        next = push_torque_cone(row, col, next, t2 + k, id_xi + k, k_skip + k, n + 1 + k_skip + k, dim);
        k = k + 1;
        proof {
            assert(row@ =~= r1 + thermal_moving_rows(b2 as int, dim as int, k as int));
            assert(col@ =~= c1 + thermal_moving_cols(t2 as int, n as int, k_skip as int, dim as int, k as int));
        }
    }
    (next, t2 + len_xi)
}

/// Append the items of `items`.
fn push_all(v: &mut Vec<usize>, items: &Vec<usize>)
    ensures
        final(v)@ == old(v)@ + items@,
{
    let ghost base = v@;
    let mut i: usize = 0;
    while i < items.len()
        invariant
            0 <= i <= items.len(),
            v@ == base + items@.subrange(0, i as int),
        decreases items.len() - i,
    {
        v.push(items[i]);
        i = i + 1;
        proof {
            assert(v@ =~= base + items@.subrange(0, i as int));
        }
    }
    proof {
        assert(items@.subrange(0, items@.len() as int) =~= items@);
    }
}

/// Rows of the bound pairs `|dtau_i| <= t_i` for joints `i < count`, the
/// first pair at row `at`: the pair of joint `i` takes rows `at + 2 i` and
/// `at + 2 i + 1`, each listed `width` times (once per entry).
pub open spec fn tv_pair_rows(at: int, width: int, count: int) -> Seq<usize>
    decreases count,
{
    if count <= 0 {
        Seq::empty()
    } else {
        let r = at + 2 * (count - 1);
        tv_pair_rows(at, width, count - 1) + repeat_seq(r, width) + repeat_seq(r + 1, width)
    }
}

/// Columns of the bound pairs: both rows of joint `i` hold the columns
/// `base` of the torque difference and the column `t0 + i` of its bound.
pub open spec fn tv_pair_cols(base: Seq<usize>, t0: int, count: int) -> Seq<usize>
    decreases count,
{
    if count <= 0 {
        Seq::empty()
    } else {
        let entry = base.push((t0 + count - 1) as usize);
        tv_pair_cols(base, t0, count - 1) + entry + entry
    }
}

/// Append the bound pairs of `dim` joints from row `at`, their bounds from
/// column `t0` on; returns the next free row, `at + 2 dim`.
fn push_tv_pairs(
    row: &mut Vec<usize>,
    col: &mut Vec<usize>,
    at: usize,
    base: &Vec<usize>,
    t0: usize,
    dim: usize,
) -> (next: usize)
    requires
        at + 2 * dim <= usize::MAX,
        t0 + dim <= usize::MAX,
        base@.len() < usize::MAX,
    ensures
        final(row)@ == old(row)@ + tv_pair_rows(at as int, base@.len() + 1int, dim as int),
        final(col)@ == old(col)@ + tv_pair_cols(base@, t0 as int, dim as int),
        next == at + 2 * dim,
{
    let ghost r0 = row@;
    let ghost c0 = col@;
    let width = base.len() + 1;
    let mut i: usize = 0;
    while i < dim
        invariant
            0 <= i <= dim,
            width == base@.len() + 1,
            at + 2 * dim <= usize::MAX,
            t0 + dim <= usize::MAX,
            row@ == r0 + tv_pair_rows(at as int, width as int, i as int),
            col@ == c0 + tv_pair_cols(base@, t0 as int, i as int),
        decreases dim - i,
    {
        let r = at + 2 * i;
        push_repeat(row, r, width);
        push_repeat(row, r + 1, width);
        let ghost c1 = col@;
        push_all(col, base);
        col.push(t0 + i);
        push_all(col, base);
        col.push(t0 + i);
        proof {
            assert(col@ =~= c1 + base@.push((t0 + i) as usize) + base@.push((t0 + i) as usize));
        }
        i = i + 1;
        proof {
            assert(row@ =~= r0 + tv_pair_rows(at as int, width as int, i as int));
            assert(col@ =~= c0 + tv_pair_cols(base@, t0 as int, i as int));
        }
    }
    at + 2 * dim
}

/// Columns of the torque difference across the moving interval `k`:
/// `a[k]`, `a[k + 1]`, `b[k]`, `b[k + 1]`.
pub open spec fn tv_interval_base(n: int, k: int) -> Seq<usize> {
    seq![k as usize, (k + 1) as usize, (n + k + 1) as usize, (n + k + 2) as usize]
}

/// Rows of the bound pairs of the moving intervals `j < len`, the first at
/// row `at`, `2 dim` rows per interval.
pub open spec fn tv_moving_rows(at: int, dim: int, len: int) -> Seq<usize>
    decreases len,
{
    if len <= 0 {
        Seq::empty()
    } else {
        tv_moving_rows(at, dim, len - 1) + tv_pair_rows(at + 2 * dim * (len - 1), 5, dim)
    }
}

/// Columns of the bound pairs of the moving intervals `j < len`: interval
/// `j` is `k = first + j`, its bounds in columns `t0 + dim j ..`.
pub open spec fn tv_moving_cols(n: int, first: int, t0: int, dim: int, len: int) -> Seq<usize>
    decreases len,
{
    if len <= 0 {
        Seq::empty()
    } else {
        let j = len - 1;
        tv_moving_cols(n, first, t0, dim, j) + tv_pair_cols(tv_interval_base(n, first + j), t0 + dim * j, dim)
    }
}

/// Number of torque differences of the total-variation objective: one per
/// moving interval and one for each stationary end.
pub open spec fn tv_difference_count(n: int, num_stationary: (usize, usize)) -> int {
    n - num_stationary.0 - num_stationary.1 + present(num_stationary.0 as int) + present(
        num_stationary.1 as int,
    )
}

/// Rows of the bound pairs of the stationary ends, from row `b_len`.
pub open spec fn tv_end_rows(b_len: int, dim: int, num_stationary: (usize, usize)) -> Seq<usize> {
    let b1 = b_len + present(num_stationary.0 as int) * (2 * dim);
    (if num_stationary.0 > 0 {
        tv_pair_rows(b_len, 3, dim)
    } else {
        Seq::empty()
    }) + (if num_stationary.1 > 0 {
        tv_pair_rows(b1, 3, dim)
    } else {
        Seq::empty()
    })
}

/// Columns of the bound pairs of the stationary ends: the head difference
/// is taken at station `num_stationary.0`, the tail one at
/// `n - num_stationary.1`, each through its `a` and `b`.
pub open spec fn tv_end_cols(var_len: int, n: int, dim: int, num_stationary: (usize, usize)) -> Seq<usize> {
    let s0 = num_stationary.0 as int;
    let s1 = num_stationary.1 as int;
    let t1 = var_len + present(s0) * dim;
    (if s0 > 0 {
        tv_pair_cols(seq![s0 as usize, (n + s0 + 1) as usize], var_len, dim)
    } else {
        Seq::empty()
    }) + (if s1 > 0 {
        tv_pair_cols(seq![(n - s1) as usize, (2 * n - s1 + 1) as usize], t1, dim)
    } else {
        Seq::empty()
    })
}

/// The total-variation-of-torque objective of `dim` joints over `n + 1`
/// stations: for each stationary end (the head first) and then each moving
/// interval `num_stationary.0 <= k < n - num_stationary.1`, a bound pair
/// `+-dtau_i - t_i <= 0` per joint with a new variable `t_i`; from row
/// `b_len` on, the new variables from column `var_len` on. All rows form one
/// nonnegative cone. Returns the next free row and the next free column,
/// `b_len + 2 dim d` and `var_len + dim d` for `d` differences.
pub fn tv_torque_pattern_copp3(
    row: &mut Vec<usize>,
    col: &mut Vec<usize>,
    b_len: usize,
    var_len: usize,
    n: usize,
    dim: usize,
    num_stationary: (usize, usize),
) -> (r: (usize, usize))
    requires
        num_stationary.0 + num_stationary.1 <= n,
        2 * n + 2 <= usize::MAX,
        b_len + 2 * dim * tv_difference_count(n as int, num_stationary) <= usize::MAX,
        var_len + dim * tv_difference_count(n as int, num_stationary) <= usize::MAX,
    ensures
        ({
            let m = n - num_stationary.0 - num_stationary.1;
            let ends = present(num_stationary.0 as int) + present(num_stationary.1 as int);
            let b2 = b_len + 2 * dim * ends;
            let t2 = var_len + dim * ends;
            &&& final(row)@ == old(row)@ + tv_end_rows(b_len as int, dim as int, num_stationary) + tv_moving_rows(
                b2,
                dim as int,
                m,
            )
            &&& final(col)@ == old(col)@ + tv_end_cols(var_len as int, n as int, dim as int, num_stationary)
                + tv_moving_cols(n as int, num_stationary.0 as int, t2, dim as int, m)
            &&& r.0 == b_len + 2 * dim * tv_difference_count(n as int, num_stationary)
            &&& r.1 == var_len + dim * tv_difference_count(n as int, num_stationary)
        }),
{
    let ghost r0 = row@;
    let ghost c0 = col@;
    let s0 = num_stationary.0;
    let s1 = num_stationary.1;
    let m = n - s0 - s1;
    let ghost p0 = present(s0 as int);
    let ghost p1 = present(s1 as int);
    let ghost ends = p0 + p1;
    let ghost count = tv_difference_count(n as int, num_stationary);
    proof {
        assert(count == m + ends);
        assert(2 * dim * count == 2 * dim * p0 + 2 * dim * p1 + 2 * dim * m) by (nonlinear_arith)
            requires
                count == m + p0 + p1,
        ;
        assert(dim * count == dim * p0 + dim * p1 + dim * m) by (nonlinear_arith)
            requires
                count == m + p0 + p1,
        ;
        assert(0 <= 2 * dim * p0 && 0 <= 2 * dim * p1 && 0 <= 2 * dim * m) by (nonlinear_arith)
            requires
                0 <= p0,
                0 <= p1,
                0 <= m,
        ;
        assert(0 <= dim * p0 && 0 <= dim * p1 && 0 <= dim * m) by (nonlinear_arith)
            requires
                0 <= p0,
                0 <= p1,
                0 <= m,
        ;
    }
    let mut next = b_len;
    let mut t = var_len;
    if s0 > 0 {
        let mut base: Vec<usize> = Vec::new();
        base.push(s0);
        base.push(n + s0 + 1);
        assert(base@ =~= seq![s0, (n + s0 + 1) as usize]);
        next = push_tv_pairs(row, col, next, &base, t, dim);
        t = t + dim;
    }
    assert(next == b_len + 2 * dim * p0 && t == var_len + dim * p0);
    if s1 > 0 {
        let mut base: Vec<usize> = Vec::new();
        base.push(n - s1);
        base.push(2 * n - s1 + 1);
        assert(base@ =~= seq![(n - s1) as usize, (2 * n - s1 + 1) as usize]);
        next = push_tv_pairs(row, col, next, &base, t, dim);
        t = t + dim;
    }
    assert(next == b_len + 2 * dim * ends && t == var_len + dim * ends) by (nonlinear_arith)
        requires
            next == b_len + 2 * dim * p0 + 2 * dim * p1,
            t == var_len + dim * p0 + dim * p1,
            ends == p0 + p1,
    ;
    proof {
        assert(row@ =~= r0 + tv_end_rows(b_len as int, dim as int, num_stationary));
        assert(col@ =~= c0 + tv_end_cols(var_len as int, n as int, dim as int, num_stationary));
    }
    let ghost r1 = row@;
    let ghost c1 = col@;
    let b2 = next;
    let t2 = t;
    let mut j: usize = 0;
    while j < m
        invariant
            0 <= j <= m,
            m == n - s0 - s1,
            s0 == num_stationary.0,
            2 * n + 2 <= usize::MAX,
            b2 + 2 * dim * m <= usize::MAX,
            t2 + dim * m <= usize::MAX,
            next == b2 + 2 * dim * j,
            t == t2 + dim * j,
            row@ == r1 + tv_moving_rows(b2 as int, dim as int, j as int),
            col@ == c1 + tv_moving_cols(n as int, s0 as int, t2 as int, dim as int, j as int),
        decreases m - j,
    {
        proof {
            assert(2 * dim * (j + 1) == 2 * dim * j + 2 * dim && dim * (j + 1) == dim * j + dim) by (
            nonlinear_arith);
            assert(2 * dim * (j + 1) <= 2 * dim * m && dim * (j + 1) <= dim * m) by (nonlinear_arith)
                requires
                    j + 1 <= m,
            ;
        }
        let k = s0 + j;
        let mut base: Vec<usize> = Vec::new();
        base.push(k);
        base.push(k + 1);
        base.push(n + k + 1);
        base.push(n + k + 2);
        assert(base@ =~= tv_interval_base(n as int, k as int));
        next = push_tv_pairs(row, col, next, &base, t, dim);
        t = t + dim;
        j = j + 1;
        proof {
            assert(row@ =~= r1 + tv_moving_rows(b2 as int, dim as int, j as int));
            assert(col@ =~= c1 + tv_moving_cols(n as int, s0 as int, t2 as int, dim as int, j as int));
        }
    }
    (next, t)
}

/// Columns of the cones `[a[k] + 1/4, a[k] - 1/4, eta[k]]` for `k < len`,
/// with `eta[k]` in column `n + 1 + k`.
pub open spec fn sqrt_a_cols(n: int, len: int) -> Seq<usize>
    decreases len,
{
    if len <= 0 {
        Seq::empty()
    } else {
        let k = len - 1;
        sqrt_a_cols(n, k) + seq![k as usize, k as usize, (n + 1 + k) as usize]
    }
}

/// Length of the decision vector `[a[0 ..= n], eta[0 ..= n]]` of a
/// second-order program: `2 (n + 1)` where `eta` is needed, else `n + 1`.
pub fn sqrt_a_len_copp2(n: usize, kinds: &Vec<ObjectiveKind>) -> (r: usize)
    requires
        2 * (n + 1) <= usize::MAX,
    ensures
        r == if needs_sqrt_a(kinds@) {
            2 * (n + 1)
        } else {
            n + 1
        },
{
    let mut i: usize = 0;
    while i < kinds.len()
        invariant
            0 <= i <= kinds.len(),
            2 * (n + 1) <= usize::MAX,
            forall|j: int|
                0 <= j < i ==> !(#[trigger] kinds@[j] == ObjectiveKind::Time || kinds@[j]
                    == ObjectiveKind::ThermalEnergy),
        decreases kinds.len() - i,
    {
        match kinds[i] {
            ObjectiveKind::Time | ObjectiveKind::ThermalEnergy => {
                assert(kinds@[i as int] == ObjectiveKind::Time || kinds@[i as int] == ObjectiveKind::ThermalEnergy);
                return 2 * (n + 1);
            },
            _ => {},
        }
        i = i + 1;
    }
    n + 1
}

/// The block `0 <= eta[k] <= sqrt(a[k])`, `k <= n`, of a second-order
/// program: the rows of `eta >= 0`, then of the cones
/// `[a[k] + 1/4, a[k] - 1/4, eta[k]]`, from row `b_len` on; returns the next
/// free row, `b_len + 4 (n + 1)`.
pub fn sqrt_a_pattern_copp2(row: &mut Vec<usize>, col: &mut Vec<usize>, b_len: usize, n: usize) -> (r: usize)
    requires
        b_len + 4 * (n + 1) <= usize::MAX,
        2 * (n + 1) <= usize::MAX,
    ensures
        final(row)@ == old(row)@ + range_seq(b_len as int, n + 1) + range_seq(b_len + n + 1, 3 * (n + 1)),
        final(col)@ == old(col)@ + range_seq(n + 1, n + 1) + sqrt_a_cols(n as int, n + 1),
        r == b_len + 4 * (n + 1),
{
    let ghost c0 = col@;
    push_range(row, b_len, n + 1);
    push_range(row, b_len + n + 1, 3 * (n + 1));
    push_range(col, n + 1, n + 1);
    let ghost c1 = col@;
    let mut k: usize = 0;
    while k <= n
        invariant
            0 <= k <= n + 1,
            2 * (n + 1) <= usize::MAX,
            col@ == c1 + sqrt_a_cols(n as int, k as int),
        decreases n + 1 - k,
    {
        col.push(k);
        col.push(k);
        col.push(n + 1 + k);
        k = k + 1;
        proof {
            assert(col@ =~= c1 + sqrt_a_cols(n as int, k as int));
        }
    }
    proof {
        assert(col@ =~= c0 + range_seq(n + 1, n + 1) + sqrt_a_cols(n as int, n + 1));
    }
    b_len + 4 * (n + 1)
}

/// The two rows `at`, `at + 1` of a cone's leading pair, each listed
/// `width` times.
pub open spec fn pair_rows(at: int, width: int) -> Seq<usize> {
    repeat_seq(at, width) + repeat_seq(at + 1, width)
}

/// Columns of the leading pair `[eta[k] + eta[k+1] + t[k], eta[k] + eta[k+1] - t[k]]`
/// of interval `k`, `eta[k]` in column `n + 1 + k` and `t[k]` in `t0 + k`.
pub open spec fn interval_pair_cols(n: int, t0: int, k: int) -> Seq<usize> {
    let e = seq![(n + 1 + k) as usize, (n + 2 + k) as usize, (t0 + k) as usize];
    e + e
}

/// Rows of the time cones of the intervals `k < len`, three rows apart from
/// row `at` (the third row of each cone holds only a constant).
pub open spec fn time2_rows(at: int, len: int) -> Seq<usize>
    decreases len,
{
    if len <= 0 {
        Seq::empty()
    } else {
        time2_rows(at, len - 1) + pair_rows(at + 3 * (len - 1), 3)
    }
}

/// Columns of the time cones of the intervals `k < len`.
pub open spec fn time2_cols(n: int, t0: int, len: int) -> Seq<usize>
    decreases len,
{
    if len <= 0 {
        Seq::empty()
    } else {
        time2_cols(n, t0, len - 1) + interval_pair_cols(n, t0, len - 1)
    }
}

/// The time objective of a second-order program over `n` intervals: per
/// interval `k` a cone `[eta[k] + eta[k+1] + t[k], eta[k] + eta[k+1] - t[k], 1]`
/// with a new variable `t[k]` in column `var_len + k`, from row `b_len` on;
/// returns the next free row, `b_len + 3 n`.
pub fn time_pattern_copp2(
    row: &mut Vec<usize>,
    col: &mut Vec<usize>,
    b_len: usize,
    var_len: usize,
    n: usize,
) -> (r: usize)
    requires
        b_len + 3 * n <= usize::MAX,
        var_len + n <= usize::MAX,
        2 * n + 2 <= usize::MAX,
    ensures
        final(row)@ == old(row)@ + time2_rows(b_len as int, n as int),
        final(col)@ == old(col)@ + time2_cols(n as int, var_len as int, n as int),
        r == b_len + 3 * n,
{
    let ghost r0 = row@;
    let ghost c0 = col@;
    let mut k: usize = 0;
    while k < n
        invariant
            0 <= k <= n,
            b_len + 3 * n <= usize::MAX,
            var_len + n <= usize::MAX,
            2 * n + 2 <= usize::MAX,
            row@ == r0 + time2_rows(b_len as int, k as int),
            col@ == c0 + time2_cols(n as int, var_len as int, k as int),
        decreases n - k,
    {
        let at = b_len + 3 * k;
        push_repeat(row, at, 3);
        push_repeat(row, at + 1, 3);
        let ghost c1 = col@;
        col.push(n + 1 + k);
        col.push(n + 2 + k);
        col.push(var_len + k);
        col.push(n + 1 + k);
        col.push(n + 2 + k);
        col.push(var_len + k);
        proof {
            assert(col@ =~= c1 + interval_pair_cols(n as int, var_len as int, k as int));
        }
        k = k + 1;
        proof {
            assert(row@ =~= r0 + time2_rows(b_len as int, k as int));
            assert(col@ =~= c0 + time2_cols(n as int, var_len as int, k as int));
        }
    }
    b_len + 3 * n
}

/// Rows of the `count` torque rows of a cone from row `at`, each with two
/// entries.
pub open spec fn joint_rows(at: int, count: int) -> Seq<usize>
    decreases count,
{
    if count <= 0 {
        Seq::empty()
    } else {
        joint_rows(at, count - 1) + repeat_seq(at + count - 1, 2)
    }
}

/// Columns of the `count` torque rows of interval `k`: `a[k]`, `a[k+1]`.
pub open spec fn joint_cols(k: int, count: int) -> Seq<usize>
    decreases count,
{
    if count <= 0 {
        Seq::empty()
    } else {
        joint_cols(k, count - 1) + seq![k as usize, (k + 1) as usize]
    }
}

/// Rows of the thermal cones of the intervals `k < len`, `dim + 2` rows
/// each from row `at`.
pub open spec fn thermal2_rows(at: int, dim: int, len: int) -> Seq<usize>
    decreases len,
{
    if len <= 0 {
        Seq::empty()
    } else {
        let r = at + (len - 1) * (dim + 2);
        thermal2_rows(at, dim, len - 1) + pair_rows(r, 3) + joint_rows(r + 2, dim)
    }
}

/// Columns of the thermal cones of the intervals `k < len`.
pub open spec fn thermal2_cols(n: int, t0: int, dim: int, len: int) -> Seq<usize>
    decreases len,
{
    if len <= 0 {
        Seq::empty()
    } else {
        let k = len - 1;
        thermal2_cols(n, t0, dim, k) + interval_pair_cols(n, t0, k) + joint_cols(k, dim)
    }
}

/// The thermal-energy objective of `dim` joints over the `n` intervals of a
/// second-order program: per interval `k` a cone
/// `[eta[k] + eta[k+1] + t[k], eta[k] + eta[k+1] - t[k], tau_0, ..., tau_{dim-1}]`
/// with a new variable `t[k]` in column `var_len + k`, from row `b_len` on;
/// returns the next free row, `b_len + n (dim + 2)`.
pub fn thermal_energy_pattern_copp2(
    row: &mut Vec<usize>,
    col: &mut Vec<usize>,
    b_len: usize,
    var_len: usize,
    n: usize,
    dim: usize,
) -> (r: usize)
    requires
        b_len + n * (dim + 2) <= usize::MAX,
        var_len + n <= usize::MAX,
        2 * n + 2 <= usize::MAX,
    ensures
        final(row)@ == old(row)@ + thermal2_rows(b_len as int, dim as int, n as int),
        final(col)@ == old(col)@ + thermal2_cols(n as int, var_len as int, dim as int, n as int),
        r == b_len + n * (dim + 2),
{
    let ghost r0 = row@;
    let ghost c0 = col@;
    let mut k: usize = 0;
    let mut at = b_len;
    while k < n
        invariant
            0 <= k <= n,
            b_len + n * (dim + 2) <= usize::MAX,
            var_len + n <= usize::MAX,
            2 * n + 2 <= usize::MAX,
            at == b_len + k * (dim + 2),
            row@ == r0 + thermal2_rows(b_len as int, dim as int, k as int),
            col@ == c0 + thermal2_cols(n as int, var_len as int, dim as int, k as int),
        decreases n - k,
    {
        proof {
            lemma_cone_step(b_len as int, dim as int, k as int);
            lemma_cone_bound(dim as int, k + 1, n as int);
        }
        let ghost r1 = row@;
        push_repeat(row, at, 3);
        push_repeat(row, at + 1, 3);
        let mut i: usize = 0;
        while i < dim
            invariant
                0 <= i <= dim,
                at + dim + 2 <= usize::MAX,
                row@ == r1 + pair_rows(at as int, 3) + joint_rows(at + 2, i as int),
            decreases dim - i,
        {
            push_repeat(row, at + 2 + i, 2);
            i = i + 1;
            proof {
                assert(row@ =~= r1 + pair_rows(at as int, 3) + joint_rows(at + 2, i as int));
            }
        }
        let ghost c1 = col@;
        col.push(n + 1 + k);
        col.push(n + 2 + k);
        col.push(var_len + k);
        col.push(n + 1 + k);
        col.push(n + 2 + k);
        col.push(var_len + k);
        let mut i: usize = 0;
        while i < dim
            invariant
                0 <= i <= dim,
                k < n,
                2 * n + 2 <= usize::MAX,
                col@ == c1 + interval_pair_cols(n as int, var_len as int, k as int) + joint_cols(k as int, i as int),
            decreases dim - i,
        {
            col.push(k);
            col.push(k + 1);
            i = i + 1;
            proof {
                assert(col@ =~= c1 + interval_pair_cols(n as int, var_len as int, k as int) + joint_cols(
                    k as int,
                    i as int,
                ));
            }
        }
        at = at + dim + 2;
        k = k + 1;
        proof {
            assert(row@ =~= r0 + thermal2_rows(b_len as int, dim as int, k as int));
            assert(col@ =~= c0 + thermal2_cols(n as int, var_len as int, dim as int, k as int));
        }
    }
    at
}

/// Columns of the torque difference across the intervals `k` and `k + 1`
/// of a second-order program: `a[k]`, `a[k + 1]`, `a[k + 2]`.
pub open spec fn tv2_base(k: int) -> Seq<usize> {
    seq![k as usize, (k + 1) as usize, (k + 2) as usize]
}

/// Rows of the bound pairs of the differences `j < len`, `2 dim` rows each
/// from row `at`.
pub open spec fn tv2_rows(at: int, dim: int, len: int) -> Seq<usize>
    decreases len,
{
    if len <= 0 {
        Seq::empty()
    } else {
        tv2_rows(at, dim, len - 1) + tv_pair_rows(at + 2 * dim * (len - 1), 4, dim)
    }
}

/// Columns of the bound pairs of the differences `j < len`, the bounds of
/// difference `j` in columns `t0 + dim j ..`.
pub open spec fn tv2_cols(t0: int, dim: int, len: int) -> Seq<usize>
    decreases len,
{
    if len <= 0 {
        Seq::empty()
    } else {
        let j = len - 1;
        tv2_cols(t0, dim, j) + tv_pair_cols(tv2_base(j), t0 + dim * j, dim)
    }
}

/// Number of torque differences between consecutive intervals among `n`.
pub open spec fn tv2_difference_count(n: int) -> int {
    if n >= 1 {
        n - 1
    } else {
        0
    }
}

/// The total-variation-of-torque objective of `dim` joints over the `n`
/// intervals of a second-order program: per pair of consecutive intervals
/// and per joint, a bound pair `+-dtau_i - t_i <= 0` with a new variable
/// `t_i`, from row `b_len` on, the new variables from column `var_len` on.
/// All rows form one nonnegative cone. Returns the next free row and the
/// next free column, `b_len + 2 dim d` and `var_len + dim d` for
/// `d = max(n - 1, 0)` differences.
pub fn tv_torque_pattern_copp2(
    row: &mut Vec<usize>,
    col: &mut Vec<usize>,
    b_len: usize,
    var_len: usize,
    n: usize,
    dim: usize,
) -> (r: (usize, usize))
    requires
        b_len + 2 * dim * tv2_difference_count(n as int) <= usize::MAX,
        var_len + dim * tv2_difference_count(n as int) <= usize::MAX,
        n + 2 <= usize::MAX,
    ensures
        final(row)@ == old(row)@ + tv2_rows(b_len as int, dim as int, tv2_difference_count(n as int)),
        final(col)@ == old(col)@ + tv2_cols(var_len as int, dim as int, tv2_difference_count(n as int)),
        r.0 == b_len + 2 * dim * tv2_difference_count(n as int),
        r.1 == var_len + dim * tv2_difference_count(n as int),
{
    let ghost r0 = row@;
    let ghost c0 = col@;
    let m = if n >= 1 {
        n - 1
    } else {
        0
    };
    let mut next = b_len;
    let mut t = var_len;
    let mut j: usize = 0;
    while j < m
        invariant
            0 <= j <= m,
            m == tv2_difference_count(n as int),
            n + 2 <= usize::MAX,
            m <= n,
            b_len + 2 * dim * m <= usize::MAX,
            var_len + dim * m <= usize::MAX,
            next == b_len + 2 * dim * j,
            t == var_len + dim * j,
            row@ == r0 + tv2_rows(b_len as int, dim as int, j as int),
            col@ == c0 + tv2_cols(var_len as int, dim as int, j as int),
        decreases m - j,
    {
        proof {
            assert(2 * dim * (j + 1) == 2 * dim * j + 2 * dim && dim * (j + 1) == dim * j + dim) by (
            nonlinear_arith);
            assert(2 * dim * (j + 1) <= 2 * dim * m && dim * (j + 1) <= dim * m) by (nonlinear_arith)
                requires
                    j + 1 <= m,
            ;
        }
        let mut base: Vec<usize> = Vec::new();
        base.push(j);
        base.push(j + 1);
        base.push(j + 2);
        assert(base@ =~= tv2_base(j as int));
        next = push_tv_pairs(row, col, next, &base, t, dim);
        t = t + dim;
        j = j + 1;
        proof {
            assert(row@ =~= r0 + tv2_rows(b_len as int, dim as int, j as int));
            assert(col@ =~= c0 + tv2_cols(var_len as int, dim as int, j as int));
        }
    }
    (next, t)
}

/// Length of the decision vector `[a, b, xi]` of a third-order program
/// before its objective terms: `2 (n + 1) + len_xi` where `xi` is needed,
/// else `2 (n + 1)`.
pub fn sqrt_a_len_copp3(n: usize, kinds: &Vec<ObjectiveKind>, num_stationary: (usize, usize)) -> (r: usize)
    requires
        at_least_one(num_stationary.0 as int) + at_least_one(num_stationary.1 as int) <= n + 1,
        3 * (n + 1) <= usize::MAX,
    ensures
        r == if needs_sqrt_a(kinds@) {
            xi_column(n as int) + n + 1 - at_least_one(num_stationary.0 as int) - at_least_one(
                num_stationary.1 as int,
            )
        } else {
            xi_column(n as int)
        },
{
    let mut i: usize = 0;
    while i < kinds.len()
        invariant
            0 <= i <= kinds.len(),
            at_least_one(num_stationary.0 as int) + at_least_one(num_stationary.1 as int) <= n + 1,
            3 * (n + 1) <= usize::MAX,
            forall|j: int|
                0 <= j < i ==> !(#[trigger] kinds@[j] == ObjectiveKind::Time || kinds@[j]
                    == ObjectiveKind::ThermalEnergy),
        decreases kinds.len() - i,
    {
        match kinds[i] {
            ObjectiveKind::Time | ObjectiveKind::ThermalEnergy => {
                assert(kinds@[i as int] == ObjectiveKind::Time || kinds@[i as int] == ObjectiveKind::ThermalEnergy);
                return 2 * (n + 1) + length_xi(n, num_stationary);
            },
            _ => {},
        }
        i = i + 1;
    }
    2 * (n + 1)
}

/// The block `0 <= xi[k] <= sqrt(a[k + k_skip])`, `k < len_xi`, of a
/// third-order program: the rows of `xi >= 0`, then of the cones
/// `[a + 1/4, a - 1/4, xi]`, from row `b_len` on; returns the next free
/// row, `b_len + 4 len_xi`.
pub fn sqrt_a_pattern_copp3(
    row: &mut Vec<usize>,
    col: &mut Vec<usize>,
    b_len: usize,
    n: usize,
    num_stationary: (usize, usize),
) -> (r: usize)
    requires
        at_least_one(num_stationary.0 as int) + at_least_one(num_stationary.1 as int) <= n + 1,
        3 * (n + 1) <= usize::MAX,
        b_len + 4 * (n + 1) <= usize::MAX,
    ensures
        ({
            let len_xi = n + 1 - at_least_one(num_stationary.0 as int) - at_least_one(num_stationary.1 as int);
            let k_skip = at_least_one(num_stationary.0 as int);
            &&& final(row)@ == old(row)@ + range_seq(b_len as int, len_xi) + range_seq(b_len + len_xi, 3 * len_xi)
            &&& final(col)@ == old(col)@ + range_seq(xi_column(n as int), len_xi) + qp_sqrt_cols(
                k_skip,
                xi_column(n as int),
                len_xi,
            )
            &&& r == b_len + 4 * len_xi
        }),
{
    let ghost c0 = col@;
    let len_xi = length_xi(n, num_stationary);
    let k_skip = skip_a_for_xi(num_stationary.0);
    let id_xi = 2 * (n + 1);
    push_range(row, b_len, len_xi);
    push_range(row, b_len + len_xi, 3 * len_xi);
    push_range(col, id_xi, len_xi);
    let ghost c1 = col@;
    let mut k: usize = 0;
    while k < len_xi
        invariant
            0 <= k <= len_xi,
            len_xi + k_skip <= n + 1,
            id_xi == xi_column(n as int),
            3 * (n + 1) <= usize::MAX,
            col@ == c1 + qp_sqrt_cols(k_skip as int, id_xi as int, k as int),
        decreases len_xi - k,
    {
        col.push(k + k_skip);
        col.push(k + k_skip);
        col.push(id_xi + k);
        k = k + 1;
        proof {
            assert(col@ =~= c1 + qp_sqrt_cols(k_skip as int, id_xi as int, k as int));
        }
    }
    proof {
        assert(col@ =~= c0 + range_seq(id_xi as int, len_xi as int) + qp_sqrt_cols(
            k_skip as int,
            id_xi as int,
            len_xi as int,
        ));
    }
    b_len + 4 * len_xi
}

proof fn lemma_qp_pair_len(at: int, id_xi: int, id_eta: int, len: int)
    requires
        0 <= len,
    ensures
        qp_pair_rows(at, len).len() == 4 * len,
        qp_pair_cols(id_xi, id_eta, len).len() == 4 * len,
    decreases len,
{
    if len > 0 {
        lemma_qp_pair_len(at, id_xi, id_eta, len - 1);
    }
}

proof fn lemma_thermal_moving_len(at: int, t0: int, n: int, k_skip: int, dim: int, len: int)
    requires
        0 <= len,
        0 <= dim,
    ensures
        thermal_moving_rows(at, dim, len).len() == len * (2 * dim + 4),
        thermal_moving_cols(t0, n, k_skip, dim, len).len() == len * (2 * dim + 4),
    decreases len,
{
    if len > 0 {
        lemma_thermal_moving_len(at, t0, n, k_skip, dim, len - 1);
        let k = len - 1;
        assert(torque_cone_rows(at + k * (dim + 2), dim).len() == 2 * dim + 4);
        assert(torque_cone_cols(t0 + k, xi_column(n) + k, k_skip + k, n + 1 + k_skip + k, dim).len() == 2 * dim + 4);
        assert(len * (2 * dim + 4) == (len - 1) * (2 * dim + 4) + (2 * dim + 4)) by (nonlinear_arith);
    } else {
        assert(len * (2 * dim + 4) == 0) by (nonlinear_arith)
            requires
                len == 0,
        ;
    }
}

proof fn lemma_tv_pair_len(at: int, width: int, base: Seq<usize>, t0: int, count: int)
    requires
        0 <= count,
        0 <= width,
    ensures
        tv_pair_rows(at, width, count).len() == 2 * width * count,
        tv_pair_cols(base, t0, count).len() == 2 * (base.len() + 1) * count,
    decreases count,
{
    if count > 0 {
        lemma_tv_pair_len(at, width, base, t0, count - 1);
        assert(2 * width * count == 2 * width * (count - 1) + 2 * width) by (nonlinear_arith);
        assert(2 * (base.len() + 1) * count == 2 * (base.len() + 1) * (count - 1) + 2 * (base.len() + 1))
            by (nonlinear_arith);
    } else {
        assert(2 * width * count == 0 && 2 * (base.len() + 1) * count == 0) by (nonlinear_arith)
            requires
                count == 0,
        ;
    }
}

proof fn lemma_tv_moving_len(at: int, n: int, first: int, t0: int, dim: int, len: int)
    requires
        0 <= len,
        0 <= dim,
    ensures
        tv_moving_rows(at, dim, len).len() == 10 * dim * len,
        tv_moving_cols(n, first, t0, dim, len).len() == 10 * dim * len,
    decreases len,
{
    if len > 0 {
        lemma_tv_moving_len(at, n, first, t0, dim, len - 1);
        lemma_tv_pair_len(at + 2 * dim * (len - 1), 5, tv_interval_base(n, first + len - 1), t0 + dim * (len - 1), dim);
        assert(10 * dim * len == 10 * dim * (len - 1) + 10 * dim) by (nonlinear_arith);
    } else {
        assert(10 * dim * len == 0) by (nonlinear_arith)
            requires
                len == 0,
        ;
    }
}

/// The room that the capacity estimate of a third-order program reserves
/// for each objective term covers what the term's block appends: its
/// nonzeros (one row index per entry), its rows, and its new variables; and
/// the room reserved for the `sqrt(a)` block covers that block's nonzeros
/// and rows. Stated for stationary counts that leave a motion interval.
pub proof fn lemma_copp3_blocks_fit_capacity(
    b_len: int,
    var_len: int,
    n: int,
    dim: int,
    num_stationary: (usize, usize),
)
    requires
        num_stationary.0 + num_stationary.1 + 2 <= n + 1,
        0 <= dim,
    ensures
        ({
            let len_xi = n + 1 - at_least_one(num_stationary.0 as int) - at_least_one(num_stationary.1 as int);
            let k_skip = at_least_one(num_stationary.0 as int);
            let time = copp3_term_capacity(ObjectiveKind::Time, n, dim);
            let thermal = copp3_term_capacity(ObjectiveKind::ThermalEnergy, n, dim);
            let tv = copp3_term_capacity(ObjectiveKind::TotalVariationTorque, n, dim);
            let base = base_capacity(seq![ObjectiveKind::Time], n, true);
            let ends3 = present(num_stationary.0 as int) + present(num_stationary.1 as int);
            &&& (range_seq(b_len, len_xi) + range_seq(b_len + len_xi, 3 * len_xi)).len() <= base.0
            &&& 4 * len_xi <= base.1
            &&& (range_seq(b_len, len_xi) + qp_pair_rows(b_len + len_xi, len_xi)).len() <= time.0
            &&& 4 * len_xi <= time.1
            &&& len_xi <= time.3
            &&& (thermal_end_rows(b_len, dim, num_stationary) + thermal_moving_rows(
                b_len + ends3 * (dim + 2),
                dim,
                len_xi,
            )).len() <= thermal.0
            &&& thermal_cone_count(n, num_stationary) * (dim + 2) <= thermal.1
            &&& thermal_cone_count(n, num_stationary) <= thermal.3
            &&& (tv_end_rows(b_len, dim, num_stationary) + tv_moving_rows(
                b_len + 2 * dim * ends3,
                dim,
                n - num_stationary.0 - num_stationary.1,
            )).len() <= tv.0
            &&& 2 * dim * tv_difference_count(n, num_stationary) <= tv.1
            &&& dim * tv_difference_count(n, num_stationary) <= tv.3
        }),
{
    let s0 = num_stationary.0 as int;
    let s1 = num_stationary.1 as int;
    let len_xi = n + 1 - at_least_one(s0) - at_least_one(s1);
    let ends3 = present(s0) + present(s1);
    let m = n - s0 - s1;
    assert(needs_sqrt_a(seq![ObjectiveKind::Time])) by {
        assert(seq![ObjectiveKind::Time][0] == ObjectiveKind::Time);
    }
    lemma_qp_pair_len(b_len + len_xi, 0, 0, len_xi);
    lemma_thermal_moving_len(b_len + ends3 * (dim + 2), 0, n, 0, dim, len_xi);
    lemma_tv_moving_len(b_len + 2 * dim * ends3, n, s0, 0, dim, m);
    lemma_tv_pair_len(b_len, 3, seq![0usize], 0, dim);
    lemma_tv_pair_len(b_len + present(s0) * (2 * dim), 3, seq![0usize], 0, dim);
    let count = thermal_cone_count(n, num_stationary);
    assert(count == len_xi + ends3);
    assert(count <= n + 1);
    assert(count * (dim + 2) <= (dim + 2) * (n + 1)) by (nonlinear_arith)
        requires
            count <= n + 1,
            0 <= dim,
    ;
    assert(ends3 * (2 * dim + 4) + len_xi * (2 * dim + 4) <= (4 + 2 * dim) * (n + 1)) by (nonlinear_arith)
        requires
            ends3 + len_xi <= n + 1,
            0 <= ends3,
            0 <= len_xi,
            0 <= dim,
    ;
    let d = tv_difference_count(n, num_stationary);
    assert(d == m + ends3 && d <= n);
    assert(2 * dim * d <= 2 * (dim * n) && dim * d <= dim * n) by (nonlinear_arith)
        requires
            d <= n,
            0 <= dim,
    ;
    assert(6 * dim * ends3 + 10 * dim * m <= 10 * (dim * n)) by (nonlinear_arith)
        requires
            ends3 + m <= n,
            0 <= ends3,
            0 <= m,
            0 <= dim,
    ;
    assert((thermal_end_rows(b_len, dim, num_stationary)).len() == ends3 * (2 * dim + 4)) by (nonlinear_arith)
        requires
            thermal_end_rows(b_len, dim, num_stationary).len() == (if s0 > 0 {
                2 * dim + 4
            } else {
                0
            }) + (if s1 > 0 {
                2 * dim + 4
            } else {
                0
            }),
            ends3 == present(s0) + present(s1),
            present(s0) == (if s0 > 0 {
                1int
            } else {
                0
            }),
            present(s1) == (if s1 > 0 {
                1int
            } else {
                0
            }),
    ;
    assert((tv_end_rows(b_len, dim, num_stationary)).len() == 6 * dim * ends3) by (nonlinear_arith)
        requires
            tv_end_rows(b_len, dim, num_stationary).len() == (if s0 > 0 {
                6 * dim
            } else {
                0
            }) + (if s1 > 0 {
                6 * dim
            } else {
                0
            }),
            ends3 == present(s0) + present(s1),
            present(s0) == (if s0 > 0 {
                1int
            } else {
                0
            }),
            present(s1) == (if s1 > 0 {
                1int
            } else {
                0
            }),
    ;
}

proof fn lemma_time2_len(at: int, n: int, t0: int, len: int)
    requires
        0 <= len,
    ensures
        time2_rows(at, len).len() == 6 * len,
        time2_cols(n, t0, len).len() == 6 * len,
    decreases len,
{
    if len > 0 {
        lemma_time2_len(at, n, t0, len - 1);
    }
}

proof fn lemma_joint_len(at: int, k: int, count: int)
    requires
        0 <= count,
    ensures
        joint_rows(at, count).len() == 2 * count,
        joint_cols(k, count).len() == 2 * count,
    decreases count,
{
    if count > 0 {
        lemma_joint_len(at, k, count - 1);
    }
}

proof fn lemma_thermal2_len(at: int, n: int, t0: int, dim: int, len: int)
    requires
        0 <= len,
        0 <= dim,
    ensures
        thermal2_rows(at, dim, len).len() == len * (2 * dim + 6),
        thermal2_cols(n, t0, dim, len).len() == len * (2 * dim + 6),
    decreases len,
{
    if len > 0 {
        lemma_thermal2_len(at, n, t0, dim, len - 1);
        lemma_joint_len(at + (len - 1) * (dim + 2) + 2, len - 1, dim);
        assert(len * (2 * dim + 6) == (len - 1) * (2 * dim + 6) + (2 * dim + 6)) by (nonlinear_arith);
    } else {
        assert(len * (2 * dim + 6) == 0) by (nonlinear_arith)
            requires
                len == 0,
        ;
    }
}

proof fn lemma_tv2_len(at: int, t0: int, dim: int, len: int)
    requires
        0 <= len,
        0 <= dim,
    ensures
        tv2_rows(at, dim, len).len() == 8 * dim * len,
        tv2_cols(t0, dim, len).len() == 8 * dim * len,
    decreases len,
{
    if len > 0 {
        lemma_tv2_len(at, t0, dim, len - 1);
        lemma_tv_pair_len(at + 2 * dim * (len - 1), 4, tv2_base(len - 1), t0 + dim * (len - 1), dim);
        assert(8 * dim * len == 8 * dim * (len - 1) + 8 * dim) by (nonlinear_arith);
    } else {
        assert(8 * dim * len == 0) by (nonlinear_arith)
            requires
                len == 0,
        ;
    }
}

/// The room that the capacity estimate of a second-order program over
/// `n + 1` stations reserves for each objective term covers what the term's
/// block appends: its nonzeros (one row index per entry), its rows, and its
/// new variables; and the room reserved for the `sqrt(a)` block covers that
/// block's nonzeros, rows and variables.
pub proof fn lemma_copp2_blocks_fit_capacity(b_len: int, var_len: int, n: int, dim: int)
    requires
        0 <= n,
        0 <= dim,
    ensures
        ({
            let time = copp2_term_capacity(ObjectiveKind::Time, n, dim);
            let thermal = copp2_term_capacity(ObjectiveKind::ThermalEnergy, n, dim);
            let tv = copp2_term_capacity(ObjectiveKind::TotalVariationTorque, n, dim);
            let base = base_capacity(seq![ObjectiveKind::Time], n, false);
            let d = tv2_difference_count(n);
            &&& (range_seq(b_len, n + 1) + range_seq(b_len + n + 1, 3 * (n + 1))).len() <= base.0
            &&& 4 * (n + 1) <= base.1
            &&& 2 * (n + 1) <= base.3
            &&& time2_rows(b_len, n).len() <= time.0
            &&& 3 * n <= time.1
            &&& n <= time.3
            &&& thermal2_rows(b_len, dim, n).len() <= thermal.0
            &&& n * (dim + 2) <= thermal.1
            &&& n <= thermal.3
            &&& tv2_rows(b_len, dim, d).len() <= tv.0
            &&& 2 * dim * d <= tv.1
            &&& dim * d <= tv.3
        }),
{
    assert(needs_sqrt_a(seq![ObjectiveKind::Time])) by {
        assert(seq![ObjectiveKind::Time][0] == ObjectiveKind::Time);
    }
    lemma_time2_len(b_len, n, var_len, n);
    lemma_thermal2_len(b_len, n, var_len, dim, n);
    let d = tv2_difference_count(n);
    lemma_tv2_len(b_len, var_len, dim, d);
    assert(n * (2 * dim + 6) == (6 + 2 * dim) * n && n * (dim + 2) == (dim + 2) * n) by (nonlinear_arith);
    assert(8 * dim * d <= 8 * (dim * n) && 2 * dim * d <= 2 * (dim * n) && dim * d <= dim * n) by (nonlinear_arith)
        requires
            0 <= d <= n,
            0 <= dim,
    ;
}

} // verus!
