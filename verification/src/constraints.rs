//! Station-window bookkeeping of the circular constraint buffer.
//!
//! Station-wise constraint data is stored column by column in circular
//! buffers of `capacity` columns. The logical station window is
//! `[idx_s, idx_s + len)`; logical column `i` of the window lives in physical
//! column `(head + i) % capacity`. Besides the window, [`Constraints`] keeps
//! one row-count map per constraint family: how many rows of path
//! derivatives (`q`, `dddq`), second-order and third-order constraints are
//! valid at each station, and where linearized third-order rows exist.
//!
//! The floating-point buffers themselves are owned by the caller; every
//! mutating operation here returns the physical columns (and rows) that the
//! caller has to write, so that data and bookkeeping stay in step.

use vstd::prelude::*;
use crate::error::ConstraintError;
use crate::valid_rows::{
    ValidRows, ModeUpdateValidRows, updated_rows, sum_rows, rows_at, partitions, clamp, runs,
    lemma_partition_rows, lemma_segments_are_runs,
};

verus! {

/// Largest supported column capacity: physical column arithmetic and the
/// doubling growth of the buffer must fit in `usize`.
pub const MAX_CAPACITY: usize = usize::MAX / 8;

/// Largest supported path dimension: the constraint families allocate `2 * dim` rows.
pub const MAX_DIM: usize = usize::MAX / 4;

/// A run of `ncols` physical columns starting at `start`, matching the
/// logical columns `offset .. offset + ncols` of the data being processed.
#[derive(Clone, Copy, Debug, PartialEq, Eq, Structural)]
pub struct ColSegment {
    pub start: usize,
    pub ncols: usize,
    pub offset: usize,
}

/// The segments of [`Constraints::circular_process`]: one if the run fits
/// before the end of the buffer, else two, the second starting at column `0`.
pub open spec fn circular_segments(ncols_mat: int, start_idx: int, ncols_data: int) -> Seq<ColSegment> {
    if ncols_mat - start_idx >= ncols_data {
        seq![ColSegment { start: start_idx as usize, ncols: ncols_data as usize, offset: 0 }]
    } else {
        seq![
            ColSegment { start: start_idx as usize, ncols: (ncols_mat - start_idx) as usize, offset: 0 },
            ColSegment {
                start: 0,
                ncols: (ncols_data - (ncols_mat - start_idx)) as usize,
                offset: (ncols_mat - start_idx) as usize,
            },
        ]
    }
}

/// Segment `g` holds logical column `j` of the data, at physical column `c`.
pub open spec fn segment_maps(g: ColSegment, j: int, c: int) -> bool {
    g.offset <= j < g.offset + g.ncols && g.start + (j - g.offset) == c
}

/// Some segment of `segs` holds logical column `j` at physical column `c`.
pub open spec fn column_covered(segs: Seq<ColSegment>, j: int, c: int) -> bool {
    exists|t: int| 0 <= t < segs.len() && #[trigger] segment_maps(segs[t], j, c)
}

/// Law of the circular split: when `ncols_data <= ncols_mat` and
/// `start_idx < ncols_mat` (a buffer that `usize` can index), the segments tile the logical columns
/// `0 .. ncols_data` in order, every logical column `j` lies at physical
/// column `(start_idx + j) % ncols_mat`, and every segment stays inside the
/// buffer.
pub proof fn lemma_circular_segments_cover(ncols_mat: int, start_idx: int, ncols_data: int)
    requires
        0 <= start_idx < ncols_mat <= usize::MAX,
        0 <= ncols_data <= ncols_mat,
    ensures
        ({
            let segs = circular_segments(ncols_mat, start_idx, ncols_data);
            &&& 1 <= segs.len() <= 2
            &&& segs[0].offset == 0
            &&& segs.len() == 2 ==> segs[1].offset == segs[0].ncols
            &&& segs.last().offset + segs.last().ncols == ncols_data
            &&& forall|t: int| 0 <= t < segs.len() ==> #[trigger] segs[t].start + segs[t].ncols <= ncols_mat
        }),
        forall|j: int|
            0 <= j < ncols_data ==> #[trigger] column_covered(
                circular_segments(ncols_mat, start_idx, ncols_data),
                j,
                (start_idx + j) % ncols_mat,
            ),
{
    let segs = circular_segments(ncols_mat, start_idx, ncols_data);
    assert forall|j: int| 0 <= j < ncols_data implies #[trigger] column_covered(
        segs,
        j,
        (start_idx + j) % ncols_mat,
    ) by {
        if start_idx + j < ncols_mat {
            assert((start_idx + j) % ncols_mat == start_idx + j) by (nonlinear_arith)
                requires
                    0 <= start_idx + j < ncols_mat,
            ;
            assert(segment_maps(segs[0], j, (start_idx + j) % ncols_mat));
        } else {
            assert((start_idx + j) % ncols_mat == start_idx + j - ncols_mat) by (nonlinear_arith)
                requires
                    ncols_mat <= start_idx + j < 2 * ncols_mat,
            ;
            assert(segment_maps(segs[1], j, (start_idx + j) % ncols_mat));
        }
    }
}

/// The mode for popping constraints.
pub enum ModePopConstraints {
    /// Cut at the given station id: keep stations with `id >= cut` (front)
    /// or `id < cut` (back).
    CutAtIdxS(usize),
    /// Remove the first or last `n` logical stations.
    PopNCols(usize),
}

/// How the buffer is re-laid out by [`Constraints::expand_capacity`]: every
/// matrix grows to `new_capacity` columns; new columns `0 .. len_copy` take
/// the old columns `old_head .. old_head + len_copy`, and new columns
/// `len_copy .. len_copy + len_rest` take the old columns `0 .. len_rest`.
#[derive(Clone, Copy, Debug, PartialEq, Eq, Structural)]
pub struct ExpandPlan {
    pub new_capacity: usize,
    pub old_head: usize,
    pub len_copy: usize,
    pub len_rest: usize,
}

/// Old physical column that feeds new physical column `i` under `p`.
pub open spec fn expand_source(p: ExpandPlan, i: int) -> int {
    if i < p.len_copy {
        p.old_head + i
    } else {
        i - p.len_copy
    }
}

/// The re-layout that growing a buffer of `cap` columns, whose `len`
/// stations start at physical column `head`, to at least `new_capacity`
/// columns performs: the capacity becomes `max(new_capacity, 2 * cap + 1)`
/// and the stations move to columns `0 .. len` in logical order.
pub open spec fn expand_plan(cap: int, head: int, len: int, new_capacity: int) -> ExpandPlan {
    let target = if new_capacity > 2 * cap + 1 {
        new_capacity
    } else {
        2 * cap + 1
    };
    let len_copy = if len < cap - head {
        len
    } else {
        cap - head
    };
    ExpandPlan {
        new_capacity: target as usize,
        old_head: head as usize,
        len_copy: len_copy as usize,
        len_rest: (len - len_copy) as usize,
    }
}

/// Reduction of `x` modulo `m` when `x` lies in `[0, 2 * m)`.
pub proof fn lemma_mod_once(x: int, m: int)
    requires
        0 < m,
        0 <= x < 2 * m,
    ensures
        x % m == if x < m {
            x
        } else {
            x - m
        },
{
    if x < m {
        assert(x % m == x) by (nonlinear_arith)
            requires
                0 <= x < m,
        ;
    } else {
        assert(x % m == x - m) by (nonlinear_arith)
            requires
                m <= x < 2 * m,
        ;
    }
}

/// Stations appended with no valid rows leave every row count as it was:
/// outside its window a map already counts no rows.
proof fn lemma_push_zero_keeps(old_m: ValidRows, new_m: ValidRows, lo: int, hi: int, n: int)
    requires
        old_m.wf(lo, hi),
        forall|k: int| #[trigger] new_m.rows(k) == if hi <= k < hi + n {
            0
        } else {
            old_m.rows(k)
        },
    ensures
        forall|k: int| #[trigger] new_m.rows(k) == old_m.rows(k),
{
    assert forall|k: int| #[trigger] new_m.rows(k) == old_m.rows(k) by {
        lemma_partition_rows(old_m.segs(), lo, hi, k);
    }
}

/// Number of rows and columns of a block of input data.
#[derive(Clone, Copy, Debug, PartialEq, Eq, Structural)]
pub struct Shape {
    pub nrows: usize,
    pub ncols: usize,
}

/// Sum of `rows(k)` over the stations `k` of `[from, to)`.
pub open spec fn row_sum(rows: spec_fn(int) -> nat, from: int, to: int) -> nat
    decreases to - from,
{
    if to <= from {
        0
    } else {
        row_sum(rows, from, to - 1) + rows(to - 1)
    }
}

/// The segment-level sum of a row map is the station-level sum of its counts.
proof fn lemma_sum_rows_is_row_sum(m: ValidRows, from: int, to: int)
    ensures
        sum_rows(m.segs(), from, to) == row_sum(|k: int| m.rows(k), from, to),
    decreases to - from,
{
    if to > from {
        lemma_sum_rows_is_row_sum(m, from, to - 1);
    }
}

/// A sum over rows that vanish outside `[lo, hi)` only sees the part of
/// `[from, to)` inside `[lo, hi)`.
proof fn lemma_row_sum_clamp(rows: spec_fn(int) -> nat, lo: int, hi: int, from: int, to: int)
    requires
        lo <= hi,
        from <= to,
        forall|k: int| !(lo <= k < hi) ==> #[trigger] rows(k) == 0,
    ensures
        row_sum(rows, from, to) == row_sum(rows, clamp(from, lo, hi), clamp(to, lo, hi)),
    decreases to - from,
{
    if to > from {
        lemma_row_sum_clamp(rows, lo, hi, from, to - 1);
        if !(lo <= to - 1 < hi) {
            assert(rows(to - 1) == 0);
        }
    }
}

/// Physical column of a station, and how many valid rows it has in one
/// constraint family.
#[derive(Clone, Copy, Debug, PartialEq, Eq, Structural)]
pub struct StationRows {
    pub col: usize,
    pub rows: usize,
}

/// Where appended stations go: an optional re-layout first, then the
/// physical columns that receive the new station data.
pub struct AppendPlan {
    pub expand: Option<ExpandPlan>,
    pub columns: Vec<ColSegment>,
}

/// The stations of a stationary boundary of a third-order problem whose
/// profile covers local stations `0 ..= n`: the boundary station `id_start`,
/// the representative station `id_a`, and the local stations whose rows
/// bound the representative value.
pub struct StationaryStencil {
    pub id_start: usize,
    pub id_a: usize,
    pub stations: Vec<usize>,
}

/// Local stations of the stencil: `1 ..= min(num_stationary, n)` at the
/// start, `n - 1` down to `n - num_stationary` at the end.
pub open spec fn stencil_station(rev: bool, n: int, num_stationary: int, j: int) -> int {
    if rev {
        n - 1 - j
    } else {
        j + 1
    }
}

/// Number of stations of the stencil.
pub open spec fn stencil_len(rev: bool, n: int, num_stationary: int) -> int {
    if rev || num_stationary <= n {
        num_stationary
    } else {
        n
    }
}

/// What popping stations did to the first-order bounds: nothing, a reset of
/// every column, or a reset of the given physical columns.
pub enum PopOutcome {
    Unchanged,
    Cleared,
    Trimmed(Vec<ColSegment>),
}

/// The global station id at which [`Constraints::pop_front`] cuts: stations
/// before it are removed.
pub open spec fn front_cut(idx_s: int, len: int, mode: ModePopConstraints) -> int {
    match mode {
        ModePopConstraints::CutAtIdxS(c) => if c < idx_s + len {
            c as int
        } else {
            idx_s + len
        },
        ModePopConstraints::PopNCols(n) => idx_s + if n < len {
            n as int
        } else {
            len
        },
    }
}

/// The global station id at which [`Constraints::pop_back`] cuts: stations
/// from it on are removed.
pub open spec fn back_cut(idx_s: int, len: int, mode: ModePopConstraints) -> int {
    match mode {
        ModePopConstraints::CutAtIdxS(c) => if c > idx_s {
            c as int
        } else {
            idx_s
        },
        ModePopConstraints::PopNCols(n) => idx_s + len - if n < len {
            n as int
        } else {
            len
        },
    }
}

/// Station-window bookkeeping of the constraint buffers.
#[derive(Clone)]
pub struct Constraints {
    capacity_col: usize,
    dim: usize,
    head_col: usize,
    len: usize,
    idx_s: usize,
    valid_rows_q: ValidRows,
    valid_rows_dddq: ValidRows,
    valid_rows_acc: ValidRows,
    valid_rows_jerk: ValidRows,
    linear_left: usize,
    linear_right: usize,
    acc_rows: usize,
    jerk_rows: usize,
    jerk_linear_rows: usize,
}

impl Constraints {
    /// Default number of constraint stations preallocated for a new container.
    pub const DEFAULT_CAPACITY: usize = 1000;

    /// Allocated buffer capacity in columns.
    pub closed spec fn spec_capacity(&self) -> nat {
        self.capacity_col as nat
    }

    /// Path dimension.
    pub closed spec fn spec_dim(&self) -> nat {
        self.dim as nat
    }

    /// Physical column of logical offset `0`.
    pub closed spec fn spec_head(&self) -> nat {
        self.head_col as nat
    }

    /// Number of stations in the window.
    pub closed spec fn spec_len(&self) -> nat {
        self.len as nat
    }

    /// Global id of the first station of the window.
    pub closed spec fn spec_idx_s(&self) -> nat {
        self.idx_s as nat
    }

    /// Valid rows of `q`, `dq`, `ddq` at station `k`.
    pub closed spec fn rows_q(&self, k: int) -> nat {
        self.valid_rows_q.rows(k)
    }

    /// Valid rows of `dddq` at station `k`.
    pub closed spec fn rows_dddq(&self, k: int) -> nat {
        self.valid_rows_dddq.rows(k)
    }

    /// Valid second-order constraint rows at station `k`.
    pub closed spec fn rows_acc(&self, k: int) -> nat {
        self.valid_rows_acc.rows(k)
    }

    /// Valid third-order constraint rows at station `k`.
    pub closed spec fn rows_jerk(&self, k: int) -> nat {
        self.valid_rows_jerk.rows(k)
    }

    /// Half-open station range with linearized third-order rows.
    pub closed spec fn linear_range(&self) -> (nat, nat) {
        (self.linear_left as nat, self.linear_right as nat)
    }

    /// Rows allocated for second-order constraints.
    pub closed spec fn spec_acc_rows(&self) -> nat {
        self.acc_rows as nat
    }

    /// Rows allocated for third-order constraints.
    pub closed spec fn spec_jerk_rows(&self) -> nat {
        self.jerk_rows as nat
    }

    /// Rows allocated for linearized third-order constraints.
    pub closed spec fn spec_jerk_linear_rows(&self) -> nat {
        self.jerk_linear_rows as nat
    }

    /// Global id one past the last station of the window.
    pub open spec fn spec_end(&self) -> nat {
        self.spec_idx_s() + self.spec_len()
    }

    /// Physical column of logical offset `i`.
    pub open spec fn phys(&self, i: int) -> int {
        (self.spec_head() + i) % (self.spec_capacity() as int)
    }

    /// Whether `[idx_left, idx_left + len)` lies inside the window.
    pub open spec fn in_bounds(&self, idx_left: int, len: int) -> bool {
        self.spec_idx_s() <= idx_left && idx_left + len <= self.spec_end()
    }

    /// Internal consistency of the bookkeeping.
    pub closed spec fn wf(&self) -> bool {
        &&& self.capacity_col <= MAX_CAPACITY
        &&& self.dim <= MAX_DIM
        &&& self.capacity_col == 0 ==> self.head_col == 0
        &&& self.capacity_col > 0 ==> self.head_col < self.capacity_col
        &&& self.len <= self.capacity_col
        &&& self.idx_s + self.len <= usize::MAX
        &&& self.valid_rows_q.wf(self.idx_s as int, self.idx_s + self.len)
        &&& self.valid_rows_dddq.wf(self.idx_s as int, self.idx_s + self.len)
        &&& self.valid_rows_acc.wf(self.idx_s as int, self.idx_s + self.len)
        &&& self.valid_rows_jerk.wf(self.idx_s as int, self.idx_s + self.len)
        &&& forall|k: int| #[trigger] self.valid_rows_acc.rows(k) <= self.acc_rows
        &&& forall|k: int| #[trigger] self.valid_rows_jerk.rows(k) <= self.jerk_rows
        &&& forall|k: int|
            self.linear_left <= k < self.linear_right ==> #[trigger] self.valid_rows_jerk.rows(k)
                <= self.jerk_linear_rows
    }

    /// Construct an empty container with `capacity_col` preallocated columns.
    pub fn with_capacity(dim: usize, capacity_col: usize) -> (r: Self)
        requires
            dim <= MAX_DIM,
            capacity_col <= MAX_CAPACITY,
        ensures
            r.wf(),
            r.spec_dim() == dim,
            r.spec_capacity() == capacity_col,
            r.spec_head() == 0,
            r.spec_len() == 0,
            r.spec_idx_s() == 0,
            r.spec_acc_rows() == 2 * dim,
            r.spec_jerk_rows() == 2 * dim,
            r.spec_jerk_linear_rows() == 2 * dim,
            r.linear_range() == (0nat, 0nat),
            forall|k: int| #[trigger] r.rows_q(k) == 0 && r.rows_dddq(k) == 0,
            forall|k: int| #[trigger] r.rows_acc(k) == 0 && r.rows_jerk(k) == 0,
    {
        let r = Constraints {
            capacity_col,
            dim,
            head_col: 0,
            len: 0,
            idx_s: 0,
            valid_rows_q: ValidRows::new(),
            valid_rows_dddq: ValidRows::new(),
            valid_rows_acc: ValidRows::new(),
            valid_rows_jerk: ValidRows::new(),
            linear_left: 0,
            linear_right: 0,
            acc_rows: 2 * dim,
            jerk_rows: 2 * dim,
            jerk_linear_rows: 2 * dim,
        };
        proof {
            assert(r.valid_rows_q.wf(0, 0));
            assert(r.valid_rows_dddq.wf(0, 0));
            assert(r.valid_rows_acc.wf(0, 0));
            assert(r.valid_rows_jerk.wf(0, 0));
        }
        r
    }

    /// Construct an empty container with [`DEFAULT_CAPACITY`](Constraints::DEFAULT_CAPACITY) columns.
    pub fn new(dim: usize) -> (r: Self)
        requires
            dim <= MAX_DIM,
        ensures
            r.wf(),
            r.spec_dim() == dim,
            r.spec_capacity() == Self::DEFAULT_CAPACITY,
            r.spec_head() == 0,
            r.spec_len() == 0,
            r.spec_idx_s() == 0,
            r.spec_acc_rows() == 2 * dim,
            r.spec_jerk_rows() == 2 * dim,
            r.spec_jerk_linear_rows() == 2 * dim,
            r.linear_range() == (0nat, 0nat),
            forall|k: int| #[trigger] r.rows_q(k) == 0 && r.rows_dddq(k) == 0,
            forall|k: int| #[trigger] r.rows_acc(k) == 0 && r.rows_jerk(k) == 0,
    {
        Self::with_capacity(dim, Self::DEFAULT_CAPACITY)
    }

    /// Current number of logical stations stored in the buffer.
    pub fn len(&self) -> (r: usize)
        ensures
            r == self.spec_len(),
    {
        self.len
    }

    /// Path dimension.
    pub fn dim(&self) -> (r: usize)
        ensures
            r == self.spec_dim(),
    {
        self.dim
    }

    /// Allocated buffer capacity in columns.
    pub fn capacity(&self) -> (r: usize)
        ensures
            r == self.spec_capacity(),
    {
        self.capacity_col
    }

    /// Whether no logical stations are currently stored.
    pub fn is_empty(&self) -> (r: bool)
        ensures
            r == (self.spec_len() == 0),
    {
        self.len == 0
    }

    /// Global start station id (inclusive) of the window.
    pub fn idx_s_start(&self) -> (r: usize)
        ensures
            r == self.spec_idx_s(),
    {
        self.idx_s
    }

    /// Global end station id (exclusive) of the window.
    pub fn idx_s_end(&self) -> (r: usize)
        requires
            self.wf(),
        ensures
            r == self.spec_end(),
    {
        self.idx_s + self.len
    }

    /// Number of segments of the map of `q` row counts: the number of runs
    /// of equal counts over the window.
    pub fn q_segment_count(&self) -> (r: usize)
        requires
            self.wf(),
        ensures
            r == runs(|k: int| self.rows_q(k), self.spec_idx_s() as int, self.spec_end() as int),
    {
        proof {
            let m = self.valid_rows_q;
            lemma_segments_are_runs(m.segs(), self.idx_s as int, self.idx_s + self.len);
            assert((|k: int| self.rows_q(k)) =~= (|k: int| rows_at(m.segs(), k)));
        }
        self.valid_rows_q.segment_count()
    }

    /// Number of segments of the map of second-order row counts: the number
    /// of runs of equal counts over the window.
    pub fn acc_segment_count(&self) -> (r: usize)
        requires
            self.wf(),
        ensures
            r == runs(|k: int| self.rows_acc(k), self.spec_idx_s() as int, self.spec_end() as int),
    {
        proof {
            let m = self.valid_rows_acc;
            lemma_segments_are_runs(m.segs(), self.idx_s as int, self.idx_s + self.len);
            assert((|k: int| self.rows_acc(k)) =~= (|k: int| rows_at(m.segs(), k)));
        }
        self.valid_rows_acc.segment_count()
    }

    /// Rows of the first-order bound storage: always one.
    pub fn amax_rows(&self) -> (r: usize)
        ensures
            r == 1,
    {
        1
    }

    /// Rows allocated for second-order constraints.
    pub fn acc_rows(&self) -> (r: usize)
        ensures
            r == self.spec_acc_rows(),
    {
        self.acc_rows
    }

    /// Rows allocated for third-order constraints.
    pub fn jerk_rows(&self) -> (r: usize)
        ensures
            r == self.spec_jerk_rows(),
    {
        self.jerk_rows
    }

    /// Rows allocated for linearized third-order constraints.
    pub fn jerk_linear_rows(&self) -> (r: usize)
        ensures
            r == self.spec_jerk_linear_rows(),
    {
        self.jerk_linear_rows
    }

    /// Physical column of logical offset `col`.
    fn idx(&self, col: usize) -> (r: usize)
        requires
            self.wf(),
            self.spec_capacity() > 0,
            col <= self.spec_capacity(),
        ensures
            r == self.phys(col as int),
            r < self.spec_capacity(),
    {
        (self.head_col + col) % self.capacity_col
    }

    /// Growing to `new_capacity` columns keeps the capacity within [`MAX_CAPACITY`].
    pub open spec fn growth_fits(&self, new_capacity: int) -> bool {
        new_capacity <= self.spec_capacity() || (new_capacity <= MAX_CAPACITY && 2
            * self.spec_capacity() + 1 <= MAX_CAPACITY)
    }

    /// Same window, row maps and row allocations as `other`.
    pub open spec fn same_content(&self, other: Self) -> bool {
        &&& self.spec_dim() == other.spec_dim()
        &&& self.spec_idx_s() == other.spec_idx_s()
        &&& self.spec_len() == other.spec_len()
        &&& self.linear_range() == other.linear_range()
        &&& self.spec_acc_rows() == other.spec_acc_rows()
        &&& self.spec_jerk_rows() == other.spec_jerk_rows()
        &&& self.spec_jerk_linear_rows() == other.spec_jerk_linear_rows()
        &&& forall|k: int| #[trigger] self.rows_q(k) == other.rows_q(k)
        &&& forall|k: int| #[trigger] self.rows_dddq(k) == other.rows_dddq(k)
        &&& forall|k: int| #[trigger] self.rows_acc(k) == other.rows_acc(k)
        &&& forall|k: int| #[trigger] self.rows_jerk(k) == other.rows_jerk(k)
    }

    /// Ensure the buffer has at least `new_capacity` columns.
    ///
    /// When it grows, the capacity becomes `max(new_capacity, 2 * capacity + 1)`,
    /// the stations keep their logical order and move to physical columns
    /// `0 .. len` (so the head becomes `0`); the returned plan says which old
    /// column feeds each new one. Nothing else changes.
    pub fn expand_capacity(&mut self, new_capacity: usize) -> (r: Option<ExpandPlan>)
        requires
            old(self).wf(),
            old(self).growth_fits(new_capacity as int),
        ensures
            final(self).wf(),
            final(self).same_content(*old(self)),
            new_capacity <= old(self).spec_capacity() ==> r is None && final(self).spec_capacity()
                == old(self).spec_capacity() && final(self).spec_head() == old(self).spec_head(),
            new_capacity > old(self).spec_capacity() ==> r == Some(
                expand_plan(
                    old(self).spec_capacity() as int,
                    old(self).spec_head() as int,
                    old(self).spec_len() as int,
                    new_capacity as int,
                ),
            ) && final(self).spec_capacity() == r->0.new_capacity && final(self).spec_head() == 0,
            r matches Some(p) ==> forall|i: int|
                0 <= i < old(self).spec_len() ==> expand_source(p, i) == #[trigger] old(self).phys(i),
            r is Some ==> forall|i: int|
                0 <= i < old(self).spec_len() ==> #[trigger] final(self).phys(i) == i,
    {
        if new_capacity <= self.capacity_col {
            return None;
        }
        let grown = 2 * self.capacity_col + 1;
        let target = if new_capacity > grown {
            new_capacity
        } else {
            grown
        };
        let len_copy = if self.len < self.capacity_col - self.head_col {
            self.len
        } else {
            self.capacity_col - self.head_col
        };
        let plan = ExpandPlan {
            new_capacity: target,
            old_head: self.head_col,
            len_copy,
            len_rest: self.len - len_copy,
        };
        self.capacity_col = target;
        self.head_col = 0;
        proof {
            assert forall|i: int| 0 <= i < old(self).spec_len() implies expand_source(plan, i)
                == #[trigger] old(self).phys(i) by {
                lemma_mod_once(old(self).head_col + i, old(self).capacity_col as int);
            }
            assert forall|i: int| 0 <= i < old(self).spec_len() implies #[trigger] self.phys(i) == i by {
                lemma_mod_once(i, target as int);
            }
        }
        Some(plan)
    }

    /// Append `ncols` stations at the end of the window.
    ///
    /// The buffer first grows to hold `len + 2 * ncols` columns; the new
    /// stations start with no valid rows in any family. Returns the
    /// re-layout, if any, and the physical columns that receive the new
    /// station values. That the new station values increase strictly, and
    /// continue the last stored one, is checked by the owner of those
    /// values before this call.
    pub fn with_s(&mut self, ncols: usize) -> (r: AppendPlan)
        requires
            old(self).wf(),
            old(self).spec_end() + ncols <= usize::MAX,
            old(self).growth_fits(old(self).spec_len() + 2 * ncols),
        ensures
            final(self).wf(),
            old(self).appended(*final(self), ncols as nat),
            ncols == 0 ==> r.expand is None && r.columns@.len() == 0 && final(self).spec_capacity()
                == old(self).spec_capacity() && final(self).spec_head() == old(self).spec_head(),
            ncols > 0 ==> {
                let grows = old(self).spec_len() + 2 * ncols > old(self).spec_capacity();
                &&& grows ==> r.expand == Some(
                    expand_plan(
                        old(self).spec_capacity() as int,
                        old(self).spec_head() as int,
                        old(self).spec_len() as int,
                        old(self).spec_len() + 2 * ncols,
                    ),
                ) && final(self).spec_capacity() == r.expand->0.new_capacity && final(self).spec_head()
                    == 0
                &&& !grows ==> r.expand is None && final(self).spec_capacity()
                    == old(self).spec_capacity() && final(self).spec_head() == old(self).spec_head()
                &&& r.columns@ == circular_segments(
                    final(self).spec_capacity() as int,
                    final(self).phys(old(self).spec_len() as int),
                    ncols as int,
                )
            },
    {
        if ncols == 0 {
            return AppendPlan { expand: None, columns: Vec::new() };
        }
        let expand = self.expand_capacity(self.len + 2 * ncols);
        let start = self.idx(self.len);
        let columns = Self::circular_process(self.capacity_col, start, ncols);
        let ghost mid = *self;
        self.push_back_stations(ncols);
        proof {
            assert forall|k: int| #[trigger] self.rows_q(k) == old(self).rows_q(k) by {
                assert(mid.rows_q(k) == old(self).rows_q(k));
            }
            assert forall|k: int| #[trigger] self.rows_dddq(k) == old(self).rows_dddq(k) by {
                assert(mid.rows_dddq(k) == old(self).rows_dddq(k));
            }
            assert forall|k: int| #[trigger] self.rows_acc(k) == old(self).rows_acc(k) by {
                assert(mid.rows_acc(k) == old(self).rows_acc(k));
            }
            assert forall|k: int| #[trigger] self.rows_jerk(k) == old(self).rows_jerk(k) by {
                assert(mid.rows_jerk(k) == old(self).rows_jerk(k));
            }
        }
        AppendPlan { expand, columns }
    }

    /// Extend the window by `ncols` stations that have no valid rows.
    #[verifier::spinoff_prover]
    fn push_back_stations(&mut self, ncols: usize)
        requires
            old(self).wf(),
            old(self).spec_len() + ncols <= old(self).spec_capacity(),
            old(self).spec_end() + ncols <= usize::MAX,
        ensures
            final(self).wf(),
            final(self).spec_capacity() == old(self).spec_capacity(),
            final(self).spec_head() == old(self).spec_head(),
            final(self).spec_dim() == old(self).spec_dim(),
            final(self).spec_idx_s() == old(self).spec_idx_s(),
            final(self).spec_len() == old(self).spec_len() + ncols,
            final(self).linear_range() == old(self).linear_range(),
            final(self).spec_acc_rows() == old(self).spec_acc_rows(),
            final(self).spec_jerk_rows() == old(self).spec_jerk_rows(),
            final(self).spec_jerk_linear_rows() == old(self).spec_jerk_linear_rows(),
            forall|k: int| #[trigger] final(self).rows_q(k) == old(self).rows_q(k),
            forall|k: int| #[trigger] final(self).rows_dddq(k) == old(self).rows_dddq(k),
            forall|k: int| #[trigger] final(self).rows_acc(k) == old(self).rows_acc(k),
            forall|k: int| #[trigger] final(self).rows_jerk(k) == old(self).rows_jerk(k),
    {
        let hi = self.idx_s + self.len;
        let ghost lo = self.idx_s as int;
        self.valid_rows_q.push_back_valid_rows(Ghost(lo), hi, ncols, 0);
        self.valid_rows_dddq.push_back_valid_rows(Ghost(lo), hi, ncols, 0);
        self.valid_rows_acc.push_back_valid_rows(Ghost(lo), hi, ncols, 0);
        self.valid_rows_jerk.push_back_valid_rows(Ghost(lo), hi, ncols, 0);
        proof {
            lemma_push_zero_keeps(old(self).valid_rows_q, self.valid_rows_q, lo, hi as int, ncols as int);
            lemma_push_zero_keeps(old(self).valid_rows_dddq, self.valid_rows_dddq, lo, hi as int, ncols as int);
            lemma_push_zero_keeps(old(self).valid_rows_acc, self.valid_rows_acc, lo, hi as int, ncols as int);
            lemma_push_zero_keeps(old(self).valid_rows_jerk, self.valid_rows_jerk, lo, hi as int, ncols as int);
        }
        self.len = self.len + ncols;
    }

    /// Same buffer layout and window as `other`.
    pub open spec fn same_window(&self, other: Self) -> bool {
        &&& self.spec_capacity() == other.spec_capacity()
        &&& self.spec_head() == other.spec_head()
        &&& self.spec_dim() == other.spec_dim()
        &&& self.spec_idx_s() == other.spec_idx_s()
        &&& self.spec_len() == other.spec_len()
    }

    /// Whether the derivative blocks `q`, `dq`, `ddq` and the optional `dddq`
    /// all have `dim` rows and one common shape.
    pub open spec fn q_shapes_match(&self, q: Shape, dq: Shape, ddq: Shape, dddq: Option<Shape>) -> bool {
        &&& q.nrows == self.spec_dim()
        &&& dq == q
        &&& ddq == q
        &&& dddq matches Some(d) ==> d == q
    }

    /// Write path derivatives on the stations `[idx_s, idx_s + dq.ncols)`.
    ///
    /// The blocks must all have `dim` rows and one shape, else
    /// `NoMatchDimensions`; the stations must lie in the window, else
    /// `OutOfSBounds`. On success the stations get `dim` valid rows of `q`,
    /// `dq`, `ddq`, and `dim` valid rows of `dddq` when it is given, none
    /// when it is not (its stored columns are then to be zeroed); the result
    /// holds the physical columns to write. Nothing changes on error.
    pub fn with_q(&mut self, q: Shape, dq: Shape, ddq: Shape, dddq: Option<Shape>, idx_s: usize) -> (r:
        Result<Vec<ColSegment>, ConstraintError>)
        requires
            old(self).wf(),
        ensures
            final(self).wf(),
            final(self).same_window(*old(self)),
            final(self).linear_range() == old(self).linear_range(),
            final(self).spec_acc_rows() == old(self).spec_acc_rows(),
            final(self).spec_jerk_rows() == old(self).spec_jerk_rows(),
            final(self).spec_jerk_linear_rows() == old(self).spec_jerk_linear_rows(),
            forall|k: int| #[trigger] final(self).rows_acc(k) == old(self).rows_acc(k),
            forall|k: int| #[trigger] final(self).rows_jerk(k) == old(self).rows_jerk(k),
            !old(self).q_shapes_match(q, dq, ddq, dddq) ==> r == Err::<Vec<ColSegment>, ConstraintError>(
                ConstraintError::NoMatchDimensions,
            ),
            old(self).q_shapes_match(q, dq, ddq, dddq) && !old(self).in_bounds(idx_s as int, dq.ncols as int)
                ==> r == Err::<Vec<ColSegment>, ConstraintError>(
                ConstraintError::OutOfSBounds { idx_s, len: dq.ncols },
            ),
            old(self).q_shapes_match(q, dq, ddq, dddq) && old(self).in_bounds(idx_s as int, dq.ncols as int)
                ==> r is Ok,
            r matches Ok(v) ==> (if dq.ncols == 0 {
                v@.len() == 0
            } else {
                v@ == circular_segments(
                    old(self).spec_capacity() as int,
                    old(self).phys(idx_s - old(self).spec_idx_s()),
                    dq.ncols as int,
                )
            }),
            forall|k: int| #[trigger] final(self).rows_q(k) == if r is Ok && idx_s <= k < idx_s + dq.ncols {
                old(self).spec_dim()
            } else {
                old(self).rows_q(k)
            },
            r is Ok ==> old(self).q_written(*final(self), idx_s as int, dq.ncols as int),
            forall|k: int| #[trigger] final(self).rows_dddq(k) == if r is Ok && idx_s <= k < idx_s + dq.ncols {
                if dddq is Some {
                    old(self).spec_dim()
                } else {
                    0
                }
            } else {
                old(self).rows_dddq(k)
            },
    {
        let dddq_mismatch = match dddq {
            Some(d) => d != q,
            None => false,
        };
        if q.nrows != self.dim || dq != q || ddq != q || dddq_mismatch {
            return Err(ConstraintError::NoMatchDimensions);
        }
        let n = dq.ncols;
        if let Err(e) = self.check_s_in_bounds(idx_s, n) {
            return Err(e);
        }
        if n == 0 {
            return Ok(Vec::new());
        }
        let start = self.idx(idx_s - self.idx_s);
        let columns = Self::circular_process(self.capacity_col, start, n);
        let ghost lo = self.idx_s as int;
        let ghost hi = self.idx_s + self.len;
        let dim = self.dim;
        self.valid_rows_q.update_and_merge(
            Ghost(lo),
            Ghost(hi),
            idx_s,
            idx_s + n,
            dim,
            ModeUpdateValidRows::SetValues,
        );
        match dddq {
            Some(_) => {
                self.valid_rows_dddq.update_and_merge(
                    Ghost(lo),
                    Ghost(hi),
                    idx_s,
                    idx_s + n,
                    dim,
                    ModeUpdateValidRows::SetValues,
                );
            },
            None => {
                let _ = self.clear_dddq(idx_s, n);
            },
        }
        Ok(columns)
    }

    /// Mark `dddq` unavailable on the stations `[idx_s, idx_s + len)`, which
    /// must lie in the window (else `OutOfSBounds`); the result holds the
    /// physical columns whose stored `dddq` values are to be zeroed.
    fn clear_dddq(&mut self, idx_s: usize, len: usize) -> (r: Result<Vec<ColSegment>, ConstraintError>)
        requires
            old(self).wf(),
        ensures
            final(self).wf(),
            final(self).same_window(*old(self)),
            final(self).linear_range() == old(self).linear_range(),
            final(self).spec_acc_rows() == old(self).spec_acc_rows(),
            final(self).spec_jerk_rows() == old(self).spec_jerk_rows(),
            final(self).spec_jerk_linear_rows() == old(self).spec_jerk_linear_rows(),
            forall|k: int| #[trigger] final(self).rows_q(k) == old(self).rows_q(k),
            forall|k: int| #[trigger] final(self).rows_acc(k) == old(self).rows_acc(k),
            forall|k: int| #[trigger] final(self).rows_jerk(k) == old(self).rows_jerk(k),
            r is Ok <==> old(self).in_bounds(idx_s as int, len as int),
            r matches Err(e) ==> e == (ConstraintError::OutOfSBounds { idx_s, len }),
            forall|k: int| #[trigger] final(self).rows_dddq(k) == if r is Ok && idx_s <= k < idx_s + len {
                0
            } else {
                old(self).rows_dddq(k)
            },
    {
        if let Err(e) = self.check_s_in_bounds(idx_s, len) {
            return Err(e);
        }
        if len == 0 {
            return Ok(Vec::new());
        }
        let start = self.idx(idx_s - self.idx_s);
        let columns = Self::circular_process(self.capacity_col, start, len);
        let ghost lo = self.idx_s as int;
        let ghost hi = self.idx_s + self.len;
        self.valid_rows_dddq.update_and_merge(
            Ghost(lo),
            Ghost(hi),
            idx_s,
            idx_s + len,
            0,
            ModeUpdateValidRows::SetValues,
        );
        Ok(columns)
    }

    /// Placements of `nrows` new rows below the valid rows of `map` on each
    /// station of `[idx_s, idx_s + ncols)`, and the largest row count after
    /// appending them, or `base` if that is larger.
    fn row_placements(&self, map: &ValidRows, idx_s: usize, ncols: usize, nrows: usize, base: usize) -> (r: (
        Vec<StationRows>,
        usize,
    ))
        requires
            self.wf(),
            map.wf(self.spec_idx_s() as int, self.spec_end() as int),
            self.in_bounds(idx_s as int, ncols as int),
            forall|k: int| idx_s <= k < idx_s + ncols ==> #[trigger] map.rows(k) + nrows <= usize::MAX,
        ensures
            r.0@.len() == ncols,
            forall|j: int|
                0 <= j < ncols ==> #[trigger] r.0@[j] == (StationRows {
                    col: self.phys(idx_s - self.spec_idx_s() + j) as usize,
                    rows: map.rows(idx_s + j) as usize,
                }),
            base <= r.1,
            forall|k: int| idx_s <= k < idx_s + ncols ==> #[trigger] map.rows(k) + nrows <= r.1,
            r.1 == base || exists|k: int| idx_s <= k < idx_s + ncols && r.1 == #[trigger] map.rows(k) + nrows,
    {
        let mut out: Vec<StationRows> = Vec::new();
        let mut m: usize = base;
        let off = idx_s - self.idx_s;
        let mut j: usize = 0;
        while j < ncols
            invariant
                self.wf(),
                map.wf(self.spec_idx_s() as int, self.spec_end() as int),
                self.in_bounds(idx_s as int, ncols as int),
                forall|k: int| idx_s <= k < idx_s + ncols ==> #[trigger] map.rows(k) + nrows <= usize::MAX,
                off == idx_s - self.spec_idx_s(),
                0 <= j <= ncols,
                out@.len() == j,
                forall|i: int|
                    0 <= i < j ==> #[trigger] out@[i] == (StationRows {
                        col: self.phys(idx_s - self.spec_idx_s() + i) as usize,
                        rows: map.rows(idx_s + i) as usize,
                    }),
                base <= m,
                forall|k: int| idx_s <= k < idx_s + j ==> #[trigger] map.rows(k) + nrows <= m,
                m == base || exists|k: int| idx_s <= k < idx_s + j && m == #[trigger] map.rows(k) + nrows,
            decreases ncols - j,
        {
            let col = self.idx(off + j);
            let rows = map.rows_at_station(
                Ghost(self.idx_s as int),
                Ghost(self.idx_s + self.len),
                idx_s + j,
            );
            assert(map.rows(idx_s + j) + nrows <= usize::MAX);
            out.push(StationRows { col, rows });
            if rows + nrows > m {
                m = rows + nrows;
            }
            j = j + 1;
        }
        (out, m)
    }

    /// Append second-order rows `acc_a * a + acc_b * b <= acc_max` on the
    /// stations `[idx_s, idx_s + ncols)`, where the three blocks share one
    /// `nrows x ncols` shape (else `NoMatchDimensions`) and the stations lie
    /// in the window (else `OutOfSBounds`).
    ///
    /// Each station's row count grows by `nrows`; the new rows go below the
    /// existing ones: entry `j` of the result gives, for data column `j`,
    /// the physical column and the station's old row count, the first row
    /// to write. The allocated row count grows to the largest new row count. Empty
    /// blocks change nothing. Whether the rows are negated is up to the
    /// owner of the values.
    pub fn with_constraint_2order(&mut self, acc_a: Shape, acc_b: Shape, acc_max: Shape, idx_s: usize) -> (r:
        Result<Vec<StationRows>, ConstraintError>)
        requires
            old(self).wf(),
            old(self).in_bounds(idx_s as int, acc_a.ncols as int) ==> forall|k: int|
                idx_s <= k < idx_s + acc_a.ncols ==> #[trigger] old(self).rows_acc(k) + acc_a.nrows
                    <= usize::MAX,
        ensures
            final(self).wf(),
            final(self).same_window(*old(self)),
            final(self).linear_range() == old(self).linear_range(),
            final(self).spec_jerk_rows() == old(self).spec_jerk_rows(),
            final(self).spec_jerk_linear_rows() == old(self).spec_jerk_linear_rows(),
            forall|k: int| #[trigger] final(self).rows_q(k) == old(self).rows_q(k),
            forall|k: int| #[trigger] final(self).rows_dddq(k) == old(self).rows_dddq(k),
            forall|k: int| #[trigger] final(self).rows_jerk(k) == old(self).rows_jerk(k),
            !(acc_b == acc_a && acc_max == acc_a) ==> r == Err::<Vec<StationRows>, ConstraintError>(
                ConstraintError::NoMatchDimensions,
            ),
            acc_b == acc_a && acc_max == acc_a && !old(self).in_bounds(idx_s as int, acc_a.ncols as int)
                ==> r == Err::<Vec<StationRows>, ConstraintError>(
                ConstraintError::OutOfSBounds { idx_s, len: acc_a.ncols },
            ),
            acc_b == acc_a && acc_max == acc_a && old(self).in_bounds(idx_s as int, acc_a.ncols as int)
                ==> r is Ok,
            ({
                let active = r is Ok && acc_a.nrows > 0;
                &&& forall|k: int| #[trigger] final(self).rows_acc(k) == if active && idx_s <= k < idx_s
                    + acc_a.ncols {
                    (old(self).rows_acc(k) + acc_a.nrows) as nat
                } else {
                    old(self).rows_acc(k)
                }
                &&& old(self).spec_acc_rows() <= final(self).spec_acc_rows()
                &&& forall|k: int| #[trigger] final(self).rows_acc(k) <= final(self).spec_acc_rows()
                &&& final(self).spec_acc_rows() == old(self).spec_acc_rows() || exists|k: int|
                    active && idx_s <= k < idx_s + acc_a.ncols && final(self).spec_acc_rows()
                        == #[trigger] final(self).rows_acc(k)
            }),
            r matches Ok(v) ==> v@.len() == (if acc_a.nrows == 0 {
                0
            } else {
                acc_a.ncols as int
            }) && forall|j: int|
                0 <= j < v@.len() ==> #[trigger] v@[j] == (StationRows {
                    col: old(self).phys(idx_s - old(self).spec_idx_s() + j) as usize,
                    rows: old(self).rows_acc(idx_s + j) as usize,
                }),
    {
        if acc_a != acc_b || acc_a != acc_max {
            return Err(ConstraintError::NoMatchDimensions);
        }
        let n = acc_a.ncols;
        let nrows = acc_a.nrows;
        if let Err(e) = self.check_s_in_bounds(idx_s, n) {
            return Err(e);
        }
        if n == 0 || nrows == 0 {
            return Ok(Vec::new());
        }
        proof {
            assert forall|k: int| idx_s <= k < idx_s + n implies #[trigger] self.valid_rows_acc.rows(k)
                + nrows <= usize::MAX by {
                assert(old(self).rows_acc(k) + nrows <= usize::MAX);
            }
        }
        let (placements, m) = self.row_placements(&self.valid_rows_acc, idx_s, n, nrows, self.acc_rows);
        let ghost lo = self.idx_s as int;
        let ghost hi = self.idx_s + self.len;
        let ghost a0 = self.valid_rows_acc;
        self.valid_rows_acc.update_and_merge(
            Ghost(lo),
            Ghost(hi),
            idx_s,
            idx_s + n,
            nrows,
            ModeUpdateValidRows::AddValues,
        );
        self.acc_rows = m;
        proof {
            assert forall|k: int| #[trigger] self.valid_rows_acc.rows(k) <= self.acc_rows by {
                if idx_s <= k < idx_s + n {
                    assert(a0.rows(k) + nrows <= m);
                } else {
                    assert(a0.rows(k) <= old(self).acc_rows);
                }
            }
            if m != old(self).acc_rows {
                let k = choose|k: int| idx_s <= k < idx_s + n && m == #[trigger] a0.rows(k) + nrows;
                assert(self.rows_acc(k) == m);
            }
        }
        Ok(placements)
    }

    /// Whether the interval `[idx_s, idx_s + ncols)` meets the linearized range.
    pub open spec fn touches_linear_range(&self, idx_s: int, ncols: int) -> bool {
        self.linear_range().1 > idx_s && self.linear_range().0 < idx_s + ncols
    }

    /// Append third-order rows
    /// `sqrt(a) * (jerk_a * a + jerk_b * b + jerk_c * c + jerk_d) <= jerk_max`
    /// on the stations `[idx_s, idx_s + ncols)`, where the five blocks share
    /// one `nrows x ncols` shape (else `NoMatchDimensions`) and the stations
    /// lie in the window (else `OutOfSBounds`).
    ///
    /// Row counts and placements behave as for
    /// [`with_constraint_2order`](Constraints::with_constraint_2order). When
    /// rows are added on a station of the linearized range, that range is
    /// reset to empty, since the rows it was computed from have changed.
    pub fn with_constraint_3order(
        &mut self,
        jerk_a: Shape,
        jerk_b: Shape,
        jerk_c: Shape,
        jerk_d: Shape,
        jerk_max: Shape,
        idx_s: usize,
    ) -> (r: Result<Vec<StationRows>, ConstraintError>)
        requires
            old(self).wf(),
            old(self).in_bounds(idx_s as int, jerk_a.ncols as int) ==> forall|k: int|
                idx_s <= k < idx_s + jerk_a.ncols ==> #[trigger] old(self).rows_jerk(k) + jerk_a.nrows
                    <= usize::MAX,
        ensures
            final(self).wf(),
            final(self).same_window(*old(self)),
            final(self).spec_acc_rows() == old(self).spec_acc_rows(),
            final(self).spec_jerk_linear_rows() == old(self).spec_jerk_linear_rows(),
            forall|k: int| #[trigger] final(self).rows_q(k) == old(self).rows_q(k),
            forall|k: int| #[trigger] final(self).rows_dddq(k) == old(self).rows_dddq(k),
            forall|k: int| #[trigger] final(self).rows_acc(k) == old(self).rows_acc(k),
            !(jerk_b == jerk_a && jerk_c == jerk_a && jerk_d == jerk_a && jerk_max == jerk_a) ==> r
                == Err::<Vec<StationRows>, ConstraintError>(ConstraintError::NoMatchDimensions),
            jerk_b == jerk_a && jerk_c == jerk_a && jerk_d == jerk_a && jerk_max == jerk_a
                && !old(self).in_bounds(idx_s as int, jerk_a.ncols as int) ==> r == Err::<
                Vec<StationRows>,
                ConstraintError,
            >(ConstraintError::OutOfSBounds { idx_s, len: jerk_a.ncols }),
            jerk_b == jerk_a && jerk_c == jerk_a && jerk_d == jerk_a && jerk_max == jerk_a
                && old(self).in_bounds(idx_s as int, jerk_a.ncols as int) ==> r is Ok,
            ({
                let active = r is Ok && jerk_a.nrows > 0 && jerk_a.ncols > 0;
                &&& forall|k: int| #[trigger] final(self).rows_jerk(k) == if active && idx_s <= k
                    < idx_s + jerk_a.ncols {
                    (old(self).rows_jerk(k) + jerk_a.nrows) as nat
                } else {
                    old(self).rows_jerk(k)
                }
                &&& old(self).spec_jerk_rows() <= final(self).spec_jerk_rows()
                &&& forall|k: int| #[trigger] final(self).rows_jerk(k) <= final(self).spec_jerk_rows()
                &&& final(self).spec_jerk_rows() == old(self).spec_jerk_rows() || exists|k: int|
                    active && idx_s <= k < idx_s + jerk_a.ncols && final(self).spec_jerk_rows()
                        == #[trigger] final(self).rows_jerk(k)
                &&& final(self).linear_range() == if active && old(self).touches_linear_range(
                    idx_s as int,
                    jerk_a.ncols as int,
                ) {
                    (0nat, 0nat)
                } else {
                    old(self).linear_range()
                }
            }),
            r matches Ok(v) ==> v@.len() == (if jerk_a.nrows == 0 {
                0
            } else {
                jerk_a.ncols as int
            }) && forall|j: int|
                0 <= j < v@.len() ==> #[trigger] v@[j] == (StationRows {
                    col: old(self).phys(idx_s - old(self).spec_idx_s() + j) as usize,
                    rows: old(self).rows_jerk(idx_s + j) as usize,
                }),
    {
        if jerk_b != jerk_a || jerk_c != jerk_a || jerk_d != jerk_a || jerk_max != jerk_a {
            return Err(ConstraintError::NoMatchDimensions);
        }
        let n = jerk_a.ncols;
        let nrows = jerk_a.nrows;
        if let Err(e) = self.check_s_in_bounds(idx_s, n) {
            return Err(e);
        }
        if n == 0 || nrows == 0 {
            return Ok(Vec::new());
        }
        if self.linear_right > idx_s && self.linear_left < idx_s + n {
            self.linear_left = 0;
            self.linear_right = 0;
        }
        proof {
            assert forall|k: int| idx_s <= k < idx_s + n implies #[trigger] self.valid_rows_jerk.rows(k)
                + nrows <= usize::MAX by {
                assert(old(self).rows_jerk(k) + nrows <= usize::MAX);
            }
        }
        let (placements, m) = self.row_placements(&self.valid_rows_jerk, idx_s, n, nrows, self.jerk_rows);
        let ghost lo = self.idx_s as int;
        let ghost hi = self.idx_s + self.len;
        let ghost j0 = self.valid_rows_jerk;
        self.valid_rows_jerk.update_and_merge(
            Ghost(lo),
            Ghost(hi),
            idx_s,
            idx_s + n,
            nrows,
            ModeUpdateValidRows::AddValues,
        );
        self.jerk_rows = m;
        proof {
            assert forall|k: int| #[trigger] self.valid_rows_jerk.rows(k) <= self.jerk_rows by {
                if idx_s <= k < idx_s + n {
                    assert(j0.rows(k) + nrows <= m);
                } else {
                    assert(j0.rows(k) <= old(self).jerk_rows);
                }
            }
            assert forall|k: int|
                self.linear_left <= k < self.linear_right implies #[trigger] self.valid_rows_jerk.rows(k)
                <= self.jerk_linear_rows by {
                assert(!(idx_s <= k < idx_s + n));
                assert(j0.rows(k) <= old(self).jerk_linear_rows);
            }
            if m != old(self).jerk_rows {
                let k = choose|k: int| idx_s <= k < idx_s + n && m == #[trigger] j0.rows(k) + nrows;
                assert(self.rows_jerk(k) == m);
            }
        }
        Ok(placements)
    }

    /// Physical column of station `idx_s`, which must lie in the window
    /// (else `OutOfSBounds`): where its station value and first-order bound
    /// are stored.
    pub fn station_column(&self, idx_s: usize) -> (r: Result<usize, ConstraintError>)
        requires
            self.wf(),
        ensures
            r is Ok <==> self.in_bounds(idx_s as int, 1),
            r matches Err(e) ==> e == (ConstraintError::OutOfSBounds { idx_s, len: 1 }),
            r matches Ok(c) ==> c == self.phys(idx_s - self.spec_idx_s()) && c < self.spec_capacity(),
    {
        match self.check_s_in_bounds(idx_s, 1) {
            Err(e) => Err(e),
            Ok(()) => Ok(self.idx(idx_s - self.idx_s)),
        }
    }

    /// Column and valid second-order row count of station `idx_s`, which
    /// must lie in the window (else `OutOfSBounds`).
    pub fn get_acc_constraints(&self, idx_s: usize) -> (r: Result<StationRows, ConstraintError>)
        requires
            self.wf(),
        ensures
            r is Ok <==> self.in_bounds(idx_s as int, 1),
            r matches Err(e) ==> e == (ConstraintError::OutOfSBounds { idx_s, len: 1 }),
            r matches Ok(v) ==> v.col == self.phys(idx_s - self.spec_idx_s()) && v.rows == self.rows_acc(
                idx_s as int,
            ),
    {
        match self.check_s_in_bounds(idx_s, 1) {
            Err(e) => Err(e),
            Ok(()) => {
                let col = self.idx(idx_s - self.idx_s);
                let rows = self.valid_rows_acc.rows_at_station(
                    Ghost(self.idx_s as int),
                    Ghost(self.idx_s + self.len),
                    idx_s,
                );
                Ok(StationRows { col, rows })
            },
        }
    }

    /// Column and valid third-order row count of station `idx_s`, which
    /// must lie in the window (else `OutOfSBounds`).
    pub fn get_jerk_constraints(&self, idx_s: usize) -> (r: Result<StationRows, ConstraintError>)
        requires
            self.wf(),
        ensures
            r is Ok <==> self.in_bounds(idx_s as int, 1),
            r matches Err(e) ==> e == (ConstraintError::OutOfSBounds { idx_s, len: 1 }),
            r matches Ok(v) ==> v.col == self.phys(idx_s - self.spec_idx_s()) && v.rows == self.rows_jerk(
                idx_s as int,
            ),
    {
        match self.check_s_in_bounds(idx_s, 1) {
            Err(e) => Err(e),
            Ok(()) => {
                let col = self.idx(idx_s - self.idx_s);
                let rows = self.valid_rows_jerk.rows_at_station(
                    Ghost(self.idx_s as int),
                    Ghost(self.idx_s + self.len),
                    idx_s,
                );
                Ok(StationRows { col, rows })
            },
        }
    }

    /// Column and valid linearized third-order row count of station `idx_s`.
    /// The station must lie in the window (else `OutOfSBounds`) and in the
    /// range of the latest linearization (else `LinearJerkNotAvailable`).
    pub fn get_jerk_linear_constraints(&self, idx_s: usize) -> (r: Result<StationRows, ConstraintError>)
        requires
            self.wf(),
        ensures
            !self.in_bounds(idx_s as int, 1) ==> r == Err::<StationRows, ConstraintError>(
                ConstraintError::OutOfSBounds { idx_s, len: 1 },
            ),
            self.in_bounds(idx_s as int, 1) && !(self.linear_range().0 <= idx_s < self.linear_range().1)
                ==> r == Err::<StationRows, ConstraintError>(
                ConstraintError::LinearJerkNotAvailable {
                    idx_s,
                    valid_range: (self.linear_range().0 as usize, self.linear_range().1 as usize),
                },
            ),
            self.in_bounds(idx_s as int, 1) && self.linear_range().0 <= idx_s < self.linear_range().1
                ==> r is Ok,
            r matches Ok(v) ==> v.col == self.phys(idx_s - self.spec_idx_s()) && v.rows == self.rows_jerk(
                idx_s as int,
            ) && v.rows <= self.spec_jerk_linear_rows(),
    {
        if let Err(e) = self.check_s_in_bounds(idx_s, 1) {
            return Err(e);
        }
        if idx_s < self.linear_left || idx_s >= self.linear_right {
            return Err(
                ConstraintError::LinearJerkNotAvailable { idx_s, valid_range: (self.linear_left, self.linear_right) },
            );
        }
        let col = self.idx(idx_s - self.idx_s);
        let rows = self.valid_rows_jerk.rows_at_station(
            Ghost(self.idx_s as int),
            Ghost(self.idx_s + self.len),
            idx_s,
        );
        Ok(StationRows { col, rows })
    }

    /// Where first-order bounds `amax` for the stations
    /// `[idx_s, idx_s + amax.ncols)` are fused in, each column reduced to its
    /// minimum first. The stations must lie in the window (else
    /// `OutOfSBounds`); empty blocks change nothing; otherwise every
    /// reduced bound must be positive (else `NonPositiveA`), which the
    /// owner of the values reports in `min_positive`.
    pub fn with_constraint_1order(&self, amax: Shape, min_positive: bool, idx_s: usize) -> (r: Result<
        Vec<ColSegment>,
        ConstraintError,
    >)
        requires
            self.wf(),
        ensures
            !self.in_bounds(idx_s as int, amax.ncols as int) ==> r == Err::<Vec<ColSegment>, ConstraintError>(
                ConstraintError::OutOfSBounds { idx_s, len: amax.ncols },
            ),
            self.in_bounds(idx_s as int, amax.ncols as int) && (amax.ncols == 0 || amax.nrows == 0)
                ==> (r matches Ok(v) && v@.len() == 0),
            self.in_bounds(idx_s as int, amax.ncols as int) && amax.ncols > 0 && amax.nrows > 0
                && !min_positive ==> r == Err::<Vec<ColSegment>, ConstraintError>(
                ConstraintError::NonPositiveA,
            ),
            self.in_bounds(idx_s as int, amax.ncols as int) && amax.ncols > 0 && amax.nrows > 0
                && min_positive ==> (r matches Ok(v) && v@ == circular_segments(
                self.spec_capacity() as int,
                self.phys(idx_s - self.spec_idx_s()),
                amax.ncols as int,
            )),
    {
        if let Err(e) = self.check_s_in_bounds(idx_s, amax.ncols) {
            return Err(e);
        }
        if amax.ncols == 0 || amax.nrows == 0 {
            return Ok(Vec::new());
        }
        if !min_positive {
            return Err(ConstraintError::NonPositiveA);
        }
        let start = self.idx(idx_s - self.idx_s);
        Ok(Self::circular_process(self.capacity_col, start, amax.ncols))
    }

    /// Where `ncols` replacement first-order bounds starting at station
    /// `idx_from` are written; the stations must lie in the window (else
    /// `OutOfSBounds`).
    pub fn amax_substitute(&self, ncols: usize, idx_from: usize) -> (r: Result<Vec<ColSegment>, ConstraintError>)
        requires
            self.wf(),
        ensures
            r is Ok <==> self.in_bounds(idx_from as int, ncols as int),
            r matches Err(e) ==> e == (ConstraintError::OutOfSBounds { idx_s: idx_from, len: ncols }),
            r matches Ok(v) ==> (if ncols == 0 {
                v@.len() == 0
            } else {
                v@ == circular_segments(
                    self.spec_capacity() as int,
                    self.phys(idx_from - self.spec_idx_s()),
                    ncols as int,
                )
            }),
    {
        self.columns_of(idx_from, ncols)
    }

    /// `q`, `dq` and `ddq` are fully given (`dim` valid rows) on every
    /// stored station of `[start, end)`.
    pub open spec fn q_given(&self, start: int, end: int) -> bool {
        forall|k: int| start <= k < end && self.spec_idx_s() <= k ==> #[trigger] self.rows_q(k) == self.spec_dim()
    }

    /// `new` is `self` with `q`, `dq` and `ddq` fully given on the
    /// stations `[idx_s, idx_s + ncols)` and nowhere else changed.
    pub open spec fn q_written(&self, new: Self, idx_s: int, ncols: int) -> bool {
        &&& new.spec_dim() == self.spec_dim()
        &&& forall|k: int| #[trigger] new.rows_q(k) == if idx_s <= k < idx_s + ncols {
            self.spec_dim()
        } else {
            self.rows_q(k)
        }
    }

    /// Whether `q`, `dq` and `ddq` are fully given (`dim` valid rows) on
    /// every stored station of `[start_idx_s, end_idx_s)`.
    pub fn check_given_q(&self, start_idx_s: usize, end_idx_s: usize) -> (r: bool)
        requires
            self.wf(),
            self.spec_len() > 0,
            end_idx_s <= self.spec_end(),
        ensures
            r == self.q_given(start_idx_s as int, end_idx_s as int),
    {
        let from = if start_idx_s < self.idx_s {
            self.idx_s
        } else {
            start_idx_s
        };
        if from >= end_idx_s {
            return true;
        }
        let r = self.valid_rows_q.all_rows_equal(
            Ghost(self.idx_s as int),
            Ghost(self.idx_s + self.len),
            from,
            end_idx_s,
            self.dim,
        );
        proof {
            if r {
                assert forall|k: int|
                    start_idx_s <= k < end_idx_s && self.spec_idx_s() <= k implies #[trigger] self.rows_q(k)
                    == self.spec_dim() by {
                    assert(self.valid_rows_q.rows(k) == self.dim);
                }
            } else {
                let k = choose|k: int| from <= k < end_idx_s && #[trigger] self.valid_rows_q.rows(k) != self.dim;
                assert(self.rows_q(k) != self.spec_dim());
            }
        }
        r
    }

    /// Whether `dddq` is fully given (`dim` valid rows) on every stored
    /// station of `[start_idx_s, end_idx_s)`.
    pub fn check_given_dddq(&self, start_idx_s: usize, end_idx_s: usize) -> (r: bool)
        requires
            self.wf(),
            self.spec_len() > 0,
            end_idx_s <= self.spec_end(),
        ensures
            r == forall|k: int|
                start_idx_s <= k < end_idx_s && self.spec_idx_s() <= k ==> #[trigger] self.rows_dddq(k)
                    == self.spec_dim(),
    {
        let from = if start_idx_s < self.idx_s {
            self.idx_s
        } else {
            start_idx_s
        };
        if from >= end_idx_s {
            return true;
        }
        let r = self.valid_rows_dddq.all_rows_equal(
            Ghost(self.idx_s as int),
            Ghost(self.idx_s + self.len),
            from,
            end_idx_s,
            self.dim,
        );
        proof {
            if r {
                assert forall|k: int|
                    start_idx_s <= k < end_idx_s && self.spec_idx_s() <= k implies #[trigger] self.rows_dddq(k)
                    == self.spec_dim() by {
                    assert(self.valid_rows_dddq.rows(k) == self.dim);
                }
            } else {
                let k = choose|k: int| from <= k < end_idx_s && #[trigger] self.valid_rows_dddq.rows(k) != self.dim;
                assert(self.rows_dddq(k) != self.spec_dim());
            }
        }
        r
    }

    /// Total second-order row count of the stations in `[idx_from, idx_to)`.
    pub fn count_rows_acc(&self, idx_from: usize, idx_to: usize) -> (r: usize)
        requires
            self.wf(),
            idx_from <= idx_to,
            row_sum(|k: int| self.rows_acc(k), idx_from as int, idx_to as int) <= usize::MAX,
        ensures
            r == row_sum(|k: int| self.rows_acc(k), idx_from as int, idx_to as int),
    {
        let lo = self.idx_s;
        let hi = self.idx_s + self.len;
        let f = if idx_from < lo {
            lo
        } else if idx_from > hi {
            hi
        } else {
            idx_from
        };
        let t = if idx_to < lo {
            lo
        } else if idx_to > hi {
            hi
        } else {
            idx_to
        };
        proof {
            let m = self.valid_rows_acc;
            assert((|k: int| self.rows_acc(k)) =~= (|k: int| m.rows(k)));
            assert forall|k: int| !(lo <= k < hi) implies #[trigger] m.rows(k) == 0 by {
                lemma_partition_rows(m.segs(), lo as int, hi as int, k);
            }
            lemma_row_sum_clamp(|k: int| m.rows(k), lo as int, hi as int, idx_from as int, idx_to as int);
            lemma_sum_rows_is_row_sum(m, f as int, t as int);
        }
        self.valid_rows_acc.count_rows(Ghost(lo as int), Ghost(hi as int), f, t)
    }

    /// Total third-order row count of the stations in `[idx_from, idx_to)`.
    pub fn count_rows_jerk(&self, idx_from: usize, idx_to: usize) -> (r: usize)
        requires
            self.wf(),
            idx_from <= idx_to,
            row_sum(|k: int| self.rows_jerk(k), idx_from as int, idx_to as int) <= usize::MAX,
        ensures
            r == row_sum(|k: int| self.rows_jerk(k), idx_from as int, idx_to as int),
    {
        let lo = self.idx_s;
        let hi = self.idx_s + self.len;
        let f = if idx_from < lo {
            lo
        } else if idx_from > hi {
            hi
        } else {
            idx_from
        };
        let t = if idx_to < lo {
            lo
        } else if idx_to > hi {
            hi
        } else {
            idx_to
        };
        proof {
            let m = self.valid_rows_jerk;
            assert((|k: int| self.rows_jerk(k)) =~= (|k: int| m.rows(k)));
            assert forall|k: int| !(lo <= k < hi) implies #[trigger] m.rows(k) == 0 by {
                lemma_partition_rows(m.segs(), lo as int, hi as int, k);
            }
            lemma_row_sum_clamp(|k: int| m.rows(k), lo as int, hi as int, idx_from as int, idx_to as int);
            lemma_sum_rows_is_row_sum(m, f as int, t as int);
        }
        self.valid_rows_jerk.count_rows(Ghost(lo as int), Ghost(hi as int), f, t)
    }

    /// Row counts restricted to the window `[lo, hi)` of `other`: those of
    /// `other` inside, none outside.
    pub open spec fn rows_restricted(&self, other: Self, lo: int, hi: int) -> bool {
        &&& forall|k: int| #[trigger] self.rows_q(k) == if lo <= k < hi { other.rows_q(k) } else { 0 }
        &&& forall|k: int| #[trigger] self.rows_dddq(k) == if lo <= k < hi { other.rows_dddq(k) } else { 0 }
        &&& forall|k: int| #[trigger] self.rows_acc(k) == if lo <= k < hi { other.rows_acc(k) } else { 0 }
        &&& forall|k: int| #[trigger] self.rows_jerk(k) == if lo <= k < hi { other.rows_jerk(k) } else { 0 }
    }

    /// Same allocated row counts and linearized range as `other`.
    pub open spec fn same_allocation(&self, other: Self) -> bool {
        &&& self.linear_range() == other.linear_range()
        &&& self.spec_acc_rows() == other.spec_acc_rows()
        &&& self.spec_jerk_rows() == other.spec_jerk_rows()
        &&& self.spec_jerk_linear_rows() == other.spec_jerk_linear_rows()
    }

    /// Same row counts as `other` at every station.
    pub open spec fn same_rows(&self, other: Self) -> bool {
        &&& forall|k: int| #[trigger] self.rows_q(k) == other.rows_q(k)
        &&& forall|k: int| #[trigger] self.rows_dddq(k) == other.rows_dddq(k)
        &&& forall|k: int| #[trigger] self.rows_acc(k) == other.rows_acc(k)
        &&& forall|k: int| #[trigger] self.rows_jerk(k) == other.rows_jerk(k)
    }

    /// `new` is `self` with `ncols` stations appended at the end of the
    /// window, none of them with valid rows.
    pub open spec fn appended(&self, new: Self, ncols: nat) -> bool {
        &&& new.spec_dim() == self.spec_dim()
        &&& new.spec_idx_s() == self.spec_idx_s()
        &&& new.spec_len() == self.spec_len() + ncols
        &&& new.same_allocation(*self)
        &&& new.same_rows(*self)
    }

    /// Prepare the linearization of the third-order rows of the stations
    /// `[start_idx_s, start_idx_s + len)` around a reference profile of
    /// `len` values.
    ///
    /// An empty profile changes nothing. Otherwise the stations must lie in
    /// the window (else `OutOfSBounds`), the denominator floor must be
    /// positive (else `NonPositiveLinearizationFloor`) and no reference
    /// value negative (else `NonPositiveA`), as the owner of the values
    /// reports in `floor_positive` and `profile_nonnegative`. On success the
    /// linearized range becomes the given stations, the linearized row
    /// allocation grows to their largest third-order row count, and entry
    /// `j` of the result gives the physical column and third-order row count
    /// of station `start_idx_s + j`: the rows to linearize there.
    pub fn linearize_constraint_3order_with_floor(
        &mut self,
        len: usize,
        start_idx_s: usize,
        floor_positive: bool,
        profile_nonnegative: bool,
    ) -> (r: Result<Vec<StationRows>, ConstraintError>)
        requires
            old(self).wf(),
        ensures
            final(self).wf(),
            final(self).same_window(*old(self)),
            final(self).spec_acc_rows() == old(self).spec_acc_rows(),
            final(self).spec_jerk_rows() == old(self).spec_jerk_rows(),
            forall|k: int| #[trigger] final(self).rows_q(k) == old(self).rows_q(k),
            forall|k: int| #[trigger] final(self).rows_dddq(k) == old(self).rows_dddq(k),
            forall|k: int| #[trigger] final(self).rows_acc(k) == old(self).rows_acc(k),
            forall|k: int| #[trigger] final(self).rows_jerk(k) == old(self).rows_jerk(k),
            len == 0 ==> (r matches Ok(v) && v@.len() == 0),
            len > 0 && !old(self).in_bounds(start_idx_s as int, len as int) ==> r == Err::<
                Vec<StationRows>,
                ConstraintError,
            >(ConstraintError::OutOfSBounds { idx_s: start_idx_s, len }),
            len > 0 && old(self).in_bounds(start_idx_s as int, len as int) && !floor_positive ==> r
                == Err::<Vec<StationRows>, ConstraintError>(
                ConstraintError::NonPositiveLinearizationFloor,
            ),
            len > 0 && old(self).in_bounds(start_idx_s as int, len as int) && floor_positive
                && !profile_nonnegative ==> r == Err::<Vec<StationRows>, ConstraintError>(
                ConstraintError::NonPositiveA,
            ),
            len > 0 && old(self).in_bounds(start_idx_s as int, len as int) && floor_positive
                && profile_nonnegative ==> r is Ok,
            !(len > 0 && r is Ok) ==> final(self).linear_range() == old(self).linear_range()
                && final(self).spec_jerk_linear_rows() == old(self).spec_jerk_linear_rows(),
            len > 0 && r is Ok ==> {
                &&& final(self).linear_range() == (start_idx_s as nat, (start_idx_s + len) as nat)
                &&& old(self).spec_jerk_linear_rows() <= final(self).spec_jerk_linear_rows()
                &&& forall|k: int|
                    start_idx_s <= k < start_idx_s + len ==> #[trigger] old(self).rows_jerk(k)
                        <= final(self).spec_jerk_linear_rows()
                &&& final(self).spec_jerk_linear_rows() == old(self).spec_jerk_linear_rows() || exists|
                    k: int,
                |
                    start_idx_s <= k < start_idx_s + len && final(self).spec_jerk_linear_rows()
                        == #[trigger] old(self).rows_jerk(k)
            },
            r matches Ok(v) ==> v@.len() == len && forall|j: int|
                0 <= j < len ==> #[trigger] v@[j] == (StationRows {
                    col: old(self).phys(start_idx_s - old(self).spec_idx_s() + j) as usize,
                    rows: old(self).rows_jerk(start_idx_s + j) as usize,
                }),
    {
        if len == 0 {
            return Ok(Vec::new());
        }
        if let Err(e) = self.check_s_in_bounds(start_idx_s, len) {
            return Err(e);
        }
        if !floor_positive {
            return Err(ConstraintError::NonPositiveLinearizationFloor);
        }
        if !profile_nonnegative {
            return Err(ConstraintError::NonPositiveA);
        }
        proof {
            assert forall|k: int| start_idx_s <= k < start_idx_s + len implies #[trigger] self.valid_rows_jerk.rows(k)
                + 0 <= usize::MAX by {
                assert(self.valid_rows_jerk.rows(k) <= self.jerk_rows);
            }
        }
        let (columns, m) = self.row_placements(&self.valid_rows_jerk, start_idx_s, len, 0, self.jerk_linear_rows);
        self.jerk_linear_rows = m;
        self.linear_left = start_idx_s;
        self.linear_right = start_idx_s + len;
        proof {
            assert forall|k: int|
                self.linear_left <= k < self.linear_right implies #[trigger] self.valid_rows_jerk.rows(k)
                <= self.jerk_linear_rows by {
                assert(self.valid_rows_jerk.rows(k) + 0 <= m);
            }
            if m != old(self).jerk_linear_rows {
                let k = choose|k: int|
                    start_idx_s <= k < start_idx_s + len && m == #[trigger] self.valid_rows_jerk.rows(k) + 0;
                assert(old(self).rows_jerk(k) == m);
            }
        }
        Ok(columns)
    }

    /// The window's station ids fit in `usize`, and the window fits in the buffer.
    pub proof fn lemma_window_fits(&self)
        requires
            self.wf(),
        ensures
            self.spec_end() <= usize::MAX,
            self.spec_len() <= self.spec_capacity() <= MAX_CAPACITY,
    {
    }

    /// Stations outside the window have no valid rows.
    pub proof fn lemma_rows_in_window(&self)
        requires
            self.wf(),
        ensures
            self.rows_restricted(*self, self.spec_idx_s() as int, self.spec_end() as int),
    {
        let lo = self.idx_s as int;
        let hi = self.idx_s + self.len;
        assert forall|k: int| #[trigger] self.rows_q(k) == if lo <= k < hi { self.rows_q(k) } else { 0 } by {
            lemma_partition_rows(self.valid_rows_q.segs(), lo, hi, k);
        }
        assert forall|k: int| #[trigger] self.rows_dddq(k) == if lo <= k < hi { self.rows_dddq(k) } else { 0 } by {
            lemma_partition_rows(self.valid_rows_dddq.segs(), lo, hi, k);
        }
        assert forall|k: int| #[trigger] self.rows_acc(k) == if lo <= k < hi { self.rows_acc(k) } else { 0 } by {
            lemma_partition_rows(self.valid_rows_acc.segs(), lo, hi, k);
        }
        assert forall|k: int| #[trigger] self.rows_jerk(k) == if lo <= k < hi { self.rows_jerk(k) } else { 0 } by {
            lemma_partition_rows(self.valid_rows_jerk.segs(), lo, hi, k);
        }
    }

    /// The stencil of a stationary boundary of `num_stationary` stations of a
    /// profile of `profile_len` stations starting at `idx_s_start`: at the
    /// start (`rev == false`) or the end. `None` when there are no
    /// stationary stations or the stencil's stations `[id, id + num_stationary]`
    /// leave the window.
    pub fn stationary_stencil(&self, rev: bool, profile_len: usize, idx_s_start: usize, num_stationary: usize) -> (r:
        Option<StationaryStencil>)
        requires
            self.wf(),
            num_stationary < usize::MAX,
            num_stationary > 0 ==> profile_len >= 1 && idx_s_start + profile_len - 1 <= usize::MAX,
            num_stationary > 0 && rev ==> num_stationary <= profile_len - 1,
        ensures
            ({
                let n = profile_len - 1;
                let first = if rev {
                    idx_s_start + n - num_stationary
                } else {
                    idx_s_start as int
                };
                &&& (num_stationary == 0 || !self.in_bounds(first, num_stationary + 1)) ==> r is None
                &&& num_stationary > 0 && self.in_bounds(first, num_stationary + 1) ==> (r matches Some(st) && {
                    &&& st.id_start == (if rev {
                        n
                    } else {
                        0
                    })
                    &&& st.id_a == (if rev {
                        n - num_stationary
                    } else {
                        num_stationary as int
                    })
                    &&& st.stations@.len() == stencil_len(rev, n, num_stationary as int)
                    &&& forall|j: int|
                        0 <= j < st.stations@.len() ==> #[trigger] st.stations@[j] == stencil_station(
                            rev,
                            n,
                            num_stationary as int,
                            j,
                        )
                })
            }),
    {
        if num_stationary == 0 {
            return None;
        }
        let n = profile_len - 1;
        let (first, id_start, id_a) = if rev {
            (idx_s_start + n - num_stationary, n, n - num_stationary)
        } else {
            (idx_s_start, 0, num_stationary)
        };
        if self.check_s_in_bounds(first, num_stationary + 1).is_err() {
            return None;
        }
        let count = if rev || num_stationary <= n {
            num_stationary
        } else {
            n
        };
        let mut stations: Vec<usize> = Vec::new();
        let mut j: usize = 0;
        while j < count
            invariant
                0 <= j <= count,
                count == stencil_len(rev, n as int, num_stationary as int),
                n == profile_len - 1,
                rev ==> num_stationary <= n,
                stations@.len() == j,
                forall|i: int|
                    0 <= i < j ==> #[trigger] stations@[i] == stencil_station(
                        rev,
                        n as int,
                        num_stationary as int,
                        i,
                    ),
            decreases count - j,
        {
            if rev {
                stations.push(n - 1 - j);
            } else {
                stations.push(j + 1);
            }
            j = j + 1;
        }
        Some(StationaryStencil { id_start, id_a, stations })
    }

    /// The four row maps restricted to `[a, b)`.
    fn clip_maps(&self, a: usize, b: usize) -> (r: (ValidRows, ValidRows, ValidRows, ValidRows))
        requires
            self.wf(),
            self.spec_idx_s() <= a <= b <= self.spec_end(),
        ensures
            r.0.wf(a as int, b as int),
            r.1.wf(a as int, b as int),
            r.2.wf(a as int, b as int),
            r.3.wf(a as int, b as int),
            forall|k: int| #[trigger] r.0.rows(k) == if a <= k < b { self.rows_q(k) } else { 0 },
            forall|k: int| #[trigger] r.1.rows(k) == if a <= k < b { self.rows_dddq(k) } else { 0 },
            forall|k: int| #[trigger] r.2.rows(k) == if a <= k < b { self.rows_acc(k) } else { 0 },
            forall|k: int| #[trigger] r.3.rows(k) == if a <= k < b { self.rows_jerk(k) } else { 0 },
    {
        let lo = Ghost(self.idx_s as int);
        let hi = Ghost(self.idx_s + self.len);
        (
            self.valid_rows_q.clip(lo, hi, a, b),
            self.valid_rows_dddq.clip(lo, hi, a, b),
            self.valid_rows_acc.clip(lo, hi, a, b),
            self.valid_rows_jerk.clip(lo, hi, a, b),
        )
    }

    /// Reset the window to no stations, keeping the global station origin
    /// when `keep_idx_s` holds and setting it to `0` otherwise. Allocations
    /// and the linearized range stay; every row count becomes `0`. The owner
    /// of the values resets every first-order bound to `+inf`.
    pub fn clear(&mut self, keep_idx_s: bool)
        requires
            old(self).wf(),
        ensures
            final(self).wf(),
            final(self).spec_capacity() == old(self).spec_capacity(),
            final(self).spec_dim() == old(self).spec_dim(),
            final(self).spec_head() == 0,
            final(self).spec_len() == 0,
            final(self).spec_idx_s() == if keep_idx_s {
                old(self).spec_idx_s()
            } else {
                0
            },
            final(self).same_allocation(*old(self)),
            final(self).rows_restricted(*old(self), 0, 0),
    {
        self.head_col = 0;
        self.len = 0;
        if !keep_idx_s {
            self.idx_s = 0;
        }
        self.valid_rows_q.clear();
        self.valid_rows_dddq.clear();
        self.valid_rows_acc.clear();
        self.valid_rows_jerk.clear();
        proof {
            assert(self.valid_rows_q.wf(self.idx_s as int, self.idx_s as int));
            assert(self.valid_rows_dddq.wf(self.idx_s as int, self.idx_s as int));
            assert(self.valid_rows_acc.wf(self.idx_s as int, self.idx_s as int));
            assert(self.valid_rows_jerk.wf(self.idx_s as int, self.idx_s as int));
        }
    }

    /// `new` and `r` are what [`pop_front`](Constraints::pop_front) with
    /// `mode` makes of `self`.
    pub open spec fn popped_front(&self, new: Self, mode: ModePopConstraints, r: PopOutcome) -> bool {
        let cut = front_cut(self.spec_idx_s() as int, self.spec_len() as int, mode);
        &&& new.spec_capacity() == self.spec_capacity()
        &&& new.spec_dim() == self.spec_dim()
        &&& new.same_allocation(*self)
        &&& new.rows_restricted(*self, new.spec_idx_s() as int, new.spec_end() as int)
        &&& cut <= self.spec_idx_s() ==> r is Unchanged && new.same_window(*self)
        &&& self.spec_idx_s() < cut < self.spec_end() ==> {
            &&& new.spec_idx_s() == cut
            &&& new.spec_end() == self.spec_end()
            &&& new.spec_head() == self.phys(cut - self.spec_idx_s())
            &&& r matches PopOutcome::Trimmed(v) && v@ == circular_segments(
                self.spec_capacity() as int,
                self.spec_head() as int,
                cut - self.spec_idx_s(),
            )
        }
        &&& self.spec_idx_s() < cut && cut >= self.spec_end() ==> {
            &&& r is Cleared
            &&& new.spec_idx_s() == self.spec_end()
            &&& new.spec_len() == 0
            &&& new.spec_head() == 0
        }
    }

    /// Remove stations from the front of the window.
    ///
    /// [`CutAtIdxS(cut)`](ModePopConstraints::CutAtIdxS) keeps the stations
    /// with id `>= cut`, [`PopNCols(n)`](ModePopConstraints::PopNCols) removes
    /// the first `n`. Removing nothing changes nothing; removing every
    /// station clears the window, which then starts at the old end, so that
    /// stations appended later take new ids. Otherwise the window
    /// starts at the cut, the head advances past the removed columns, whose
    /// first-order bounds the owner of the values resets to `+inf` (the
    /// result lists them), and the remaining stations keep their row counts.
    #[verifier::spinoff_prover]
    pub fn pop_front(&mut self, mode: ModePopConstraints) -> (r: PopOutcome)
        requires
            old(self).wf(),
        ensures
            final(self).wf(),
            old(self).popped_front(*final(self), mode, r),
            final(self).spec_capacity() == old(self).spec_capacity(),
            final(self).spec_dim() == old(self).spec_dim(),
            final(self).same_allocation(*old(self)),
            final(self).rows_restricted(*old(self), final(self).spec_idx_s() as int, final(self).spec_end() as int),
            ({
                let cut = front_cut(old(self).spec_idx_s() as int, old(self).spec_len() as int, mode);
                &&& cut <= old(self).spec_idx_s() ==> r is Unchanged && final(self).same_window(*old(self))
                &&& old(self).spec_idx_s() < cut < old(self).spec_end() ==> {
                    &&& final(self).spec_idx_s() == cut
                    &&& final(self).spec_end() == old(self).spec_end()
                    &&& final(self).spec_head() == old(self).phys(cut - old(self).spec_idx_s())
                    &&& r matches PopOutcome::Trimmed(v) && v@ == circular_segments(
                        old(self).spec_capacity() as int,
                        old(self).spec_head() as int,
                        cut - old(self).spec_idx_s(),
                    )
                }
                &&& old(self).spec_idx_s() < cut && cut >= old(self).spec_end() ==> {
                    &&& r is Cleared
                    &&& final(self).spec_idx_s() == old(self).spec_end()
                    &&& final(self).spec_len() == 0
                    &&& final(self).spec_head() == 0
                }
            }),
    {
        let end = self.idx_s + self.len;
        let cut = match mode {
            ModePopConstraints::CutAtIdxS(c) => if c < end {
                c
            } else {
                end
            },
            ModePopConstraints::PopNCols(n) => self.idx_s + if n < self.len {
                n
            } else {
                self.len
            },
        };
        if cut <= self.idx_s {
            proof {
                self.lemma_rows_in_window();
            }
            return PopOutcome::Unchanged;
        }
        let ncols = cut - self.idx_s;
        if ncols >= self.len {
            self.head_col = 0;
            self.len = 0;
            self.idx_s = end;
            self.valid_rows_q.clear();
            self.valid_rows_dddq.clear();
            self.valid_rows_acc.clear();
            self.valid_rows_jerk.clear();
            proof {
                assert(self.valid_rows_q.wf(end as int, end as int));
                assert(self.valid_rows_dddq.wf(end as int, end as int));
                assert(self.valid_rows_acc.wf(end as int, end as int));
                assert(self.valid_rows_jerk.wf(end as int, end as int));
            }
            return PopOutcome::Cleared;
        }
        let start = self.idx(0);
        let columns = Self::circular_process(self.capacity_col, start, ncols);
        let new_head = self.idx(ncols);
        let (q, d, a, j) = self.clip_maps(cut, end);
        self.valid_rows_q = q;
        self.valid_rows_dddq = d;
        self.valid_rows_acc = a;
        self.valid_rows_jerk = j;
        self.head_col = new_head;
        self.idx_s = cut;
        self.len = self.len - ncols;
        proof {
            lemma_mod_once(old(self).head_col as int, old(self).capacity_col as int);
        }
        PopOutcome::Trimmed(columns)
    }

    /// `new` and `r` are what [`pop_back`](Constraints::pop_back) with
    /// `mode` makes of `self`.
    pub open spec fn popped_back(&self, new: Self, mode: ModePopConstraints, r: PopOutcome) -> bool {
        let cut = back_cut(self.spec_idx_s() as int, self.spec_len() as int, mode);
        &&& new.spec_capacity() == self.spec_capacity()
        &&& new.spec_dim() == self.spec_dim()
        &&& new.same_allocation(*self)
        &&& new.rows_restricted(*self, new.spec_idx_s() as int, new.spec_end() as int)
        &&& cut >= self.spec_end() ==> r is Unchanged && new.same_window(*self)
        &&& self.spec_idx_s() < cut < self.spec_end() ==> {
            &&& new.spec_idx_s() == self.spec_idx_s()
            &&& new.spec_end() == cut
            &&& new.spec_head() == self.spec_head()
            &&& r matches PopOutcome::Trimmed(v) && v@ == circular_segments(
                self.spec_capacity() as int,
                self.phys(cut - self.spec_idx_s()),
                self.spec_end() - cut,
            )
        }
        &&& cut <= self.spec_idx_s() && cut < self.spec_end() ==> {
            &&& r is Cleared
            &&& new.spec_idx_s() == self.spec_idx_s()
            &&& new.spec_len() == 0
            &&& new.spec_head() == 0
        }
    }

    /// Remove stations from the back of the window.
    ///
    /// [`CutAtIdxS(cut)`](ModePopConstraints::CutAtIdxS) keeps the stations
    /// with id `< cut`, [`PopNCols(n)`](ModePopConstraints::PopNCols) removes
    /// the last `n`. Removing nothing changes nothing; removing every
    /// station clears the window, keeping its origin. Otherwise the window
    /// ends at the cut, the removed columns' first-order bounds are reset to
    /// `+inf` by the owner of the values (the result lists them), and the
    /// remaining stations keep their row counts.
    #[verifier::spinoff_prover]
    pub fn pop_back(&mut self, mode: ModePopConstraints) -> (r: PopOutcome)
        requires
            old(self).wf(),
        ensures
            final(self).wf(),
            old(self).popped_back(*final(self), mode, r),
    {
        let end = self.idx_s + self.len;
        let cut = match mode {
            ModePopConstraints::CutAtIdxS(c) => if c > self.idx_s {
                c
            } else {
                self.idx_s
            },
            ModePopConstraints::PopNCols(n) => end - if n < self.len {
                n
            } else {
                self.len
            },
        };
        if cut >= end {
            proof {
                self.lemma_rows_in_window();
            }
            return PopOutcome::Unchanged;
        }
        let ncols = end - cut;
        if ncols >= self.len {
            self.clear(true);
            return PopOutcome::Cleared;
        }
        let start = self.idx(self.len - ncols);
        let columns = Self::circular_process(self.capacity_col, start, ncols);
        let (q, d, a, j) = self.clip_maps(self.idx_s, cut);
        self.valid_rows_q = q;
        self.valid_rows_dddq = d;
        self.valid_rows_acc = a;
        self.valid_rows_jerk = j;
        self.len = self.len - ncols;
        PopOutcome::Trimmed(columns)
    }

    /// Validate that `[idx_left, idx_left + len)` lies inside the window.
    pub fn check_s_in_bounds(&self, idx_left: usize, len: usize) -> (r: Result<(), ConstraintError>)
        requires
            self.wf(),
        ensures
            r is Ok <==> self.in_bounds(idx_left as int, len as int),
            r matches Err(e) ==> e == (ConstraintError::OutOfSBounds { idx_s: idx_left, len }),
    {
        if idx_left >= self.idx_s && len <= usize::MAX - idx_left && idx_left + len <= self.idx_s
            + self.len {
            Ok(())
        } else {
            Err(ConstraintError::OutOfSBounds { idx_s: idx_left, len })
        }
    }

    /// Physical column of station `idx_s`, which must lie in the window.
    pub fn col_at_idx_s_unchecked(&self, idx_s: usize) -> (r: usize)
        requires
            self.wf(),
            self.in_bounds(idx_s as int, 1),
        ensures
            r == self.phys(idx_s - self.spec_idx_s()),
            r < self.spec_capacity(),
    {
        self.idx(idx_s - self.idx_s)
    }

    /// Split a run of `ncols_data` columns starting at physical column
    /// `start_idx` of a circular buffer of `ncols_mat` columns into at most
    /// two contiguous segments.
    pub fn circular_process(ncols_mat: usize, start_idx: usize, ncols_data: usize) -> (r: Vec<
        ColSegment,
    >)
        requires
            start_idx <= ncols_mat,
        ensures
            r@ == circular_segments(ncols_mat as int, start_idx as int, ncols_data as int),
    {
        let mut r = Vec::new();
        if ncols_mat - start_idx >= ncols_data {
            r.push(ColSegment { start: start_idx, ncols: ncols_data, offset: 0 });
        } else {
            let len_first = ncols_mat - start_idx;
            r.push(ColSegment { start: start_idx, ncols: len_first, offset: 0 });
            r.push(ColSegment { start: 0, ncols: ncols_data - len_first, offset: len_first });
        }
        r
    }

    /// Physical column segments holding the stations `[idx_s, idx_s + len)`.
    pub fn columns_of(&self, idx_s: usize, len: usize) -> (r: Result<Vec<ColSegment>, ConstraintError>)
        requires
            self.wf(),
        ensures
            r is Ok <==> self.in_bounds(idx_s as int, len as int),
            r matches Err(e) ==> e == (ConstraintError::OutOfSBounds { idx_s, len }),
            r matches Ok(v) ==> (if len == 0 {
                v@.len() == 0
            } else {
                v@ == circular_segments(
                    self.spec_capacity() as int,
                    self.phys(idx_s - self.spec_idx_s()),
                    len as int,
                )
            }),
    {
        match self.check_s_in_bounds(idx_s, len) {
            Err(e) => Err(e),
            Ok(()) => {
                if len == 0 {
                    Ok(Vec::new())
                } else {
                    let start = self.idx(idx_s - self.idx_s);
                    Ok(Self::circular_process(self.capacity_col, start, len))
                }
            },
        }
    }

    /// Physical column segments of the stations `[idx_s_from, idx_s_to)`,
    /// the layout used to export station values and first-order bounds.
    pub fn s_vec_columns(&self, idx_s_from: usize, idx_s_to: usize) -> (r: Result<
        Vec<ColSegment>,
        ConstraintError,
    >)
        requires
            self.wf(),
        ensures
            idx_s_from >= idx_s_to ==> r == Err::<Vec<ColSegment>, ConstraintError>(
                ConstraintError::EmptyInterval { start: idx_s_from, end: idx_s_to },
            ),
            idx_s_from < idx_s_to ==> (r is Ok <==> self.in_bounds(
                idx_s_from as int,
                idx_s_to - idx_s_from,
            )),
            idx_s_from < idx_s_to ==> (r matches Err(e) ==> e == (ConstraintError::OutOfSBounds {
                idx_s: idx_s_from,
                len: (idx_s_to - idx_s_from) as usize,
            })),
            r matches Ok(v) ==> v@ == circular_segments(
                self.spec_capacity() as int,
                self.phys(idx_s_from - self.spec_idx_s()),
                idx_s_to - idx_s_from,
            ),
    {
        if idx_s_from >= idx_s_to {
            return Err(ConstraintError::EmptyInterval { start: idx_s_from, end: idx_s_to });
        }
        self.columns_of(idx_s_from, idx_s_to - idx_s_from)
    }
}

/// What is written is what is read: the columns that
/// [`columns_of`](Constraints::columns_of) returns for the stations
/// `[idx_s, idx_s + len)` hold data column `j` exactly at the physical column
/// of station `idx_s + j`, where [`station_column`](Constraints::station_column)
/// reads it.
pub proof fn lemma_written_columns_are_read_columns(c: Constraints, idx_s: int, len: int)
    requires
        c.wf(),
        c.in_bounds(idx_s, len),
        len > 0,
    ensures
        forall|j: int|
            0 <= j < len ==> #[trigger] column_covered(
                circular_segments(c.spec_capacity() as int, c.phys(idx_s - c.spec_idx_s()), len),
                j,
                c.phys(idx_s - c.spec_idx_s() + j),
            ),
{
    c.lemma_window_fits();
    let cap = c.spec_capacity() as int;
    let off = idx_s - c.spec_idx_s();
    let start = c.phys(off);
    assert(0 <= start < cap) by {
        vstd::arithmetic::div_mod::lemma_mod_bound((c.spec_head() + off) as int, cap);
    }
    lemma_circular_segments_cover(cap, start, len);
    assert forall|j: int| 0 <= j < len implies #[trigger] column_covered(
        circular_segments(cap, start, len),
        j,
        c.phys(off + j),
    ) by {
        vstd::arithmetic::div_mod::lemma_add_mod_noop(c.spec_head() + off, j, cap);
        vstd::arithmetic::div_mod::lemma_small_mod(j as nat, cap as nat);
        assert((start + j) % cap == c.phys(off + j));
    }
}

/// Appending `n` stations and then popping `n` stations from the back gives
/// back the window and the row counts of every station, whatever `n`.
pub proof fn lemma_pop_back_undoes_with_s(c0: Constraints, c1: Constraints, c2: Constraints, n: usize, r: PopOutcome)
    requires
        c0.wf(),
        c0.appended(c1, n as nat),
        c1.popped_back(c2, ModePopConstraints::PopNCols(n), r),
    ensures
        c2.spec_idx_s() == c0.spec_idx_s(),
        c2.spec_len() == c0.spec_len(),
        c2.same_allocation(c0),
        c2.same_rows(c0),
{
    c0.lemma_rows_in_window();
}

/// After `q`, `dq` and `ddq` are written on `[idx_s, idx_s + ncols)`, they
/// are reported as fully given there.
pub proof fn lemma_q_given_after_write(c0: Constraints, c1: Constraints, idx_s: int, ncols: int)
    requires
        c0.q_written(c1, idx_s, ncols),
    ensures
        c1.q_given(idx_s, idx_s + ncols),
{
}

/// Row totals add up over adjacent station intervals.
pub proof fn lemma_row_sum_split(rows: spec_fn(int) -> nat, a: int, b: int, c: int)
    requires
        a <= b <= c,
    ensures
        row_sum(rows, a, c) == row_sum(rows, a, b) + row_sum(rows, b, c),
    decreases c - b,
{
    if b < c {
        lemma_row_sum_split(rows, a, b, c - 1);
    }
}

/// Popping from the front keeps exactly the stations from the cut on, with
/// their row counts, and removes those before it:
/// [`CutAtIdxS(c)`](ModePopConstraints::CutAtIdxS) keeps the stations with
/// id `>= c`, [`PopNCols(m)`](ModePopConstraints::PopNCols) removes the
/// first `m` stations (all of them when `m` is at least the window length).
/// When every station goes, the window starts at the old end.
pub proof fn lemma_pop_front_keeps_stations_from_cut(c0: Constraints, c1: Constraints, mode: ModePopConstraints, r: PopOutcome)
    requires
        c0.wf(),
        c0.popped_front(c1, mode, r),
    ensures
        mode matches ModePopConstraints::CutAtIdxS(c) ==> {
            &&& c <= c0.spec_idx_s() ==> c1.spec_idx_s() == c0.spec_idx_s() && c1.spec_len() == c0.spec_len()
            &&& c0.spec_idx_s() < c < c0.spec_end() ==> c1.spec_idx_s() == c && c1.spec_len() == c0.spec_end() - c
            &&& c0.spec_idx_s() < c && c >= c0.spec_end() ==> c1.spec_idx_s() == c0.spec_end() && c1.spec_len() == 0
        },
        mode matches ModePopConstraints::PopNCols(m) ==> {
            &&& m < c0.spec_len() ==> c1.spec_idx_s() == c0.spec_idx_s() + m && c1.spec_len() == c0.spec_len() - m
            &&& m >= c0.spec_len() ==> c1.spec_idx_s() == c0.spec_end() && c1.spec_len() == 0
        },
        c1.spec_end() == c0.spec_end(),
        forall|k: int|
            c1.spec_idx_s() <= k < c1.spec_end() ==> {
                &&& #[trigger] c1.rows_q(k) == c0.rows_q(k)
                &&& c1.rows_dddq(k) == c0.rows_dddq(k)
                &&& c1.rows_acc(k) == c0.rows_acc(k)
                &&& c1.rows_jerk(k) == c0.rows_jerk(k)
            },
{
}

} // verus!
