//! Piecewise-constant row-count maps over station ids.
//!
//! A [`ValidRows`] value partitions a half-open station window `[lo, hi)` into
//! consecutive segments; every station of a segment has the same number of
//! valid constraint rows. Its meaning is the function [`rows_at`]: the row
//! count at a station, `0` outside the window.

use vstd::prelude::*;

verus! {

/// One segment `[left, right)` whose stations all have `rows` valid rows.
#[derive(Clone, Copy, Debug, PartialEq, Eq, Structural)]
pub struct Seg {
    pub left: usize,
    pub right: usize,
    pub rows: usize,
}

/// Whether station `k` lies in segment `g`.
pub open spec fn seg_contains(g: Seg, k: int) -> bool {
    g.left <= k < g.right
}

/// Row count at station `k`: that of the last segment containing `k`, or `0`.
pub open spec fn rows_at(s: Seq<Seg>, k: int) -> nat
    decreases s.len(),
{
    if s.len() == 0 {
        0
    } else if seg_contains(s.last(), k) {
        s.last().rows as nat
    } else {
        rows_at(s.drop_last(), k)
    }
}

/// `s` partitions `[lo, hi)` into non-empty, consecutive, ordered segments.
pub open spec fn partitions(s: Seq<Seg>, lo: int, hi: int) -> bool {
    &&& lo <= hi
    &&& s.len() == 0 ==> lo == hi
    &&& s.len() > 0 ==> s[0].left == lo && s.last().right == hi
    &&& forall|i: int| 0 <= i < s.len() ==> #[trigger] s[i].left < s[i].right
    &&& forall|i: int| 0 <= i < s.len() - 1 ==> #[trigger] s[i].right == s[i + 1].left
    &&& forall|i: int, j: int| 0 <= i < j < s.len() ==> #[trigger] s[i].right <= #[trigger] s[j].left
}

/// Adjacent segments carry different row counts.
pub open spec fn compact(s: Seq<Seg>) -> bool {
    forall|i: int| 0 <= i < s.len() - 1 ==> #[trigger] s[i].rows != s[i + 1].rows
}

/// Sum of the row counts of the stations in `[from, to)`.
pub open spec fn sum_rows(s: Seq<Seg>, from: int, to: int) -> nat
    decreases to - from,
{
    if to <= from {
        0
    } else {
        sum_rows(s, from, to - 1) + rows_at(s, to - 1)
    }
}

/// How an update combines the old row count with the given one.
pub enum ModeUpdateValidRows {
    /// Overwrite the row count.
    SetValues,
    /// Add to the row count.
    AddValues,
}

/// Row count after an update of a station with `old` rows.
pub open spec fn updated_rows(mode: ModeUpdateValidRows, old: nat, n: nat) -> nat {
    match mode {
        ModeUpdateValidRows::SetValues => n,
        ModeUpdateValidRows::AddValues => old + n,
    }
}

pub proof fn lemma_rows_at_push(s: Seq<Seg>, g: Seg, k: int)
    ensures
        rows_at(s.push(g), k) == if seg_contains(g, k) {
            g.rows as nat
        } else {
            rows_at(s, k)
        },
{
    assert(s.push(g).drop_last() =~= s);
}

pub proof fn lemma_rows_at_index(s: Seq<Seg>, i: int, k: int)
    requires
        0 <= i < s.len(),
        forall|a: int, b: int| 0 <= a < b < s.len() ==> #[trigger] s[a].right <= #[trigger] s[b].left,
        seg_contains(s[i], k),
    ensures
        rows_at(s, k) == s[i].rows,
    decreases s.len(),
{
    if i == s.len() - 1 {
    } else {
        let t = s.drop_last();
        assert(s[i].right <= s[s.len() - 1].left);
        assert(t[i] == s[i]);
        assert forall|a: int, b: int| 0 <= a < b < t.len() implies #[trigger] t[a].right
            <= #[trigger] t[b].left by {
            assert(t[a] == s[a] && t[b] == s[b]);
        }
        lemma_rows_at_index(t, i, k);
    }
}

pub proof fn lemma_rows_at_outside(s: Seq<Seg>, k: int)
    requires
        forall|i: int| 0 <= i < s.len() ==> !seg_contains(#[trigger] s[i], k),
    ensures
        rows_at(s, k) == 0,
    decreases s.len(),
{
    if s.len() > 0 {
        let t = s.drop_last();
        assert(!seg_contains(s[s.len() - 1], k));
        assert forall|i: int| 0 <= i < t.len() implies !seg_contains(#[trigger] t[i], k) by {
            assert(t[i] == s[i]);
        }
        lemma_rows_at_outside(t, k);
    }
}

/// Inside a partition every station has a segment; outside, the count is `0`.
#[verifier::spinoff_prover]
#[verifier::rlimit(30)]
pub proof fn lemma_partition_rows(s: Seq<Seg>, lo: int, hi: int, k: int)
    requires
        partitions(s, lo, hi),
    ensures
        lo <= k < hi ==> exists|i: int| 0 <= i < s.len() && seg_contains(#[trigger] s[i], k),
        !(lo <= k < hi) ==> rows_at(s, k) == 0,
    decreases s.len(),
{
    if s.len() == 0 {
        lemma_rows_at_outside(s, k);
    } else {
        let t = s.drop_last();
        let n = s.len() - 1;
        lemma_partitions_drop_last(s, lo, hi);
        lemma_partition_rows(t, lo, s[n].left as int, k);
        if lo <= k < hi {
            if k >= s[n].left {
                assert(seg_contains(s[n], k));
            } else {
                let i = choose|i: int| 0 <= i < t.len() && seg_contains(#[trigger] t[i], k);
                assert(s[i] == t[i]);
            }
        } else {
            assert forall|i: int| 0 <= i < s.len() implies !seg_contains(#[trigger] s[i], k) by {
                if i < n {
                    assert(s[i].left >= s[0].left);
                    assert(s[i].right <= s[n].left);
                }
            }
            lemma_rows_at_outside(s, k);
        }
    }
}

#[verifier::spinoff_prover]
#[verifier::rlimit(30)]
pub proof fn lemma_partitions_drop_last(s: Seq<Seg>, lo: int, hi: int)
    requires
        partitions(s, lo, hi),
        s.len() > 0,
    ensures
        partitions(s.drop_last(), lo, s.last().left as int),
        forall|i: int| 0 <= i < s.len() ==> lo <= #[trigger] s[i].left && s[i].right <= hi,
{
    let t = s.drop_last();
    let n = s.len() - 1;
    assert forall|i: int| 0 <= i < s.len() implies lo <= #[trigger] s[i].left && s[i].right <= hi by {
        if i > 0 {
            assert(s[0].right <= s[i].left);
        }
        if i < n {
            assert(s[i].right <= s[n].left);
        }
    }
    if t.len() > 0 {
        assert(t[t.len() - 1].right == s[n].left);
    }
    assert forall|i: int| 0 <= i < t.len() implies #[trigger] t[i].left < t[i].right by {
        assert(t[i] == s[i]);
    }
    assert forall|i: int| 0 <= i < t.len() - 1 implies #[trigger] t[i].right == t[i + 1].left by {
        assert(t[i] == s[i] && t[i + 1] == s[i + 1]);
    }
    assert forall|i: int, j: int| 0 <= i < j < t.len() implies #[trigger] t[i].right
        <= #[trigger] t[j].left by {
        assert(t[i] == s[i] && t[j] == s[j]);
    }
}

#[verifier::spinoff_prover]
#[verifier::rlimit(30)]
pub proof fn lemma_partitions_push(s: Seq<Seg>, lo: int, mid: int, g: Seg)
    requires
        partitions(s, lo, mid),
        g.left == mid,
        g.left < g.right,
    ensures
        partitions(s.push(g), lo, g.right as int),
{
    let t = s.push(g);
    let n = s.len();
    if n > 0 {
        lemma_partitions_drop_last(s, lo, mid);
    }
    assert forall|i: int| 0 <= i < t.len() implies #[trigger] t[i].left < t[i].right by {
        if i < n {
            assert(t[i] == s[i]);
        }
    }
    assert forall|i: int| 0 <= i < t.len() - 1 implies #[trigger] t[i].right == t[i + 1].left by {
        assert(t[i] == s[i]);
        if i + 1 < n {
            assert(t[i + 1] == s[i + 1]);
        }
    }
    assert forall|i: int, j: int| 0 <= i < j < t.len() implies #[trigger] t[i].right
        <= #[trigger] t[j].left by {
        assert(t[i] == s[i]);
        if j < n {
            assert(t[j] == s[j]);
        } else {
            assert(s[i].right <= mid);
        }
    }
    if n == 0 {
        assert(t[0] == g);
    } else {
        assert(t[0] == s[0]);
    }
}

/// Number of runs of equal counts of `f` over `[lo, hi)`: the stations `k`
/// of the interval that are its first or whose count differs from that of
/// station `k - 1`.
pub open spec fn runs(f: spec_fn(int) -> nat, lo: int, hi: int) -> nat
    decreases hi - lo,
{
    if hi <= lo {
        0
    } else {
        runs(f, lo, hi - 1) + if hi - 1 == lo || f(hi - 1) != f(hi - 2) {
            1nat
        } else {
            0nat
        }
    }
}

/// Counts that agree on `[lo, hi)` have the same runs there.
proof fn lemma_runs_agree(f: spec_fn(int) -> nat, g: spec_fn(int) -> nat, lo: int, hi: int)
    requires
        forall|k: int| lo <= k < hi ==> #[trigger] f(k) == g(k),
    ensures
        runs(f, lo, hi) == runs(g, lo, hi),
    decreases hi - lo,
{
    if hi > lo {
        lemma_runs_agree(f, g, lo, hi - 1);
    }
}

/// In a compact partition, the stations of the last segment after its
/// first add no run, and its first station adds one.
#[verifier::spinoff_prover]
proof fn lemma_runs_last_segment(s: Seq<Seg>, lo: int, hi: int, m: int)
    requires
        partitions(s, lo, hi),
        compact(s),
        s.len() > 0,
        s.last().left < m <= hi,
    ensures
        runs(|k: int| rows_at(s, k), lo, m) == runs(|k: int| rows_at(s, k), lo, s.last().left as int) + 1,
    decreases m,
{
    let f = |k: int| rows_at(s, k);
    let gl = s.last().left as int;
    lemma_partitions_drop_last(s, lo, hi);
    if m == gl + 1 {
        assert(f(gl) == s.last().rows);
        if gl != lo {
            let p = s.len() - 2;
            assert(s[p].right == gl);
            assert(s[p].left < s[p].right);
            lemma_rows_at_index(s, p, gl - 1);
            assert(s[p].rows != s[p + 1].rows);
        }
    } else {
        lemma_runs_last_segment(s, lo, hi, m - 1);
        assert(f(m - 1) == s.last().rows);
        assert(f(m - 2) == s.last().rows);
    }
}

/// A compact partition has exactly one segment per run of equal counts.
#[verifier::spinoff_prover]
#[verifier::rlimit(30)]
pub proof fn lemma_segments_are_runs(s: Seq<Seg>, lo: int, hi: int)
    requires
        partitions(s, lo, hi),
        compact(s),
    ensures
        s.len() == runs(|k: int| rows_at(s, k), lo, hi),
    decreases s.len(),
{
    if s.len() > 0 {
        let t = s.drop_last();
        let gl = s.last().left as int;
        lemma_partitions_drop_last(s, lo, hi);
        assert forall|i: int| 0 <= i < t.len() - 1 implies #[trigger] t[i].rows != t[i + 1].rows by {
            assert(t[i] == s[i] && t[i + 1] == s[i + 1]);
        }
        lemma_segments_are_runs(t, lo, gl);
        assert forall|k: int| lo <= k < gl implies #[trigger] rows_at(s, k) == rows_at(t, k) by {
            assert(!seg_contains(s.last(), k));
        }
        lemma_runs_agree(|k: int| rows_at(s, k), |k: int| rows_at(t, k), lo, gl);
        lemma_runs_last_segment(s, lo, hi, hi);
    }
}

/// Piecewise-constant row counts over a window of station ids.
#[derive(Clone)]
pub struct ValidRows {
    segs: Vec<Seg>,
}

impl ValidRows {
    /// The segments, in station order.
    pub closed spec fn segs(&self) -> Seq<Seg> {
        self.segs@
    }

    /// The map partitions `[lo, hi)` and adjacent segments differ in row count.
    pub open spec fn wf(&self, lo: int, hi: int) -> bool {
        partitions(self.segs(), lo, hi) && compact(self.segs())
    }

    /// Row count at station `k`.
    pub open spec fn rows(&self, k: int) -> nat {
        rows_at(self.segs(), k)
    }

    /// An empty map, the partition of an empty window.
    pub fn new() -> (r: Self)
        ensures
            r.segs().len() == 0,
            forall|lo: int| #[trigger] r.wf(lo, lo),
    {
        ValidRows { segs: Vec::new() }
    }

    /// Number of segments.
    pub fn segment_count(&self) -> (r: usize)
        ensures
            r == self.segs().len(),
    {
        self.segs.len()
    }

    /// Remove every segment.
    pub fn clear(&mut self)
        ensures
            final(self).segs().len() == 0,
            forall|lo: int| #[trigger] final(self).wf(lo, lo),
    {
        self.segs = Vec::new();
    }

    /// Append `n_cols` stations with `num_valid_rows` rows each at the right
    /// end `hi` of the window; equal counts merge with the last segment.
    #[verifier::spinoff_prover]
    #[verifier::rlimit(40)]
    pub fn push_back_valid_rows(&mut self, Ghost(lo): Ghost<int>, hi: usize, n_cols: usize, num_valid_rows: usize)
        requires
            old(self).wf(lo, hi as int),
            hi + n_cols <= usize::MAX,
        ensures
            final(self).wf(lo, hi + n_cols),
            forall|k: int| #[trigger] final(self).rows(k) == if hi <= k < hi + n_cols {
                num_valid_rows as nat
            } else {
                old(self).rows(k)
            },
    {
        let ghost old_s = self.segs@;
        if n_cols == 0 {
            return;
        }
        let len = self.segs.len();
        if len > 0 && self.segs[len - 1].rows == num_valid_rows {
            let last = self.segs.pop().unwrap();
            proof {
                assert(self.segs@ == old_s.drop_last());
                lemma_partitions_drop_last(old_s, lo, hi as int);
            }
            let g = Seg { left: last.left, right: hi + n_cols, rows: num_valid_rows };
            self.segs.push(g);
            proof {
                let t = old_s.drop_last();
                lemma_partitions_push(t, lo, last.left as int, g);
                assert(self.segs@ == t.push(g));
                assert forall|i: int| 0 <= i < self.segs@.len() - 1 implies #[trigger] self.segs@[i].rows
                    != self.segs@[i + 1].rows by {
                    assert(self.segs@[i] == old_s[i]);
                    if i + 1 < t.len() {
                        assert(self.segs@[i + 1] == old_s[i + 1]);
                    }
                }
                assert forall|k: int| #[trigger] self.rows(k) == if hi <= k < hi + n_cols {
                    num_valid_rows as nat
                } else {
                    old(self).rows(k)
                } by {
                    lemma_rows_at_push(t, g, k);
                    lemma_rows_at_push(t, last, k);
                    assert(t.push(last) =~= old_s);
                    lemma_partition_rows(old_s, lo, hi as int, k);
                }
            }
        } else {
            let g = Seg { left: hi, right: hi + n_cols, rows: num_valid_rows };
            self.segs.push(g);
            proof {
                lemma_partitions_push(old_s, lo, hi as int, g);
                assert(self.segs@ == old_s.push(g));
                assert forall|i: int| 0 <= i < self.segs@.len() - 1 implies #[trigger] self.segs@[i].rows
                    != self.segs@[i + 1].rows by {
                    assert(self.segs@[i] == old_s[i]);
                    if i + 1 < old_s.len() {
                        assert(self.segs@[i + 1] == old_s[i + 1]);
                    }
                }
                assert forall|k: int| #[trigger] self.rows(k) == if hi <= k < hi + n_cols {
                    num_valid_rows as nat
                } else {
                    old(self).rows(k)
                } by {
                    lemma_rows_at_push(old_s, g, k);
                    lemma_partition_rows(old_s, lo, hi as int, k);
                }
            }
        }
    }
}


/// `x` clamped into `[a, b]`.
pub open spec fn clamp(x: int, a: int, b: int) -> int {
    if x < a {
        a
    } else if x > b {
        b
    } else {
        x
    }
}

/// Left end of segment `i`, or `hi` past the last segment.
pub open spec fn bound_at(s: Seq<Seg>, i: int, hi: int) -> int {
    if i < s.len() {
        s[i].left as int
    } else {
        hi
    }
}

pub proof fn lemma_sum_rows_mono(s: Seq<Seg>, from: int, k: int, to: int)
    requires
        from <= k <= to,
    ensures
        sum_rows(s, from, k) <= sum_rows(s, from, to),
    decreases to - k,
{
    if k < to {
        lemma_sum_rows_mono(s, from, k, to - 1);
    }
}

/// Push `[cur, right)` with `rows` onto `out` when it is non-empty; return the
/// new right end of the partition.
#[verifier::spinoff_prover]
#[verifier::rlimit(30)]
fn push_piece(out: &mut Vec<Seg>, Ghost(lo): Ghost<int>, cur: usize, right: usize, rows: usize) -> (r: usize)
    requires
        partitions(old(out)@, lo, cur as int),
    ensures
        r == if cur < right { right } else { cur },
        partitions(final(out)@, lo, r as int),
        cur < right ==> final(out)@ == old(out)@.push(Seg { left: cur, right, rows }),
        cur >= right ==> final(out)@ == old(out)@,
        forall|k: int| #[trigger] rows_at(final(out)@, k) == if cur <= k < right {
            rows as nat
        } else {
            rows_at(old(out)@, k)
        },
{
    if cur < right {
        let g = Seg { left: cur, right, rows };
        proof {
            lemma_partitions_push(out@, lo, cur as int, g);
            assert forall|k: int| #[trigger] rows_at(out@.push(g), k) == if cur <= k < right {
                rows as nat
            } else {
                rows_at(out@, k)
            } by {
                lemma_rows_at_push(out@, g, k);
            }
        }
        out.push(g);
        right
    } else {
        cur
    }
}


/// The segment `[left, right)` with `rows` when it is non-empty, else nothing.
#[verifier::opaque]
pub open spec fn piece(left: int, right: int, rows: usize) -> Seq<Seg> {
    if left < right {
        seq![Seg { left: left as usize, right: right as usize, rows }]
    } else {
        Seq::empty()
    }
}

/// Segment `g` cut at `from` and at `to`: its non-empty parts before
/// `from`, inside `[from, to)` (carrying `mid_rows`) and from `to` on, in
/// order.
#[verifier::opaque]
pub open spec fn cut_seg(g: Seg, from: int, to: int, mid_rows: usize) -> Seq<Seg> {
    let m1 = if g.right < from {
        g.right as int
    } else {
        from
    };
    let e1 = if g.left > m1 {
        g.left as int
    } else {
        m1
    };
    let m2 = if g.right < to {
        g.right as int
    } else {
        to
    };
    let e2 = if e1 > m2 {
        e1
    } else {
        m2
    };
    piece(g.left as int, e1, g.rows) + piece(e1, e2, mid_rows) + piece(e2, g.right as int, g.rows)
}

/// The first `i` segments of `s`, each cut at `from` and `to`, the parts
/// inside `[from, to)` carrying their updated row count.
pub open spec fn cut_segs(s: Seq<Seg>, from: int, to: int, mode: ModeUpdateValidRows, n: nat, i: int) -> Seq<Seg>
    decreases i,
{
    if i <= 0 {
        Seq::empty()
    } else {
        cut_segs(s, from, to, mode, n, i - 1) + cut_seg(
            s[i - 1],
            from,
            to,
            updated_rows(mode, s[i - 1].rows as nat, n) as usize,
        )
    }
}

/// Push the pieces `[left, e1)`, `[e1, e2)`, `[e2, right)` of `g` onto `out`,
/// the middle one with `mid_rows` and the others with `g.rows`.
#[verifier::spinoff_prover]
#[verifier::rlimit(30)]
fn push_three(out: &mut Vec<Seg>, Ghost(lo): Ghost<int>, g: Seg, e1: usize, e2: usize, mid_rows: usize)
    requires
        partitions(old(out)@, lo, g.left as int),
        g.left <= e1 <= e2 <= g.right,
        g.left < g.right,
    ensures
        partitions(final(out)@, lo, g.right as int),
        final(out)@ == old(out)@ + (piece(g.left as int, e1 as int, g.rows) + piece(e1 as int, e2 as int, mid_rows)
            + piece(e2 as int, g.right as int, g.rows)),
        forall|k: int| #[trigger] rows_at(final(out)@, k) == if g.left <= k < e1 {
            g.rows as nat
        } else if e1 <= k < e2 {
            mid_rows as nat
        } else if e2 <= k < g.right {
            g.rows as nat
        } else {
            rows_at(old(out)@, k)
        },
{
    let ghost o0 = out@;
    let c1 = push_piece(out, Ghost(lo), g.left, e1, g.rows);
    let ghost o1 = out@;
    let c2 = push_piece(out, Ghost(lo), c1, e2, mid_rows);
    let ghost o2 = out@;
    let c3 = push_piece(out, Ghost(lo), c2, g.right, g.rows);
    reveal(piece);
    assert(out@ =~= o0 + (piece(g.left as int, e1 as int, g.rows) + piece(e1 as int, e2 as int, mid_rows) + piece(
        e2 as int,
        g.right as int,
        g.rows,
    )));
    assert forall|k: int| #[trigger] rows_at(out@, k) == if g.left <= k < e1 {
        g.rows as nat
    } else if e1 <= k < e2 {
        mid_rows as nat
    } else if e2 <= k < g.right {
        g.rows as nat
    } else {
        rows_at(o0, k)
    } by {
        assert(rows_at(o1, k) == if g.left <= k < e1 { g.rows as nat } else { rows_at(o0, k) });
        assert(rows_at(o2, k) == if c1 <= k < e2 { mid_rows as nat } else { rows_at(o1, k) });
        assert(rows_at(out@, k) == if c2 <= k < g.right { g.rows as nat } else { rows_at(o2, k) });
    }
}

/// Row count of station `k` after updating `[from, to)`.
pub open spec fn update_target(s: Seq<Seg>, k: int, from: int, to: int, mode: ModeUpdateValidRows, n: nat) -> nat {
    if from <= k < to {
        updated_rows(mode, rows_at(s, k), n)
    } else {
        rows_at(s, k)
    }
}



/// Append what the update of `[idx_from, idx_to)` makes of segment `i` of
/// `s`: its parts before, inside and after the range.
#[verifier::spinoff_prover]
#[verifier::rlimit(100)]
fn update_piece(
    out: &mut Vec<Seg>,
    Ghost(s): Ghost<Seq<Seg>>,
    Ghost(lo): Ghost<int>,
    Ghost(hi): Ghost<int>,
    idx_from: usize,
    idx_to: usize,
    n_rows: usize,
    mode: &ModeUpdateValidRows,
    i: usize,
    g: Seg,
)
    requires
        partitions(s, lo, hi),
        lo <= idx_from <= idx_to <= hi,
        forall|k: int|
            idx_from <= k < idx_to ==> updated_rows(*mode, #[trigger] rows_at(s, k), n_rows as nat) <= usize::MAX,
        0 <= i < s.len(),
        g == s[i as int],
        partitions(old(out)@, lo, bound_at(s, i as int, hi)),
        forall|k: int| #[trigger] rows_at(old(out)@, k) == if lo <= k < bound_at(s, i as int, hi) {
            update_target(s, k, idx_from as int, idx_to as int, *mode, n_rows as nat)
        } else {
            0
        },
    ensures
        partitions(final(out)@, lo, bound_at(s, i + 1, hi)),
        final(out)@ == old(out)@ + cut_seg(g, idx_from as int, idx_to as int, updated_rows(*mode, g.rows as nat, n_rows as nat) as usize),
        forall|k: int| #[trigger] rows_at(final(out)@, k) == if lo <= k < bound_at(s, i + 1, hi) {
            update_target(s, k, idx_from as int, idx_to as int, *mode, n_rows as nat)
        } else {
            0
        },
{
    let ghost o0 = out@;
    proof {
        assert(g.left < g.right);
        if i + 1 < s.len() {
            assert(s[i as int].right == s[i + 1].left);
        } else {
            assert(s[i as int].right == hi);
        }
    }
    let m1 = if g.right < idx_from { g.right } else { idx_from };
    let e1 = if g.left > m1 { g.left } else { m1 };
    let m2 = if g.right < idx_to { g.right } else { idx_to };
    let e2 = if e1 > m2 { e1 } else { m2 };
    let new_rows = if e1 < e2 {
        proof {
            lemma_rows_at_index(s, i as int, e1 as int);
        }
        match *mode {
            ModeUpdateValidRows::SetValues => n_rows,
            ModeUpdateValidRows::AddValues => g.rows + n_rows,
        }
    } else {
        0
    };
    push_three(out, Ghost(lo), g, e1, e2, new_rows);
    proof {
        lemma_update_step(s, lo, hi, idx_from as int, idx_to as int, *mode, n_rows as nat, i as int, o0, out@, e1 as int, e2 as int, new_rows as nat);
    }
    assert(out@ == o0 + cut_seg(g, idx_from as int, idx_to as int, updated_rows(*mode, g.rows as nat, n_rows as nat) as usize)) by {
        lemma_cut_piece(g, idx_from as int, idx_to as int, e1 as int, e2 as int, new_rows, updated_rows(*mode, g.rows as nat, n_rows as nat) as usize);
    }
}

/// The pieces that the update appends for segment `g` are its cut.
proof fn lemma_cut_piece(g: Seg, from: int, to: int, e1: int, e2: int, new_rows: usize, mid: usize)
    requires
        e1 == (if g.left > (if g.right < from { g.right as int } else { from }) {
            g.left as int
        } else {
            if g.right < from { g.right as int } else { from }
        }),
        e2 == (if e1 > (if g.right < to { g.right as int } else { to }) {
            e1
        } else {
            if g.right < to { g.right as int } else { to }
        }),
        e1 < e2 ==> new_rows == mid,
    ensures
        cut_seg(g, from, to, mid) == (piece(g.left as int, e1, g.rows) + piece(e1, e2, new_rows) + piece(
            e2,
            g.right as int,
            g.rows,
        )),
{
    reveal(piece);
    reveal(cut_seg);
    assert(piece(e1, e2, new_rows) == piece(e1, e2, mid));
}

#[verifier::spinoff_prover]
#[verifier::rlimit(30)]
proof fn lemma_update_step(
    s: Seq<Seg>,
    lo: int,
    hi: int,
    from: int,
    to: int,
    mode: ModeUpdateValidRows,
    n: nat,
    i: int,
    o0: Seq<Seg>,
    o3: Seq<Seg>,
    e1: int,
    e2: int,
    new_rows: nat,
)
    requires
        partitions(s, lo, hi),
        0 <= i < s.len(),
        s[i].left <= e1 <= e2 <= s[i].right,
        e1 == (if s[i].left > (if s[i].right < from { s[i].right as int } else { from }) { s[i].left as int } else { (if s[i].right < from { s[i].right as int } else { from }) }),
        e2 == (if e1 > (if s[i].right < to { s[i].right as int } else { to }) { e1 } else { (if s[i].right < to { s[i].right as int } else { to }) }),
        e1 < e2 ==> new_rows == updated_rows(mode, s[i].rows as nat, n),
        forall|k: int| #[trigger] rows_at(o0, k) == if lo <= k < s[i].left {
            update_target(s, k, from, to, mode, n)
        } else {
            0
        },
        forall|k: int| #[trigger] rows_at(o3, k) == if s[i].left <= k < e1 {
            s[i].rows as nat
        } else if e1 <= k < e2 {
            new_rows
        } else if e2 <= k < s[i].right {
            s[i].rows as nat
        } else {
            rows_at(o0, k)
        },
    ensures
        forall|k: int| #[trigger] rows_at(o3, k) == if lo <= k < s[i].right {
            update_target(s, k, from, to, mode, n)
        } else {
            0
        },
{
    assert forall|k: int| #[trigger] rows_at(o3, k) == if lo <= k < s[i].right {
        update_target(s, k, from, to, mode, n)
    } else {
        0
    } by {
        if seg_contains(s[i], k) {
            lemma_rows_at_index(s, i, k);
        }
        if k < s[i].left && lo <= k {
        }
    }
}

#[verifier::spinoff_prover]
#[verifier::rlimit(30)]
proof fn lemma_merge_extend(s: Seq<Seg>, lo: int, hi: int, i: int, o0: Seq<Seg>)
    requires
        partitions(s, lo, hi),
        0 <= i < s.len(),
        partitions(o0, lo, s[i].left as int),
        compact(o0),
        o0.len() > 0,
        o0.last().rows == s[i].rows,
        forall|k: int| #[trigger] rows_at(o0, k) == if lo <= k < s[i].left {
            rows_at(s, k)
        } else {
            0
        },
    ensures
        ({
            let ng = Seg { left: o0.last().left, right: s[i].right, rows: s[i].rows };
            let t = o0.drop_last().push(ng);
            &&& partitions(t, lo, s[i].right as int)
            &&& compact(t)
            &&& forall|k: int| #[trigger] rows_at(t, k) == if lo <= k < s[i].right {
                rows_at(s, k)
            } else {
                0
            }
        }),
{
    let last = o0.last();
    let ng = Seg { left: last.left, right: s[i].right, rows: s[i].rows };
    let d = o0.drop_last();
    let t = d.push(ng);
    lemma_partitions_drop_last(o0, lo, s[i].left as int);
    lemma_partitions_push(d, lo, last.left as int, ng);
    assert forall|j: int| 0 <= j < t.len() - 1 implies #[trigger] t[j].rows != t[j + 1].rows by {
        assert(t[j] == o0[j]);
        if j + 1 < d.len() {
            assert(t[j + 1] == o0[j + 1]);
        } else {
            assert(o0[j + 1] == last);
        }
    }
    assert forall|k: int| #[trigger] rows_at(t, k) == if lo <= k < s[i].right {
        rows_at(s, k)
    } else {
        0
    } by {
        lemma_rows_at_push(d, ng, k);
        lemma_rows_at_push(d, last, k);
        assert(d.push(last) =~= o0);
        if seg_contains(s[i], k) {
            lemma_rows_at_index(s, i, k);
        }
    }
}

#[verifier::spinoff_prover]
#[verifier::rlimit(30)]
proof fn lemma_merge_push(s: Seq<Seg>, lo: int, hi: int, i: int, o0: Seq<Seg>)
    requires
        partitions(s, lo, hi),
        0 <= i < s.len(),
        partitions(o0, lo, s[i].left as int),
        compact(o0),
        o0.len() > 0 ==> o0.last().rows != s[i].rows,
        forall|k: int| #[trigger] rows_at(o0, k) == if lo <= k < s[i].left {
            rows_at(s, k)
        } else {
            0
        },
    ensures
        ({
            let t = o0.push(s[i]);
            &&& partitions(t, lo, s[i].right as int)
            &&& compact(t)
            &&& forall|k: int| #[trigger] rows_at(t, k) == if lo <= k < s[i].right {
                rows_at(s, k)
            } else {
                0
            }
        }),
{
    let g = s[i];
    let t = o0.push(g);
    lemma_partitions_push(o0, lo, g.left as int, g);
    assert forall|j: int| 0 <= j < t.len() - 1 implies #[trigger] t[j].rows != t[j + 1].rows by {
        assert(t[j] == o0[j]);
        if j + 1 < o0.len() {
            assert(t[j + 1] == o0[j + 1]);
        }
    }
    assert forall|k: int| #[trigger] rows_at(t, k) == if lo <= k < g.right {
        rows_at(s, k)
    } else {
        0
    } by {
        lemma_rows_at_push(o0, g, k);
        if seg_contains(g, k) {
            lemma_rows_at_index(s, i, k);
        }
    }
}

#[verifier::spinoff_prover]
#[verifier::rlimit(40)]
proof fn lemma_clip_push(s: Seq<Seg>, lo: int, hi: int, a: int, b: int, i: int, o0: Seq<Seg>, cur: int, ng: Seg)
    requires
        partitions(s, lo, hi),
        compact(s),
        lo <= a <= b <= hi,
        0 <= i < s.len(),
        cur == clamp(s[i].left as int, a, b),
        partitions(o0, a, cur),
        compact(o0),
        o0.len() > 0 && cur < b ==> i > 0 && o0.last().rows == s[i - 1].rows,
        forall|k: int| #[trigger] rows_at(o0, k) == if a <= k < cur {
            rows_at(s, k)
        } else {
            0
        },
        ng.left == (if s[i].left > a { s[i].left as int } else { a }),
        ng.right == (if s[i].right < b { s[i].right as int } else { b }),
        ng.rows == s[i].rows,
        ng.left < ng.right,
    ensures
        ng.left == cur,
        ng.right == clamp(bound_at(s, i + 1, hi), a, b),
        compact(o0.push(ng)),
        ng.right < b ==> o0.push(ng).last().rows == s[i].rows,
        forall|k: int| #[trigger] rows_at(o0.push(ng), k) == if a <= k < ng.right {
            rows_at(s, k)
        } else {
            0
        },
{
    let t = o0.push(ng);
    assert(s[i].left < s[i].right);
    if i + 1 < s.len() {
        assert(s[i].right == s[i + 1].left);
    } else {
        assert(s[i].right == hi);
    }
    if o0.len() > 0 {
        assert(s[i - 1].rows != s[i].rows);
    }
    assert forall|j: int| 0 <= j < t.len() - 1 implies #[trigger] t[j].rows != t[j + 1].rows by {
        assert(t[j] == o0[j]);
        if j + 1 < o0.len() {
            assert(t[j + 1] == o0[j + 1]);
        }
    }
    assert forall|k: int| #[trigger] rows_at(t, k) == if a <= k < ng.right {
        rows_at(s, k)
    } else {
        0
    } by {
        lemma_rows_at_push(o0, ng, k);
        if ng.left <= k < ng.right {
            lemma_rows_at_index(s, i, k);
        }
    }
}

#[verifier::spinoff_prover]
#[verifier::rlimit(30)]
proof fn lemma_clip_skip(s: Seq<Seg>, lo: int, hi: int, a: int, b: int, i: int, o0: Seq<Seg>, cur: int)
    requires
        partitions(s, lo, hi),
        lo <= a <= b <= hi,
        0 <= i < s.len(),
        cur == clamp(s[i].left as int, a, b),
        partitions(o0, a, cur),
        !((if s[i].left > a { s[i].left as int } else { a }) < (if s[i].right < b { s[i].right as int } else { b })),
    ensures
        cur == clamp(bound_at(s, i + 1, hi), a, b),
        o0.len() > 0 ==> cur == b,
{
    assert(s[i].left < s[i].right);
    if i + 1 < s.len() {
        assert(s[i].right == s[i + 1].left);
    } else {
        assert(s[i].right == hi);
    }
    if o0.len() > 0 {
        let m = o0.len() - 1;
        assert(o0[0].left == a);
        assert(o0[0].left < o0[0].right);
        assert(o0[m].left < o0[m].right);
        if m > 0 {
            assert(o0[0].right <= o0[m].left);
        }
        assert(o0[m].right == cur);
    }
}

impl ValidRows {
    /// Station index of the segment containing `k`.
    #[verifier::spinoff_prover]
    #[verifier::rlimit(30)]
    fn find_segment(&self, Ghost(lo): Ghost<int>, Ghost(hi): Ghost<int>, k: usize) -> (i: usize)
        requires
            partitions(self.segs(), lo, hi),
            lo <= k < hi,
        ensures
            i < self.segs().len(),
            seg_contains(self.segs()[i as int], k as int),
    {
        let ghost s = self.segs@;
        let n = self.segs.len();
        let mut i: usize = 0;
        while self.segs[i].right <= k
            invariant
                s == self.segs@,
                n == s.len(),
                partitions(s, lo, hi),
                lo <= k < hi,
                i < n,
                forall|j: int| 0 <= j < i ==> #[trigger] s[j].right <= k,
            decreases n - i,
        {
            assert(i + 1 < n) by {
                if i + 1 == n {
                    assert(s[i as int].right == hi);
                }
            }
            i = i + 1;
        }
        proof {
            if i > 0 {
                assert(s[i - 1].right == s[i as int].left);
            }
        }
        i
    }

    /// Row count at a station `k` of the window.
    pub fn rows_at_station(&self, Ghost(lo): Ghost<int>, Ghost(hi): Ghost<int>, k: usize) -> (r: usize)
        requires
            partitions(self.segs(), lo, hi),
            lo <= k < hi,
        ensures
            r == self.rows(k as int),
    {
        let i = self.find_segment(Ghost(lo), Ghost(hi), k);
        proof {
            lemma_rows_at_index(self.segs@, i as int, k as int);
        }
        self.segs[i].rows
    }

    /// The restriction of the map to `[a, b)`.
    #[verifier::spinoff_prover]
    #[verifier::rlimit(30)]
    pub fn clip(&self, Ghost(lo): Ghost<int>, Ghost(hi): Ghost<int>, a: usize, b: usize) -> (r: ValidRows)
        requires
            self.wf(lo, hi),
            lo <= a <= b <= hi,
        ensures
            r.wf(a as int, b as int),
            forall|k: int| #[trigger] r.rows(k) == if a <= k < b {
                self.rows(k)
            } else {
                0
            },
    {
        let ghost s = self.segs@;
        let n = self.segs.len();
        let mut out: Vec<Seg> = Vec::new();
        let mut cur: usize = a;
        let mut i: usize = 0;
        proof {
            if s.len() > 0 {
                assert(s[0].left == lo);
            }
        }
        while i < n
            invariant
                s == self.segs@,
                n == s.len(),
                self.wf(lo, hi),
                lo <= a <= b <= hi,
                0 <= i <= n,
                cur == clamp(bound_at(s, i as int, hi), a as int, b as int),
                partitions(out@, a as int, cur as int),
                compact(out@),
                out@.len() > 0 && cur < b ==> i > 0 && out@.last().rows == s[i - 1].rows,
                forall|k: int| #[trigger] rows_at(out@, k) == if a <= k < cur {
                    rows_at(s, k)
                } else {
                    0
                },
            decreases n - i,
        {
            let g = self.segs[i];
            let pl = if g.left > a { g.left } else { a };
            let pr = if g.right < b { g.right } else { b };
            if pl < pr {
                let ghost o0 = out@;
                let ghost ng = Seg { left: pl, right: pr, rows: g.rows };
                proof {
                    lemma_clip_push(s, lo, hi, a as int, b as int, i as int, o0, cur as int, ng);
                }
                cur = push_piece(&mut out, Ghost(a as int), pl, pr, g.rows);
                proof {
                    assert(out@ == o0.push(ng));
                }
            } else {
                proof {
                    lemma_clip_skip(s, lo, hi, a as int, b as int, i as int, out@, cur as int);
                }
            }
            i = i + 1;
        }
        ValidRows { segs: out }
    }

    /// Split the segments at `idx_from` and `idx_to` and update the row count
    /// of every station in `[idx_from, idx_to)`: the new segments are the old
    /// ones cut at those two stations and nowhere else ([`cut_segs`]);
    /// adjacent segments may end up with equal counts until
    /// [`merge_valid_rows`](ValidRows::merge_valid_rows).
    #[verifier::spinoff_prover]
    #[verifier::rlimit(60)]
    pub fn update_valid_rows(
        &mut self,
        Ghost(lo): Ghost<int>,
        Ghost(hi): Ghost<int>,
        idx_from: usize,
        idx_to: usize,
        n_rows: usize,
        mode: ModeUpdateValidRows,
    )
        requires
            partitions(old(self).segs(), lo, hi),
            lo <= idx_from <= idx_to <= hi,
            forall|k: int|
                idx_from <= k < idx_to ==> updated_rows(mode, #[trigger] old(self).rows(k), n_rows as nat)
                    <= usize::MAX,
        ensures
            partitions(final(self).segs(), lo, hi),
            final(self).segs() == cut_segs(
                old(self).segs(),
                idx_from as int,
                idx_to as int,
                mode,
                n_rows as nat,
                old(self).segs().len() as int,
            ),
            forall|k: int| #[trigger] final(self).rows(k) == update_target(
                old(self).segs(),
                k,
                idx_from as int,
                idx_to as int,
                mode,
                n_rows as nat,
            ),
    {
        let ghost s = self.segs@;
        let n = self.segs.len();
        let mut out: Vec<Seg> = Vec::new();
        let mut i: usize = 0;
        let mut cur: usize = 0;
        proof {
            if s.len() > 0 {
                assert(s[0].left == lo);
            }
        }
        if n > 0 {
            cur = self.segs[0].left;
        }
        assert forall|k: int| idx_from <= k < idx_to implies updated_rows(mode, #[trigger] rows_at(s, k), n_rows as nat)
            <= usize::MAX by {
            assert(old(self).rows(k) == rows_at(s, k));
        }
        while i < n
            invariant
                s == self.segs@,
                n == s.len(),
                partitions(s, lo, hi),
                lo <= idx_from <= idx_to <= hi,
                forall|k: int|
                    idx_from <= k < idx_to ==> updated_rows(mode, #[trigger] rows_at(s, k), n_rows as nat)
                        <= usize::MAX,
                0 <= i <= n,
                i < n ==> cur == s[i as int].left,
                partitions(out@, lo, bound_at(s, i as int, hi)),
                out@ == cut_segs(s, idx_from as int, idx_to as int, mode, n_rows as nat, i as int),
                forall|k: int| #[trigger] rows_at(out@, k) == if lo <= k < bound_at(s, i as int, hi) {
                    update_target(s, k, idx_from as int, idx_to as int, mode, n_rows as nat)
                } else {
                    0
                },
            decreases n - i,
        {
            let g = self.segs[i];
            let ghost o0 = out@;
            update_piece(&mut out, Ghost(s), Ghost(lo), Ghost(hi), idx_from, idx_to, n_rows, &mode, i, g);
            assert(out@ == cut_segs(s, idx_from as int, idx_to as int, mode, n_rows as nat, i + 1));
            cur = g.right;
            i = i + 1;
            proof {
                if i < n {
                    assert(s[i - 1].right == s[i as int].left);
                }
            }
        }
        proof {
            assert forall|k: int| #[trigger] rows_at(out@, k) == update_target(
                s,
                k,
                idx_from as int,
                idx_to as int,
                mode,
                n_rows as nat,
            ) by {
                lemma_partition_rows(s, lo, hi, k);
            }
        }
        self.segs = out;
    }

    /// Update the row count of every station in `[idx_from, idx_to)`, then
    /// merge adjacent segments with equal counts.
    ///
    /// Merging after an update keeps the map canonical: from a compact
    /// partition of `[lo, hi)`, the result is again a compact partition of
    /// `[lo, hi)` (no two adjacent segments with equal counts), whose count
    /// at each station is the updated one inside `[idx_from, idx_to)` and
    /// the old one elsewhere. The only bound is that each updated count fits
    /// in `usize`.
    pub fn update_and_merge(
        &mut self,
        Ghost(lo): Ghost<int>,
        Ghost(hi): Ghost<int>,
        idx_from: usize,
        idx_to: usize,
        n_rows: usize,
        mode: ModeUpdateValidRows,
    )
        requires
            old(self).wf(lo, hi),
            lo <= idx_from <= idx_to <= hi,
            forall|k: int|
                idx_from <= k < idx_to ==> updated_rows(mode, #[trigger] old(self).rows(k), n_rows as nat)
                    <= usize::MAX,
        ensures
            final(self).wf(lo, hi),
            forall|k: int| #[trigger] final(self).rows(k) == if idx_from <= k < idx_to {
                updated_rows(mode, old(self).rows(k), n_rows as nat)
            } else {
                old(self).rows(k)
            },
    {
        self.update_valid_rows(Ghost(lo), Ghost(hi), idx_from, idx_to, n_rows, mode);
        self.merge_valid_rows(Ghost(lo), Ghost(hi));
    }

    /// Merge adjacent segments with equal row counts.
    #[verifier::spinoff_prover]
    #[verifier::rlimit(30)]
    pub fn merge_valid_rows(&mut self, Ghost(lo): Ghost<int>, Ghost(hi): Ghost<int>)
        requires
            partitions(old(self).segs(), lo, hi),
        ensures
            final(self).wf(lo, hi),
            forall|k: int| #[trigger] final(self).rows(k) == old(self).rows(k),
    {
        let ghost s = self.segs@;
        let n = self.segs.len();
        let mut out: Vec<Seg> = Vec::new();
        let mut i: usize = 0;
        proof {
            if s.len() > 0 {
                assert(s[0].left == lo);
            }
        }
        while i < n
            invariant
                s == self.segs@,
                n == s.len(),
                partitions(s, lo, hi),
                0 <= i <= n,
                partitions(out@, lo, bound_at(s, i as int, hi)),
                compact(out@),
                forall|k: int| #[trigger] rows_at(out@, k) == if lo <= k < bound_at(s, i as int, hi) {
                    rows_at(s, k)
                } else {
                    0
                },
            decreases n - i,
        {
            let g = self.segs[i];
            let ghost o0 = out@;
            proof {
                if i + 1 < n {
                    assert(s[i as int].right == s[i + 1].left);
                } else {
                    assert(s[i as int].right == hi);
                }
            }
            let m = out.len();
            if m > 0 && out[m - 1].rows == g.rows {
                proof {
                    lemma_merge_extend(s, lo, hi, i as int, o0);
                }
                let last = out.pop().unwrap();
                proof {
                    assert(out@ == o0.drop_last());
                }
                out.push(Seg { left: last.left, right: g.right, rows: g.rows });
            } else {
                proof {
                    lemma_merge_push(s, lo, hi, i as int, o0);
                }
                out.push(g);
            }
            i = i + 1;
        }
        proof {
            assert forall|k: int| #[trigger] rows_at(out@, k) == rows_at(s, k) by {
                lemma_partition_rows(s, lo, hi, k);
            }
        }
        self.segs = out;
    }

    /// Total row count of the stations in `[idx_from, idx_to)`.
    #[verifier::spinoff_prover]
    #[verifier::rlimit(30)]
    pub fn count_rows(&self, Ghost(lo): Ghost<int>, Ghost(hi): Ghost<int>, idx_from: usize, idx_to: usize) -> (r: usize)
        requires
            partitions(self.segs(), lo, hi),
            lo <= idx_from <= idx_to <= hi,
            sum_rows(self.segs(), idx_from as int, idx_to as int) <= usize::MAX,
        ensures
            r == sum_rows(self.segs(), idx_from as int, idx_to as int),
    {
        let ghost s = self.segs@;
        if idx_from >= idx_to {
            return 0;
        }
        let n = self.segs.len();
        let mut i = self.find_segment(Ghost(lo), Ghost(hi), idx_from);
        let mut total: usize = 0;
        let mut k: usize = idx_from;
        while k < idx_to
            invariant
                s == self.segs@,
                n == s.len(),
                partitions(s, lo, hi),
                lo <= idx_from <= k <= idx_to <= hi,
                sum_rows(s, idx_from as int, idx_to as int) <= usize::MAX,
                total == sum_rows(s, idx_from as int, k as int),
                i < n,
                k < idx_to ==> s[i as int].left <= k,
                k < idx_to ==> k <= s[i as int].right,
            decreases idx_to - k,
        {
            if self.segs[i].right <= k {
                proof {
                    if i + 1 >= n {
                        assert(s[i as int].right == hi);
                    }
                    assert(s[i as int].right == s[i + 1].left);
                }
                i = i + 1;
            }
            proof {
                lemma_rows_at_index(s, i as int, k as int);
                lemma_sum_rows_mono(s, idx_from as int, k + 1, idx_to as int);
            }
            total = total + self.segs[i].rows;
            k = k + 1;
        }
        total
    }

    /// Whether every station of `[idx_from, idx_to)` has exactly `n_rows` rows.
    #[verifier::spinoff_prover]
    #[verifier::rlimit(30)]
    pub fn all_rows_equal(&self, Ghost(lo): Ghost<int>, Ghost(hi): Ghost<int>, idx_from: usize, idx_to: usize, n_rows: usize) -> (r: bool)
        requires
            partitions(self.segs(), lo, hi),
            lo <= idx_from <= idx_to <= hi,
        ensures
            r == forall|k: int| idx_from <= k < idx_to ==> #[trigger] self.rows(k) == n_rows,
    {
        let ghost s = self.segs@;
        if idx_from >= idx_to {
            return true;
        }
        let n = self.segs.len();
        let mut i = self.find_segment(Ghost(lo), Ghost(hi), idx_from);
        let mut k: usize = idx_from;
        while k < idx_to
            invariant
                s == self.segs@,
                n == s.len(),
                partitions(s, lo, hi),
                lo <= idx_from <= k <= idx_to <= hi,
                forall|j: int| idx_from <= j < k ==> #[trigger] rows_at(s, j) == n_rows,
                i < n,
                k < idx_to ==> s[i as int].left <= k,
                k < idx_to ==> k <= s[i as int].right,
            decreases idx_to - k,
        {
            if self.segs[i].right <= k {
                proof {
                    if i + 1 >= n {
                        assert(s[i as int].right == hi);
                    }
                    assert(s[i as int].right == s[i + 1].left);
                }
                i = i + 1;
            }
            proof {
                lemma_rows_at_index(s, i as int, k as int);
            }
            if self.segs[i].rows != n_rows {
                assert(self.rows(k as int) != n_rows);
                return false;
            }
            k = k + 1;
        }
        true
    }
}

} // verus!
