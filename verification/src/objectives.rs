//! Objective terms of the convex-objective programs: which terms are valid
//! for a given grid, and how much room each adds to a conic program.
//!
//! A term is described by what the checks read of it: its kind, whether
//! its weight is finite and non-negative, the lengths of its coefficient
//! slices, and the first invalid entry of its normalization vector. The
//! owner of the floating-point data fills that description in; the rules
//! that judge it live here.

use vstd::prelude::*;

verus! {

/// The kind of an objective term.
#[derive(Clone, Copy, Debug, PartialEq, Eq, Structural)]
pub enum ObjectiveKind {
    /// Traversal time.
    Time,
    /// Thermal energy of the normalized torques.
    ThermalEnergy,
    /// Total variation of the normalized torques.
    TotalVariationTorque,
    /// Linear functional of `a` and `b`.
    Linear,
}

/// What the validators read of one objective term.
#[derive(Clone, Copy, Debug, PartialEq, Eq, Structural)]
pub struct ObjectiveTerm {
    pub kind: ObjectiveKind,
    /// The weight is finite and non-negative.
    pub weight_valid: bool,
    /// Length of the normalization vector (torque terms).
    pub normalize_len: usize,
    /// Index of the first normalization entry that is not finite and
    /// non-negative, if any (torque terms).
    pub first_invalid_normalize: Option<usize>,
    /// Length of the `alpha` coefficients (linear terms).
    pub alpha_len: usize,
    /// Length of the `beta` coefficients (linear terms).
    pub beta_len: usize,
}

/// Why a list of objective terms is rejected.
#[derive(Clone, Copy, Debug, PartialEq, Eq, Structural)]
pub enum ObjectiveIssue {
    /// No objective term was given.
    Empty,
    /// Term `index` has a weight that is not finite and non-negative.
    InvalidWeight { index: usize },
    /// Torque term `index` has `len` normalization entries instead of `dim`.
    NormalizeLength { index: usize, len: usize, dim: usize },
    /// Entry `entry` of the normalization vector of torque term `index` is
    /// not finite and non-negative.
    InvalidNormalize { index: usize, entry: usize },
    /// Linear term `index` has coefficient lengths other than the expected ones.
    LinearLength {
        index: usize,
        alpha_len: usize,
        beta_len: usize,
        expected_alpha_len: usize,
        expected_beta_len: usize,
    },
}

/// Length of `beta` a linear term needs over `s_len` stations: one per
/// interval when `b` lives on intervals (second order), one per station
/// when it lives on stations (third order).
pub open spec fn expected_beta_len(s_len: int, b_on_stations: bool) -> int {
    if b_on_stations {
        s_len
    } else {
        s_len - 1
    }
}

/// The issue of term `t`, at position `i`, if any.
pub open spec fn term_issue(t: ObjectiveTerm, i: int, dim: int, s_len: int, b_on_stations: bool) -> Option<
    ObjectiveIssue,
> {
    if !t.weight_valid {
        Some(ObjectiveIssue::InvalidWeight { index: i as usize })
    } else {
        match t.kind {
            ObjectiveKind::Time => None,
            ObjectiveKind::ThermalEnergy | ObjectiveKind::TotalVariationTorque => {
                if t.normalize_len != dim {
                    Some(
                        ObjectiveIssue::NormalizeLength {
                            index: i as usize,
                            len: t.normalize_len,
                            dim: dim as usize,
                        },
                    )
                } else if t.first_invalid_normalize is Some {
                    Some(
                        ObjectiveIssue::InvalidNormalize {
                            index: i as usize,
                            entry: t.first_invalid_normalize->0,
                        },
                    )
                } else {
                    None
                }
            },
            ObjectiveKind::Linear => {
                if t.alpha_len != s_len || t.beta_len != expected_beta_len(s_len, b_on_stations) {
                    Some(
                        ObjectiveIssue::LinearLength {
                            index: i as usize,
                            alpha_len: t.alpha_len,
                            beta_len: t.beta_len,
                            expected_alpha_len: s_len as usize,
                            expected_beta_len: expected_beta_len(s_len, b_on_stations) as usize,
                        },
                    )
                } else {
                    None
                }
            },
        }
    }
}

/// The issue of the first term at or after position `k` that has one.
pub open spec fn first_issue_from(
    terms: Seq<ObjectiveTerm>,
    k: int,
    dim: int,
    s_len: int,
    b_on_stations: bool,
) -> Option<ObjectiveIssue>
    decreases terms.len() - k,
{
    if k < 0 || k >= terms.len() {
        None
    } else {
        match term_issue(terms[k], k, dim, s_len, b_on_stations) {
            Some(x) => Some(x),
            None => first_issue_from(terms, k + 1, dim, s_len, b_on_stations),
        }
    }
}

/// Whether checking the terms from position `k` on, in order, reaches the
/// coefficient lengths of a linear term: a linear term with a valid weight
/// before any term with an issue.
pub open spec fn reaches_linear_lengths(
    terms: Seq<ObjectiveTerm>,
    k: int,
    dim: int,
    s_len: int,
    b_on_stations: bool,
) -> bool
    decreases terms.len() - k,
{
    if k < 0 || k >= terms.len() {
        false
    } else if terms[k].kind == ObjectiveKind::Linear && terms[k].weight_valid {
        true
    } else if term_issue(terms[k], k, dim, s_len, b_on_stations) is Some {
        false
    } else {
        reaches_linear_lengths(terms, k + 1, dim, s_len, b_on_stations)
    }
}

/// The verdict on a list of terms: empty lists are rejected, else the
/// first term with an issue decides.
pub open spec fn objectives_verdict(terms: Seq<ObjectiveTerm>, dim: int, s_len: int, b_on_stations: bool) -> Result<
    (),
    ObjectiveIssue,
> {
    if terms.len() == 0 {
        Err(ObjectiveIssue::Empty)
    } else {
        match first_issue_from(terms, 0, dim, s_len, b_on_stations) {
            Some(x) => Err(x),
            None => Ok(()),
        }
    }
}

/// Term `t` passes every check over `s_len` stations for a path of
/// dimension `dim`: a valid weight; for torque terms `dim` normalization
/// entries, none invalid; for linear terms `s_len` values of `alpha` and one
/// value of `beta` per station (`b_on_stations`) or per interval.
pub open spec fn term_acceptable(t: ObjectiveTerm, dim: int, s_len: int, b_on_stations: bool) -> bool {
    &&& t.weight_valid
    &&& (t.kind == ObjectiveKind::ThermalEnergy || t.kind == ObjectiveKind::TotalVariationTorque) ==> (
    t.normalize_len == dim && t.first_invalid_normalize is None)
    &&& t.kind == ObjectiveKind::Linear ==> (t.alpha_len == s_len && t.beta_len == (if b_on_stations {
        s_len
    } else {
        s_len - 1
    }))
}

proof fn lemma_acceptable_prefix_skipped(terms: Seq<ObjectiveTerm>, m: int, i: int, dim: int, s_len: int, b_on_stations: bool)
    requires
        0 <= m <= i <= terms.len(),
        forall|k: int| m <= k < i ==> term_acceptable(#[trigger] terms[k], dim, s_len, b_on_stations),
    ensures
        first_issue_from(terms, m, dim, s_len, b_on_stations) == first_issue_from(terms, i, dim, s_len, b_on_stations),
    decreases i - m,
{
    if m < i {
        assert(term_acceptable(terms[m], dim, s_len, b_on_stations));
        lemma_acceptable_prefix_skipped(terms, m + 1, i, dim, s_len, b_on_stations);
    }
}

/// The first term that fails a check decides the verdict, with the issue
/// of that term: checked in the order weight, normalization length,
/// normalization entries (for both torque kinds), coefficient lengths.
pub proof fn lemma_first_failing_term_decides(
    terms: Seq<ObjectiveTerm>,
    i: int,
    dim: int,
    s_len: int,
    b_on_stations: bool,
)
    requires
        0 <= i < terms.len(),
        0 <= dim,
        0 <= s_len,
        forall|k: int| 0 <= k < i ==> term_acceptable(#[trigger] terms[k], dim, s_len, b_on_stations),
    ensures
        ({
            let t = terms[i];
            let v = objectives_verdict(terms, dim, s_len, b_on_stations);
            let torque = t.kind == ObjectiveKind::ThermalEnergy || t.kind == ObjectiveKind::TotalVariationTorque;
            let beta = if b_on_stations {
                s_len
            } else {
                s_len - 1
            };
            &&& !t.weight_valid ==> v == Err::<(), ObjectiveIssue>(ObjectiveIssue::InvalidWeight { index: i as usize })
            &&& t.weight_valid && torque && t.normalize_len != dim ==> v == Err::<(), ObjectiveIssue>(
                ObjectiveIssue::NormalizeLength { index: i as usize, len: t.normalize_len, dim: dim as usize },
            )
            &&& t.weight_valid && torque && t.normalize_len == dim && t.first_invalid_normalize is Some ==> v
                == Err::<(), ObjectiveIssue>(
                ObjectiveIssue::InvalidNormalize { index: i as usize, entry: t.first_invalid_normalize->0 },
            )
            &&& t.weight_valid && t.kind == ObjectiveKind::Linear && (t.alpha_len != s_len || t.beta_len != beta)
                ==> v == Err::<(), ObjectiveIssue>(
                ObjectiveIssue::LinearLength {
                    index: i as usize,
                    alpha_len: t.alpha_len,
                    beta_len: t.beta_len,
                    expected_alpha_len: s_len as usize,
                    expected_beta_len: beta as usize,
                },
            )
        }),
{
    lemma_acceptable_prefix_skipped(terms, 0, i, dim, s_len, b_on_stations);
}

/// A non-empty list of terms that all pass every check is accepted; an
/// empty list is rejected.
pub proof fn lemma_acceptable_terms_accepted(terms: Seq<ObjectiveTerm>, dim: int, s_len: int, b_on_stations: bool)
    requires
        forall|k: int| 0 <= k < terms.len() ==> term_acceptable(#[trigger] terms[k], dim, s_len, b_on_stations),
    ensures
        terms.len() == 0 ==> objectives_verdict(terms, dim, s_len, b_on_stations) == Err::<(), ObjectiveIssue>(
            ObjectiveIssue::Empty,
        ),
        terms.len() > 0 ==> objectives_verdict(terms, dim, s_len, b_on_stations) == Ok::<(), ObjectiveIssue>(()),
{
    lemma_acceptable_prefix_skipped(terms, 0, terms.len() as int, dim, s_len, b_on_stations);
}

/// The issue of one term, computed.
fn check_term(t: ObjectiveTerm, i: usize, dim: usize, s_len: usize, b_on_stations: bool) -> (r: Option<
    ObjectiveIssue,
>)
    requires
        t.kind == ObjectiveKind::Linear && t.weight_valid && !b_on_stations ==> s_len >= 1,
    ensures
        r == term_issue(t, i as int, dim as int, s_len as int, b_on_stations),
{
    if !t.weight_valid {
        return Some(ObjectiveIssue::InvalidWeight { index: i });
    }
    match t.kind {
        ObjectiveKind::Time => None,
        ObjectiveKind::ThermalEnergy | ObjectiveKind::TotalVariationTorque => {
            if t.normalize_len != dim {
                Some(ObjectiveIssue::NormalizeLength { index: i, len: t.normalize_len, dim })
            } else {
                match t.first_invalid_normalize {
                    Some(j) => Some(ObjectiveIssue::InvalidNormalize { index: i, entry: j }),
                    None => None,
                }
            }
        },
        ObjectiveKind::Linear => {
            let expected_beta = if b_on_stations {
                s_len
            } else {
                s_len - 1
            };
            if t.alpha_len != s_len || t.beta_len != expected_beta {
                Some(
                    ObjectiveIssue::LinearLength {
                        index: i,
                        alpha_len: t.alpha_len,
                        beta_len: t.beta_len,
                        expected_alpha_len: s_len,
                        expected_beta_len: expected_beta,
                    },
                )
            } else {
                None
            }
        },
    }
}

/// Judge a list of terms: empty lists are rejected, else the first term
/// with an issue decides, and terms are checked in the order weight,
/// normalization length, normalization entries, coefficient lengths.
fn validate_objectives(objectives: &Vec<ObjectiveTerm>, dim: usize, s_len: usize, b_on_stations: bool) -> (r:
    Result<(), ObjectiveIssue>)
    requires
        !b_on_stations && s_len == 0 ==> !reaches_linear_lengths(objectives@, 0, dim as int, 0, false),
    ensures
        r == objectives_verdict(objectives@, dim as int, s_len as int, b_on_stations),
{
    if objectives.len() == 0 {
        return Err(ObjectiveIssue::Empty);
    }
    let mut i: usize = 0;
    while i < objectives.len()
        invariant
            0 <= i <= objectives@.len(),
            !b_on_stations && s_len == 0 ==> !reaches_linear_lengths(objectives@, i as int, dim as int, 0, false),
            first_issue_from(objectives@, 0, dim as int, s_len as int, b_on_stations) == first_issue_from(
                objectives@,
                i as int,
                dim as int,
                s_len as int,
                b_on_stations,
            ),
        decreases objectives@.len() - i,
    {
        match check_term(objectives[i], i, dim, s_len, b_on_stations) {
            Some(x) => {
                return Err(x);
            },
            None => {},
        }
        i = i + 1;
    }
    Ok(())
}

/// Validate the objective terms of a second-order program over `s_len`
/// stations: at least one term; every weight finite and non-negative; for
/// torque terms `dim` normalization entries, all finite and non-negative;
/// for linear terms `s_len` values of `alpha` and `s_len - 1` of `beta`.
/// The first violation, in term order, is reported. Over no stations the
/// check must not reach the coefficient lengths of a linear term (their
/// expected length `s_len - 1` does not exist).
pub fn validate_copp2_objectives(objectives: &Vec<ObjectiveTerm>, dim: usize, s_len: usize) -> (r: Result<
    (),
    ObjectiveIssue,
>)
    requires
        s_len == 0 ==> !reaches_linear_lengths(objectives@, 0, dim as int, 0, false),
    ensures
        r == objectives_verdict(objectives@, dim as int, s_len as int, false),
{
    validate_objectives(objectives, dim, s_len, false)
}

/// Validate the objective terms of a third-order program over `s_len`
/// stations: as for second order, but linear terms need `s_len` values of
/// both `alpha` and `beta`.
pub fn validate_copp3_objectives(objectives: &Vec<ObjectiveTerm>, dim: usize, s_len: usize) -> (r: Result<
    (),
    ObjectiveIssue,
>)
    ensures
        r == objectives_verdict(objectives@, dim as int, s_len as int, true),
{
    validate_objectives(objectives, dim, s_len, true)
}

/// Whether some term is a time or thermal-energy term: those need the
/// auxiliary variables `sqrt(a)`.
pub open spec fn needs_sqrt_a(kinds: Seq<ObjectiveKind>) -> bool {
    exists|i: int|
        0 <= i < kinds.len() && (#[trigger] kinds[i] == ObjectiveKind::Time || kinds[i]
            == ObjectiveKind::ThermalEnergy)
}

/// Room `(nonzeros, rows, cone blocks, variables)` one term adds to the
/// second-order program over `n + 1` stations of a path of dimension `dim`.
pub open spec fn copp2_term_capacity(kind: ObjectiveKind, n: int, dim: int) -> (int, int, int, int) {
    match kind {
        ObjectiveKind::Time => (6 * n, 3 * n, n, n),
        ObjectiveKind::ThermalEnergy => ((6 + 2 * dim) * n, (dim + 2) * n, n, n),
        ObjectiveKind::TotalVariationTorque => (8 * (dim * n), 2 * (dim * n), 1, dim * n),
        ObjectiveKind::Linear => (0, 0, 0, 0),
    }
}

/// Room one term adds to the third-order program over `n + 1` stations of
/// a path of dimension `dim`.
pub open spec fn copp3_term_capacity(kind: ObjectiveKind, n: int, dim: int) -> (int, int, int, int) {
    match kind {
        ObjectiveKind::Time => (5 * n, 4 * n, n, n),
        ObjectiveKind::ThermalEnergy => ((4 + 2 * dim) * (n + 1), (dim + 2) * (n + 1), n + 1, n + 1),
        ObjectiveKind::TotalVariationTorque => (10 * (dim * n), 2 * (dim * n), 1, dim * n),
        ObjectiveKind::Linear => (0, 0, 0, 0),
    }
}

/// Componentwise sum of two room estimates.
pub open spec fn add4(x: (int, int, int, int), y: (int, int, int, int)) -> (int, int, int, int) {
    (x.0 + y.0, x.1 + y.1, x.2 + y.2, x.3 + y.3)
}

/// Room of the terms of `kinds`, for the second-order (`third == false`)
/// or third-order program.
pub open spec fn terms_capacity(kinds: Seq<ObjectiveKind>, n: int, dim: int, third: bool) -> (int, int, int, int)
    decreases kinds.len(),
{
    if kinds.len() == 0 {
        (0, 0, 0, 0)
    } else {
        add4(
            terms_capacity(kinds.drop_last(), n, dim, third),
            if third {
                copp3_term_capacity(kinds.last(), n, dim)
            } else {
                copp2_term_capacity(kinds.last(), n, dim)
            },
        )
    }
}

/// Room of the `sqrt(a)` block, and the base variable count.
pub open spec fn base_capacity(kinds: Seq<ObjectiveKind>, n: int, third: bool) -> (int, int, int, int) {
    if third {
        if needs_sqrt_a(kinds) {
            (4 * n, 4 * n, n, 2 * (n + 1))
        } else {
            (0, 0, 0, 2 * (n + 1))
        }
    } else {
        if needs_sqrt_a(kinds) {
            (4 * (n + 1), 4 * (n + 1), n + 2, 2 * (n + 1))
        } else {
            (0, 0, 0, n + 1)
        }
    }
}

/// Room `(nonzeros, rows, cone blocks, variables)` of the objective part of
/// a program with the given terms.
pub open spec fn objective_capacity(kinds: Seq<ObjectiveKind>, n: int, dim: int, third: bool) -> (
    int,
    int,
    int,
    int,
) {
    add4(base_capacity(kinds, n, third), terms_capacity(kinds, n, dim, third))
}

/// Each component fits in `usize`.
pub open spec fn fits4(x: (int, int, int, int)) -> bool {
    x.0 <= usize::MAX && x.1 <= usize::MAX && x.2 <= usize::MAX && x.3 <= usize::MAX
}

/// Each component of `x` is at most that of `y`.
pub open spec fn le4(x: (int, int, int, int), y: (int, int, int, int)) -> bool {
    x.0 <= y.0 && x.1 <= y.1 && x.2 <= y.2 && x.3 <= y.3
}

/// Every term adds a non-negative amount of room.
proof fn lemma_term_capacity_nonneg(kind: ObjectiveKind, n: int, dim: int, third: bool)
    requires
        0 <= n,
        0 <= dim,
    ensures
        le4((0, 0, 0, 0), if third {
            copp3_term_capacity(kind, n, dim)
        } else {
            copp2_term_capacity(kind, n, dim)
        }),
{
    assert(0 <= dim * n) by (nonlinear_arith)
        requires
            0 <= n,
            0 <= dim,
    ;
    assert(0 <= (6 + 2 * dim) * n && 0 <= (dim + 2) * n) by (nonlinear_arith)
        requires
            0 <= n,
            0 <= dim,
    ;
    assert(0 <= (4 + 2 * dim) * (n + 1) && 0 <= (dim + 2) * (n + 1)) by (nonlinear_arith)
        requires
            0 <= n,
            0 <= dim,
    ;
}

/// The room of a prefix of the terms is at most that of all terms.
proof fn lemma_terms_capacity_prefix(kinds: Seq<ObjectiveKind>, i: int, n: int, dim: int, third: bool)
    requires
        0 <= i <= kinds.len(),
        0 <= n,
        0 <= dim,
    ensures
        le4((0, 0, 0, 0), terms_capacity(kinds.take(i), n, dim, third)),
        le4(terms_capacity(kinds.take(i), n, dim, third), terms_capacity(kinds, n, dim, third)),
    decreases kinds.len(),
{
    if kinds.len() > 0 {
        if i == kinds.len() {
            assert(kinds.take(i) =~= kinds);
            lemma_terms_capacity_prefix(kinds.drop_last(), i - 1, n, dim, third);
            assert(kinds.drop_last().take(i - 1) =~= kinds.drop_last());
            lemma_term_capacity_nonneg(kinds.last(), n, dim, third);
        } else {
            lemma_terms_capacity_prefix(kinds.drop_last(), i, n, dim, third);
            assert(kinds.drop_last().take(i) =~= kinds.take(i));
            lemma_term_capacity_nonneg(kinds.last(), n, dim, third);
        }
    }
}

/// Whether some term needs the `sqrt(a)` block, computed.
fn any_needs_sqrt_a(kinds: &Vec<ObjectiveKind>) -> (r: bool)
    ensures
        r == needs_sqrt_a(kinds@),
{
    let mut i: usize = 0;
    while i < kinds.len()
        invariant
            0 <= i <= kinds@.len(),
            forall|j: int|
                0 <= j < i ==> !(#[trigger] kinds@[j] == ObjectiveKind::Time || kinds@[j]
                    == ObjectiveKind::ThermalEnergy),
        decreases kinds@.len() - i,
    {
        if kinds[i] == ObjectiveKind::Time || kinds[i] == ObjectiveKind::ThermalEnergy {
            assert(kinds@[i as int] == ObjectiveKind::Time || kinds@[i as int] == ObjectiveKind::ThermalEnergy);
            return true;
        }
        i = i + 1;
    }
    false
}

/// Room one term adds, computed; the products are formed so that they fit
/// whenever the result does.
fn term_capacity(kind: ObjectiveKind, n: usize, dim: usize, third: bool) -> (r: (usize, usize, usize, usize))
    requires
        fits4(
            if third {
                copp3_term_capacity(kind, n as int, dim as int)
            } else {
                copp2_term_capacity(kind, n as int, dim as int)
            },
        ),
    ensures
        (r.0 as int, r.1 as int, r.2 as int, r.3 as int) == if third {
            copp3_term_capacity(kind, n as int, dim as int)
        } else {
            copp2_term_capacity(kind, n as int, dim as int)
        },
{
    proof {
        assert(0 <= dim * n <= 2 * (dim * n) && 0 <= dim * (n + 1)) by (nonlinear_arith)
            requires
                0 <= n,
                0 <= dim,
        ;
        assert((6 + 2 * dim) * n == 6 * n + 2 * (dim * n) && (dim + 2) * n == dim * n + 2 * n)
            by (nonlinear_arith);
        assert((4 + 2 * dim) * (n + 1) == 4 * (n + 1) + 2 * (dim * (n + 1)) && (dim + 2) * (n + 1)
            == dim * (n + 1) + 2 * (n + 1)) by (nonlinear_arith);
    }
    match kind {
        ObjectiveKind::Time => if third {
            (5 * n, 4 * n, n, n)
        } else {
            (6 * n, 3 * n, n, n)
        },
        ObjectiveKind::ThermalEnergy => if third {
            let dn1 = dim * (n + 1);
            (4 * (n + 1) + 2 * dn1, dn1 + 2 * (n + 1), n + 1, n + 1)
        } else {
            let dn = dim * n;
            (6 * n + 2 * dn, dn + 2 * n, n, n)
        },
        ObjectiveKind::TotalVariationTorque => {
            let dn = dim * n;
            if third {
                (10 * dn, 2 * dn, 1, dn)
            } else {
                (8 * dn, 2 * dn, 1, dn)
            }
        },
        ObjectiveKind::Linear => (0, 0, 0, 0),
    }
}

/// Room of the objective part, computed.
fn objective_capacity_exec(n: usize, objective: &Vec<ObjectiveKind>, dim: usize, third: bool) -> (r: (
    usize,
    usize,
    usize,
    usize,
))
    requires
        n + 2 <= usize::MAX,
        fits4(objective_capacity(objective@, n as int, dim as int, third)),
    ensures
        (r.0 as int, r.1 as int, r.2 as int, r.3 as int) == objective_capacity(
            objective@,
            n as int,
            dim as int,
            third,
        ),
{
    let kinds = objective;
    let need = any_needs_sqrt_a(kinds);
    let ghost base = base_capacity(kinds@, n as int, third);
    proof {
        lemma_terms_capacity_prefix(kinds@, kinds@.len() as int, n as int, dim as int, third);
        assert(kinds@.take(kinds@.len() as int) =~= kinds@);
    }
    let (mut cv, mut cb, mut cc, mut nv): (usize, usize, usize, usize) = if third {
        if need {
            (4 * n, 4 * n, n, 2 * (n + 1))
        } else {
            (0, 0, 0, 2 * (n + 1))
        }
    } else {
        if need {
            (4 * (n + 1), 4 * (n + 1), n + 2, 2 * (n + 1))
        } else {
            (0, 0, 0, n + 1)
        }
    };
    let mut i: usize = 0;
    while i < kinds.len()
        invariant
            0 <= i <= kinds@.len(),
            base == base_capacity(kinds@, n as int, third),
            fits4(add4(base, terms_capacity(kinds@, n as int, dim as int, third))),
            (cv as int, cb as int, cc as int, nv as int) == add4(
                base,
                terms_capacity(kinds@.take(i as int), n as int, dim as int, third),
            ),
        decreases kinds@.len() - i,
    {
        proof {
            lemma_terms_capacity_prefix(kinds@, i + 1, n as int, dim as int, third);
            assert(kinds@.take(i + 1).drop_last() =~= kinds@.take(i as int));
            assert(kinds@.take(i + 1).last() == kinds@[i as int]);
            lemma_term_capacity_nonneg(kinds@[i as int], n as int, dim as int, third);
        }
        let t = term_capacity(kinds[i], n, dim, third);
        cv = cv + t.0;
        cb = cb + t.1;
        cc = cc + t.2;
        nv = nv + t.3;
        i = i + 1;
    }
    proof {
        assert(kinds@.take(kinds@.len() as int) =~= kinds@);
    }
    (cv, cb, cc, nv)
}

/// Room `(nonzeros, rows, cone blocks, variables)` the objective adds to
/// the second-order program over `n + 1` stations of a path of dimension
/// `dim`: a `sqrt(a)` block when some term is a time or thermal-energy term,
/// plus the room of each term.
pub fn clarabel_objective_capacity_copp2(n: usize, objective: &Vec<ObjectiveKind>, dim: usize) -> (r: (
    usize,
    usize,
    usize,
    usize,
))
    requires
        n + 2 <= usize::MAX,
        fits4(objective_capacity(objective@, n as int, dim as int, false)),
    ensures
        (r.0 as int, r.1 as int, r.2 as int, r.3 as int) == objective_capacity(
            objective@,
            n as int,
            dim as int,
            false,
        ),
{
    objective_capacity_exec(n, objective, dim, false)
}

/// Room `(nonzeros, rows, cone blocks, variables)` the objective adds to
/// the third-order program over `n + 1` stations of a path of dimension
/// `dim`.
pub fn clarabel_objective_capacity_copp3(n: usize, objective: &Vec<ObjectiveKind>, dim: usize) -> (r: (
    usize,
    usize,
    usize,
    usize,
))
    requires
        n + 2 <= usize::MAX,
        fits4(objective_capacity(objective@, n as int, dim as int, true)),
    ensures
        (r.0 as int, r.1 as int, r.2 as int, r.3 as int) == objective_capacity(
            objective@,
            n as int,
            dim as int,
            true,
        ),
{
    objective_capacity_exec(n, objective, dim, true)
}

} // verus!
