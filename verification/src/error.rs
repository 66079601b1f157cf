//! Error types and input validation helpers.
//!
//! [`ConstraintError`] reports misuse of the constraint storage,
//! [`RobotDynamicsError`] carries a free-form message from user dynamics
//! code, and [`CoppError`] is the unified error of the library layer.
//! The `check_*` helpers validate indices and lengths and build the same
//! diagnostic messages on every call, which their contracts state exactly.

use vstd::prelude::*;
use crate::text::{decimal, push_decimal};

verus! {

/// Error type for constraint storage/query operations.
#[derive(Debug)]
pub enum ConstraintError {
    /// Input station sequence is not strictly increasing; `index` is the
    /// local index of the first violation.
    NonIncreasingS { index: usize },
    /// Input matrix/vector dimensions are incompatible with expected shape.
    NoMatchDimensions,
    /// Input ordering contract is violated.
    NoMatchOrder,
    /// Signed upper/lower bounds violate the strict sign contract.
    InvalidSignedBounds { bound_name: &'static str },
    /// Requested station interval is outside the stored window.
    OutOfSBounds { idx_s: usize, len: usize },
    /// `a` violates positivity / non-negativity preconditions.
    NonPositiveA,
    /// Linearization floor must be strictly positive.
    NonPositiveLinearizationFloor,
    /// Required path-derivative data is missing in the requested interval.
    NoGivenQInfo,
    /// Linearized jerk constraints are unavailable at `idx_s`; the half-open
    /// range `valid_range` is where they are available.
    LinearJerkNotAvailable { idx_s: usize, valid_range: (usize, usize) },
    /// Dynamic-model data has not been provided.
    NoDynamic,
    /// Reference profile is infeasible under current constraints.
    InfeasibleReference,
    /// Requested interval `[start, end)` is empty.
    EmptyInterval { start: usize, end: usize },
}

/// Error reported by user-provided robot inverse dynamics: a free-form message.
#[derive(Debug, Clone, PartialEq, Eq)]
pub struct RobotDynamicsError {
    message: String,
}

impl RobotDynamicsError {
    /// The message carried by this error.
    pub closed spec fn spec_message(&self) -> Seq<char> {
        self.message@
    }

    /// The error that carries `message`.
    pub closed spec fn spec_new(message: String) -> Self {
        RobotDynamicsError { message }
    }

    /// The error built from `message` carries it.
    pub proof fn lemma_spec_new_message(message: String)
        ensures
            Self::spec_new(message).spec_message() == message@,
    {
    }

    /// Construct a robot dynamics error from a display-ready message.
    pub fn new(message: String) -> (r: Self)
        ensures
            r == Self::spec_new(message),
            r.spec_message() == message@,
    {
        RobotDynamicsError { message }
    }

    /// Borrow the underlying error message.
    pub fn message(&self) -> (r: &str)
        ensures
            r@ == self.spec_message(),
    {
        self.message.as_str()
    }

    /// Consume the error and return its message.
    pub fn into_message(self) -> (r: String)
        ensures
            r@ == self.spec_message(),
    {
        self.message
    }
}

impl From<String> for RobotDynamicsError {
    /// The same error as [`RobotDynamicsError::new`] of `message`.
    fn from(message: String) -> (r: Self)
        ensures
            r == Self::spec_new(message),
            r.spec_message() == message@,
    {
        RobotDynamicsError::new(message)
    }
}

impl vstd::std_specs::convert::FromSpecImpl<String> for RobotDynamicsError {
    open spec fn obeys_from_spec() -> bool {
        true
    }

    open spec fn from_spec(v: String) -> Self {
        RobotDynamicsError::spec_new(v)
    }
}

impl From<&str> for RobotDynamicsError {
    /// The error carrying a copy of `message`.
    fn from(message: &str) -> (r: Self)
        ensures
            r.spec_message() == message@,
    {
        RobotDynamicsError::new(message.to_owned())
    }
}

impl vstd::std_specs::convert::FromSpecImpl<&str> for RobotDynamicsError {
    /// Not claimed: a copy of the characters of `message` is a new
    /// `String`, which Verus does not hold equal to any given one; the
    /// message of the result is stated on [`from`](From::from).
    open spec fn obeys_from_spec() -> bool {
        false
    }

    closed spec fn from_spec(v: &str) -> Self {
        RobotDynamicsError::spec_new(choose|m: String| m@ == v@)
    }
}

/// The unified error type of the library layer.
///
/// Errors that originate in file I/O, path evaluation and the conic solver
/// backend are raised by the application layer, which wraps this type.
#[derive(Debug)]
pub enum CoppError {
    /// Some error occurred in the constraint storage.
    ConstraintError(ConstraintError),
    /// Some error occurred while evaluating user-provided robot dynamics.
    RobotDynamicsError(RobotDynamicsError),
    /// `(reporter, detail)`: the problem was reported infeasible.
    Infeasible(String, String),
    /// `(reporter, detail)`: the problem was reported unbounded.
    Unbounded(String, String),
    /// `(reporter, detail)`: the model or data is rejected as invalid input.
    InvalidInput(String, String),
    /// `(reporter, detail)`: the configuration options are rejected.
    InvalidOptions(String, String),
    /// `(reporter, detail)`: an uncategorized runtime error.
    Other(String, String),
}

impl CoppError {
    /// `self` is `InvalidInput(f, m)` with `f@ == reporter` and `m@ == detail`.
    pub open spec fn is_invalid_input(self, reporter: Seq<char>, detail: Seq<char>) -> bool {
        match self {
            CoppError::InvalidInput(f, m) => f@ == reporter && m@ == detail,
            _ => false,
        }
    }
}

/// Wrap a constraint-storage error into the unified error type.
pub fn constraint_to_copp_error(e: ConstraintError) -> (r: CoppError)
    ensures
        r == CoppError::ConstraintError(e),
{
    CoppError::ConstraintError(e)
}

/// Message of [`check_s_interval_valid`].
pub open spec fn s_interval_msg(idx_s_start: nat, idx_s_final: nat) -> Seq<char> {
    "The final index "@ + decimal(idx_s_final)
        + " must be at least two positions after the start index "@ + decimal(idx_s_start)
        + " in Topp2Problem."@
}

/// Check that a closed station interval `[idx_s_start, idx_s_final]` holds at
/// least three stations.
pub fn check_s_interval_valid(function_name: &str, idx_s_start: usize, idx_s_final: usize) -> (r:
    Result<(), CoppError>)
    ensures
        r is Ok <==> idx_s_final >= idx_s_start + 2,
        r matches Err(e) ==> e.is_invalid_input(
            function_name@,
            s_interval_msg(idx_s_start as nat, idx_s_final as nat),
        ),
{
    if idx_s_final < 2 || idx_s_final - 2 < idx_s_start {
        let mut m = String::from_str("The final index ");
        push_decimal(&mut m, idx_s_final);
        m.append(" must be at least two positions after the start index ");
        push_decimal(&mut m, idx_s_start);
        m.append(" in Topp2Problem.");
        Err(CoppError::InvalidInput(String::from_str(function_name), m))
    } else {
        Ok(())
    }
}

/// Message of [`check_input_len_at_least`].
pub open spec fn len_at_least_msg(len_name: Seq<char>, len: nat, min_len: nat) -> Seq<char> {
    len_name + " = "@ + decimal(len) + " must be at least "@ + decimal(min_len)
}

/// Check that an input length is at least the required minimum.
pub fn check_input_len_at_least(function_name: &str, len_name: &str, len: usize, min_len: usize) -> (r:
    Result<(), CoppError>)
    ensures
        r is Ok <==> len >= min_len,
        r matches Err(e) ==> e.is_invalid_input(
            function_name@,
            len_at_least_msg(len_name@, len as nat, min_len as nat),
        ),
{
    if len < min_len {
        let mut m = String::from_str(len_name);
        m.append(" = ");
        push_decimal(&mut m, len);
        m.append(" must be at least ");
        push_decimal(&mut m, min_len);
        Err(CoppError::InvalidInput(String::from_str(function_name), m))
    } else {
        Ok(())
    }
}

/// Message of [`check_input_len_equal`].
pub open spec fn len_equal_msg(lhs_name: Seq<char>, lhs_len: nat, rhs_name: Seq<char>, rhs_len: nat) -> Seq<
    char,
> {
    lhs_name + " = "@ + decimal(lhs_len) + " must equal "@ + rhs_name + " = "@ + decimal(rhs_len)
}

/// Check that two input lengths are equal.
pub fn check_input_len_equal(
    function_name: &str,
    lhs_name: &str,
    lhs_len: usize,
    rhs_name: &str,
    rhs_len: usize,
) -> (r: Result<(), CoppError>)
    ensures
        r is Ok <==> lhs_len == rhs_len,
        r matches Err(e) ==> e.is_invalid_input(
            function_name@,
            len_equal_msg(lhs_name@, lhs_len as nat, rhs_name@, rhs_len as nat),
        ),
{
    if lhs_len != rhs_len {
        let mut m = String::from_str(lhs_name);
        m.append(" = ");
        push_decimal(&mut m, lhs_len);
        m.append(" must equal ");
        m.append(rhs_name);
        m.append(" = ");
        push_decimal(&mut m, rhs_len);
        Err(CoppError::InvalidInput(String::from_str(function_name), m))
    } else {
        Ok(())
    }
}

/// Check that an input slice, given by its length, is not empty.
pub fn check_input_not_empty(function_name: &str, slice_name: &str, len: usize) -> (r: Result<
    (),
    CoppError,
>)
    ensures
        r is Ok <==> len != 0,
        r matches Err(e) ==> e.is_invalid_input(function_name@, slice_name@ + " must not be empty"@),
{
    if len == 0 {
        let mut m = String::from_str(slice_name);
        m.append(" must not be empty");
        Err(CoppError::InvalidInput(String::from_str(function_name), m))
    } else {
        Ok(())
    }
}

} // verus!
