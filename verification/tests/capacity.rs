use copp::capacity::{
    check_stationary_counts, clarabel_capacity_topp3_qp, clarabel_standard_capacity_topp2,
    clarabel_standard_capacity_topp3, length_xi, length_xi_eta, skip_a_for_xi,
};
use copp::problem::{
    determine_num_stationary_pair, determine_num_stationary_side, linearization_interval, s_len,
    validate_s_interval,
};
use copp::constraints::{Constraints, Shape};
use copp::error::{ConstraintError, CoppError};

#[test]
fn xi_layout() {
    assert_eq!(skip_a_for_xi(0), 1);
    assert_eq!(skip_a_for_xi(3), 3);
    assert_eq!(length_xi(10, (0, 0)), 9);
    assert_eq!(length_xi(10, (3, 2)), 6);
    assert_eq!(length_xi_eta(10, (3, 0)), 7);
    assert_eq!(length_xi_eta(1, (1, 1)), 0);
    // the auxiliary block covers the stations between the stationary head and tail
    let n = 12;
    let ns = (4, 0);
    assert_eq!(skip_a_for_xi(ns.0) + length_xi(n, ns) + 1, n + 1);
}

#[test]
fn stationary_counts() {
    assert!(check_stationary_counts("f", 5, (1, 2)).is_ok());
    match check_stationary_counts("f", 4, (1, 2)) {
        Err(CoppError::InvalidInput(f, m)) => {
            assert_eq!(f, "f");
            assert_eq!(m, "`s.len()` = 4 must be at least 5");
        }
        _ => panic!("expected invalid input"),
    }
    match check_stationary_counts("g", 4, (usize::MAX, 0)) {
        Err(CoppError::InvalidInput(f, m)) => {
            assert_eq!(f, "g");
            assert_eq!(m, "`num_stationary` overflowed while checking dimensions");
        }
        _ => panic!("expected invalid input"),
    }
    assert!(check_stationary_counts("g", 4, (usize::MAX - 2, 1)).is_err());
}

#[test]
fn topp3_qp_capacity() {
    assert_eq!(clarabel_capacity_topp3_qp(9), (90, 80, 21));
    assert_eq!(clarabel_capacity_topp3_qp(0), (9, 8, 3));
}

#[test]
fn standard_capacities() {
    let mut c = Constraints::with_capacity(2, 10);
    c.with_s(6);
    let a = Shape { nrows: 4, ncols: 3 };
    c.with_constraint_2order(a, a, a, 1).unwrap();
    let j = Shape { nrows: 2, ncols: 2 };
    c.with_constraint_3order(j, j, j, j, j, 4).unwrap();
    // stations 1..=5: second-order rows 4 + 4 + 4 + 0 + 0, third-order rows 0 + 0 + 0 + 2 + 2
    assert_eq!(clarabel_standard_capacity_topp2(&c, (1, 5)), (4 * 12 + 2 * 5, 2 * 12 + 2 * 5, 3));
    assert_eq!(
        clarabel_standard_capacity_topp3(&c, (1, 5)),
        (2 + 6 * 4 + 2 * 12 + 6 * 4, 2 + 3 * 4 + 12 + 2 * 4, 2)
    );
}

#[test]
fn problem_interval() {
    let mut c = Constraints::with_capacity(1, 10);
    c.with_s(5);
    assert_eq!(s_len((2, 4)), 3);
    assert!(validate_s_interval("p", &c, (0, 4)).is_ok());
    match validate_s_interval("p", &c, (3, 4)) {
        Err(CoppError::InvalidInput(f, m)) => {
            assert_eq!(f, "p");
            assert_eq!(
                m,
                "The final index 4 must be at least two positions after the start index 3 in Topp2Problem."
            );
        }
        _ => panic!("expected invalid input"),
    }
    assert!(matches!(
        validate_s_interval("p", &c, (2, 5)),
        Err(CoppError::ConstraintError(ConstraintError::OutOfSBounds { idx_s: 2, len: 4 }))
    ));
}

#[test]
fn linearization_intervals() {
    assert_eq!(linearization_interval("b", 4, 3).unwrap(), 6);
    match linearization_interval("b", 4, 0) {
        Err(CoppError::InvalidInput(f, m)) => {
            assert_eq!(f, "b");
            assert_eq!(m, "a_linearization cannot be empty");
        }
        _ => panic!("expected invalid input"),
    }
    match linearization_interval("b", 4, 2) {
        Err(CoppError::InvalidInput(_, m)) => assert_eq!(
            m,
            "The final index 5 must be at least two positions after the start index 4 in Topp2Problem."
        ),
        _ => panic!("expected invalid input"),
    }
}

#[test]
fn stationary_boundaries() {
    assert_eq!(determine_num_stationary_side(true, 3), 3);
    assert_eq!(determine_num_stationary_side(false, 3), 0);
    assert_eq!(determine_num_stationary_pair((true, false), (1, 2)), (1, 0));
    assert_eq!(determine_num_stationary_pair((false, true), (1, 2)), (0, 2));
}

fn at_rest_pair(a_boundary: (f64, f64), b_boundary: (f64, f64)) -> (bool, bool) {
    let at_rest = |a: f64, b: f64| a.abs() < f64::EPSILON && b.abs() < f64::EPSILON;
    (at_rest(a_boundary.0, b_boundary.0), at_rest(a_boundary.1, b_boundary.1))
}

#[test]
fn test_determine_num_stationary_pair_respects_boundary_state() {
    let pair = determine_num_stationary_pair(at_rest_pair((0.0, 0.0), (0.0, 0.0)), (2, 3));
    assert_eq!(pair, (2, 3));

    let pair = determine_num_stationary_pair(at_rest_pair((1.0, 0.0), (0.0, 0.0)), (2, 3));
    assert_eq!(pair, (0, 3));

    let pair = determine_num_stationary_pair(at_rest_pair((0.0, 1.0), (0.0, 1.0)), (2, 3));
    assert_eq!(pair, (2, 0));
}
