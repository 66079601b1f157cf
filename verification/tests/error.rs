use copp::error::{
    check_input_len_at_least, check_input_len_equal, check_input_not_empty, check_s_interval_valid,
    constraint_to_copp_error, ConstraintError, CoppError, RobotDynamicsError,
};
use copp::text::usize_to_decimal;

fn invalid_input(r: Result<(), CoppError>) -> (String, String) {
    match r {
        Err(CoppError::InvalidInput(f, m)) => (f, m),
        _ => panic!("expected invalid input"),
    }
}

#[test]
fn robot_dynamics_error_message() {
    let e = RobotDynamicsError::new("torque model failed".to_string());
    assert_eq!(e.message(), "torque model failed");
    let f: RobotDynamicsError = "boom".to_string().into();
    assert_eq!(f.clone().into_message(), "boom");
    assert_eq!(f, RobotDynamicsError::new("boom".to_string()));
}

#[test]
fn interval_messages() {
    assert!(check_s_interval_valid("t", 0, 2).is_ok());
    let (f, m) = invalid_input(check_s_interval_valid("t", 5, 6));
    assert_eq!(f, "t");
    assert_eq!(
        m,
        "The final index 6 must be at least two positions after the start index 5 in Topp2Problem."
    );
    let (_, m) = invalid_input(check_s_interval_valid("t", 0, 1));
    assert_eq!(
        m,
        "The final index 1 must be at least two positions after the start index 0 in Topp2Problem."
    );
}

#[test]
fn length_messages() {
    assert!(check_input_len_at_least("f", "`s.len()`", 3, 3).is_ok());
    let (_, m) = invalid_input(check_input_len_at_least("f", "`s.len()`", 2, 30));
    assert_eq!(m, "`s.len()` = 2 must be at least 30");
    assert!(check_input_len_equal("f", "a", 4, "b", 4).is_ok());
    let (f, m) = invalid_input(check_input_len_equal("f", "`a.len()`", 4, "`s.len()`", 105));
    assert_eq!(f, "f");
    assert_eq!(m, "`a.len()` = 4 must equal `s.len()` = 105");
    assert!(check_input_not_empty("f", "s", 1).is_ok());
    let (_, m) = invalid_input(check_input_not_empty("f", "s", 0));
    assert_eq!(m, "s must not be empty");
}

#[test]
fn decimal_rendering() {
    assert_eq!(usize_to_decimal(0), "0");
    assert_eq!(usize_to_decimal(7), "7");
    assert_eq!(usize_to_decimal(1203), "1203");
    assert_eq!(usize_to_decimal(usize::MAX), usize::MAX.to_string());
}

#[test]
fn constraint_errors_wrap() {
    match constraint_to_copp_error(ConstraintError::NoGivenQInfo) {
        CoppError::ConstraintError(ConstraintError::NoGivenQInfo) => {}
        _ => panic!("expected a wrapped constraint error"),
    }
}

#[test]
fn robot_dynamics_error_from_str_carries_the_message() {
    let e = RobotDynamicsError::from("joint 3 out of range");
    assert_eq!(e.message(), "joint 3 out of range");
    assert_eq!(e, RobotDynamicsError::new("joint 3 out of range".to_string()));
    let f: RobotDynamicsError = "".into();
    assert_eq!(f.into_message(), "");
}
