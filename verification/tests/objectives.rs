use copp::objectives::{
    clarabel_objective_capacity_copp2, clarabel_objective_capacity_copp3, validate_copp2_objectives,
    validate_copp3_objectives, ObjectiveIssue, ObjectiveKind, ObjectiveTerm,
};

fn term(kind: ObjectiveKind) -> ObjectiveTerm {
    ObjectiveTerm {
        kind,
        weight_valid: true,
        normalize_len: 0,
        first_invalid_normalize: None,
        alpha_len: 0,
        beta_len: 0,
    }
}

#[test]
fn empty_objectives_rejected() {
    assert_eq!(validate_copp2_objectives(&vec![], 2, 5), Err(ObjectiveIssue::Empty));
    assert_eq!(validate_copp3_objectives(&vec![], 2, 5), Err(ObjectiveIssue::Empty));
}

#[test]
fn first_issue_decides() {
    let mut torque = term(ObjectiveKind::ThermalEnergy);
    torque.normalize_len = 3;
    let mut bad_weight = term(ObjectiveKind::Time);
    bad_weight.weight_valid = false;
    let objs = vec![term(ObjectiveKind::Time), torque, bad_weight];
    assert_eq!(
        validate_copp2_objectives(&objs, 2, 5),
        Err(ObjectiveIssue::NormalizeLength { index: 1, len: 3, dim: 2 })
    );
    assert_eq!(
        validate_copp2_objectives(&objs, 3, 5),
        Err(ObjectiveIssue::InvalidWeight { index: 2 })
    );
    let mut tv = term(ObjectiveKind::TotalVariationTorque);
    tv.normalize_len = 2;
    tv.first_invalid_normalize = Some(1);
    assert_eq!(
        validate_copp3_objectives(&vec![tv], 2, 5),
        Err(ObjectiveIssue::InvalidNormalize { index: 0, entry: 1 })
    );
}

#[test]
fn linear_lengths_depend_on_order() {
    let mut lin = term(ObjectiveKind::Linear);
    lin.alpha_len = 5;
    lin.beta_len = 4;
    assert_eq!(validate_copp2_objectives(&vec![lin], 2, 5), Ok(()));
    assert_eq!(
        validate_copp3_objectives(&vec![lin], 2, 5),
        Err(ObjectiveIssue::LinearLength {
            index: 0,
            alpha_len: 5,
            beta_len: 4,
            expected_alpha_len: 5,
            expected_beta_len: 5,
        })
    );
    lin.beta_len = 5;
    assert_eq!(validate_copp3_objectives(&vec![lin], 2, 5), Ok(()));
    assert_eq!(
        validate_copp2_objectives(&vec![lin], 2, 5),
        Err(ObjectiveIssue::LinearLength {
            index: 0,
            alpha_len: 5,
            beta_len: 5,
            expected_alpha_len: 5,
            expected_beta_len: 4,
        })
    );
}

#[test]
fn objective_capacities() {
    let n = 10;
    let dim = 3;
    // linear only: no sqrt(a) block
    assert_eq!(
        clarabel_objective_capacity_copp2(n, &vec![ObjectiveKind::Linear], dim),
        (0, 0, 0, n + 1)
    );
    assert_eq!(
        clarabel_objective_capacity_copp3(n, &vec![ObjectiveKind::Linear], dim),
        (0, 0, 0, 2 * (n + 1))
    );
    // time: sqrt(a) block plus the time cones
    assert_eq!(
        clarabel_objective_capacity_copp2(n, &vec![ObjectiveKind::Time], dim),
        (4 * 11 + 6 * 10, 4 * 11 + 3 * 10, 12 + 10, 22 + 10)
    );
    assert_eq!(
        clarabel_objective_capacity_copp3(n, &vec![ObjectiveKind::Time], dim),
        (40 + 50, 40 + 40, 10 + 10, 22 + 10)
    );
    let all = vec![
        ObjectiveKind::Time,
        ObjectiveKind::ThermalEnergy,
        ObjectiveKind::TotalVariationTorque,
        ObjectiveKind::Linear,
    ];
    assert_eq!(
        clarabel_objective_capacity_copp2(n, &all, dim),
        (
            44 + 60 + 12 * 10 + 8 * 30,
            44 + 30 + 5 * 10 + 2 * 30,
            12 + 10 + 10 + 1,
            22 + 10 + 10 + 30
        )
    );
    assert_eq!(
        clarabel_objective_capacity_copp3(n, &all, dim),
        (
            40 + 50 + 10 * 11 + 10 * 30,
            40 + 40 + 5 * 11 + 2 * 30,
            10 + 10 + 11 + 1,
            22 + 10 + 11 + 30
        )
    );
}

#[test]
fn linear_terms_over_no_stations_are_judged_until_their_lengths() {
    let mut linear = term(ObjectiveKind::Linear);
    linear.weight_valid = false;
    linear.alpha_len = 3;
    assert_eq!(
        validate_copp2_objectives(&vec![linear], 2, 0),
        Err(ObjectiveIssue::InvalidWeight { index: 0 })
    );
    let mut torque = term(ObjectiveKind::ThermalEnergy);
    torque.normalize_len = 1;
    let mut valid_linear = term(ObjectiveKind::Linear);
    valid_linear.alpha_len = 3;
    assert_eq!(
        validate_copp2_objectives(&vec![torque, valid_linear], 2, 0),
        Err(ObjectiveIssue::NormalizeLength { index: 0, len: 1, dim: 2 })
    );
}
