use copp::objective_assembly::{
    sqrt_a_len_copp2, sqrt_a_len_copp3, sqrt_a_pattern_copp2, sqrt_a_pattern_copp3,
    thermal_energy_pattern_copp2, thermal_energy_pattern_copp3, time_pattern_copp2,
    time_pattern_copp3, tv_torque_pattern_copp2, tv_torque_pattern_copp3,
};
use copp::objectives::{clarabel_objective_capacity_copp2, clarabel_objective_capacity_copp3};
use copp::objectives::ObjectiveKind::{Linear, ThermalEnergy, Time, TotalVariationTorque};

#[test]
fn sqrt_a_lengths_follow_the_objective_kinds() {
    assert_eq!(sqrt_a_len_copp2(2, &vec![Linear, ThermalEnergy]), 6);
    assert_eq!(sqrt_a_len_copp2(2, &vec![Linear, TotalVariationTorque]), 3);
    assert_eq!(sqrt_a_len_copp2(2, &vec![]), 3);
    assert_eq!(sqrt_a_len_copp3(4, &vec![TotalVariationTorque], (0, 0)), 10);
    assert_eq!(sqrt_a_len_copp3(4, &vec![Time], (0, 0)), 13);
    assert_eq!(sqrt_a_len_copp3(6, &vec![Time], (2, 1)), 14 + 4);
}

#[test]
fn sqrt_a_blocks() {
    let (mut row, mut col) = (vec![], vec![]);
    assert_eq!(sqrt_a_pattern_copp2(&mut row, &mut col, 0, 2), 12);
    assert_eq!(row, (0..12).collect::<Vec<usize>>());
    assert_eq!(col, vec![3, 4, 5, 0, 0, 3, 1, 1, 4, 2, 2, 5]);

    let (mut row, mut col) = (vec![], vec![]);
    assert_eq!(sqrt_a_pattern_copp3(&mut row, &mut col, 0, 4, (0, 0)), 12);
    assert_eq!(row, (0..12).collect::<Vec<usize>>());
    assert_eq!(col, vec![10, 11, 12, 1, 1, 10, 2, 2, 11, 3, 3, 12]);
}

#[test]
fn time_blocks() {
    let (mut row, mut col) = (vec![], vec![]);
    assert_eq!(time_pattern_copp3(&mut row, &mut col, 10, 12, 4, 2), 18);
    assert_eq!(row, vec![10, 11, 12, 12, 13, 13, 15, 15, 16, 16]);
    assert_eq!(col, vec![12, 13, 10, 12, 10, 12, 11, 13, 11, 13]);

    let (mut row, mut col) = (vec![], vec![]);
    assert_eq!(time_pattern_copp2(&mut row, &mut col, 0, 6, 2), 6);
    assert_eq!(row, vec![0, 0, 0, 1, 1, 1, 3, 3, 3, 4, 4, 4]);
    assert_eq!(col, vec![3, 4, 6, 3, 4, 6, 4, 5, 7, 4, 5, 7]);
}

#[test]
fn thermal_energy_blocks() {
    let (mut row, mut col) = (vec![], vec![]);
    assert_eq!(thermal_energy_pattern_copp3(&mut row, &mut col, 0, 20, 4, 2, (2, 1)), (16, 24));
    assert_eq!(
        row,
        vec![
            0, 1, 0, 1, 2, 3, 2, 3, // head cone
            4, 5, 4, 5, 6, 7, 6, 7, // tail cone
            8, 9, 8, 9, 10, 11, 10, 11, // station 2
            12, 13, 12, 13, 14, 15, 14, 15, // station 3
        ]
    );
    assert_eq!(
        col,
        vec![
            20, 20, 10, 10, 2, 2, 7, 7, //
            21, 21, 11, 11, 3, 3, 8, 8, //
            22, 22, 10, 10, 2, 2, 7, 7, //
            23, 23, 11, 11, 3, 3, 8, 8,
        ]
    );

    let (mut row, mut col) = (vec![], vec![]);
    assert_eq!(thermal_energy_pattern_copp2(&mut row, &mut col, 0, 6, 2, 1), 6);
    assert_eq!(row, vec![0, 0, 0, 1, 1, 1, 2, 2, 3, 3, 3, 4, 4, 4, 5, 5]);
    assert_eq!(col, vec![3, 4, 6, 3, 4, 6, 0, 1, 4, 5, 7, 4, 5, 7, 1, 2]);
}

#[test]
fn total_variation_blocks() {
    let (mut row, mut col) = (vec![], vec![]);
    assert_eq!(tv_torque_pattern_copp3(&mut row, &mut col, 0, 10, 4, 1, (1, 1)), (8, 14));
    assert_eq!(
        row,
        vec![
            0, 0, 0, 1, 1, 1, 2, 2, 2, 3, 3, 3, //
            4, 4, 4, 4, 4, 5, 5, 5, 5, 5, 6, 6, 6, 6, 6, 7, 7, 7, 7, 7,
        ]
    );
    assert_eq!(
        col,
        vec![
            1, 6, 10, 1, 6, 10, 3, 8, 11, 3, 8, 11, //
            1, 2, 6, 7, 12, 1, 2, 6, 7, 12, 2, 3, 7, 8, 13, 2, 3, 7, 8, 13,
        ]
    );

    let (mut row, mut col) = (vec![], vec![]);
    assert_eq!(tv_torque_pattern_copp2(&mut row, &mut col, 0, 0, 3, 1), (4, 2));
    assert_eq!(row, vec![0, 0, 0, 0, 1, 1, 1, 1, 2, 2, 2, 2, 3, 3, 3, 3]);
    assert_eq!(col, vec![0, 1, 2, 0, 0, 1, 2, 0, 1, 2, 3, 1, 1, 2, 3, 1]);

    let (mut row, mut col) = (vec![], vec![]);
    assert_eq!(tv_torque_pattern_copp2(&mut row, &mut col, 7, 9, 1, 3), (7, 9));
    assert!(row.is_empty() && col.is_empty());
}

#[test]
fn blocks_fit_their_capacity() {
    let (n, dim) = (6usize, 3usize);
    let kinds = vec![Time, ThermalEnergy, TotalVariationTorque];
    let (cap_val, cap_b, _, _) = clarabel_objective_capacity_copp3(n, &kinds, dim);
    let (mut row, mut col) = (vec![], vec![]);
    let mut next = sqrt_a_pattern_copp3(&mut row, &mut col, 0, n, (1, 1));
    next = time_pattern_copp3(&mut row, &mut col, next, 20, n, 5);
    let (next2, _) = thermal_energy_pattern_copp3(&mut row, &mut col, next, 25, n, dim, (1, 1));
    let (next3, _) = tv_torque_pattern_copp3(&mut row, &mut col, next2, 40, n, dim, (1, 1));
    assert!(row.len() <= cap_val);
    assert!(next3 <= cap_b);

    let n = 5usize;
    let (cap_val, cap_b, _, _) = clarabel_objective_capacity_copp2(n, &kinds, dim);
    let (mut row, mut col) = (vec![], vec![]);
    let mut next = sqrt_a_pattern_copp2(&mut row, &mut col, 0, n);
    next = time_pattern_copp2(&mut row, &mut col, next, 12, n);
    next = thermal_energy_pattern_copp2(&mut row, &mut col, next, 17, n, dim);
    let (next, _) = tv_torque_pattern_copp2(&mut row, &mut col, next, 22, n, dim);
    assert!(row.len() <= cap_val);
    assert!(next <= cap_b);
}
