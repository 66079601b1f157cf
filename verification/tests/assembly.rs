use copp::assembly::{
    first_order_pattern_topp2, first_order_pattern_topp3, second_order_pattern_topp2, standard_pattern_topp2,
    boundary_pattern_topp3, dynamic_moving_pattern_topp3, dynamic_stationary_pattern_topp3,
    qp_aux_pattern_topp3, second_order_pattern_topp3, third_order_pattern_topp3,
};
use copp::capacity::{clarabel_standard_capacity_topp2, clarabel_standard_capacity_topp3};
use copp::constraints::{Constraints, Shape};

#[test]
fn boundary_and_dynamics() {
    let (mut row, mut col) = (vec![], vec![]);
    boundary_pattern_topp3(&mut row, &mut col, 0, 5);
    assert_eq!(row, vec![0, 1, 2, 3]);
    assert_eq!(col, vec![0, 5, 6, 11]);
    dynamic_stationary_pattern_topp3(&mut row, &mut col, 4, 5, 2, false);
    assert_eq!(&row[4..], &[4, 4]);
    assert_eq!(&col[4..], &[2, 8]);
    dynamic_stationary_pattern_topp3(&mut row, &mut col, 5, 5, 1, true);
    assert_eq!(&row[6..], &[5, 5]);
    assert_eq!(&col[6..], &[4, 10]);
    let (mut row, mut col) = (vec![], vec![]);
    dynamic_moving_pattern_topp3(&mut row, &mut col, 10, 5, (2, 1));
    assert_eq!(row, vec![10, 11, 10, 11, 10, 11, 10, 11]);
    assert_eq!(col, vec![2, 3, 3, 4, 8, 9, 9, 10]);
}

#[test]
fn second_order_block_follows_row_maps() {
    let mut c = Constraints::with_capacity(1, 20);
    c.with_s(8);
    let a = Shape { nrows: 2, ncols: 2 };
    c.with_constraint_2order(a, a, a, 3).unwrap();
    let one = Shape { nrows: 1, ncols: 1 };
    c.with_constraint_2order(one, one, one, 5).unwrap();
    // problem over global stations 2 ..= 7 (n = 5); local stations 1 .. 4
    let (mut row, mut col) = (vec![], vec![]);
    let next = second_order_pattern_topp3(&c, &mut row, &mut col, 7, 2, 5, 1, 4);
    // local 1 (global 3): 2 rows; local 2 (global 4): 2 rows; local 3 (global 5): 1 row
    assert_eq!(next, 7 + 2 + 2 + 1);
    assert_eq!(row, vec![7, 8, 7, 8, 9, 10, 9, 10, 11, 11]);
    assert_eq!(col, vec![1, 1, 7, 7, 2, 2, 8, 8, 3, 9]);
}

#[test]
fn third_order_block_follows_row_maps() {
    let mut c = Constraints::with_capacity(1, 20);
    c.with_s(6);
    let j = Shape { nrows: 1, ncols: 3 };
    c.with_constraint_3order(j, j, j, j, j, 0).unwrap();
    // problem over global stations 0 ..= 3 (n = 3); local stations 0 ..= 2
    let (mut row, mut col) = (vec![], vec![]);
    let next = third_order_pattern_topp3(&c, &mut row, &mut col, 0, 0, 3, 0, 2);
    // station 0: interval after; station 1: before and after; station 2: before
    assert_eq!(next, 4);
    assert_eq!(row, vec![0, 0, 0, 1, 1, 1, 2, 2, 2, 3, 3, 3]);
    assert_eq!(col, vec![0, 4, 5, 1, 4, 5, 1, 5, 6, 2, 5, 6]);
}

#[test]
fn quadratic_program_auxiliary_block() {
    let (mut row, mut col) = (vec![99], vec![99]);
    let next = qp_aux_pattern_topp3(&mut row, &mut col, 10, 2, 1, 20, 22);
    assert_eq!(next, 10 + 16);
    assert_eq!(
        row,
        vec![99, 10, 11, 12, 13, 14, 14, 15, 15, 17, 17, 18, 18, 20, 21, 22, 23, 24, 25]
    );
    assert_eq!(
        col,
        vec![99, 20, 21, 22, 23, 20, 22, 20, 22, 21, 23, 21, 23, 1, 1, 20, 2, 2, 21]
    );
}

fn second_order_rows_2_2_1() -> Constraints {
    // stations 0 ..= 7; second-order rows: 2 at stations 3 and 4, 1 at station 5
    let mut c = Constraints::with_capacity(1, 20);
    c.with_s(8);
    let a = Shape { nrows: 2, ncols: 2 };
    c.with_constraint_2order(a, a, a, 3).unwrap();
    let one = Shape { nrows: 1, ncols: 1 };
    c.with_constraint_2order(one, one, one, 5).unwrap();
    c
}

#[test]
fn first_order_block_of_the_second_order_program() {
    let (mut row, mut col) = (vec![], vec![]);
    let (next, ks) = first_order_pattern_topp2(&mut row, &mut col, 10, 4, &vec![true, false, true, true, false]);
    assert_eq!(ks, vec![2, 3]);
    assert_eq!(next, 10 + 3 + 2);
    assert_eq!(row, vec![11, 12, 13, 13, 14]);
    assert_eq!(col, vec![1, 2, 3, 2, 3]);
}

#[test]
fn second_order_block_of_the_second_order_program() {
    let c = second_order_rows_2_2_1();
    let (mut row, mut col) = (vec![], vec![]);
    // global stations 2 ..= 5, n = 3
    let next = second_order_pattern_topp2(&c, &mut row, &mut col, 5, 2, 3);
    assert_eq!(next, 14);
    assert_eq!(row, vec![5, 6, 5, 6, 7, 8, 7, 8, 9, 10, 9, 10, 11, 12, 11, 12, 13, 13]);
    assert_eq!(col, vec![0, 0, 1, 1, 1, 1, 2, 2, 1, 1, 2, 2, 2, 2, 3, 3, 2, 3]);
}

#[test]
fn standard_second_order_program_fits_its_capacity() {
    let c = second_order_rows_2_2_1();
    let (mut row, mut col) = (vec![], vec![]);
    let (next, ks) = standard_pattern_topp2(&c, &mut row, &mut col, 0, 2, 3, &vec![true, true, false, true]);
    assert_eq!(ks, vec![1]);
    assert_eq!(next, 14);
    assert_eq!(&row[..5], &[0, 1, 3, 4, 4]);
    assert_eq!(&col[..5], &[0, 3, 1, 2, 1]);
    assert_eq!(row.len(), 23);
    let (cap_val, cap_b, cones) = clarabel_standard_capacity_topp2(&c, (2, 5));
    assert_eq!((cap_val, cap_b, cones), (28, 18, 3));
    assert!(row.len() <= cap_val && next <= cap_b);
}

#[test]
fn first_order_block_of_the_third_order_program() {
    let (mut row, mut col) = (vec![], vec![]);
    let bounded = vec![false, true, true, false, true, true, false];
    let (next, ks) = first_order_pattern_topp3(&mut row, &mut col, 0, 6, (1, 2), true, false, &bounded);
    assert_eq!(ks, vec![2]);
    assert_eq!(next, 6);
    assert_eq!(row, vec![0, 1, 2, 3, 4, 5]);
    assert_eq!(col, vec![1, 1, 4, 2, 3, 2]);

    let (mut row, mut col) = (vec![], vec![]);
    let (next, ks) = first_order_pattern_topp3(&mut row, &mut col, 10, 4, (0, 0), false, false, &vec![true; 5]);
    assert_eq!(ks, vec![1, 2, 3]);
    assert_eq!(next, 16);
    assert_eq!(row, vec![10, 11, 12, 13, 14, 15]);
    assert_eq!(col, vec![1, 2, 3, 1, 2, 3]);
}

#[test]
fn standard_third_order_program_fits_its_capacity() {
    let mut c = second_order_rows_2_2_1();
    let j = Shape { nrows: 1, ncols: 4 };
    c.with_constraint_3order(j, j, j, j, j, 2).unwrap();
    // global stations 2 ..= 7, n = 5, one stationary station at each end
    let (idx, n, ns) = (2usize, 5usize, (1usize, 1usize));
    let (mut row, mut col) = (vec![], vec![]);
    let mut next = 0;
    boundary_pattern_topp3(&mut row, &mut col, next, n);
    next += 4;
    dynamic_stationary_pattern_topp3(&mut row, &mut col, next, n, ns.0, false);
    next += 1;
    dynamic_stationary_pattern_topp3(&mut row, &mut col, next, n, ns.1, true);
    next += 1;
    dynamic_moving_pattern_topp3(&mut row, &mut col, next, n, ns);
    next += n - ns.0 - ns.1;
    let (after_first, ks) = first_order_pattern_topp3(&mut row, &mut col, next, n, ns, true, true, &vec![true; n + 1]);
    assert_eq!(ks, vec![2, 3]);
    let after_second = second_order_pattern_topp3(&c, &mut row, &mut col, after_first, idx, n, ns.0 + 1, n - ns.1);
    // local stations 2 and 3 are global 4 and 5: two and one second-order rows
    assert_eq!(after_second, after_first + 3);
    let end = third_order_pattern_topp3(&c, &mut row, &mut col, after_second, idx, n, ns.0, n - ns.1);
    let (cap_val, cap_b, _) = clarabel_standard_capacity_topp3(&c, (idx, idx + n));
    assert_eq!(row.len(), col.len());
    assert!(row.len() <= cap_val);
    assert!(end <= cap_b);
}
