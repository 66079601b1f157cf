use copp::constraints::{
    ColSegment, Constraints, ModePopConstraints, PopOutcome, Shape, StationRows,
};

fn wrapped_window() -> Constraints {
    // capacity 10; stations 9, 10, 11, 12 in physical columns 9, 0, 1, 2
    let mut c = Constraints::with_capacity(1, 10);
    c.with_s(4);
    for _ in 0..3 {
        c.pop_front(ModePopConstraints::PopNCols(3));
        c.with_s(3);
    }
    c
}
use copp::error::ConstraintError;

fn shape(nrows: usize, ncols: usize) -> Shape {
    Shape { nrows, ncols }
}

#[test]
fn new_container_is_empty() {
    let c = Constraints::with_capacity(2, 10);
    assert_eq!(c.len(), 0);
    assert!(c.is_empty());
    assert_eq!(c.capacity(), 10);
    assert_eq!(c.dim(), 2);
    assert_eq!(c.idx_s_start(), 0);
    assert_eq!(c.idx_s_end(), 0);
    assert_eq!(c.amax_rows(), 1);
    assert_eq!(c.acc_rows(), 4);
    assert_eq!(c.jerk_rows(), 4);
    assert_eq!(c.jerk_linear_rows(), 4);
    assert_eq!(Constraints::new(3).capacity(), Constraints::DEFAULT_CAPACITY);
}

#[test]
fn circular_process_splits_at_the_end() {
    let one = Constraints::circular_process(10, 3, 4);
    assert_eq!(one, vec![ColSegment { start: 3, ncols: 4, offset: 0 }]);
    let two = Constraints::circular_process(10, 8, 5);
    assert_eq!(
        two,
        vec![
            ColSegment { start: 8, ncols: 2, offset: 0 },
            ColSegment { start: 0, ncols: 3, offset: 2 },
        ]
    );
}

#[test]
fn expand_capacity_doubles_and_relays() {
    let mut c = Constraints::with_capacity(1, 10);
    assert!(c.with_s(3).expand.is_none());
    assert!(c.expand_capacity(3).is_none());
    let plan = c.expand_capacity(11).expect("grows");
    assert_eq!(plan.new_capacity, 21);
    assert_eq!(plan.old_head, 0);
    assert_eq!(plan.len_copy, 3);
    assert_eq!(plan.len_rest, 0);
    assert_eq!(c.capacity(), 21);
    let plan = c.expand_capacity(100).expect("grows");
    assert_eq!(plan.new_capacity, 100);
}

#[test]
fn expand_capacity_keeps_wrapped_order() {
    let mut c = Constraints::with_capacity(1, 4);
    c.with_s(2);
    c.pop_front(ModePopConstraints::PopNCols(1));
    c.with_s(2);
    // stations 1, 2, 3 now live in physical columns 1, 2, 3
    c.with_s(1);
    // the head moved: the last station wrapped to column 0 or the buffer grew
    let cols = c.s_vec_columns(1, 5).expect("in window");
    let total: usize = cols.iter().map(|g| g.ncols).sum();
    assert_eq!(total, 4);
}

#[test]
fn with_s_appends_zero_rows() {
    let mut c = Constraints::with_capacity(2, 10);
    let plan = c.with_s(5);
    assert!(plan.expand.is_none());
    assert_eq!(plan.columns, vec![ColSegment { start: 0, ncols: 5, offset: 0 }]);
    assert_eq!(c.len(), 5);
    assert_eq!(c.idx_s_start(), 0);
    assert!(!c.check_given_q(0, 5));
    let acc = c.get_acc_constraints(2).expect("in window");
    assert_eq!(acc, StationRows { col: 2, rows: 0 });
    let grown = c.with_s(23);
    assert_eq!(grown.expand.map(|p| p.new_capacity), Some(51));
    assert_eq!(c.capacity(), 51);
    assert_eq!(c.len(), 28);
}

#[test]
fn with_q_checks_shapes_and_bounds() {
    let mut c = Constraints::with_capacity(2, 10);
    c.with_s(5);
    let q = shape(2, 100);
    let r = c.with_q(q, q, q, Some(q), 0);
    assert!(matches!(r, Err(ConstraintError::OutOfSBounds { idx_s: 0, len: 100 })));
    let bad = c.with_q(shape(3, 4), shape(3, 4), shape(3, 4), None, 0);
    assert!(matches!(bad, Err(ConstraintError::NoMatchDimensions)));
    let mismatch = c.with_q(shape(2, 4), shape(2, 4), shape(2, 3), None, 0);
    assert!(matches!(mismatch, Err(ConstraintError::NoMatchDimensions)));
    let q4 = shape(2, 4);
    let cols = c.with_q(q4, q4, q4, Some(q4), 0).expect("fits");
    assert_eq!(cols, vec![ColSegment { start: 0, ncols: 4, offset: 0 }]);
    assert!(c.check_given_q(0, 4));
    assert!(!c.check_given_q(0, 5));
    assert!(c.check_given_dddq(0, 4));
    c.with_q(shape(2, 2), shape(2, 2), shape(2, 2), None, 1).expect("fits");
    assert!(c.check_given_q(0, 4));
    assert!(!c.check_given_dddq(0, 4));
    assert!(c.check_given_dddq(3, 4));
}

#[test]
fn second_order_rows_stack() {
    let mut c = Constraints::with_capacity(2, 10);
    c.with_s(6);
    let s = shape(4, 3);
    let first = c.with_constraint_2order(s, s, s, 1).expect("fits");
    assert_eq!(first.len(), 3);
    assert_eq!(first[0], StationRows { col: 1, rows: 0 });
    let s2 = shape(6, 3);
    let second = c.with_constraint_2order(s2, s2, s2, 2).expect("fits");
    assert_eq!(second[0], StationRows { col: 2, rows: 4 });
    assert_eq!(second[2], StationRows { col: 4, rows: 0 });
    assert_eq!(c.get_acc_constraints(2).unwrap().rows, 10);
    assert_eq!(c.get_acc_constraints(4).unwrap().rows, 6);
    assert_eq!(c.acc_rows(), 10);
    assert_eq!(c.count_rows_acc(0, 6), 4 + 10 + 10 + 6);
    assert_eq!(c.count_rows_acc(2, 4), 20);
    let bad = c.with_constraint_2order(s, s2, s, 0);
    assert!(matches!(bad, Err(ConstraintError::NoMatchDimensions)));
    let out = c.with_constraint_2order(s, s, s, 5);
    assert!(matches!(out, Err(ConstraintError::OutOfSBounds { idx_s: 5, len: 3 })));
    let empty = c.with_constraint_2order(shape(0, 2), shape(0, 2), shape(0, 2), 0).unwrap();
    assert!(empty.is_empty());
}

#[test]
fn third_order_rows_reset_linearization() {
    let mut c = Constraints::with_capacity(1, 10);
    c.with_s(8);
    let s = shape(2, 4);
    c.with_constraint_3order(s, s, s, s, s, 0).expect("fits");
    assert!(matches!(
        c.get_jerk_linear_constraints(1),
        Err(ConstraintError::LinearJerkNotAvailable { idx_s: 1, valid_range: (0, 0) })
    ));
    let lin = c.linearize_constraint_3order_with_floor(3, 1, true, true).expect("valid");
    assert_eq!(lin.len(), 3);
    assert_eq!(lin[2], StationRows { col: 3, rows: 2 });
    assert_eq!(c.get_jerk_linear_constraints(2).unwrap(), StationRows { col: 2, rows: 2 });
    // rows outside the linearized range leave it in place
    let t = shape(1, 2);
    c.with_constraint_3order(t, t, t, t, t, 5).expect("fits");
    assert!(c.get_jerk_linear_constraints(3).is_ok());
    // rows inside it reset it
    c.with_constraint_3order(t, t, t, t, t, 3).expect("fits");
    assert!(c.get_jerk_linear_constraints(3).is_err());
    assert_eq!(c.get_jerk_constraints(3).unwrap().rows, 3);
    assert_eq!(c.jerk_rows(), 3);
    assert_eq!(c.count_rows_jerk(0, 8), 2 + 2 + 2 + 3 + 1 + 1 + 1);
}

#[test]
fn linearization_errors() {
    let mut c = Constraints::with_capacity(1, 10);
    c.with_s(4);
    assert!(c.linearize_constraint_3order_with_floor(0, 9, false, false).unwrap().is_empty());
    assert!(matches!(
        c.linearize_constraint_3order_with_floor(5, 0, true, true),
        Err(ConstraintError::OutOfSBounds { idx_s: 0, len: 5 })
    ));
    assert!(matches!(
        c.linearize_constraint_3order_with_floor(2, 0, false, true),
        Err(ConstraintError::NonPositiveLinearizationFloor)
    ));
    assert!(matches!(
        c.linearize_constraint_3order_with_floor(2, 0, true, false),
        Err(ConstraintError::NonPositiveA)
    ));
}

#[test]
fn first_order_bounds() {
    let mut c = Constraints::with_capacity(1, 10);
    c.with_s(4);
    c.pop_front(ModePopConstraints::PopNCols(3));
    c.with_s(3);
    c.pop_front(ModePopConstraints::PopNCols(3));
    c.with_s(3);
    c.pop_front(ModePopConstraints::PopNCols(3));
    c.with_s(3);
    // stations 9, 10, 11, 12 in physical columns 9, 0, 1, 2
    assert_eq!(c.idx_s_start(), 9);
    assert_eq!(c.capacity(), 10);
    let cols = c.with_constraint_1order(shape(1, 3), true, 9).expect("fits");
    assert_eq!(
        cols,
        vec![
            ColSegment { start: 9, ncols: 1, offset: 0 },
            ColSegment { start: 0, ncols: 2, offset: 1 },
        ]
    );
    assert!(matches!(
        c.with_constraint_1order(shape(1, 2), false, 9),
        Err(ConstraintError::NonPositiveA)
    ));
    assert!(c.with_constraint_1order(shape(0, 2), false, 9).unwrap().is_empty());
    assert!(matches!(
        c.with_constraint_1order(shape(1, 2), true, 0),
        Err(ConstraintError::OutOfSBounds { idx_s: 0, len: 2 })
    ));
    assert_eq!(c.amax_substitute(4, 9).unwrap().len(), 2);
    assert_eq!(c.station_column(12).unwrap(), 2);
    assert!(c.station_column(13).is_err());
}

#[test]
fn s_vec_interval_errors() {
    let mut c = Constraints::with_capacity(1, 4);
    c.with_s(3);
    assert!(matches!(
        c.s_vec_columns(2, 2),
        Err(ConstraintError::EmptyInterval { start: 2, end: 2 })
    ));
    assert!(matches!(
        c.s_vec_columns(1, 4),
        Err(ConstraintError::OutOfSBounds { idx_s: 1, len: 3 })
    ));
    assert_eq!(
        c.s_vec_columns(1, 3).unwrap(),
        vec![ColSegment { start: 1, ncols: 2, offset: 0 }]
    );
}

#[test]
fn pop_front_and_back() {
    let mut c = Constraints::with_capacity(2, 10);
    c.with_s(28);
    let q = shape(2, 24);
    c.with_q(q, q, q, None, 4).unwrap();
    let a = shape(4, 15);
    c.with_constraint_2order(a, a, a, 5).unwrap();
    match c.pop_front(ModePopConstraints::PopNCols(10)) {
        PopOutcome::Trimmed(cols) => {
            assert_eq!(cols, vec![ColSegment { start: 0, ncols: 10, offset: 0 }])
        }
        _ => panic!("expected a trim"),
    }
    assert_eq!(c.idx_s_start(), 10);
    assert_eq!(c.len(), 18);
    assert_eq!(c.get_acc_constraints(12).unwrap().rows, 4);
    assert!(c.get_acc_constraints(9).is_err());
    assert!(matches!(c.pop_front(ModePopConstraints::CutAtIdxS(5)), PopOutcome::Unchanged));
    match c.pop_back(ModePopConstraints::PopNCols(8)) {
        PopOutcome::Trimmed(cols) => assert_eq!(cols.iter().map(|g| g.ncols).sum::<usize>(), 8),
        _ => panic!("expected a trim"),
    }
    assert_eq!(c.idx_s_end(), 20);
    assert!(c.check_given_q(10, 20));
    assert!(matches!(c.pop_back(ModePopConstraints::CutAtIdxS(30)), PopOutcome::Unchanged));
    assert!(matches!(c.pop_back(ModePopConstraints::CutAtIdxS(0)), PopOutcome::Cleared));
    assert_eq!(c.len(), 0);
    assert_eq!(c.idx_s_start(), 10);
}

#[test]
fn pop_back_undoes_with_s() {
    let mut c = Constraints::with_capacity(1, 5);
    c.with_s(4);
    let a = shape(2, 4);
    c.with_constraint_2order(a, a, a, 0).unwrap();
    c.with_s(7);
    c.pop_back(ModePopConstraints::PopNCols(7));
    assert_eq!(c.idx_s_start(), 0);
    assert_eq!(c.len(), 4);
    assert_eq!(c.count_rows_acc(0, 4), 8);
}

#[test]
fn clear_resets_window() {
    let mut c = Constraints::with_capacity(1, 5);
    c.with_s(4);
    c.pop_front(ModePopConstraints::PopNCols(2));
    c.clear(true);
    assert_eq!(c.idx_s_start(), 2);
    assert!(c.is_empty());
    c.clear(false);
    assert_eq!(c.idx_s_start(), 0);
    assert!(matches!(c.pop_front(ModePopConstraints::PopNCols(3)), PopOutcome::Unchanged));
}

#[test]
fn count_rows_outside_window_is_zero() {
    let mut c = Constraints::with_capacity(1, 8);
    c.with_s(4);
    c.pop_front(ModePopConstraints::PopNCols(1));
    let a = shape(3, 3);
    c.with_constraint_2order(a, a, a, 1).unwrap();
    assert_eq!(c.count_rows_acc(0, 10), 9);
    assert_eq!(c.count_rows_acc(2, 2), 0);
}

#[test]
fn expand_preserves_logical_order() {
    let mut c = wrapped_window();
    assert_eq!(
        c.s_vec_columns(9, 13).unwrap(),
        vec![
            ColSegment { start: 9, ncols: 1, offset: 0 },
            ColSegment { start: 0, ncols: 3, offset: 1 },
        ]
    );
    let plan = c.expand_capacity(11).expect("grows");
    assert_eq!(plan.new_capacity, 21);
    assert_eq!(plan.old_head, 9);
    assert_eq!(plan.len_copy, 1);
    assert_eq!(plan.len_rest, 3);
    assert_eq!(
        c.s_vec_columns(9, 13).unwrap(),
        vec![ColSegment { start: 0, ncols: 4, offset: 0 }]
    );
    assert_eq!(c.idx_s_start(), 9);
    assert_eq!(c.len(), 4);
}

#[test]
fn stationary_stencils() {
    let mut c = Constraints::with_capacity(1, 20);
    c.with_s(10);
    assert!(c.stationary_stencil(false, 6, 2, 0).is_none());
    let st = c.stationary_stencil(false, 6, 2, 3).expect("in window");
    assert_eq!((st.id_start, st.id_a), (0, 3));
    assert_eq!(st.stations, vec![1, 2, 3]);
    let st = c.stationary_stencil(true, 6, 2, 2).expect("in window");
    assert_eq!((st.id_start, st.id_a), (5, 3));
    assert_eq!(st.stations, vec![4, 3]);
    // the stencil [idx_s_start, idx_s_start + 4) leaves the window
    assert!(c.stationary_stencil(false, 6, 7, 3).is_none());
    // at the start the stencil stops at the last station of the profile
    let st = c.stationary_stencil(false, 3, 0, 5).expect("in window");
    assert_eq!(st.stations, vec![1, 2]);
}

#[test]
fn row_totals_add_up() {
    let mut c = Constraints::with_capacity(1, 20);
    c.with_s(10);
    let a = Shape { nrows: 2, ncols: 5 };
    c.with_constraint_2order(a, a, a, 3).unwrap();
    let b = Shape { nrows: 1, ncols: 4 };
    c.with_constraint_2order(b, b, b, 0).unwrap();
    for mid in 0..=10 {
        assert_eq!(c.count_rows_acc(0, 10), c.count_rows_acc(0, mid) + c.count_rows_acc(mid, 10));
    }
    assert_eq!(c.count_rows_acc(0, 10), 4 + 10);
}

/// Axial velocity limits on `ncols` stations from `idx_s`: they need the
/// path derivatives there, and fuse one reduced bound per station.
fn axial_velocity(c: &Constraints, ncols: usize, idx_s: usize) -> Result<Vec<ColSegment>, ConstraintError> {
    if !c.check_given_q(idx_s, idx_s + ncols) {
        return Err(ConstraintError::NoGivenQInfo);
    }
    c.with_constraint_1order(Shape { nrows: 2, ncols }, true, idx_s)
}

/// Axial acceleration limits on `ncols` stations from `idx_s`: an upper and
/// a lower block of second-order rows per joint.
fn axial_acceleration(c: &mut Constraints, ncols: usize, idx_s: usize) -> Result<(), ConstraintError> {
    if !c.check_given_q(idx_s, idx_s + ncols) {
        return Err(ConstraintError::NoGivenQInfo);
    }
    let block = Shape { nrows: 2, ncols };
    c.with_constraint_2order(block, block, block, idx_s)?;
    c.with_constraint_2order(block, block, block, idx_s)?;
    Ok(())
}

fn covers(columns: &[ColSegment], col: usize) -> bool {
    columns.iter().any(|g| g.start <= col && col < g.start + g.ncols)
}

#[test]
fn test_constraints() {
    let n: usize = 100;
    let mut c = Constraints::with_capacity(2, 10);
    // station values s[0..5)
    c.with_s(5);
    assert_eq!(c.idx_s_start(), 0);
    // derivatives on 100 stations do not fit
    let q = shape(2, n);
    assert!(c.with_q(q, q, q, Some(q), 0).is_err());
    let q4 = shape(2, 4);
    c.with_q(q4, q4, q4, Some(q4), 0).unwrap();
    assert_eq!(c.q_segment_count(), 2);
    // station values s[5..28)
    let capacity_before = c.capacity();
    c.with_s(23);
    assert!(c.capacity() > capacity_before);
    // velocity limits need the derivatives of stations 1..22
    assert!(axial_velocity(&c, 21, 1).is_err());
    let q24 = shape(2, 24);
    c.with_q(q24, q24, q24, Some(q24), 4).unwrap();
    let fused = axial_velocity(&c, 21, 1).unwrap();
    assert!(covers(&fused, c.station_column(9).unwrap()));
    axial_acceleration(&mut c, 15, 5).unwrap();
    assert_eq!(c.get_acc_constraints(5).unwrap().rows, 2 + 2);
    // popping the first 10 stations resets the bounds of their columns
    let col_9 = c.station_column(9).unwrap();
    match c.pop_front(ModePopConstraints::PopNCols(10)) {
        PopOutcome::Trimmed(reset) => assert!(covers(&reset, col_9)),
        _ => panic!("expected a trim"),
    }
    assert_eq!(c.idx_s_start(), 10);
    // station values s[28..54) and their derivatives
    c.with_s(26);
    let q26 = shape(2, 26);
    c.with_q(q26, q26, q26, Some(q26), 28).unwrap();
    axial_acceleration(&mut c, 28, 19).unwrap();
    axial_velocity(&c, 21, 15).unwrap();
    match c.pop_back(ModePopConstraints::PopNCols(25)) {
        PopOutcome::Trimmed(reset) => assert_eq!(reset.iter().map(|g| g.ncols).sum::<usize>(), 25),
        _ => panic!("expected a trim"),
    }
    assert_eq!(c.idx_s_end(), 29);
}

#[test]
fn written_columns_are_read_columns() {
    let c = wrapped_window();
    let segments = c.columns_of(9, 4).unwrap();
    assert_eq!(
        segments,
        vec![
            ColSegment { start: 9, ncols: 1, offset: 0 },
            ColSegment { start: 0, ncols: 3, offset: 1 },
        ]
    );
    for j in 0..4usize {
        let col = c.station_column(9 + j).unwrap();
        let seg = segments
            .iter()
            .find(|s| s.offset <= j && j < s.offset + s.ncols)
            .unwrap();
        assert_eq!(seg.start + (j - seg.offset), col);
    }
}

#[test]
fn popping_every_station_from_the_front_moves_the_origin_to_the_end() {
    let mut c = Constraints::with_capacity(1, 10);
    c.with_s(7);
    c.pop_front(ModePopConstraints::PopNCols(3));
    assert_eq!(c.idx_s_start(), 3);
    assert!(matches!(c.pop_front(ModePopConstraints::PopNCols(10)), PopOutcome::Cleared));
    assert_eq!(c.len(), 0);
    assert_eq!(c.idx_s_start(), 7);
    c.with_s(2);
    assert_eq!((c.idx_s_start(), c.idx_s_end()), (7, 9));
    assert!(matches!(c.pop_front(ModePopConstraints::CutAtIdxS(100)), PopOutcome::Cleared));
    assert_eq!((c.idx_s_start(), c.len()), (9, 0));
}
