use valida_air::builder::{Constraint, ConstraintBuilder, Position, RowFilter, Scope};
use valida_air::expr::{window_row, Expr, Row, Var};

const P: u64 = 2013265921;

fn local(column: usize) -> Expr {
    Expr::var(Var { row: Row::Local, column })
}

fn next(column: usize) -> Expr {
    Expr::var(Var { row: Row::Next, column })
}

fn inner() -> Position {
    Position { first: false, last: false }
}

#[test]
fn expr_constants_evaluate_to_themselves() {
    assert_eq!(Expr::zero().evaluate(&[], &[], P), Some(0));
    assert_eq!(Expr::one().evaluate(&[], &[], P), Some(1));
    assert_eq!(Expr::two().evaluate(&[], &[], P), Some(2));
    assert_eq!(Expr::from_canonical_u32(1024).evaluate(&[], &[], P), Some(1024));
    assert_eq!(Expr::from_canonical_u32(9).evaluate(&[], &[], 7), Some(2));
}

#[test]
fn expr_cells_evaluate_to_the_row_they_name() {
    assert_eq!(local(1).evaluate(&[10, 20], &[30, 40], P), Some(20));
    assert_eq!(next(0).evaluate(&[10, 20], &[30, 40], P), Some(30));
}

#[test]
fn expr_polynomial_evaluates_in_the_field() {
    // (x0 + x1) * (y0 - 5) with x = (3, 4), y = (2, 0)
    let e = local(0).plus(local(1)).times(next(0).minus(Expr::from_canonical_u32(5)));
    assert_eq!(e.evaluate(&[3, 4], &[2, 0], P), Some(P - 21));
    assert_eq!(e.evaluate(&[3, 4], &[2, 0], 7), Some(0));
}

#[test]
fn expr_missing_column_is_no_value() {
    assert_eq!(local(2).evaluate(&[1, 2], &[3, 4], P), None);
    assert_eq!(local(0).plus(next(5)).evaluate(&[1, 2], &[3, 4], P), None);
}

#[test]
fn expr_rows_of_different_width_are_no_window() {
    assert_eq!(Expr::one().evaluate(&[1, 2], &[3], P), None);
}

#[test]
fn expr_constructors_build_the_tree() {
    let e = local(0).plus(Expr::one());
    assert_eq!(
        e,
        Expr::Add(
            Box::new(Expr::Var(Var { row: Row::Local, column: 0 })),
            Box::new(Expr::Const(1))
        )
    );
    assert_eq!(e.clone(), e);
}

#[test]
fn expr_window_row_names_each_column() {
    let cells = window_row(Row::Next, 3);
    assert_eq!(
        cells,
        vec![
            Var { row: Row::Next, column: 0 },
            Var { row: Row::Next, column: 1 },
            Var { row: Row::Next, column: 2 }
        ]
    );
    assert_eq!(window_row(Row::Local, 0), Vec::<Var>::new());
}

#[test]
fn expr_builder_keeps_constraints_in_order() {
    let mut builder = ConstraintBuilder::new();
    assert_eq!(builder.constraints().len(), 0);
    builder.assert_zero(local(0));
    builder.assert_eq_in(Scope::transition(), next(0), local(0));
    builder.assert_one_in(Scope::first_row().when(local(1)), local(0));
    let cs = builder.constraints();
    assert_eq!(cs.len(), 3);
    assert_eq!(cs[0], Constraint { rows: RowFilter::Every, guard: None, body: local(0) });
    assert_eq!(
        cs[1],
        Constraint { rows: RowFilter::Transition, guard: None, body: next(0).minus(local(0)) }
    );
    assert_eq!(
        cs[2],
        Constraint {
            rows: RowFilter::First,
            guard: Some(local(1)),
            body: local(0).minus(Expr::one())
        }
    );
}

#[test]
fn expr_nested_conditions_multiply() {
    let scope = Scope::every().when(local(0)).when(local(1));
    assert_eq!(scope.guard, Some(local(0).times(local(1))));
    assert_eq!(scope.rows, RowFilter::Every);
}

#[test]
fn expr_row_filters_bind_the_rows_they_name() {
    let first = Position { first: true, last: false };
    let last = Position { first: false, last: true };
    let only = Position { first: true, last: true };
    assert!(RowFilter::Every.binds(first) && RowFilter::Every.binds(last));
    assert!(RowFilter::First.binds(first) && !RowFilter::First.binds(last));
    assert!(RowFilter::Last.binds(last) && !RowFilter::Last.binds(first));
    assert!(RowFilter::Transition.binds(first) && !RowFilter::Transition.binds(last));
    assert!(RowFilter::First.binds(only) && RowFilter::Last.binds(only));
    assert!(!RowFilter::Transition.binds(only));
    assert!(RowFilter::Transition.binds(inner()));
}

#[test]
fn expr_empty_system_is_met() {
    let builder = ConstraintBuilder::new();
    assert_eq!(builder.check_row(&[1], &[2], inner(), P), Some(true));
}

#[test]
fn expr_zero_assertion_is_checked_in_the_field() {
    let mut builder = ConstraintBuilder::new();
    builder.assert_zero(local(0));
    assert_eq!(builder.check_row(&[0], &[0], inner(), P), Some(true));
    assert_eq!(builder.check_row(&[P], &[0], inner(), P), Some(true));
    assert_eq!(builder.check_row(&[1], &[0], inner(), P), Some(false));
}

#[test]
fn expr_equality_is_checked_in_the_field() {
    let mut builder = ConstraintBuilder::new();
    builder.assert_eq(local(0), next(0));
    assert_eq!(builder.check_row(&[5], &[5], inner(), P), Some(true));
    assert_eq!(builder.check_row(&[5], &[5 + P], inner(), P), Some(true));
    assert_eq!(builder.check_row(&[5], &[6], inner(), P), Some(false));
}

#[test]
fn expr_boolean_assertion_admits_zero_and_one_only() {
    let mut builder = ConstraintBuilder::new();
    builder.assert_bool_in(Scope::every(), local(0));
    assert_eq!(builder.check_row(&[0], &[0], inner(), P), Some(true));
    assert_eq!(builder.check_row(&[1], &[0], inner(), P), Some(true));
    assert_eq!(builder.check_row(&[2], &[0], inner(), P), Some(false));
    assert_eq!(builder.check_row(&[P - 1], &[0], inner(), P), Some(false));
}

#[test]
fn expr_condition_switches_a_constraint_off() {
    let mut builder = ConstraintBuilder::new();
    builder.assert_eq_in(Scope::every().when(local(0)), local(1), Expr::from_canonical_u32(9));
    assert_eq!(builder.check_row(&[0, 4], &[0, 0], inner(), P), Some(true));
    assert_eq!(builder.check_row(&[1, 4], &[0, 0], inner(), P), Some(false));
    assert_eq!(builder.check_row(&[1, 9], &[0, 0], inner(), P), Some(true));
}

#[test]
fn expr_boundary_constraints_bind_their_row_only() {
    let mut builder = ConstraintBuilder::new();
    builder.assert_one_in(Scope::first_row(), local(0));
    builder.assert_zero_in(Scope::last_row(), local(0));
    let first = Position { first: true, last: false };
    let last = Position { first: false, last: true };
    assert_eq!(builder.check_row(&[1], &[0], first, P), Some(true));
    assert_eq!(builder.check_row(&[0], &[0], first, P), Some(false));
    assert_eq!(builder.check_row(&[0], &[0], last, P), Some(true));
    assert_eq!(builder.check_row(&[1], &[0], last, P), Some(false));
    assert_eq!(builder.check_row(&[7], &[0], inner(), P), Some(true));
}

#[test]
fn expr_check_needs_every_column_named() {
    let mut builder = ConstraintBuilder::new();
    builder.assert_zero_in(Scope::last_row(), local(3));
    assert_eq!(builder.check_row(&[0, 0, 0], &[0, 0, 0], inner(), P), None);
    assert_eq!(builder.check_row(&[0, 0, 0, 0], &[0, 0, 0], inner(), P), None);
    assert_eq!(builder.check_row(&[0, 0, 0, 5], &[0, 0, 0, 0], inner(), P), Some(true));
}
