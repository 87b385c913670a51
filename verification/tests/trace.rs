use p3_matrix::dense::RowMajorMatrix;
use valida_air::builder::{ConstraintBuilder, Scope};
use valida_air::expr::{Expr, Row, Var};
use valida_air::trace::check_trace;

const P: u64 = 2013265921;

fn local(column: usize) -> Expr {
    Expr::var(Var { row: Row::Local, column })
}

fn next(column: usize) -> Expr {
    Expr::var(Var { row: Row::Next, column })
}

fn counting(scope: Scope) -> ConstraintBuilder {
    let mut builder = ConstraintBuilder::new();
    builder.assert_eq_in(scope, next(0), local(0).plus(Expr::one()));
    builder
}

#[test]
fn trace_transitions_skip_the_last_row() {
    let trace = RowMajorMatrix::new(vec![3u64, 0, 4, 0, 5, 0], 2);
    assert_eq!(check_trace(&counting(Scope::transition()), &trace, P), Some(true));
    let trace = RowMajorMatrix::new(vec![3u64, 0, 4, 0, 6, 0], 2);
    assert_eq!(check_trace(&counting(Scope::transition()), &trace, P), Some(false));
}

#[test]
fn trace_last_row_is_followed_by_the_first() {
    let trace = RowMajorMatrix::new(vec![3u64, 0, 4, 0, 5, 0], 2);
    assert_eq!(check_trace(&counting(Scope::every()), &trace, P), Some(false));
    // modulo 3 the rows 0, 1, 2 count on from the last to the first
    let trace = RowMajorMatrix::new(vec![0u64, 0, 1, 0, 2, 0], 2);
    assert_eq!(check_trace(&counting(Scope::every()), &trace, 3), Some(true));
}

#[test]
fn trace_boundaries_bind_first_and_last_row() {
    let mut builder = ConstraintBuilder::new();
    builder.assert_eq_in(Scope::first_row(), local(0), Expr::from_canonical_u32(3));
    builder.assert_eq_in(Scope::last_row(), local(0), Expr::from_canonical_u32(5));
    let trace = RowMajorMatrix::new(vec![3u64, 9, 5], 1);
    assert_eq!(check_trace(&builder, &trace, P), Some(true));
    let trace = RowMajorMatrix::new(vec![4u64, 9, 5], 1);
    assert_eq!(check_trace(&builder, &trace, P), Some(false));
    let trace = RowMajorMatrix::new(vec![3u64, 9, 4], 1);
    assert_eq!(check_trace(&builder, &trace, P), Some(false));
    let trace = RowMajorMatrix::new(vec![3u64], 1);
    assert_eq!(check_trace(&builder, &trace, P), Some(false));
}

#[test]
fn trace_lacking_a_column_is_not_checked() {
    let mut builder = ConstraintBuilder::new();
    builder.assert_zero_in(Scope::last_row(), local(2));
    let trace = RowMajorMatrix::new(vec![0u64; 6], 2);
    assert_eq!(check_trace(&builder, &trace, P), None);
    let trace = RowMajorMatrix::new(vec![0u64; 6], 3);
    assert_eq!(check_trace(&builder, &trace, P), Some(true));
}

#[test]
fn trace_without_rows_is_met_by_any_system() {
    let mut builder = ConstraintBuilder::new();
    builder.assert_zero(local(7));
    let trace = RowMajorMatrix::new(Vec::<u64>::new(), 2);
    assert_eq!(check_trace(&builder, &trace, P), Some(true));
}

#[test]
fn trace_rows_are_read_at_their_own_offset() {
    // column 1 of each row must be twice column 0
    let mut builder = ConstraintBuilder::new();
    builder.assert_eq(local(1), local(0).times(Expr::two()));
    let trace = RowMajorMatrix::new(vec![1u64, 2, 5, 10, 7, 14], 2);
    assert_eq!(check_trace(&builder, &trace, P), Some(true));
    let trace = RowMajorMatrix::new(vec![1u64, 2, 10, 5, 7, 14], 2);
    assert_eq!(check_trace(&builder, &trace, P), Some(false));
}
