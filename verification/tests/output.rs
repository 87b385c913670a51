use p3_matrix::dense::RowMajorMatrix;
use valida_air::builder::{ConstraintBuilder, Position, RowFilter};
use valida_air::opcodes::WRITE;
use valida_air::output::columns::{make_col_map, OutputCols, NUM_OUTPUT_COLS};
use valida_air::output::OutputChip;

const P: u64 = 2013265921;

fn row(opcode: u64, clk: u64, diff: u64, counter: u64, is_real: u64) -> Vec<u64> {
    OutputCols { opcode, clk, diff, counter, is_real }.to_row()
}

fn two_rows(first: Vec<u64>, second: Vec<u64>) -> RowMajorMatrix<u64> {
    let mut values = first;
    values.extend(second);
    RowMajorMatrix::new(values, 5)
}

#[test]
fn output_width_is_the_number_of_columns() {
    assert_eq!(OutputChip {}.width(), 5);
    assert_eq!(NUM_OUTPUT_COLS, 5);
}

#[test]
fn output_col_map_gives_each_column_its_offset() {
    let map = make_col_map();
    assert_eq!((map.opcode, map.clk, map.diff, map.counter, map.is_real), (0, 1, 2, 3, 4));
}

#[test]
fn output_from_row_wants_the_exact_width() {
    let cols = OutputCols::from_row(&[9u64, 8, 7, 6, 5]).unwrap();
    assert_eq!((cols.opcode, cols.clk, cols.diff, cols.counter, cols.is_real), (9, 8, 7, 6, 5));
    assert!(OutputCols::from_row(&[9u64, 8, 7, 6]).is_none());
    assert!(OutputCols::from_row(&[9u64, 8, 7, 6, 5, 4]).is_none());
}

#[test]
fn output_eval_emits_three_constraints() {
    let mut builder = ConstraintBuilder::new();
    OutputChip {}.eval(&mut builder);
    let rows: Vec<RowFilter> = builder.constraints().iter().map(|c| c.rows).collect();
    assert_eq!(rows, vec![RowFilter::Transition, RowFilter::Transition, RowFilter::Every]);
    assert!(builder.constraints()[2].guard.is_some());
}

#[test]
fn output_clock_from_5_to_9_with_diff_4_is_accepted() {
    let trace = two_rows(row(WRITE as u64, 5, 4, 0, 1), row(WRITE as u64, 9, 0, 1, 1));
    assert_eq!(OutputChip {}.check(&trace, P), Some(true));
}

#[test]
fn output_clock_from_5_to_9_with_diff_3_is_rejected() {
    let trace = two_rows(row(WRITE as u64, 5, 3, 0, 1), row(WRITE as u64, 9, 0, 1, 1));
    assert_eq!(OutputChip {}.check(&trace, P), Some(false));
}

#[test]
fn output_diff_of_the_last_row_is_free() {
    let trace = two_rows(row(WRITE as u64, 5, 4, 0, 1), row(WRITE as u64, 9, 12345, 1, 1));
    assert_eq!(OutputChip {}.check(&trace, P), Some(true));
}

#[test]
fn output_counter_must_grow_by_one() {
    let trace = two_rows(row(WRITE as u64, 5, 4, 7, 1), row(WRITE as u64, 9, 0, 8, 1));
    assert_eq!(OutputChip {}.check(&trace, P), Some(true));
    let trace = two_rows(row(WRITE as u64, 5, 4, 7, 1), row(WRITE as u64, 9, 0, 7, 1));
    assert_eq!(OutputChip {}.check(&trace, P), Some(false));
    let trace = two_rows(row(WRITE as u64, 5, 4, 7, 1), row(WRITE as u64, 9, 0, 9, 1));
    assert_eq!(OutputChip {}.check(&trace, P), Some(false));
}

#[test]
fn output_real_row_must_carry_the_write_opcode() {
    let chip = OutputChip {}.constraints();
    let last = Position { first: false, last: true };
    let good = row(WRITE as u64, 5, 0, 0, 1);
    assert_eq!(chip.check_row(&good, &good, last, P), Some(true));
    let bad = row(WRITE as u64 + 1, 5, 0, 0, 1);
    assert_eq!(chip.check_row(&bad, &bad, last, P), Some(false));
    let bad = row(0, 5, 0, 0, 1);
    assert_eq!(chip.check_row(&bad, &bad, last, P), Some(false));
}

#[test]
fn output_padding_row_may_carry_any_opcode() {
    let chip = OutputChip {}.constraints();
    let last = Position { first: false, last: true };
    for opcode in [0, 1, WRITE as u64, WRITE as u64 + 1, P - 1] {
        let padding = row(opcode, 5, 0, 0, 0);
        assert_eq!(chip.check_row(&padding, &padding, last, P), Some(true));
    }
}

#[test]
fn output_real_row_in_a_trace_with_another_opcode_is_rejected() {
    let trace = two_rows(row(7, 5, 4, 0, 1), row(WRITE as u64, 9, 0, 1, 1));
    assert_eq!(OutputChip {}.check(&trace, P), Some(false));
    let trace = two_rows(row(7, 5, 4, 0, 0), row(WRITE as u64, 9, 0, 1, 1));
    assert_eq!(OutputChip {}.check(&trace, P), Some(true));
}

#[test]
fn output_clock_that_wraps_is_taken_in_the_field() {
    // 2 - 5 is P - 3 in the field
    let trace = two_rows(row(WRITE as u64, 5, P - 3, 0, 1), row(WRITE as u64, 2, 0, 1, 1));
    assert_eq!(OutputChip {}.check(&trace, P), Some(true));
}

#[test]
fn output_trace_of_another_width_is_not_checked() {
    let trace = RowMajorMatrix::new(vec![0u64; 12], 4);
    assert_eq!(OutputChip {}.check(&trace, P), None);
}
