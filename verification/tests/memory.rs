use p3_matrix::dense::RowMajorMatrix;
use valida_air::builder::{ConstraintBuilder, Position, RowFilter};
use valida_air::expr::{Expr, Row, Var};
use valida_air::field::{inverse, sub_mod};
use valida_air::is_zero::{assert_indicates_nonzero, assert_inverse_or_zero, is_zero};
use valida_air::memory::columns::{make_col_map, MemoryCols, NUM_MEM_COLS};
use valida_air::memory::MemoryChip;
use valida_air::word::Word;

const P: u64 = 2013265921;

#[derive(Clone, Copy)]
enum Kind {
    Initial,
    Read,
    Write,
}

/// The rows of a log of operations `(addr, clk, kind, value)`, given in the
/// order of the log.
fn log(ops: &[(u64, u64, Kind, [u64; 4])]) -> Vec<MemoryCols<u64>> {
    let mut rows = Vec::new();
    let mut i = 0;
    while i < ops.len() {
        let (addr, clk, kind, value) = ops[i];
        let (diff, addr_not_equal) = if i + 1 < ops.len() {
            let (next_addr, next_clk, _, _) = ops[i + 1];
            if next_addr != addr {
                (sub_mod(next_addr, addr, P), 1)
            } else {
                (sub_mod(next_clk, clk, P), 0)
            }
        } else {
            (0, 0)
        };
        rows.push(MemoryCols {
            addr,
            value: Word(value),
            clk,
            is_static_initial: matches!(kind, Kind::Initial) as u64,
            is_read: matches!(kind, Kind::Read) as u64,
            is_write: matches!(kind, Kind::Write) as u64,
            diff,
            diff_inv: inverse(diff, P).unwrap_or(0),
            addr_not_equal,
            counter: i as u64,
            counter_mult: 0,
        });
        i += 1;
    }
    rows
}

fn check(rows: &[MemoryCols<u64>]) -> Option<bool> {
    let mut values = Vec::new();
    for row in rows {
        values.extend(row.to_row());
    }
    MemoryChip {}.check(&RowMajorMatrix::new(values, 14), P)
}

const V: [u64; 4] = [0xde, 0xad, 0xbe, 0xef];
const W: [u64; 4] = [1, 2, 3, 4];

fn round_trip() -> Vec<MemoryCols<u64>> {
    log(&[
        (50, 4, Kind::Write, [9, 9, 9, 9]),
        (100, 3, Kind::Write, V),
        (100, 7, Kind::Read, V),
        (100, 10, Kind::Read, V),
        (200, 0, Kind::Initial, W),
        (200, 8, Kind::Read, W),
        (200, 9, Kind::Write, V),
        (200, 12, Kind::Read, V),
    ])
}

#[test]
fn memory_width_is_the_number_of_columns() {
    assert_eq!(MemoryChip {}.width(), 14);
    assert_eq!(NUM_MEM_COLS, 14);
}

#[test]
fn memory_col_map_gives_each_column_its_offset() {
    let map = make_col_map();
    assert_eq!(map.addr, 0);
    assert_eq!(map.value.0, [1, 2, 3, 4]);
    assert_eq!(map.clk, 5);
    assert_eq!((map.is_static_initial, map.is_read, map.is_write), (6, 7, 8));
    assert_eq!((map.diff, map.diff_inv, map.addr_not_equal), (9, 10, 11));
    assert_eq!((map.counter, map.counter_mult), (12, 13));
    assert_eq!(map.to_row(), (0..14).collect::<Vec<usize>>());
}

#[test]
fn memory_from_row_wants_the_exact_width() {
    let row: Vec<u64> = (20..34).collect();
    let cols = MemoryCols::from_row(&row).unwrap();
    assert_eq!(cols.addr, 20);
    assert_eq!(cols.value.0, [21, 22, 23, 24]);
    assert_eq!(cols.counter_mult, 33);
    assert_eq!(cols.to_row(), row);
    assert!(MemoryCols::from_row(&row[..13]).is_none());
}

#[test]
fn memory_eval_emits_its_constraints() {
    let mut builder = ConstraintBuilder::new();
    MemoryChip {}.eval(&mut builder);
    // 5 on flags, 5 on the order, 3 + 4 on values, 2 on the counter
    assert_eq!(builder.constraints().len(), 19);
}

#[test]
fn memory_read_after_write_returns_the_value() {
    assert_eq!(check(&round_trip()), Some(true));
}

#[test]
fn memory_read_of_another_value_is_rejected() {
    let mut rows = round_trip();
    // the read of address 100 at clock 10
    rows[3].value = Word([0xde, 0xad, 0xbe, 0xee]);
    assert_eq!(check(&rows), Some(false));
    let mut rows = round_trip();
    // the read of address 100 at clock 7: the later read no longer agrees either
    rows[2].value = Word(W);
    assert_eq!(check(&rows), Some(false));
}

#[test]
fn memory_read_of_the_initial_value() {
    let mut rows = round_trip();
    assert_eq!(rows[5].value, Word(W));
    rows[5].value = Word(V);
    assert_eq!(check(&rows), Some(false));
}

#[test]
fn memory_write_may_change_the_value() {
    let rows = log(&[(7, 1, Kind::Write, V), (7, 2, Kind::Write, W), (7, 3, Kind::Read, W)]);
    assert_eq!(check(&rows), Some(true));
    let rows = log(&[(7, 1, Kind::Write, V), (7, 2, Kind::Write, W), (7, 3, Kind::Read, V)]);
    assert_eq!(check(&rows), Some(false));
}

/// The rows of a log in which row `at` has lost its kind.
fn without_kind(ops: &[(u64, u64, Kind, [u64; 4])], at: usize) -> Vec<MemoryCols<u64>> {
    let mut rows = log(ops);
    rows[at].is_static_initial = 0;
    rows[at].is_read = 0;
    rows[at].is_write = 0;
    rows
}

#[test]
fn memory_row_of_no_kind_cannot_change_the_value() {
    let one = [1, 1, 1, 1];
    let two = [2, 2, 2, 2];
    // a write of one, a row of no kind that holds two, a read of two
    let ops = [(0, 1, Kind::Write, one), (0, 2, Kind::Read, two), (0, 3, Kind::Read, two)];
    assert_eq!(check(&without_kind(&ops, 1)), Some(false));
    // the same row holding one, and the read returning one
    let ops = [(0, 1, Kind::Write, one), (0, 2, Kind::Read, one), (0, 3, Kind::Read, one)];
    assert_eq!(check(&without_kind(&ops, 1)), Some(true));
    // the row of no kind keeps the value, the read does not
    let ops = [(0, 1, Kind::Write, one), (0, 2, Kind::Read, one), (0, 3, Kind::Read, two)];
    assert_eq!(check(&without_kind(&ops, 1)), Some(false));
}

#[test]
fn memory_initial_value_stands_only_at_the_start_of_an_address() {
    let one = [1, 1, 1, 1];
    let two = [2, 2, 2, 2];
    let rows = log(&[(0, 1, Kind::Write, one), (0, 2, Kind::Initial, two), (0, 3, Kind::Read, two)]);
    assert_eq!(check(&rows), Some(false));
    let rows = log(&[(0, 1, Kind::Write, one), (0, 2, Kind::Initial, one), (0, 3, Kind::Read, one)]);
    assert_eq!(check(&rows), Some(false));
    let rows = log(&[(0, 0, Kind::Initial, one), (0, 3, Kind::Read, one), (1, 0, Kind::Initial, two)]);
    assert_eq!(check(&rows), Some(true));
}

#[test]
fn memory_address_starts_with_a_write_or_an_initial_value() {
    let one = [1, 1, 1, 1];
    let ops = [(0, 1, Kind::Write, one), (1, 2, Kind::Write, one), (1, 3, Kind::Read, one)];
    assert_eq!(check(&log(&ops)), Some(true));
    // the first row of address 1 has no kind
    assert_eq!(check(&without_kind(&ops, 1)), Some(false));
    // the first row of the log has no kind
    assert_eq!(check(&without_kind(&ops, 0)), Some(false));
}

#[test]
fn memory_address_must_not_start_with_a_read() {
    let rows = log(&[(7, 1, Kind::Write, V), (8, 2, Kind::Read, V)]);
    assert_eq!(check(&rows), Some(false));
    let rows = log(&[(7, 1, Kind::Read, V), (7, 2, Kind::Read, V)]);
    assert_eq!(check(&rows), Some(false));
}

#[test]
fn memory_row_is_of_one_kind_at_most() {
    let mut rows = round_trip();
    rows[1].is_read = 1;
    assert_eq!(check(&rows), Some(false));
    let mut rows = round_trip();
    rows[1].is_write = 2;
    assert_eq!(check(&rows), Some(false));
}

#[test]
fn memory_diff_zero_wants_zero_inverse_and_zero_flag() {
    // two operations on one address in the same cycle: diff is 0
    let rows = log(&[(7, 1, Kind::Write, V), (7, 1, Kind::Read, V)]);
    assert_eq!((rows[0].diff, rows[0].diff_inv, rows[0].addr_not_equal), (0, 0, 0));
    assert_eq!(check(&rows), Some(true));
    let mut bad = rows.clone();
    bad[0].diff_inv = 1;
    assert_eq!(check(&bad), Some(false));
    let mut bad = rows.clone();
    bad[0].addr_not_equal = 1;
    assert_eq!(check(&bad), Some(false));
}

#[test]
fn memory_diff_non_zero_wants_its_inverse() {
    let rows = log(&[(7, 1, Kind::Write, V), (9, 1, Kind::Write, W)]);
    assert_eq!((rows[0].diff, rows[0].addr_not_equal), (2, 1));
    assert_eq!(rows[0].diff_inv, inverse(2, P).unwrap());
    assert_eq!((rows[0].diff * rows[0].diff_inv) % P, 1);
    assert_eq!(check(&rows), Some(true));
    let mut bad = rows.clone();
    bad[0].diff_inv = rows[0].diff_inv + 1;
    assert_eq!(check(&bad), Some(false));
    let mut bad = rows.clone();
    bad[0].diff_inv = 0;
    assert_eq!(check(&bad), Some(false));
    let mut bad = rows.clone();
    bad[0].addr_not_equal = 0;
    assert_eq!(check(&bad), Some(false));
}

#[test]
fn memory_flag_is_zero_where_only_the_clock_moves() {
    let rows = log(&[(7, 5, Kind::Write, V), (7, 9, Kind::Read, V)]);
    assert_eq!((rows[0].diff, rows[0].addr_not_equal), (4, 0));
    assert_eq!(check(&rows), Some(true));
    let mut bad = rows.clone();
    bad[0].addr_not_equal = 1;
    assert_eq!(check(&bad), Some(false));
    let mut bad = rows.clone();
    bad[0].diff = 3;
    bad[0].diff_inv = inverse(3, P).unwrap();
    assert_eq!(check(&bad), Some(false));
}

#[test]
fn memory_counter_counts_the_rows_from_zero() {
    let mut rows = round_trip();
    rows[0].counter = 1;
    assert_eq!(check(&rows), Some(false));
    let mut rows = round_trip();
    rows[4].counter = 5;
    assert_eq!(check(&rows), Some(false));
}

#[test]
fn memory_multiplicities_are_not_bound_row_by_row() {
    let mut rows = round_trip();
    rows[2].counter_mult = 17;
    assert_eq!(check(&rows), Some(true));
}

#[test]
fn memory_trace_of_another_width_is_not_checked() {
    let trace = RowMajorMatrix::new(vec![0u64; 30], 15);
    assert_eq!(MemoryChip {}.check(&trace, P), None);
}

fn gadget() -> ConstraintBuilder {
    let x = Expr::var(Var { row: Row::Local, column: 0 });
    let inv = Expr::var(Var { row: Row::Local, column: 1 });
    let flag = Expr::var(Var { row: Row::Local, column: 2 });
    let mut builder = ConstraintBuilder::new();
    assert_inverse_or_zero(&mut builder, RowFilter::Every, x.clone(), inv.clone());
    assert_indicates_nonzero(&mut builder, RowFilter::Every, x, inv, flag);
    builder
}

fn holds(builder: &ConstraintBuilder, row: [u64; 3]) -> Option<bool> {
    builder.check_row(&row, &row, Position { first: false, last: false }, P)
}

#[test]
fn memory_gadget_emits_four_constraints() {
    assert_eq!(gadget().constraints().len(), 4);
}

#[test]
fn memory_gadget_accepts_what_is_zero_hands_back() {
    let builder = gadget();
    for x in [0, 1, 2, 4, 1000, P - 1] {
        let (flag, inv) = is_zero(x, P).unwrap();
        assert_eq!(holds(&builder, [x, inv, flag]), Some(true));
    }
}

#[test]
fn memory_gadget_for_zero() {
    let builder = gadget();
    assert_eq!(holds(&builder, [0, 0, 0]), Some(true));
    assert_eq!(holds(&builder, [0, 5, 0]), Some(false));
    assert_eq!(holds(&builder, [0, 0, 1]), Some(false));
}

#[test]
fn memory_gadget_for_non_zero() {
    let builder = gadget();
    let inv = inverse(4, P).unwrap();
    assert_eq!(holds(&builder, [4, inv, 1]), Some(true));
    assert_eq!(holds(&builder, [4, inv, 0]), Some(false));
    assert_eq!(holds(&builder, [4, inv + 1, 1]), Some(false));
    assert_eq!(holds(&builder, [4, 0, 0]), Some(false));
    assert_eq!(holds(&builder, [4, 4, 16]), Some(false));
}

/// The rows of a log with the multiplicities of its diffs filled in.
fn with_multiplicities(mut rows: Vec<MemoryCols<u64>>) -> Vec<MemoryCols<u64>> {
    let n = rows.len();
    let mut k = 0;
    while k < n {
        rows[k].counter_mult =
            rows[..n - 1].iter().filter(|row| row.diff == k as u64 + 1).count() as u64;
        k += 1;
    }
    rows
}

fn check_diffs(rows: &[MemoryCols<u64>]) -> Option<bool> {
    let mut values = Vec::new();
    for row in rows {
        values.extend(row.to_row());
    }
    MemoryChip {}.check_diffs(&RowMajorMatrix::new(values, 14), P)
}

fn small_log() -> Vec<MemoryCols<u64>> {
    with_multiplicities(log(&[
        (1, 0, Kind::Write, W),
        (1, 2, Kind::Read, W),
        (2, 1, Kind::Write, V),
        (2, 4, Kind::Read, V),
    ]))
}

#[test]
fn memory_small_diffs_reconcile() {
    let rows = small_log();
    let diffs: Vec<u64> = rows.iter().map(|row| row.diff).collect();
    assert_eq!(diffs, vec![2, 1, 3, 0]);
    // the rows with a successor look up 1, 0 and 2
    let mult: Vec<u64> = rows.iter().map(|row| row.counter_mult).collect();
    assert_eq!(mult, vec![1, 1, 1, 0]);
    assert_eq!(check(&rows), Some(true));
    assert_eq!(check_diffs(&rows), Some(true));
}

#[test]
fn memory_diff_of_the_last_row_is_not_looked_up() {
    let mut rows = small_log();
    rows[3].diff = 1000;
    assert_eq!(check_diffs(&rows), Some(true));
}

#[test]
fn memory_wrong_multiplicity_does_not_reconcile() {
    let mut rows = small_log();
    rows[1].counter_mult = 2;
    assert_eq!(check_diffs(&rows), Some(false));
    let mut rows = small_log();
    rows[3].counter_mult = 1;
    assert_eq!(check_diffs(&rows), Some(false));
}

#[test]
fn memory_log_out_of_order_has_a_diff_out_of_range() {
    // address 2 before address 1: the constraints hold, with a diff of P - 1
    let rows = with_multiplicities(log(&[
        (2, 1, Kind::Write, V),
        (1, 0, Kind::Write, W),
        (1, 2, Kind::Read, W),
    ]));
    assert_eq!(rows[0].diff, P - 1);
    assert_eq!(check(&rows), Some(true));
    assert_eq!(check_diffs(&rows), Some(false));
    // clock 5 before clock 3 at one address
    let rows = with_multiplicities(log(&[
        (1, 5, Kind::Write, W),
        (1, 3, Kind::Read, W),
        (1, 4, Kind::Read, W),
    ]));
    assert_eq!(rows[0].diff, P - 2);
    assert_eq!(check(&rows), Some(true));
    assert_eq!(check_diffs(&rows), Some(false));
}

#[test]
fn memory_diff_above_the_height_is_out_of_range() {
    let rows = with_multiplicities(log(&[(1, 0, Kind::Write, W), (1, 3, Kind::Read, W)]));
    assert_eq!(rows[0].diff, 3);
    assert_eq!(check_diffs(&rows), Some(false));
    let rows = with_multiplicities(log(&[(1, 0, Kind::Write, W), (1, 2, Kind::Read, W)]));
    assert_eq!(rows[0].diff, 2);
    assert_eq!(check_diffs(&rows), Some(true));
    let rows = with_multiplicities(log(&[(1, 0, Kind::Write, W), (1, 1, Kind::Read, W)]));
    assert_eq!(check_diffs(&rows), Some(true));
}

#[test]
fn memory_clock_that_stands_still_is_out_of_range() {
    // two operations on one address in the same cycle: diff is 0
    let rows = with_multiplicities(log(&[(1, 5, Kind::Write, W), (1, 5, Kind::Read, W)]));
    assert_eq!(rows[0].diff, 0);
    assert_eq!(check(&rows), Some(true));
    assert_eq!(check_diffs(&rows), Some(false));
}

#[test]
fn memory_diffs_of_another_width_are_not_checked() {
    assert_eq!(MemoryChip {}.check_diffs(&RowMajorMatrix::new(vec![0u64; 26], 13), P), None);
    assert_eq!(
        MemoryChip {}.check_diffs(&RowMajorMatrix::new(Vec::<u64>::new(), 14), P),
        Some(true)
    );
}
