use p3_matrix::dense::RowMajorMatrix;
use valida_air::alu_u32::mul::columns::{make_col_map, Mul32Cols, NUM_MUL_COLS};
use valida_air::alu_u32::mul::stark::{mul_builder, pi_m, sigma_m};
use valida_air::alu_u32::mul::Mul32Chip;
use valida_air::builder::{ConstraintBuilder, Position, RowFilter};
use valida_air::expr::{window_row, Expr, Row, Var};
use valida_air::word::{word_of, Word};

const P: u64 = 2013265921;
const GOLDILOCKS: u64 = 18446744069414584321;

fn base() -> Vec<Expr> {
    vec![
        Expr::from_canonical_u32(1),
        Expr::from_canonical_u32(1 << 8),
        Expr::from_canonical_u32(1 << 16),
        Expr::from_canonical_u32(1 << 24),
    ]
}

fn word_vars(start: usize) -> Word<Var> {
    Word([
        Var { row: Row::Local, column: start },
        Var { row: Row::Local, column: start + 1 },
        Var { row: Row::Local, column: start + 2 },
        Var { row: Row::Local, column: start + 3 },
    ])
}

fn counting_trace(first: u64, p: u64) -> Vec<u64> {
    let mut values = Vec::new();
    let mut i: u64 = 0;
    while i < 1024 {
        let a = (i as u32).wrapping_mul(2654435761);
        let b = (i as u32).wrapping_mul(40503).wrapping_add(977);
        values.extend(Mul32Cols::product_row(a, b, first + i, p).to_row());
        i += 1;
    }
    values
}

fn inner() -> Position {
    Position { first: false, last: false }
}

#[test]
fn mul_width_is_the_number_of_columns() {
    assert_eq!(Mul32Chip {}.width(), 18);
    assert_eq!(NUM_MUL_COLS, 18);
}

#[test]
fn mul_col_map_gives_each_column_its_offset() {
    let map = make_col_map();
    assert_eq!(map.input_1.0, [0, 1, 2, 3]);
    assert_eq!(map.input_2.0, [4, 5, 6, 7]);
    assert_eq!(map.output.0, [8, 9, 10, 11]);
    assert_eq!(map.r, 12);
    assert_eq!(map.s, 13);
    assert_eq!(map.is_mul, 14);
    assert_eq!(map.is_mulhs, 15);
    assert_eq!(map.is_mulhu, 16);
    assert_eq!(map.counter, 17);
    assert_eq!(map.to_row(), (0..18).collect::<Vec<usize>>());
}

#[test]
fn mul_from_row_wants_the_exact_width() {
    let row: Vec<u64> = (100..118).collect();
    let cols = Mul32Cols::from_row(&row).unwrap();
    assert_eq!(cols.input_1.0, [100, 101, 102, 103]);
    assert_eq!(cols.counter, 117);
    assert_eq!(cols.to_row(), row);
    assert!(Mul32Cols::from_row(&row[..17]).is_none());
    let long: Vec<u64> = (0..19).collect();
    assert!(Mul32Cols::from_row(&long).is_none());
    assert!(Mul32Cols::<u64>::from_row(&[]).is_none());
}

#[test]
fn mul_pi_is_the_truncated_schoolbook_product() {
    // a = 0x01020304, b = 0x05060708, limbs most significant first
    let row: Vec<u64> = vec![1, 2, 3, 4, 5, 6, 7, 8];
    let pi = pi_m::<4>(&base(), word_vars(0), word_vars(4));
    assert_eq!(pi.evaluate(&row, &row, GOLDILOCKS), Some(1010644000));
    let pi_prime = pi_m::<2>(&base(), word_vars(0), word_vars(4));
    assert_eq!(pi_prime.evaluate(&row, &row, GOLDILOCKS), Some(13344));
}

#[test]
fn mul_pi_drops_the_terms_beyond_the_cut() {
    let row: Vec<u64> = vec![255, 255, 255, 255, 255, 255, 255, 255];
    let pi = pi_m::<4>(&base(), word_vars(0), word_vars(4));
    assert_eq!(pi.evaluate(&row, &row, GOLDILOCKS), Some(4376571674625));
    let pi_prime = pi_m::<2>(&base(), word_vars(0), word_vars(4));
    assert_eq!(pi_prime.evaluate(&row, &row, GOLDILOCKS), Some(33357825));
    let pi_one = pi_m::<1>(&base(), word_vars(0), word_vars(4));
    assert_eq!(pi_one.evaluate(&row, &row, GOLDILOCKS), Some(65025));
    let pi_none = pi_m::<0>(&base(), word_vars(0), word_vars(4));
    assert_eq!(pi_none.evaluate(&row, &row, GOLDILOCKS), Some(0));
}

#[test]
fn mul_sigma_is_the_value_of_the_low_limbs() {
    let row: Vec<u64> = vec![1, 2, 3, 4];
    let sigma = sigma_m::<4>(&base(), word_vars(0));
    assert_eq!(sigma.evaluate(&row, &row, GOLDILOCKS), Some(0x01020304));
    let sigma_prime = sigma_m::<2>(&base(), word_vars(0));
    assert_eq!(sigma_prime.evaluate(&row, &row, GOLDILOCKS), Some(0x0304));
    let sigma_none = sigma_m::<0>(&base(), word_vars(0));
    assert_eq!(sigma_none.evaluate(&row, &row, GOLDILOCKS), Some(0));
}

#[test]
fn mul_sigma_takes_four_limbs_at_most() {
    let row: Vec<u64> = vec![1, 2, 3, 4];
    let sigma = sigma_m::<7>(&base(), word_vars(0));
    assert_eq!(sigma.evaluate(&row, &row, GOLDILOCKS), Some(0x01020304));
}

#[test]
fn mul_builder_emits_nine_constraints() {
    let local = Mul32Cols::from_row(&window_row(Row::Local, 18)).unwrap();
    let next = Mul32Cols::from_row(&window_row(Row::Next, 18)).unwrap();
    let mut builder = ConstraintBuilder::new();
    mul_builder(&local, &next, &mut builder);
    let rows: Vec<RowFilter> = builder.constraints().iter().map(|c| c.rows).collect();
    assert_eq!(
        rows,
        vec![
            RowFilter::Every,
            RowFilter::Every,
            RowFilter::Every,
            RowFilter::Every,
            RowFilter::Every,
            RowFilter::Every,
            RowFilter::First,
            RowFilter::Transition,
            RowFilter::Last
        ]
    );
    assert!(builder.constraints().iter().all(|c| c.guard.is_none()));
}

#[test]
fn mul_eval_adds_to_what_the_builder_holds() {
    let mut builder = ConstraintBuilder::new();
    builder.assert_zero(Expr::zero());
    Mul32Chip {}.eval(&mut builder);
    assert_eq!(builder.constraints().len(), 10);
    assert_eq!(Mul32Chip {}.constraints().constraints().len(), 9);
}

#[test]
fn mul_product_row_holds_the_limbs_and_quotients() {
    let row = Mul32Cols::product_row(0xffff_ffff, 0xffff_ffff, 9, P);
    assert_eq!(row.input_1.0, [255, 255, 255, 255]);
    assert_eq!(row.input_2.0, [255, 255, 255, 255]);
    assert_eq!(row.output.0, [0, 0, 0, 1]);
    assert_eq!(row.r, 1879047106);
    assert_eq!(row.s, 509);
    assert_eq!((row.is_mul, row.is_mulhs, row.is_mulhu), (1, 0, 0));
    assert_eq!(row.counter, 9);
}

#[test]
fn mul_product_row_without_carry() {
    let row = Mul32Cols::product_row(0x0102_0304, 0x0506_0708, 1, P);
    assert_eq!(row.input_1.0, [1, 2, 3, 4]);
    assert_eq!(row.input_2.0, [5, 6, 7, 8]);
    assert_eq!(row.output, word_of(1010644000));
    assert_eq!(row.r, 0);
    assert_eq!(row.s, 0);
}

#[test]
fn mul_product_row_meets_both_congruences() {
    let chip = Mul32Chip {}.constraints();
    let samples: [(u32, u32); 7] = [
        (0, 0),
        (1, 1),
        (0xffff_ffff, 0xffff_ffff),
        (0x8000_0000, 2),
        (0x0102_0304, 0x0506_0708),
        (123456789, 987654321),
        (0xdead_beef, 0x0bad_f00d),
    ];
    for p in [P, GOLDILOCKS, 7] {
        for (a, b) in samples {
            let row = Mul32Cols::product_row(a, b, 5, p).to_row();
            assert_eq!(row[8..12], word_of(a.wrapping_mul(b)).0);
            assert_eq!(chip.check_row(&row, &row, inner(), p), Some(true));
        }
    }
}

#[test]
fn mul_flipping_any_output_bit_breaks_a_congruence() {
    let chip = Mul32Chip {}.constraints();
    let (a, b) = (0xdead_beefu32, 0x0bad_f00du32);
    let good = Mul32Cols::product_row(a, b, 5, P);
    let mut bit = 0;
    while bit < 32 {
        let mut bad = good;
        bad.output = word_of(a.wrapping_mul(b) ^ (1u32 << bit));
        let row = bad.to_row();
        assert_eq!(chip.check_row(&row, &row, inner(), P), Some(false));
        bit += 1;
    }
}

#[test]
fn mul_wrong_quotient_breaks_a_congruence() {
    let chip = Mul32Chip {}.constraints();
    let good = Mul32Cols::product_row(0xffff_ffff, 0xffff_ffff, 5, P);
    let mut bad = good;
    bad.r = good.r + 1;
    let row = bad.to_row();
    assert_eq!(chip.check_row(&row, &row, inner(), P), Some(false));
    let mut bad = good;
    bad.s = good.s + 1;
    let row = bad.to_row();
    assert_eq!(chip.check_row(&row, &row, inner(), P), Some(false));
}

fn with_flags(is_mul: u64, is_mulhs: u64, is_mulhu: u64) -> Option<bool> {
    let mut row = Mul32Cols::product_row(512, 128, 1, P);
    row.is_mul = is_mul;
    row.is_mulhs = is_mulhs;
    row.is_mulhu = is_mulhu;
    let flat = row.to_row();
    Mul32Chip {}.constraints().check_row(&flat, &flat, Position { first: true, last: false }, P)
}

#[test]
fn mul_one_selector_at_most_is_set() {
    assert_eq!(with_flags(1, 0, 0), Some(true));
    assert_eq!(with_flags(0, 1, 0), Some(true));
    assert_eq!(with_flags(0, 0, 1), Some(true));
    assert_eq!(with_flags(0, 0, 0), Some(true));
    assert_eq!(with_flags(1, 1, 1), Some(false));
    assert_eq!(with_flags(1, 1, 0), Some(false));
    assert_eq!(with_flags(1, 0, 1), Some(false));
    assert_eq!(with_flags(0, 1, 1), Some(false));
}

#[test]
fn mul_selector_must_be_a_bit() {
    assert_eq!(with_flags(2, 0, 0), Some(false));
    assert_eq!(with_flags(0, 77, 0), Some(false));
    assert_eq!(with_flags(0, 0, P - 1), Some(false));
    // the sum is a bit, the selectors are not
    assert_eq!(with_flags(2, P - 1, 0), Some(false));
}

#[test]
fn mul_counter_from_1_to_1024_is_accepted() {
    let trace = RowMajorMatrix::new(counting_trace(1, P), 18);
    assert_eq!(Mul32Chip {}.check(&trace, P), Some(true));
}

#[test]
fn mul_counter_that_starts_elsewhere_is_rejected() {
    let mut values = counting_trace(1, P);
    values[17] = 0;
    let trace = RowMajorMatrix::new(values, 18);
    assert_eq!(Mul32Chip {}.check(&trace, P), Some(false));
    let trace = RowMajorMatrix::new(counting_trace(2, P), 18);
    assert_eq!(Mul32Chip {}.check(&trace, P), Some(false));
}

#[test]
fn mul_counter_that_skips_a_value_is_rejected() {
    let mut values = counting_trace(1, P);
    // rows 500.. count one too high: 501 is skipped and the end is 1025
    let mut r = 500;
    while r < 1024 {
        values[r * 18 + 17] += 1;
        r += 1;
    }
    let trace = RowMajorMatrix::new(values, 18);
    assert_eq!(Mul32Chip {}.check(&trace, P), Some(false));
    let mut values = counting_trace(1, P);
    // one row alone jumps ahead
    values[500 * 18 + 17] = 503;
    let trace = RowMajorMatrix::new(values, 18);
    assert_eq!(Mul32Chip {}.check(&trace, P), Some(false));
}

#[test]
fn mul_counter_that_ends_elsewhere_is_rejected() {
    let mut values = counting_trace(1, P);
    values[1023 * 18 + 17] = 1023;
    let trace = RowMajorMatrix::new(values, 18);
    assert_eq!(Mul32Chip {}.check(&trace, P), Some(false));
}

#[test]
fn mul_counter_may_stay_between_rows() {
    // 1025 rows: the counter stays once, then counts on to 1024
    let mut values = Mul32Cols::product_row(6, 7, 1, P).to_row();
    values.extend(counting_trace(1, P));
    let trace = RowMajorMatrix::new(values, 18);
    assert_eq!(Mul32Chip {}.check(&trace, P), Some(true));
}

#[test]
fn mul_trace_of_another_width_is_not_checked() {
    let trace = RowMajorMatrix::new(vec![0u64; 17 * 4], 17);
    assert_eq!(Mul32Chip {}.check(&trace, P), None);
    let trace = RowMajorMatrix::new(vec![0u64; 19 * 4], 19);
    assert_eq!(Mul32Chip {}.check(&trace, P), None);
}

#[test]
fn mul_trace_without_rows_is_met() {
    let trace = RowMajorMatrix::new(Vec::<u64>::new(), 18);
    assert_eq!(Mul32Chip {}.check(&trace, P), Some(true));
}

#[test]
fn mul_single_row_is_first_and_last() {
    let values = Mul32Cols::product_row(6, 7, 1, P).to_row();
    let trace = RowMajorMatrix::new(values, 18);
    // first wants 1, last wants 1024
    assert_eq!(Mul32Chip {}.check(&trace, P), Some(false));
}
