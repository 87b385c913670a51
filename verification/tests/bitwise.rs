use p3_matrix::dense::RowMajorMatrix;
use valida_air::alu_u32::bitwise::columns::{make_col_map, Bitwise32Cols, NUM_BITWISE_COLS};
use valida_air::alu_u32::bitwise::stark::{bit_expr, combine, recompose, BitOp};
use valida_air::alu_u32::bitwise::Bitwise32Chip;
use valida_air::builder::ConstraintBuilder;
use valida_air::expr::{Row, Var};

const P: u64 = 2013265921;

fn cells(start: usize) -> [Var; 8] {
    let mut out = [Var { row: Row::Local, column: 0 }; 8];
    let mut j = 0;
    while j < 8 {
        out[j] = Var { row: Row::Local, column: start + j };
        j += 1;
    }
    out
}

fn check(row: &Bitwise32Cols<u64>) -> Option<bool> {
    let trace = RowMajorMatrix::new(row.to_row(), 79);
    Bitwise32Chip {}.check(&trace, P)
}

fn samples() -> [(u32, u32); 6] {
    [
        (0, 0),
        (0xffff_ffff, 0xffff_ffff),
        (0xffff_ffff, 0),
        (0x1234_5678, 0x0f0f_0f0f),
        (0xdead_beef, 0x0bad_f00d),
        (1, 0x8000_0000),
    ]
}

#[test]
fn bitwise_width_is_the_number_of_columns() {
    assert_eq!(Bitwise32Chip {}.width(), 79);
    assert_eq!(NUM_BITWISE_COLS, 79);
}

#[test]
fn bitwise_col_map_gives_each_column_its_offset() {
    let map = make_col_map();
    assert_eq!(map.input_1.0, [0, 1, 2, 3]);
    assert_eq!(map.input_2.0, [4, 5, 6, 7]);
    assert_eq!(map.bits_1[0], [8, 9, 10, 11, 12, 13, 14, 15]);
    assert_eq!(map.bits_1[3], [32, 33, 34, 35, 36, 37, 38, 39]);
    assert_eq!(map.bits_2[0], [40, 41, 42, 43, 44, 45, 46, 47]);
    assert_eq!(map.bits_2[3], [64, 65, 66, 67, 68, 69, 70, 71]);
    assert_eq!(map.output.0, [72, 73, 74, 75]);
    assert_eq!((map.is_and, map.is_or, map.is_xor), (76, 77, 78));
    assert_eq!(map.to_row(), (0..79).collect::<Vec<usize>>());
}

#[test]
fn bitwise_from_row_wants_the_exact_width() {
    let row: Vec<u64> = (0..79).collect();
    let cols = Bitwise32Cols::from_row(&row).unwrap();
    assert_eq!(cols.bits_2[1], [48, 49, 50, 51, 52, 53, 54, 55]);
    assert_eq!(cols.to_row(), row);
    assert!(Bitwise32Cols::from_row(&row[..78]).is_none());
    let long: Vec<u64> = (0..80).collect();
    assert!(Bitwise32Cols::from_row(&long).is_none());
}

#[test]
fn bitwise_recompose_weighs_the_least_significant_bit_first() {
    let e = recompose(&cells(0));
    // bits of 0b1010_0110 = 166, least significant first
    assert_eq!(e.evaluate(&[0, 1, 1, 0, 0, 1, 0, 1], &[0; 8], P), Some(166));
    assert_eq!(e.evaluate(&[1, 0, 0, 0, 0, 0, 0, 0], &[0; 8], P), Some(1));
    assert_eq!(e.evaluate(&[0, 0, 0, 0, 0, 0, 0, 1], &[0; 8], P), Some(128));
    assert_eq!(e.evaluate(&[1; 8], &[0; 8], P), Some(255));
}

#[test]
fn bitwise_bit_polynomials_agree_with_the_operations() {
    let x = Var { row: Row::Local, column: 0 };
    let y = Var { row: Row::Local, column: 1 };
    for (a, b) in [(0u64, 0u64), (0, 1), (1, 0), (1, 1)] {
        assert_eq!(bit_expr(BitOp::And, x, y).evaluate(&[a, b], &[0, 0], P), Some(a & b));
        assert_eq!(bit_expr(BitOp::Or, x, y).evaluate(&[a, b], &[0, 0], P), Some(a | b));
        assert_eq!(bit_expr(BitOp::Xor, x, y).evaluate(&[a, b], &[0, 0], P), Some(a ^ b));
    }
}

#[test]
fn bitwise_combine_works_on_whole_bytes() {
    // 0b0000_1111 = 15 and 0b0101_0101 = 85, least significant bit first
    let row = [1, 1, 1, 1, 0, 0, 0, 0, 1, 0, 1, 0, 1, 0, 1, 0];
    let zero = [0; 16];
    assert_eq!(combine(BitOp::And, &cells(0), &cells(8)).evaluate(&row, &zero, P), Some(15 & 85));
    assert_eq!(combine(BitOp::Or, &cells(0), &cells(8)).evaluate(&row, &zero, P), Some(15 | 85));
    assert_eq!(combine(BitOp::Xor, &cells(0), &cells(8)).evaluate(&row, &zero, P), Some(15 ^ 85));
}

#[test]
fn bitwise_eval_emits_one_constraint_per_cell_bound() {
    let mut builder = ConstraintBuilder::new();
    Bitwise32Chip {}.eval(&mut builder);
    // 64 bits, 8 input limbs, 4 flag constraints, 4 output limbs
    assert_eq!(builder.constraints().len(), 80);
}

#[test]
fn bitwise_operation_row_holds_operands_bits_and_result() {
    let row = Bitwise32Cols::operation_row(BitOp::And, 0x1234_5678, 0x0f0f_0f0f);
    assert_eq!(row.input_1.0, [0x12, 0x34, 0x56, 0x78]);
    assert_eq!(row.input_2.0, [0x0f, 0x0f, 0x0f, 0x0f]);
    assert_eq!(row.bits_1[0], [0, 1, 0, 0, 1, 0, 0, 0]);
    assert_eq!(row.bits_1[3], [0, 0, 0, 1, 1, 1, 1, 0]);
    assert_eq!(row.bits_2[2], [1, 1, 1, 1, 0, 0, 0, 0]);
    assert_eq!(row.output.0, [0x02, 0x04, 0x06, 0x08]);
    assert_eq!((row.is_and, row.is_or, row.is_xor), (1, 0, 0));
    let row = Bitwise32Cols::operation_row(BitOp::Or, 0x1234_5678, 0x0f0f_0f0f);
    assert_eq!(row.output.0, [0x1f, 0x3f, 0x5f, 0x7f]);
    assert_eq!((row.is_and, row.is_or, row.is_xor), (0, 1, 0));
    let row = Bitwise32Cols::operation_row(BitOp::Xor, 0x1234_5678, 0x0f0f_0f0f);
    assert_eq!(row.output.0, [0x1d, 0x3b, 0x59, 0x77]);
    assert_eq!((row.is_and, row.is_or, row.is_xor), (0, 0, 1));
}

#[test]
fn bitwise_and_row_is_accepted() {
    for (a, b) in samples() {
        assert_eq!(check(&Bitwise32Cols::operation_row(BitOp::And, a, b)), Some(true));
    }
}

#[test]
fn bitwise_or_row_is_accepted() {
    for (a, b) in samples() {
        assert_eq!(check(&Bitwise32Cols::operation_row(BitOp::Or, a, b)), Some(true));
    }
}

#[test]
fn bitwise_xor_row_is_accepted() {
    for (a, b) in samples() {
        assert_eq!(check(&Bitwise32Cols::operation_row(BitOp::Xor, a, b)), Some(true));
    }
}

#[test]
fn bitwise_any_other_output_is_rejected() {
    let (a, b) = (0x1234_5678u32, 0x0f0f_0f0fu32);
    for op in [BitOp::And, BitOp::Or, BitOp::Xor] {
        let good = Bitwise32Cols::operation_row(op, a, b);
        let mut limb = 0;
        while limb < 4 {
            for delta in [1u64, 2, 128, 255, P - 1] {
                let mut bad = good;
                bad.output.0[limb] = (good.output.0[limb] + delta) % P;
                assert_eq!(check(&bad), Some(false));
            }
            limb += 1;
        }
    }
}

#[test]
fn bitwise_output_of_another_operation_is_rejected() {
    let (a, b) = (0x1234_5678u32, 0x0f0f_0f0fu32);
    let mut row = Bitwise32Cols::operation_row(BitOp::And, a, b);
    row.output = Bitwise32Cols::operation_row(BitOp::Or, a, b).output;
    assert_eq!(check(&row), Some(false));
    row.is_and = 0;
    row.is_or = 1;
    assert_eq!(check(&row), Some(true));
}

#[test]
fn bitwise_two_flags_at_once_are_rejected() {
    let mut row = Bitwise32Cols::operation_row(BitOp::And, 0, 0);
    row.is_or = 1;
    assert_eq!(check(&row), Some(false));
}

#[test]
fn bitwise_flag_must_be_a_bit() {
    let mut row = Bitwise32Cols::operation_row(BitOp::And, 0, 0);
    row.is_and = 2;
    assert_eq!(check(&row), Some(false));
}

#[test]
fn bitwise_row_without_operation_has_zero_output() {
    let mut row = Bitwise32Cols::operation_row(BitOp::Xor, 0x1234_5678, 0x0f0f_0f0f);
    row.is_xor = 0;
    assert_eq!(check(&row), Some(false));
    row.output.0 = [0, 0, 0, 0];
    assert_eq!(check(&row), Some(true));
}

#[test]
fn bitwise_cell_that_is_no_bit_is_rejected() {
    // 2 in bit 0 stands for the same byte as 1 in bit 1
    let mut row = Bitwise32Cols::operation_row(BitOp::And, 2, 2);
    assert_eq!(row.bits_1[3], [0, 1, 0, 0, 0, 0, 0, 0]);
    row.bits_1[3] = [2, 0, 0, 0, 0, 0, 0, 0];
    assert_eq!(check(&row), Some(false));
}

#[test]
fn bitwise_bits_must_spell_the_limb() {
    let mut row = Bitwise32Cols::operation_row(BitOp::And, 0x0000_0003, 0x0000_0001);
    row.bits_1[3][1] = 0;
    assert_eq!(check(&row), Some(false));
}

#[test]
fn bitwise_trace_of_another_width_is_not_checked() {
    let trace = RowMajorMatrix::new(vec![0u64; 78], 78);
    assert_eq!(Bitwise32Chip {}.check(&trace, P), None);
}

#[test]
fn bitwise_every_row_of_a_trace_is_checked() {
    let mut values = Vec::new();
    for (a, b) in samples() {
        values.extend(Bitwise32Cols::operation_row(BitOp::Xor, a, b).to_row());
    }
    let trace = RowMajorMatrix::new(values.clone(), 79);
    assert_eq!(Bitwise32Chip {}.check(&trace, P), Some(true));
    // break the output of the fourth row
    values[3 * 79 + 72] += 1;
    let trace = RowMajorMatrix::new(values, 79);
    assert_eq!(Bitwise32Chip {}.check(&trace, P), Some(false));
}
