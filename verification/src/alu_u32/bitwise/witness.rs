//! Rows that meet the bitwise chip's predicate, and the output that the
//! predicate forces.

use crate::alu_u32::bitwise::columns::{
    grid_flat, lemma_model_fields, Bitwise32Cols, BitwiseRow, NUM_BITWISE_COLS,
};
use crate::matrix::{row_of, rows_in};
use crate::trace::{int_row, lemma_row_in_bounds};
use crate::alu_u32::bitwise::stark::{
    bit_pair_boolean, bit_term, bit_weight, bitwise_row_holds, flags_hold, limb_bits,
    limb_recomposed, limb_selected, selected, weighted_bits, weighted_terms, BitOp,
};
use crate::field::{is_prime, lemma_boolean, lemma_canonical_equal, lemma_multiple_vanishes};
use crate::word::{limbs_of, word_of};
use vstd::prelude::*;

verus! {

/// What the operation makes of two words.
pub open spec fn apply(op: BitOp, a: u32, b: u32) -> u32 {
    match op {
        BitOp::And => a & b,
        BitOp::Or => a | b,
        BitOp::Xor => a ^ b,
    }
}

/// Bit `j` of a byte.
pub open spec fn bit_of(x: int, j: int) -> int {
    (x / bit_weight(j)) % 2
}

/// The 32 bits of a word, limb by limb, each limb from its least
/// significant bit.
pub open spec fn bits_of_word(x: u32) -> Seq<int> {
    Seq::new(32, |k: int| bit_of(limbs_of(x)[k / 8], k % 8))
}

/// 1 where `op` is `which`, and 0 otherwise.
pub open spec fn flag(op: BitOp, which: BitOp) -> int {
    if op == which {
        1
    } else {
        0
    }
}

/// The row that certifies `a op b`.
pub open spec fn bitwise_witness(op: BitOp, a: u32, b: u32) -> BitwiseRow {
    BitwiseRow {
        input_1: limbs_of(a),
        input_2: limbs_of(b),
        bits_1: bits_of_word(a),
        bits_2: bits_of_word(b),
        output: limbs_of(apply(op, a, b)),
        is_and: flag(op, BitOp::And),
        is_or: flag(op, BitOp::Or),
        is_xor: flag(op, BitOp::Xor),
    }
}

/// On bits, the polynomials agree with the operations.
proof fn lemma_bit_terms(x: int, y: int)
    requires
        x == 0 || x == 1,
        y == 0 || y == 1,
    ensures
        bit_term(BitOp::And, x, y) == (if x == 1 && y == 1 {
            1int
        } else {
            0int
        }),
        bit_term(BitOp::Or, x, y) == (if x == 1 || y == 1 {
            1int
        } else {
            0int
        }),
        bit_term(BitOp::Xor, x, y) == (if x != y {
            1int
        } else {
            0int
        }),
{
    assert(x * y == (if x == 1 && y == 1 {
        1int
    } else {
        0int
    })) by (nonlinear_arith)
        requires
            x == 0 || x == 1,
            y == 0 || y == 1,
    ;
}

/// A weighted sum of eight terms, written out.
proof fn lemma_weighted_unfolded(bits: Seq<int>)
    ensures
        weighted_bits(bits, 8) == bits[0] + 2 * bits[1] + 4 * bits[2] + 8 * bits[3] + 16 * bits[4]
            + 32 * bits[5] + 64 * bits[6] + 128 * bits[7],
{
    reveal_with_fuel(weighted_bits, 9);
}

/// A weighted sum of eight combined pairs, written out.
proof fn lemma_terms_unfolded(op: BitOp, xs: Seq<int>, ys: Seq<int>)
    ensures
        weighted_terms(op, xs, ys, 8) == bit_term(op, xs[0], ys[0]) + 2 * bit_term(op, xs[1], ys[1])
            + 4 * bit_term(op, xs[2], ys[2]) + 8 * bit_term(op, xs[3], ys[3]) + 16 * bit_term(
            op,
            xs[4],
            ys[4],
        ) + 32 * bit_term(op, xs[5], ys[5]) + 64 * bit_term(op, xs[6], ys[6]) + 128 * bit_term(
            op,
            xs[7],
            ys[7],
        ),
{
    reveal_with_fuel(weighted_terms, 9);
}

/// Combining two bytes bit by bit is combining the bytes.
proof fn lemma_bytes_combine(
    x: u32,
    y: u32,
    x0: u32,
    x1: u32,
    x2: u32,
    x3: u32,
    x4: u32,
    x5: u32,
    x6: u32,
    x7: u32,
    y0: u32,
    y1: u32,
    y2: u32,
    y3: u32,
    y4: u32,
    y5: u32,
    y6: u32,
    y7: u32,
)
    by (bit_vector)
    requires
        x0 < 2 && x1 < 2 && x2 < 2 && x3 < 2 && x4 < 2 && x5 < 2 && x6 < 2 && x7 < 2,
        y0 < 2 && y1 < 2 && y2 < 2 && y3 < 2 && y4 < 2 && y5 < 2 && y6 < 2 && y7 < 2,
        x == x0 + 2 * x1 + 4 * x2 + 8 * x3 + 16 * x4 + 32 * x5 + 64 * x6 + 128 * x7,
        y == y0 + 2 * y1 + 4 * y2 + 8 * y3 + 16 * y4 + 32 * y5 + 64 * y6 + 128 * y7,
    ensures
        x & y == (x0 & y0) + 2 * (x1 & y1) + 4 * (x2 & y2) + 8 * (x3 & y3) + 16 * (x4 & y4) + 32 * (
        x5 & y5) + 64 * (x6 & y6) + 128 * (x7 & y7),
        x | y == (x0 | y0) + 2 * (x1 | y1) + 4 * (x2 | y2) + 8 * (x3 | y3) + 16 * (x4 | y4) + 32 * (
        x5 | y5) + 64 * (x6 | y6) + 128 * (x7 | y7),
        x ^ y == (x0 ^ y0) + 2 * (x1 ^ y1) + 4 * (x2 ^ y2) + 8 * (x3 ^ y3) + 16 * (x4 ^ y4) + 32 * (
        x5 ^ y5) + 64 * (x6 ^ y6) + 128 * (x7 ^ y7),
{
}

/// The operations on two bits, case by case.
proof fn lemma_bit_ops(x: u32, y: u32)
    by (bit_vector)
    requires
        x < 2,
        y < 2,
    ensures
        (x & y) == (if x == 1 && y == 1 {
            1u32
        } else {
            0u32
        }),
        (x | y) == (if x == 1 || y == 1 {
            1u32
        } else {
            0u32
        }),
        (x ^ y) == (if x != y {
            1u32
        } else {
            0u32
        }),
{
}

/// The combination of one pair of bits, as the machine computes it.
proof fn lemma_pair(op: BitOp, x: int, y: int)
    requires
        x == 0 || x == 1,
        y == 0 || y == 1,
    ensures
        bit_term(op, x, y) == apply(op, x as u32, y as u32),
{
    lemma_bit_terms(x, y);
    lemma_bit_ops(x as u32, y as u32);
}

/// The weighted sum of eight numbers.
spec fn spelled(
    t0: int,
    t1: int,
    t2: int,
    t3: int,
    t4: int,
    t5: int,
    t6: int,
    t7: int,
) -> int {
    t0 + 2 * t1 + 4 * t2 + 8 * t3 + 16 * t4 + 32 * t5 + 64 * t6 + 128 * t7
}

/// Combining sixteen bits pair by pair, each pair under its weight, is
/// applying the operation to the two bytes that the bits spell.
proof fn lemma_bits_combined(
    op: BitOp,
    x0: u32,
    x1: u32,
    x2: u32,
    x3: u32,
    x4: u32,
    x5: u32,
    x6: u32,
    x7: u32,
    y0: u32,
    y1: u32,
    y2: u32,
    y3: u32,
    y4: u32,
    y5: u32,
    y6: u32,
    y7: u32,
)
    requires
        x0 < 2 && x1 < 2 && x2 < 2 && x3 < 2 && x4 < 2 && x5 < 2 && x6 < 2 && x7 < 2,
        y0 < 2 && y1 < 2 && y2 < 2 && y3 < 2 && y4 < 2 && y5 < 2 && y6 < 2 && y7 < 2,
    ensures
        spelled(
            apply(op, x0, y0) as int,
            apply(op, x1, y1) as int,
            apply(op, x2, y2) as int,
            apply(op, x3, y3) as int,
            apply(op, x4, y4) as int,
            apply(op, x5, y5) as int,
            apply(op, x6, y6) as int,
            apply(op, x7, y7) as int,
        ) == apply(
            op,
            spelled(
                x0 as int,
                x1 as int,
                x2 as int,
                x3 as int,
                x4 as int,
                x5 as int,
                x6 as int,
                x7 as int,
            ) as u32,
            spelled(
                y0 as int,
                y1 as int,
                y2 as int,
                y3 as int,
                y4 as int,
                y5 as int,
                y6 as int,
                y7 as int,
            ) as u32,
        ),
{
    let x = (x0 + 2 * x1 + 4 * x2 + 8 * x3 + 16 * x4 + 32 * x5 + 64 * x6 + 128 * x7) as u32;
    let y = (y0 + 2 * y1 + 4 * y2 + 8 * y3 + 16 * y4 + 32 * y5 + 64 * y6 + 128 * y7) as u32;
    lemma_bytes_combine(x, y, x0, x1, x2, x3, x4, x5, x6, x7, y0, y1, y2, y3, y4, y5, y6, y7);
}

/// Eight bits spell a byte, and combining two bytes bit by bit, pair under
/// weight, is applying the operation to the bytes.
pub proof fn lemma_byte_combined(op: BitOp, xs: Seq<int>, ys: Seq<int>)
    requires
        xs.len() == 8,
        ys.len() == 8,
        forall|j: int| 0 <= j < 8 ==> #[trigger] xs[j] == 0 || xs[j] == 1,
        forall|j: int| 0 <= j < 8 ==> #[trigger] ys[j] == 0 || ys[j] == 1,
    ensures
        0 <= weighted_bits(xs, 8) < 256,
        0 <= weighted_bits(ys, 8) < 256,
        weighted_terms(op, xs, ys, 8) == apply(
            op,
            weighted_bits(xs, 8) as u32,
            weighted_bits(ys, 8) as u32,
        ),
{
    lemma_weighted_unfolded(xs);
    lemma_weighted_unfolded(ys);
    lemma_terms_unfolded(op, xs, ys);
    lemma_pair(op, xs[0], ys[0]);
    lemma_pair(op, xs[1], ys[1]);
    lemma_pair(op, xs[2], ys[2]);
    lemma_pair(op, xs[3], ys[3]);
    lemma_pair(op, xs[4], ys[4]);
    lemma_pair(op, xs[5], ys[5]);
    lemma_pair(op, xs[6], ys[6]);
    lemma_pair(op, xs[7], ys[7]);
    lemma_bits_combined(
        op,
        xs[0] as u32,
        xs[1] as u32,
        xs[2] as u32,
        xs[3] as u32,
        xs[4] as u32,
        xs[5] as u32,
        xs[6] as u32,
        xs[7] as u32,
        ys[0] as u32,
        ys[1] as u32,
        ys[2] as u32,
        ys[3] as u32,
        ys[4] as u32,
        ys[5] as u32,
        ys[6] as u32,
        ys[7] as u32,
    );
}

/// A byte is the sum of its bits under their weights.
proof fn lemma_byte_bits(x: u32)
    by (bit_vector)
    requires
        x < 256,
    ensures
        x == (x / 1) % 2 + 2 * ((x / 2) % 2) + 4 * ((x / 4) % 2) + 8 * ((x / 8) % 2) + 16 * ((x
            / 16) % 2) + 32 * ((x / 32) % 2) + 64 * ((x / 64) % 2) + 128 * ((x / 128) % 2),
{
}

/// The limbs of the result are the results on the limbs.
proof fn lemma_limbs_combine(a: u32, b: u32)
    by (bit_vector)
    ensures
        ((a & b) / 16777216) % 256 == ((a / 16777216) % 256) & ((b / 16777216) % 256),
        ((a & b) / 65536) % 256 == ((a / 65536) % 256) & ((b / 65536) % 256),
        ((a & b) / 256) % 256 == ((a / 256) % 256) & ((b / 256) % 256),
        (a & b) % 256 == (a % 256) & (b % 256),
        ((a | b) / 16777216) % 256 == ((a / 16777216) % 256) | ((b / 16777216) % 256),
        ((a | b) / 65536) % 256 == ((a / 65536) % 256) | ((b / 65536) % 256),
        ((a | b) / 256) % 256 == ((a / 256) % 256) | ((b / 256) % 256),
        (a | b) % 256 == (a % 256) | (b % 256),
        ((a ^ b) / 16777216) % 256 == ((a / 16777216) % 256) ^ ((b / 16777216) % 256),
        ((a ^ b) / 65536) % 256 == ((a / 65536) % 256) ^ ((b / 65536) % 256),
        ((a ^ b) / 256) % 256 == ((a / 256) % 256) ^ ((b / 256) % 256),
        (a ^ b) % 256 == (a % 256) ^ (b % 256),
{
}

/// Limb `i` of `a op b` is the operation applied to limb `i` of `a` and of
/// `b`.
pub proof fn lemma_limb_applied(op: BitOp, a: u32, b: u32, i: int)
    requires
        0 <= i < 4,
    ensures
        limbs_of(apply(op, a, b))[i] == apply(op, limbs_of(a)[i] as u32, limbs_of(b)[i] as u32),
        0 <= limbs_of(a)[i] < 256,
        0 <= limbs_of(b)[i] < 256,
{
    lemma_limbs_combine(a, b);
    let c = apply(op, a, b);
    let (x, y, z) = (limbs_of(a), limbs_of(b), limbs_of(c));
    assert(x[0] == (a as int / 16777216) % 256 && x[1] == (a as int / 65536) % 256 && x[2] == (
    a as int / 256) % 256 && x[3] == a as int % 256);
    assert(y[0] == (b as int / 16777216) % 256 && y[1] == (b as int / 65536) % 256 && y[2] == (
    b as int / 256) % 256 && y[3] == b as int % 256);
    assert(z[0] == (c as int / 16777216) % 256 && z[1] == (c as int / 65536) % 256 && z[2] == (
    c as int / 256) % 256 && z[3] == c as int % 256);
    if i == 0 {
        assert(x[0] as u32 == (a / 16777216) % 256 && y[0] as u32 == (b / 16777216) % 256);
    } else if i == 1 {
        assert(x[1] as u32 == (a / 65536) % 256 && y[1] as u32 == (b / 65536) % 256);
    } else if i == 2 {
        assert(x[2] as u32 == (a / 256) % 256 && y[2] as u32 == (b / 256) % 256);
    } else {
        assert(x[3] as u32 == a % 256 && y[3] as u32 == b % 256);
    }
}

/// The bits of limb `i` of a word are bits, and spell the limb.
pub proof fn lemma_word_bits(x: u32, i: int)
    requires
        0 <= i < 4,
    ensures
        limb_bits(bits_of_word(x), i).len() == 8,
        forall|j: int|
            0 <= j < 8 ==> #[trigger] limb_bits(bits_of_word(x), i)[j] == 0 || limb_bits(
                bits_of_word(x),
                i,
            )[j] == 1,
        weighted_bits(limb_bits(bits_of_word(x), i), 8) == limbs_of(x)[i],
{
    let bits = limb_bits(bits_of_word(x), i);
    let limb = limbs_of(x)[i];
    crate::word::lemma_limbs_value(x);
    assert forall|j: int| 0 <= j < 8 implies #[trigger] bits[j] == bit_of(limb, j) by {
        assert(bits[j] == bits_of_word(x)[8 * i + j]);
        assert((8 * i + j) / 8 == i && (8 * i + j) % 8 == j);
    }
    lemma_weighted_unfolded(bits);
    lemma_byte_bits(limb as u32);
    assert(bits[0] == bit_of(limb, 0) && bits[1] == bit_of(limb, 1) && bits[2] == bit_of(limb, 2)
        && bits[3] == bit_of(limb, 3) && bits[4] == bit_of(limb, 4) && bits[5] == bit_of(limb, 5)
        && bits[6] == bit_of(limb, 6) && bits[7] == bit_of(limb, 7));
}

/// For every operation and every pair of operands there is a row that meets
/// the chip's predicate: the one with the operands' bits, the flag of the
/// operation, and the operation's result as output.
pub proof fn lemma_witness_holds(op: BitOp, a: u32, b: u32, p: int)
    requires
        p > 0,
    ensures
        bitwise_row_holds(bitwise_witness(op, a, b), p),
{
    let row = bitwise_witness(op, a, b);
    lemma_multiple_vanishes(0, p);
    assert forall|k: int| 0 <= k < 32 implies #[trigger] bit_pair_boolean(row, k, p) by {
        lemma_word_bits(a, k / 8);
        lemma_word_bits(b, k / 8);
        let x = row.bits_1[k];
        let y = row.bits_2[k];
        assert(x == limb_bits(bits_of_word(a), k / 8)[k % 8]);
        assert(y == limb_bits(bits_of_word(b), k / 8)[k % 8]);
        assert(x * (x - 1) == 0 && y * (y - 1) == 0) by (nonlinear_arith)
            requires
                x == 0 || x == 1,
                y == 0 || y == 1,
        ;
    }
    assert forall|i: int| 0 <= i < 4 implies #[trigger] limb_recomposed(row, i, p) by {
        lemma_word_bits(a, i);
        lemma_word_bits(b, i);
    }
    assert(flags_hold(row, p)) by {
        let (f, g, h) = (row.is_and, row.is_or, row.is_xor);
        assert(f * (f - 1) == 0 && g * (g - 1) == 0 && h * (h - 1) == 0 && (f + g + h) * (f + g + h
            - 1) == 0) by (nonlinear_arith)
            requires
                (f == 1 && g == 0 && h == 0) || (f == 0 && g == 1 && h == 0) || (f == 0 && g == 0
                    && h == 1),
        ;
    }
    assert forall|i: int| 0 <= i < 4 implies #[trigger] limb_selected(row, i, p) by {
        lemma_selected(row, op, i);
        lemma_word_bits(a, i);
        lemma_word_bits(b, i);
        lemma_byte_combined(op, limb_bits(row.bits_1, i), limb_bits(row.bits_2, i));
        lemma_limb_applied(op, a, b, i);
    }
}

/// With the flag of one operation set and the others clear, what the flags
/// select is that operation's combination.
pub proof fn lemma_selected(row: BitwiseRow, op: BitOp, i: int)
    requires
        row.is_and == flag(op, BitOp::And),
        row.is_or == flag(op, BitOp::Or),
        row.is_xor == flag(op, BitOp::Xor),
    ensures
        selected(row, i) == weighted_terms(
            op,
            limb_bits(row.bits_1, i),
            limb_bits(row.bits_2, i),
            8,
        ),
{
    let xs = limb_bits(row.bits_1, i);
    let ys = limb_bits(row.bits_2, i);
    let (u, v, t) = (
        weighted_terms(BitOp::And, xs, ys, 8),
        weighted_terms(BitOp::Or, xs, ys, 8),
        weighted_terms(BitOp::Xor, xs, ys, 8),
    );
    let (f, g, h) = (row.is_and, row.is_or, row.is_xor);
    assert(f * u + g * v + h * t == (if f == 1 {
        u
    } else if g == 1 {
        v
    } else {
        t
    })) by (nonlinear_arith)
        requires
            (f == 1 && g == 0 && h == 0) || (f == 0 && g == 1 && h == 0) || (f == 0 && g == 0 && h
                == 1),
    ;
}

/// Every cell of the row is a canonical field element.
pub open spec fn bitwise_row_canonical(row: BitwiseRow, p: int) -> bool {
    &&& row.input_1.len() == 4 && row.input_2.len() == 4 && row.output.len() == 4
    &&& row.bits_1.len() == 32 && row.bits_2.len() == 32
    &&& forall|i: int| 0 <= i < 4 ==> 0 <= #[trigger] row.input_1[i] < p
    &&& forall|i: int| 0 <= i < 4 ==> 0 <= #[trigger] row.input_2[i] < p
    &&& forall|i: int| 0 <= i < 4 ==> 0 <= #[trigger] row.output[i] < p
    &&& forall|k: int| 0 <= k < 32 ==> 0 <= #[trigger] row.bits_1[k] < p
    &&& forall|k: int| 0 <= k < 32 ==> 0 <= #[trigger] row.bits_2[k] < p
    &&& 0 <= row.is_and < p && 0 <= row.is_or < p && 0 <= row.is_xor < p
}

/// Limb `i` of either input is a byte, and limb `i` of the output is the
/// operation applied to the two.
pub open spec fn limb_is_result(row: BitwiseRow, op: BitOp, i: int) -> bool {
    &&& 0 <= row.input_1[i] < 256
    &&& 0 <= row.input_2[i] < 256
    &&& row.output[i] == apply(op, row.input_1[i] as u32, row.input_2[i] as u32)
}

/// A row of a trace of canonical field elements is canonical.
pub proof fn lemma_trace_row_canonical(values: Seq<u64>, width: nat, r: int, p: int)
    requires
        width == NUM_BITWISE_COLS,
        0 <= r < rows_in(values.len(), width),
        forall|i: int| 0 <= i < values.len() ==> #[trigger] values[i] < p,
    ensures
        bitwise_row_canonical(BitwiseRow::from_flat(int_row(values, width, r)), p),
{
    lemma_row_in_bounds(values, width, r);
    let cells = row_of(values, width, r);
    let ints = int_row(values, width, r);
    let row = BitwiseRow::from_flat(ints);
    assert forall|k: int| 0 <= k < 79 implies 0 <= #[trigger] ints[k] < p by {
        assert(cells[k] == values[r * width + k]);
    }
    assert forall|i: int| 0 <= i < 4 implies 0 <= #[trigger] row.input_1[i] < p by {
        assert(row.input_1[i] == ints[i]);
    }
    assert forall|i: int| 0 <= i < 4 implies 0 <= #[trigger] row.input_2[i] < p by {
        assert(row.input_2[i] == ints[4 + i]);
    }
    assert forall|i: int| 0 <= i < 4 implies 0 <= #[trigger] row.output[i] < p by {
        assert(row.output[i] == ints[72 + i]);
    }
    assert forall|k: int| 0 <= k < 32 implies 0 <= #[trigger] row.bits_1[k] < p by {
        assert(row.bits_1[k] == ints[8 + k]);
    }
    assert forall|k: int| 0 <= k < 32 implies 0 <= #[trigger] row.bits_2[k] < p by {
        assert(row.bits_2[k] == ints[40 + k]);
    }
    assert(0 <= ints[76] < p && 0 <= ints[77] < p && 0 <= ints[78] < p);
}

/// Modulo a prime above 255, a canonical row that meets the predicate with
/// the flag of one operation set has that operation's result as output:
/// with any other output the row fails.
pub proof fn lemma_output_forced(row: BitwiseRow, op: BitOp, p: int)
    requires
        is_prime(p),
        p > 255,
        bitwise_row_canonical(row, p),
        row.is_and == flag(op, BitOp::And),
        row.is_or == flag(op, BitOp::Or),
        row.is_xor == flag(op, BitOp::Xor),
        bitwise_row_holds(row, p),
    ensures
        forall|i: int| 0 <= i < 4 ==> #[trigger] limb_is_result(row, op, i),
{
    assert forall|i: int| 0 <= i < 4 implies #[trigger] limb_is_result(row, op, i) by {
        let xs = limb_bits(row.bits_1, i);
        let ys = limb_bits(row.bits_2, i);
        assert forall|j: int| 0 <= j < 8 implies #[trigger] xs[j] == 0 || xs[j] == 1 by {
            assert(bit_pair_boolean(row, 8 * i + j, p));
            lemma_boolean(row.bits_1[8 * i + j], p);
        }
        assert forall|j: int| 0 <= j < 8 implies #[trigger] ys[j] == 0 || ys[j] == 1 by {
            assert(bit_pair_boolean(row, 8 * i + j, p));
            lemma_boolean(row.bits_2[8 * i + j], p);
        }
        lemma_byte_combined(op, xs, ys);
        assert(limb_recomposed(row, i, p));
        lemma_canonical_equal(row.input_1[i], weighted_bits(xs, 8), p);
        lemma_canonical_equal(row.input_2[i], weighted_bits(ys, 8), p);
        assert(limb_selected(row, i, p));
        lemma_selected(row, op, i);
        lemma_apply_bound(op, row.input_1[i] as u32, row.input_2[i] as u32);
        lemma_canonical_equal(row.output[i], weighted_terms(op, xs, ys, 8), p);
    }
}

/// The operations keep bytes bytes.
proof fn lemma_apply_bound(op: BitOp, x: u32, y: u32)
    requires
        x < 256,
        y < 256,
    ensures
        apply(op, x, y) < 256,
{
    assert((x & y) < 256 && (x | y) < 256 && (x ^ y) < 256) by (bit_vector)
        requires
            x < 256,
            y < 256,
    ;
}

/// Modulo a prime above 255, a canonical row on the limbs of `a` and `b`
/// that meets the predicate with the flag of one operation set has the
/// limbs of `a op b` as output.
pub proof fn lemma_output_is_result(row: BitwiseRow, op: BitOp, a: u32, b: u32, p: int)
    requires
        is_prime(p),
        p > 255,
        bitwise_row_canonical(row, p),
        row.input_1 == limbs_of(a),
        row.input_2 == limbs_of(b),
        row.is_and == flag(op, BitOp::And),
        row.is_or == flag(op, BitOp::Or),
        row.is_xor == flag(op, BitOp::Xor),
        bitwise_row_holds(row, p),
    ensures
        row.output == limbs_of(apply(op, a, b)),
{
    lemma_output_forced(row, op, p);
    assert forall|i: int| 0 <= i < 4 implies row.output[i] == limbs_of(apply(op, a, b))[i] by {
        lemma_limb_applied(op, a, b, i);
        assert(limb_is_result(row, op, i));
    }
    assert(row.output =~= limbs_of(apply(op, a, b)));
}

/// The eight bits of a byte, least significant first.
fn byte_bits(x: u64) -> (bits: [u64; 8])
    requires
        x < 256,
    ensures
        forall|j: int| 0 <= j < 8 ==> #[trigger] bits@[j] == bit_of(x as int, j),
{
    [
        x % 2,
        (x / 2) % 2,
        (x / 4) % 2,
        (x / 8) % 2,
        (x / 16) % 2,
        (x / 32) % 2,
        (x / 64) % 2,
        (x / 128) % 2,
    ]
}

/// The bits of the four limbs of a word.
fn word_bits(x: u32) -> (grid: [[u64; 8]; 4])
    ensures
        grid_flat(grid).map_values(|v: u64| v as int) == bits_of_word(x),
{
    let w = word_of(x);
    let grid = [
        byte_bits(w.limb(0)),
        byte_bits(w.limb(1)),
        byte_bits(w.limb(2)),
        byte_bits(w.limb(3)),
    ];
    proof {
        let limbs = w@.map_values(|l: u64| l as int);
        assert(limbs[0] == w@[0] && limbs[1] == w@[1] && limbs[2] == w@[2] && limbs[3] == w@[3]);
        let got = grid_flat(grid).map_values(|v: u64| v as int);
        assert forall|k: int| 0 <= k < 32 implies got[k] == bits_of_word(x)[k] by {
            let i = k / 8;
            let j = k % 8;
            assert(grid_flat(grid)[k] == grid@[i]@[j]);
        }
        assert(got =~= bits_of_word(x));
    }
    grid
}

impl Bitwise32Cols<u64> {
    /// The row that certifies `a op b`: the operands, their bits, the
    /// result, and the flag of the operation.
    pub fn operation_row(op: BitOp, a: u32, b: u32) -> (row: Self)
        ensures
            row.ints() == bitwise_witness(op, a, b),
    {
        let result = match op {
            BitOp::And => a & b,
            BitOp::Or => a | b,
            BitOp::Xor => a ^ b,
        };
        let row = Bitwise32Cols {
            input_1: word_of(a),
            input_2: word_of(b),
            bits_1: word_bits(a),
            bits_2: word_bits(b),
            output: word_of(result),
            is_and: match op {
                BitOp::And => 1,
                _ => 0,
            },
            is_or: match op {
                BitOp::Or => 1,
                _ => 0,
            },
            is_xor: match op {
                BitOp::Xor => 1,
                _ => 0,
            },
        };
        proof {
            lemma_model_fields(row, |v: u64| v as int);
            let model = row.ints();
            let goal = bitwise_witness(op, a, b);
            assert(model.input_1 == goal.input_1);
            assert(model.input_2 == goal.input_2);
            assert(model.bits_1 == goal.bits_1);
            assert(model.bits_2 == goal.bits_2);
            assert(model.output == goal.output);
        }
        row
    }
}

} // verus!
