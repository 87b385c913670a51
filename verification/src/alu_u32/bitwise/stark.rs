//! The constraints of the bitwise chip.
//!
//! Each byte of the two inputs is split into eight bits. The chip binds
//! every bit to be zero or one and every byte to be the sum of its bits
//! under their weights, combines the bits of the two inputs pair by pair,
//! and binds each byte of the output to the combination that the flag
//! selects. A row has no neighbour to answer to: the chip is stateless.

use crate::alu_u32::bitwise::columns::{
    is_window_row, lemma_window_row, Bitwise32Cols, BitwiseRow, NUM_BITWISE_COLS,
};
use crate::alu_u32::bitwise::Bitwise32Chip;
use crate::builder::{position, ConstraintBuilder, Position, Scope};
use crate::expr::{cells, cells_fit, window_row, Expr, Row, Var, Window};
use crate::field::{boolean, congruent};
use crate::matrix::{matrix_values, matrix_width, width};
use crate::trace::{check_trace, lemma_trace_means, steps_hold};
use p3_matrix::dense::DenseMatrix;
use vstd::prelude::*;

verus! {

/// The operations of the chip.
#[derive(Clone, Copy, Debug, PartialEq, Eq, Structural)]
pub enum BitOp {
    And,
    Or,
    Xor,
}

/// The weight of bit `j` of a byte: two to the power `j`.
pub open spec fn bit_weight(j: int) -> int {
    if j <= 0 {
        1
    } else if j == 1 {
        2
    } else if j == 2 {
        4
    } else if j == 3 {
        8
    } else if j == 4 {
        16
    } else if j == 5 {
        32
    } else if j == 6 {
        64
    } else {
        128
    }
}

/// The polynomial that agrees with the operation on two bits.
pub open spec fn bit_term(op: BitOp, x: int, y: int) -> int {
    match op {
        BitOp::And => x * y,
        BitOp::Or => x + y - x * y,
        BitOp::Xor => x + y - 2 * (x * y),
    }
}

/// The sum of the first `n` of `bits`, each under its weight.
pub open spec fn weighted_bits(bits: Seq<int>, n: int) -> int
    decreases n,
{
    if n <= 0 {
        0
    } else {
        weighted_bits(bits, n - 1) + bit_weight(n - 1) * bits[n - 1]
    }
}

/// The sum over the first `n` pairs of bits of their combination, each
/// under its weight.
pub open spec fn weighted_terms(op: BitOp, xs: Seq<int>, ys: Seq<int>, n: int) -> int
    decreases n,
{
    if n <= 0 {
        0
    } else {
        weighted_terms(op, xs, ys, n - 1) + bit_weight(n - 1) * bit_term(op, xs[n - 1], ys[n - 1])
    }
}

/// The eight bits of limb `i`, least significant first.
pub open spec fn limb_bits(bits: Seq<int>, i: int) -> Seq<int> {
    bits.subrange(8 * i, 8 * i + 8)
}

/// Bit `k` of either input is zero or one.
pub open spec fn bit_pair_boolean(row: BitwiseRow, k: int, p: int) -> bool {
    boolean(row.bits_1[k], p) && boolean(row.bits_2[k], p)
}

/// Limb `i` of either input is the sum of its bits under their weights.
pub open spec fn limb_recomposed(row: BitwiseRow, i: int, p: int) -> bool {
    &&& congruent(row.input_1[i], weighted_bits(limb_bits(row.bits_1, i), 8), p)
    &&& congruent(row.input_2[i], weighted_bits(limb_bits(row.bits_2, i), 8), p)
}

/// Each flag is zero or one, and so is their sum: one operation at most is
/// selected.
pub open spec fn flags_hold(row: BitwiseRow, p: int) -> bool {
    &&& boolean(row.is_and, p)
    &&& boolean(row.is_or, p)
    &&& boolean(row.is_xor, p)
    &&& boolean(row.is_and + row.is_or + row.is_xor, p)
}

/// What the flags select for limb `i`: each operation's combination of the
/// two limbs' bits, under its flag.
pub open spec fn selected(row: BitwiseRow, i: int) -> int {
    let xs = limb_bits(row.bits_1, i);
    let ys = limb_bits(row.bits_2, i);
    row.is_and * weighted_terms(BitOp::And, xs, ys, 8) + row.is_or * weighted_terms(
        BitOp::Or,
        xs,
        ys,
        8,
    ) + row.is_xor * weighted_terms(BitOp::Xor, xs, ys, 8)
}

/// Limb `i` of the output is what the flags select.
pub open spec fn limb_selected(row: BitwiseRow, i: int, p: int) -> bool {
    congruent(row.output[i], selected(row, i), p)
}

/// The predicate of the chip on a row.
pub open spec fn bitwise_row_holds(row: BitwiseRow, p: int) -> bool {
    &&& forall|k: int| 0 <= k < 32 ==> #[trigger] bit_pair_boolean(row, k, p)
    &&& forall|i: int| 0 <= i < 4 ==> #[trigger] limb_recomposed(row, i, p)
    &&& flags_hold(row, p)
    &&& forall|i: int| 0 <= i < 4 ==> #[trigger] limb_selected(row, i, p)
}

/// The weight of bit `j`.
fn weight(j: usize) -> (x: u32)
    requires
        j < 8,
    ensures
        x == bit_weight(j as int),
{
    if j == 0 {
        1
    } else if j == 1 {
        2
    } else if j == 2 {
        4
    } else if j == 3 {
        8
    } else if j == 4 {
        16
    } else if j == 5 {
        32
    } else if j == 6 {
        64
    } else {
        128
    }
}

/// The byte that eight bits spell: the sum of the bits under their weights.
pub fn recompose(bits: &[Var; 8]) -> (e: Expr)
    ensures
        forall|w: Window| #[trigger] e.value(w) == weighted_bits(cells(bits@, w), 8),
        forall|width: int| cells_fit(bits@, width) ==> #[trigger] e.fits(width),
{
    let mut acc = Expr::zero();
    let mut j: usize = 0;
    while j < 8
        invariant
            0 <= j <= 8,
            forall|w: Window| #[trigger] acc.value(w) == weighted_bits(cells(bits@, w), j as int),
            forall|width: int| cells_fit(bits@, width) ==> #[trigger] acc.fits(width),
        decreases 8 - j,
    {
        let ghost before = acc;
        let term = Expr::from_canonical_u32(weight(j)).times(Expr::var(bits[j]));
        acc = acc.plus(term);
        proof {
            reveal_with_fuel(Expr::value, 3);
            reveal_with_fuel(Expr::fits, 3);
            assert forall|w: Window| #[trigger]
                acc.value(w) == before.value(w) + bit_weight(j as int) * cells(bits@, w)[j as int] by {}
            assert forall|width: int| cells_fit(bits@, width) implies #[trigger] acc.fits(
                width,
            ) by {
                assert(before.fits(width));
                assert(bits@[j as int].column < width);
            }
        }
        j += 1;
    }
    acc
}

/// The polynomial that agrees with `op` on the bits `x` and `y`.
pub fn bit_expr(op: BitOp, x: Var, y: Var) -> (e: Expr)
    ensures
        forall|w: Window| #[trigger] e.value(w) == bit_term(op, w.at(x), w.at(y)),
        forall|width: int| x.column < width && y.column < width ==> #[trigger] e.fits(width),
{
    let product = Expr::var(x).times(Expr::var(y));
    let e = match op {
        BitOp::And => product,
        BitOp::Or => Expr::var(x).plus(Expr::var(y)).minus(product),
        BitOp::Xor => Expr::var(x).plus(Expr::var(y)).minus(Expr::two().times(product)),
    };
    proof {
        reveal_with_fuel(Expr::value, 5);
        reveal_with_fuel(Expr::fits, 5);
        assert forall|w: Window| #[trigger] e.value(w) == bit_term(op, w.at(x), w.at(y)) by {}
        assert forall|width: int| x.column < width && y.column < width implies #[trigger] e.fits(
            width,
        ) by {}
    }
    e
}

/// The byte that the bits of two bytes spell when combined pair by pair.
pub fn combine(op: BitOp, bits_1: &[Var; 8], bits_2: &[Var; 8]) -> (e: Expr)
    ensures
        forall|w: Window| #[trigger]
            e.value(w) == weighted_terms(op, cells(bits_1@, w), cells(bits_2@, w), 8),
        forall|width: int|
            cells_fit(bits_1@, width) && cells_fit(bits_2@, width) ==> #[trigger] e.fits(width),
{
    let mut acc = Expr::zero();
    let mut j: usize = 0;
    while j < 8
        invariant
            0 <= j <= 8,
            forall|w: Window| #[trigger]
                acc.value(w) == weighted_terms(op, cells(bits_1@, w), cells(bits_2@, w), j as int),
            forall|width: int|
                cells_fit(bits_1@, width) && cells_fit(bits_2@, width) ==> #[trigger] acc.fits(
                    width,
                ),
        decreases 8 - j,
    {
        let ghost before = acc;
        let pair = bit_expr(op, bits_1[j], bits_2[j]);
        let ghost pair_g = pair;
        let term = Expr::from_canonical_u32(weight(j)).times(pair);
        acc = acc.plus(term);
        proof {
            reveal_with_fuel(Expr::value, 3);
            reveal_with_fuel(Expr::fits, 3);
            assert forall|w: Window| #[trigger]
                acc.value(w) == before.value(w) + bit_weight(j as int) * bit_term(
                    op,
                    cells(bits_1@, w)[j as int],
                    cells(bits_2@, w)[j as int],
                ) by {
                assert(acc.value(w) == before.value(w) + bit_weight(j as int) * pair_g.value(w));
            }
            assert forall|width: int|
                cells_fit(bits_1@, width) && cells_fit(bits_2@, width) implies #[trigger] acc.fits(
                width,
            ) by {
                assert(before.fits(width));
                assert(bits_1@[j as int].column < width);
                assert(bits_2@[j as int].column < width);
                assert(pair_g.fits(width));
            }
        }
        j += 1;
    }
    acc
}

/// The bits of limb `i` of a window row take the values of the limb's bits
/// in the row's named reading.
proof fn lemma_limb_cells(local: Bitwise32Cols<Var>, w: Window, i: int)
    requires
        is_window_row(local, Row::Local),
        w.local.len() == NUM_BITWISE_COLS,
        0 <= i < 4,
    ensures
        cells(local.bits_1@[i]@, w) == limb_bits(BitwiseRow::from_flat(w.local).bits_1, i),
        cells(local.bits_2@[i]@, w) == limb_bits(BitwiseRow::from_flat(w.local).bits_2, i),
        w.at(local.input_1@[i]) == BitwiseRow::from_flat(w.local).input_1[i],
        w.at(local.input_2@[i]) == BitwiseRow::from_flat(w.local).input_2[i],
        w.at(local.output@[i]) == BitwiseRow::from_flat(w.local).output[i],
        w.at(local.is_and) == BitwiseRow::from_flat(w.local).is_and,
        w.at(local.is_or) == BitwiseRow::from_flat(w.local).is_or,
        w.at(local.is_xor) == BitwiseRow::from_flat(w.local).is_xor,
{
    lemma_window_row(local, Row::Local);
    let row = BitwiseRow::from_flat(w.local);
    assert forall|j: int| 0 <= j < 8 implies cells(local.bits_1@[i]@, w)[j] == limb_bits(
        row.bits_1,
        i,
    )[j] by {
        assert(local.bits_1@[i]@[j] == (Var { row: Row::Local, column: (8 + 8 * i + j) as usize }));
    }
    assert(cells(local.bits_1@[i]@, w) =~= limb_bits(row.bits_1, i));
    assert forall|j: int| 0 <= j < 8 implies cells(local.bits_2@[i]@, w)[j] == limb_bits(
        row.bits_2,
        i,
    )[j] by {
        assert(local.bits_2@[i]@[j] == (Var { row: Row::Local, column: (40 + 8 * i + j) as usize }));
    }
    assert(cells(local.bits_2@[i]@, w) =~= limb_bits(row.bits_2, i));
}

/// The cells of a window row lie within the row's width.
proof fn lemma_cells_in_row(local: Bitwise32Cols<Var>, width: int)
    requires
        is_window_row(local, Row::Local),
        NUM_BITWISE_COLS <= width,
    ensures
        forall|i: int| 0 <= i < 4 ==> cells_fit(#[trigger] local.bits_1@[i]@, width),
        forall|i: int| 0 <= i < 4 ==> cells_fit(#[trigger] local.bits_2@[i]@, width),
        forall|i: int| 0 <= i < 4 ==> (#[trigger] local.input_1@[i]).column < width,
        forall|i: int| 0 <= i < 4 ==> (#[trigger] local.input_2@[i]).column < width,
        forall|i: int| 0 <= i < 4 ==> (#[trigger] local.output@[i]).column < width,
        local.is_and.column < width,
        local.is_or.column < width,
        local.is_xor.column < width,
{
    lemma_window_row(local, Row::Local);
    assert forall|i: int| 0 <= i < 4 implies cells_fit(#[trigger] local.bits_1@[i]@, width) by {
        assert forall|j: int| 0 <= j < 8 implies (#[trigger] local.bits_1@[i]@[j]).column
            < width by {}
    }
    assert forall|i: int| 0 <= i < 4 implies cells_fit(#[trigger] local.bits_2@[i]@, width) by {
        assert forall|j: int| 0 <= j < 8 implies (#[trigger] local.bits_2@[i]@[j]).column
            < width by {}
    }
}

impl Bitwise32Chip {
    /// The number of columns of the chip's trace.
    pub fn width(&self) -> (n: usize)
        ensures
            n == NUM_BITWISE_COLS,
    {
        NUM_BITWISE_COLS
    }

    /// Writes the chip's predicate on the current row of the main trace into
    /// `builder`, in 80 constraints: one for each of the 64 bits, one for
    /// each of the 8 input limbs, four on the flags and one for each of the
    /// 4 output limbs.
    pub fn eval(&self, builder: &mut ConstraintBuilder)
        ensures
            final(builder)@.len() == old(builder)@.len() + 80,
            forall|w: Window, at: Position, p: int|
                w.local.len() == NUM_BITWISE_COLS ==> (#[trigger] final(builder).holds(w, at, p)
                    <==> old(builder).holds(w, at, p) && bitwise_row_holds(
                    BitwiseRow::from_flat(w.local),
                    p,
                )),
            forall|width: int|
                old(builder).fits(width) && NUM_BITWISE_COLS <= width
                    ==> #[trigger] final(builder).fits(width),
    {
        let main_local = window_row(Row::Local, NUM_BITWISE_COLS);
        let local = Bitwise32Cols::from_row(main_local.as_slice()).unwrap();
        let ghost b0 = *builder;

        // Every bit is zero or one
        let mut k: usize = 0;
        while k < 32
            invariant
                0 <= k <= 32,
                is_window_row(local, Row::Local),
                builder@.len() == b0@.len() + 2 * k,
                forall|w: Window, at: Position, p: int|
                    w.local.len() == NUM_BITWISE_COLS ==> (#[trigger] builder.holds(w, at, p)
                        <==> b0.holds(w, at, p) && forall|m: int|
                        0 <= m < k ==> #[trigger] bit_pair_boolean(
                            BitwiseRow::from_flat(w.local),
                            m,
                            p,
                        )),
                forall|width: int|
                    b0.fits(width) && NUM_BITWISE_COLS <= width ==> #[trigger] builder.fits(width),
            decreases 32 - k,
        {
            let ghost before = *builder;
            let i = k / 8;
            let j = k % 8;
            let x = local.bits_1[i][j];
            let y = local.bits_2[i][j];
            builder.assert_bool_in(Scope::every(), Expr::var(x));
            builder.assert_bool_in(Scope::every(), Expr::var(y));
            proof {
                lemma_window_row(local, Row::Local);
                assert(x == local.bits_1@[i as int]@[j as int]);
                assert(y == local.bits_2@[i as int]@[j as int]);
                assert(x == (Var { row: Row::Local, column: (8 + k) as usize }));
                assert(y == (Var { row: Row::Local, column: (40 + k) as usize }));
                assert forall|w: Window, at: Position, p: int|
                    w.local.len() == NUM_BITWISE_COLS implies (#[trigger] builder.holds(w, at, p)
                    <==> b0.holds(w, at, p) && forall|m: int|
                    0 <= m < k + 1 ==> #[trigger] bit_pair_boolean(
                        BitwiseRow::from_flat(w.local),
                        m,
                        p,
                    )) by {
                    let row = BitwiseRow::from_flat(w.local);
                    assert(before.holds(w, at, p) <==> b0.holds(w, at, p) && forall|m: int|
                        0 <= m < k ==> #[trigger] bit_pair_boolean(row, m, p));
                    assert(Expr::Var(x).value(w) == row.bits_1[k as int]);
                    assert(Expr::Var(y).value(w) == row.bits_2[k as int]);
                    assert(builder.holds(w, at, p) <==> before.holds(w, at, p)
                        && bit_pair_boolean(row, k as int, p));
                }
                assert forall|width: int|
                    b0.fits(width) && NUM_BITWISE_COLS <= width implies #[trigger] builder.fits(
                    width,
                ) by {
                    assert(before.fits(width));
                    assert(Expr::Var(x).fits(width));
                    assert(Expr::Var(y).fits(width));
                }
            }
            k += 1;
        }
        let ghost b1 = *builder;

        // Every input limb is the sum of its bits
        let mut i: usize = 0;
        while i < 4
            invariant
                0 <= i <= 4,
                is_window_row(local, Row::Local),
                builder@.len() == b1@.len() + 2 * i,
                forall|w: Window, at: Position, p: int|
                    w.local.len() == NUM_BITWISE_COLS ==> (#[trigger] builder.holds(w, at, p)
                        <==> b1.holds(w, at, p) && forall|m: int|
                        0 <= m < i ==> #[trigger] limb_recomposed(
                            BitwiseRow::from_flat(w.local),
                            m,
                            p,
                        )),
                forall|width: int|
                    b1.fits(width) && NUM_BITWISE_COLS <= width ==> #[trigger] builder.fits(width),
            decreases 4 - i,
        {
            let ghost before = *builder;
            let sum_1 = recompose(&local.bits_1[i]);
            let sum_2 = recompose(&local.bits_2[i]);
            let ghost (s1, s2) = (sum_1, sum_2);
            let limb_1 = local.input_1.limb(i);
            let limb_2 = local.input_2.limb(i);
            builder.assert_eq(Expr::var(limb_1), sum_1);
            builder.assert_eq(Expr::var(limb_2), sum_2);
            proof {
                assert forall|w: Window, at: Position, p: int|
                    w.local.len() == NUM_BITWISE_COLS implies (#[trigger] builder.holds(w, at, p)
                    <==> b1.holds(w, at, p) && forall|m: int|
                    0 <= m < i + 1 ==> #[trigger] limb_recomposed(
                        BitwiseRow::from_flat(w.local),
                        m,
                        p,
                    )) by {
                    let row = BitwiseRow::from_flat(w.local);
                    lemma_limb_cells(local, w, i as int);
                    assert(before.holds(w, at, p) <==> b1.holds(w, at, p) && forall|m: int|
                        0 <= m < i ==> #[trigger] limb_recomposed(row, m, p));
                    assert(Expr::Var(limb_1).value(w) == row.input_1[i as int]);
                    assert(Expr::Var(limb_2).value(w) == row.input_2[i as int]);
                    assert(s1.value(w) == weighted_bits(limb_bits(row.bits_1, i as int), 8));
                    assert(s2.value(w) == weighted_bits(limb_bits(row.bits_2, i as int), 8));
                    assert(builder.holds(w, at, p) <==> before.holds(w, at, p) && limb_recomposed(
                        row,
                        i as int,
                        p,
                    ));
                }
                assert forall|width: int|
                    b1.fits(width) && NUM_BITWISE_COLS <= width implies #[trigger] builder.fits(
                    width,
                ) by {
                    lemma_cells_in_row(local, width);
                    assert(before.fits(width));
                    assert(cells_fit(local.bits_1@[i as int]@, width));
                    assert(cells_fit(local.bits_2@[i as int]@, width));
                    assert(s1.fits(width) && s2.fits(width));
                    assert(Expr::Var(limb_1).fits(width));
                    assert(Expr::Var(limb_2).fits(width));
                }
            }
            i += 1;
        }
        let ghost b2 = *builder;

        // One operation at most
        let flags = Expr::var(local.is_and).plus(Expr::var(local.is_or)).plus(
            Expr::var(local.is_xor),
        );
        let ghost flags_g = flags;
        builder.assert_bool_in(Scope::every(), Expr::var(local.is_and));
        builder.assert_bool_in(Scope::every(), Expr::var(local.is_or));
        builder.assert_bool_in(Scope::every(), Expr::var(local.is_xor));
        builder.assert_bool_in(Scope::every(), flags);
        let ghost b3 = *builder;
        proof {
            assert(b3@.len() == b0@.len() + 76);
            reveal_with_fuel(Expr::value, 4);
            reveal_with_fuel(Expr::fits, 4);
            assert forall|w: Window, at: Position, p: int|
                w.local.len() == NUM_BITWISE_COLS implies (#[trigger] b3.holds(w, at, p)
                <==> b2.holds(w, at, p) && flags_hold(BitwiseRow::from_flat(w.local), p)) by {
                let row = BitwiseRow::from_flat(w.local);
                lemma_limb_cells(local, w, 0);
                assert(Expr::Var(local.is_and).value(w) == row.is_and);
                assert(Expr::Var(local.is_or).value(w) == row.is_or);
                assert(Expr::Var(local.is_xor).value(w) == row.is_xor);
                assert(flags_g.value(w) == row.is_and + row.is_or + row.is_xor);
            }
            assert forall|width: int|
                b2.fits(width) && NUM_BITWISE_COLS <= width implies #[trigger] b3.fits(width) by {
                lemma_cells_in_row(local, width);
                assert(flags_g.fits(width));
            }
        }

        // Every output limb is what the flags select
        let mut i: usize = 0;
        while i < 4
            invariant
                0 <= i <= 4,
                is_window_row(local, Row::Local),
                builder@.len() == b3@.len() + i,
                b3@.len() == b0@.len() + 76,
                forall|w: Window, at: Position, p: int|
                    w.local.len() == NUM_BITWISE_COLS ==> (#[trigger] builder.holds(w, at, p)
                        <==> b3.holds(w, at, p) && forall|m: int|
                        0 <= m < i ==> #[trigger] limb_selected(
                            BitwiseRow::from_flat(w.local),
                            m,
                            p,
                        )),
                forall|width: int|
                    b3.fits(width) && NUM_BITWISE_COLS <= width ==> #[trigger] builder.fits(width),
            decreases 4 - i,
        {
            let ghost before = *builder;
            let and = combine(BitOp::And, &local.bits_1[i], &local.bits_2[i]);
            let or = combine(BitOp::Or, &local.bits_1[i], &local.bits_2[i]);
            let xor = combine(BitOp::Xor, &local.bits_1[i], &local.bits_2[i]);
            let ghost (and_g, or_g, xor_g) = (and, or, xor);
            let choice = Expr::var(local.is_and).times(and).plus(
                Expr::var(local.is_or).times(or),
            ).plus(Expr::var(local.is_xor).times(xor));
            let ghost choice_g = choice;
            let limb = local.output.limb(i);
            builder.assert_eq(Expr::var(limb), choice);
            proof {
                reveal_with_fuel(Expr::value, 4);
                reveal_with_fuel(Expr::fits, 4);
                assert forall|w: Window, at: Position, p: int|
                    w.local.len() == NUM_BITWISE_COLS implies (#[trigger] builder.holds(w, at, p)
                    <==> b3.holds(w, at, p) && forall|m: int|
                    0 <= m < i + 1 ==> #[trigger] limb_selected(
                        BitwiseRow::from_flat(w.local),
                        m,
                        p,
                    )) by {
                    let row = BitwiseRow::from_flat(w.local);
                    lemma_limb_cells(local, w, i as int);
                    assert(before.holds(w, at, p) <==> b3.holds(w, at, p) && forall|m: int|
                        0 <= m < i ==> #[trigger] limb_selected(row, m, p));
                    let xs = limb_bits(row.bits_1, i as int);
                    let ys = limb_bits(row.bits_2, i as int);
                    assert(and_g.value(w) == weighted_terms(BitOp::And, xs, ys, 8));
                    assert(or_g.value(w) == weighted_terms(BitOp::Or, xs, ys, 8));
                    assert(xor_g.value(w) == weighted_terms(BitOp::Xor, xs, ys, 8));
                    assert(choice_g.value(w) == row.is_and * and_g.value(w) + row.is_or
                        * or_g.value(w) + row.is_xor * xor_g.value(w));
                    assert(choice_g.value(w) == selected(row, i as int));
                    assert(Expr::Var(limb).value(w) == row.output[i as int]);
                    assert(builder.holds(w, at, p) <==> before.holds(w, at, p) && limb_selected(
                        row,
                        i as int,
                        p,
                    ));
                }
                assert forall|width: int|
                    b3.fits(width) && NUM_BITWISE_COLS <= width implies #[trigger] builder.fits(
                    width,
                ) by {
                    lemma_cells_in_row(local, width);
                    assert(before.fits(width));
                    assert(cells_fit(local.bits_1@[i as int]@, width));
                    assert(cells_fit(local.bits_2@[i as int]@, width));
                    assert(and_g.fits(width) && or_g.fits(width) && xor_g.fits(width));
                    assert(choice_g.fits(width));
                    assert(Expr::Var(limb).fits(width));
                }
            }
            i += 1;
        }

        proof {
            assert forall|w: Window, at: Position, p: int|
                w.local.len() == NUM_BITWISE_COLS implies (#[trigger] builder.holds(w, at, p)
                <==> b0.holds(w, at, p) && bitwise_row_holds(
                BitwiseRow::from_flat(w.local),
                p,
            )) by {
                let row = BitwiseRow::from_flat(w.local);
                assert(b1.holds(w, at, p) <==> b0.holds(w, at, p) && forall|m: int|
                    0 <= m < 32 ==> #[trigger] bit_pair_boolean(row, m, p));
                assert(b2.holds(w, at, p) <==> b1.holds(w, at, p) && forall|m: int|
                    0 <= m < 4 ==> #[trigger] limb_recomposed(row, m, p));
                assert(b3.holds(w, at, p) <==> b2.holds(w, at, p) && flags_hold(row, p));
                assert(builder.holds(w, at, p) <==> b3.holds(w, at, p) && forall|m: int|
                    0 <= m < 4 ==> #[trigger] limb_selected(row, m, p));
            }
            assert forall|width: int|
                b0.fits(width) && NUM_BITWISE_COLS <= width implies #[trigger] builder.fits(
                width,
            ) by {
                assert(b1.fits(width));
                assert(b2.fits(width));
                assert(b3.fits(width));
            }
        }
    }
}

/// The chip's predicate on a window at a position.
pub open spec fn bitwise_step(p: int) -> spec_fn(Window, Position) -> bool {
    |w: Window, at: Position| bitwise_row_holds(BitwiseRow::from_flat(w.local), p)
}

/// The chip's predicate holds on the window of every row of a trace.
pub open spec fn bitwise_trace_holds(values: Seq<u64>, width: nat, p: int) -> bool {
    steps_hold(values, width, bitwise_step(p))
}

impl Bitwise32Chip {
    /// The chip's predicate as a constraint system of its own.
    pub fn constraints(&self) -> (builder: ConstraintBuilder)
        ensures
            builder@.len() == 80,
            forall|w: Window, at: Position, p: int|
                w.local.len() == NUM_BITWISE_COLS ==> (
                #[trigger] builder.holds(w, at, p) <==> bitwise_row_holds(
                    BitwiseRow::from_flat(w.local),
                    p,
                )),
            builder.fits(NUM_BITWISE_COLS as int),
    {
        let mut builder = ConstraintBuilder::new();
        self.eval(&mut builder);
        builder
    }

    /// Whether `trace` meets the chip's predicate on every row, modulo `p`:
    /// `None` unless the trace has the width of the chip.
    pub fn check(&self, trace: &DenseMatrix<u64, Vec<u64>>, p: u64) -> (r: Option<bool>)
        requires
            p > 0,
        ensures
            r.is_some() <==> matrix_width(*trace) == NUM_BITWISE_COLS,
            r.is_some() ==> r.unwrap() == bitwise_trace_holds(
                matrix_values(*trace),
                matrix_width(*trace),
                p as int,
            ),
    {
        if width(trace) != NUM_BITWISE_COLS {
            return None;
        }
        let builder = self.constraints();
        let r = check_trace(&builder, trace, p);
        proof {
            lemma_trace_means(
                builder,
                matrix_values(*trace),
                matrix_width(*trace),
                p as int,
                bitwise_step(p as int),
            );
        }
        r
    }
}

} // verus!
