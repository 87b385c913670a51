//! The constraints of the output chip.

use crate::builder::{position, ConstraintBuilder, Position, Scope};
use crate::expr::{window_row, Expr, Row, Var, Window};
use crate::field::{
    congruent, is_prime, lemma_canonical_equal, lemma_multiple_vanishes, vanishes,
};
use crate::matrix::{matrix_values, matrix_width, width};
use crate::trace::{check_trace, lemma_trace_means, steps_hold};
use p3_matrix::dense::DenseMatrix;
use crate::opcodes::WRITE;
use crate::output::columns::{OutputCols, OutputRow, NUM_OUTPUT_COLS};
use crate::output::OutputChip;
use vstd::arithmetic::div_mod::*;
use vstd::prelude::*;

verus! {

/// From a row to the next, `diff` is the clock's advance.
pub open spec fn output_clock_holds(local: OutputRow, next: OutputRow, at: Position, p: int) -> bool {
    !at.last ==> congruent(local.diff, next.clk - local.clk, p)
}

/// From a row to the next, the counter grows by one.
pub open spec fn output_counter_holds(
    local: OutputRow,
    next: OutputRow,
    at: Position,
    p: int,
) -> bool {
    !at.last ==> congruent(next.counter, local.counter + 1, p)
}

/// A row that is real carries the opcode of a write.
pub open spec fn output_opcode_holds(local: OutputRow, p: int) -> bool {
    vanishes(local.is_real * (local.opcode - WRITE), p)
}

/// The predicate of the chip on a row and its successor.
pub open spec fn output_row_holds(local: OutputRow, next: OutputRow, at: Position, p: int) -> bool {
    &&& output_clock_holds(local, next, at, p)
    &&& output_counter_holds(local, next, at, p)
    &&& output_opcode_holds(local, p)
}

impl OutputChip {
    /// The number of columns of the chip's trace.
    pub fn width(&self) -> (n: usize)
        ensures
            n == NUM_OUTPUT_COLS,
    {
        NUM_OUTPUT_COLS
    }

    /// Writes the chip's predicate on the window of the main trace into
    /// `builder`, in three constraints.
    pub fn eval(&self, builder: &mut ConstraintBuilder)
        ensures
            final(builder)@.len() == old(builder)@.len() + 3,
            forall|w: Window, at: Position, p: int|
                w.local.len() == NUM_OUTPUT_COLS && w.next.len() == NUM_OUTPUT_COLS ==> (
                #[trigger] final(builder).holds(w, at, p) <==> old(builder).holds(w, at, p)
                    && output_row_holds(
                    OutputRow::from_flat(w.local),
                    OutputRow::from_flat(w.next),
                    at,
                    p,
                )),
            forall|width: int|
                old(builder).fits(width) && NUM_OUTPUT_COLS <= width
                    ==> #[trigger] final(builder).fits(width),
    {
        let main_local = window_row(Row::Local, NUM_OUTPUT_COLS);
        let main_next = window_row(Row::Next, NUM_OUTPUT_COLS);
        let local = OutputCols::from_row(main_local.as_slice()).unwrap();
        let next = OutputCols::from_row(main_next.as_slice()).unwrap();
        proof {
            assert(local.flat() == main_local@ && next.flat() == main_next@);
        }
        let ghost b0 = *builder;

        // Range check constraints
        let advance = Expr::var(next.clk).minus(Expr::var(local.clk));
        let bumped = Expr::var(local.counter).plus(Expr::one());
        let ghost (advance_g, bumped_g) = (advance, bumped);
        builder.assert_eq_in(Scope::transition(), Expr::var(local.diff), advance);
        builder.assert_eq_in(Scope::transition(), Expr::var(next.counter), bumped);

        // Bus opcode constraint
        builder.assert_eq_in(
            Scope::every().when(Expr::var(local.is_real)),
            Expr::var(local.opcode),
            Expr::from_canonical_u32(WRITE),
        );

        proof {
            reveal_with_fuel(Expr::value, 3);
            reveal_with_fuel(Expr::fits, 3);
            assert forall|w: Window, at: Position, p: int|
                w.local.len() == NUM_OUTPUT_COLS && w.next.len()
                    == NUM_OUTPUT_COLS implies #[trigger] builder.holds(w, at, p) <==> b0.holds(
                w,
                at,
                p,
            ) && output_row_holds(
                OutputRow::from_flat(w.local),
                OutputRow::from_flat(w.next),
                at,
                p,
            ) by {
                let here = OutputRow::from_flat(w.local);
                let there = OutputRow::from_flat(w.next);
                assert(advance_g.value(w) == there.clk - here.clk);
                assert(bumped_g.value(w) == here.counter + 1);
                assert(Expr::Var(local.diff).value(w) == here.diff);
                assert(Expr::Var(next.counter).value(w) == there.counter);
                assert(Expr::Var(local.is_real).value(w) == here.is_real);
                assert(Expr::Var(local.opcode).value(w) == here.opcode);
            }
            assert forall|width: int|
                b0.fits(width) && NUM_OUTPUT_COLS <= width implies #[trigger] builder.fits(
                width,
            ) by {
                assert(advance_g.fits(width) && bumped_g.fits(width));
            }
        }
    }
}

/// Modulo a prime above the opcode, a real row meets the opcode constraint
/// exactly when its opcode is that of a write.
pub proof fn lemma_real_row_writes(row: OutputRow, p: int)
    requires
        is_prime(p),
        WRITE < p,
        0 <= row.opcode < p,
        row.is_real == 1,
    ensures
        output_opcode_holds(row, p) <==> row.opcode == WRITE,
{
    assert(row.is_real * (row.opcode - WRITE) == row.opcode - WRITE);
    if output_opcode_holds(row, p) {
        lemma_canonical_equal(row.opcode, WRITE as int, p);
    }
    if row.opcode == WRITE {
        lemma_multiple_vanishes(0, p);
    }
}

/// A row that only pads the trace meets the opcode constraint whatever its
/// opcode.
pub proof fn lemma_padding_row_free(row: OutputRow, p: int)
    requires
        p > 0,
        row.is_real == 0,
    ensures
        output_opcode_holds(row, p),
{
    assert(row.is_real * (row.opcode - WRITE) == 0);
    lemma_multiple_vanishes(0, p);
}

/// Between canonical clocks, the transition constraint holds exactly when
/// `diff` is the canonical form of the clock's advance.
pub proof fn lemma_clock_step(local: OutputRow, next: OutputRow, p: int)
    requires
        p > 0,
        0 <= local.diff < p,
    ensures
        output_clock_holds(local, next, Position { first: false, last: false }, p) <==> local.diff
            == (next.clk - local.clk) % p,
{
    lemma_mod_equivalence(local.diff, next.clk - local.clk, p);
    lemma_small_mod(local.diff as nat, p as nat);
}

/// The chip's predicate on a window at a position.
pub open spec fn output_step(p: int) -> spec_fn(Window, Position) -> bool {
    |w: Window, at: Position| output_row_holds(OutputRow::from_flat(w.local), OutputRow::from_flat(w.next), at, p)
}

/// The chip's predicate holds on the window of every row of a trace.
pub open spec fn output_trace_holds(values: Seq<u64>, width: nat, p: int) -> bool {
    steps_hold(values, width, output_step(p))
}

impl OutputChip {
    /// The chip's predicate as a constraint system of its own.
    pub fn constraints(&self) -> (builder: ConstraintBuilder)
        ensures
            builder@.len() == 3,
            forall|w: Window, at: Position, p: int|
                w.local.len() == NUM_OUTPUT_COLS && w.next.len() == NUM_OUTPUT_COLS ==> (
                #[trigger] builder.holds(w, at, p) <==> output_row_holds(
                    OutputRow::from_flat(w.local),
                    OutputRow::from_flat(w.next),
                    at,
                    p,
                )),
            builder.fits(NUM_OUTPUT_COLS as int),
    {
        let mut builder = ConstraintBuilder::new();
        self.eval(&mut builder);
        builder
    }

    /// Whether `trace` meets the chip's predicate on every row, modulo `p`:
    /// `None` unless the trace has the width of the chip.
    pub fn check(&self, trace: &DenseMatrix<u64, Vec<u64>>, p: u64) -> (r: Option<bool>)
        requires
            p > 0,
        ensures
            r.is_some() <==> matrix_width(*trace) == NUM_OUTPUT_COLS,
            r.is_some() ==> r.unwrap() == output_trace_holds(
                matrix_values(*trace),
                matrix_width(*trace),
                p as int,
            ),
    {
        if width(trace) != NUM_OUTPUT_COLS {
            return None;
        }
        let builder = self.constraints();
        let r = check_trace(&builder, trace, p);
        proof {
            lemma_trace_means(
                builder,
                matrix_values(*trace),
                matrix_width(*trace),
                p as int,
                output_step(p as int),
            );
        }
        r
    }
}

} // verus!
