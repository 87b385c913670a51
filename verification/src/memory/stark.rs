//! The constraints of the memory chip.
//!
//! The log is sorted by address and, within an address, by clock. Each row
//! tells by a flag whether the next row is at another address, and holds in
//! `diff` the distance to it: in address where that changes, in clock
//! otherwise. That `diff` is small, so that the log is indeed sorted, is for
//! a range check to show; the chip offers its counter columns for it.
//!
//! A row is an initial value, a read, a write, or none of these. A value
//! changes only by a write: an address starts with a write or an initial
//! value, and every row that is no write repeats the value before it.

use crate::builder::{position, ConstraintBuilder, Position, RowFilter, Scope};
use crate::expr::{window_row, Expr, Row, Var, Window};
use crate::field::{boolean, congruent, vanishes};
use crate::is_zero::{
    assert_indicates_nonzero, assert_inverse_or_zero, indicates_nonzero, inverse_or_zero,
};
use crate::memory::columns::{
    is_window_row, lemma_window_row, MemoryCols, MemoryRow, NUM_MEM_COLS,
};
use crate::memory::MemoryChip;
use crate::matrix::{matrix_values, matrix_width, width};
use crate::trace::{check_trace, lemma_trace_means, step_at, steps_hold};
use p3_matrix::dense::DenseMatrix;
use vstd::prelude::*;

verus! {

/// The flags are zero or one, and a row is of one kind at most: an initial
/// value, a read or a write.
pub open spec fn memory_flags_hold(row: MemoryRow, p: int) -> bool {
    &&& boolean(row.is_static_initial, p)
    &&& boolean(row.is_read, p)
    &&& boolean(row.is_write, p)
    &&& boolean(row.addr_not_equal, p)
    &&& boolean(row.is_static_initial + row.is_read + row.is_write, p)
}

/// `diff_inv` inverts `diff`; before a next row, `addr_not_equal` tells
/// whether the address changes, and `diff` is the change in address where it
/// does and the advance of the clock where it does not.
pub open spec fn memory_order_holds(local: MemoryRow, next: MemoryRow, at: Position, p: int) -> bool {
    &&& inverse_or_zero(local.diff, local.diff_inv, p)
    &&& !at.last ==> indicates_nonzero(
        next.addr - local.addr,
        local.diff_inv,
        local.addr_not_equal,
        p,
    )
    &&& !at.last ==> congruent(
        local.diff,
        local.addr_not_equal * (next.addr - local.addr) + (1 - local.addr_not_equal) * (next.clk
            - local.clk),
        p,
    )
}

/// Limb `k` of a row that is no write, at the address of the row before
/// it, is that row's.
pub open spec fn memory_limb_kept(local: MemoryRow, next: MemoryRow, k: int, p: int) -> bool {
    vanishes(
        (1 - next.is_write) * (1 - local.addr_not_equal) * (next.value[k] - local.value[k]),
        p,
    )
}

/// Every address starts with a write or an initial value, and an initial
/// value stands nowhere but at the start of its address.
pub open spec fn memory_starts_hold(local: MemoryRow, next: MemoryRow, at: Position, p: int) -> bool {
    &&& at.first ==> congruent(local.is_static_initial + local.is_write, 1, p)
    &&& !at.last ==> vanishes(
        local.addr_not_equal * (1 - next.is_static_initial - next.is_write),
        p,
    )
    &&& !at.last ==> vanishes((1 - local.addr_not_equal) * next.is_static_initial, p)
}

/// A value changes only by a write: every address starts with a write or an
/// initial value, and a row that is no write holds the value of the row
/// before it at its address. So a read returns what was last written, or
/// the initial value where nothing was.
pub open spec fn memory_values_hold(local: MemoryRow, next: MemoryRow, at: Position, p: int) -> bool {
    &&& memory_starts_hold(local, next, at, p)
    &&& !at.last ==> forall|k: int| 0 <= k < 4 ==> memory_limb_kept(local, next, k, p)
}

/// The counter of the local range check starts at zero and grows by one
/// from a row to the next.
pub open spec fn memory_counter_holds(
    local: MemoryRow,
    next: MemoryRow,
    at: Position,
    p: int,
) -> bool {
    &&& at.first ==> vanishes(local.counter, p)
    &&& !at.last ==> congruent(next.counter, local.counter + 1, p)
}

/// The predicate of the chip on a row and its successor.
pub open spec fn memory_row_holds(local: MemoryRow, next: MemoryRow, at: Position, p: int) -> bool {
    &&& memory_flags_hold(local, p)
    &&& memory_order_holds(local, next, at, p)
    &&& memory_values_hold(local, next, at, p)
    &&& memory_counter_holds(local, next, at, p)
}

impl MemoryChip {
    /// The number of columns of the chip's trace.
    pub fn width(&self) -> (n: usize)
        ensures
            n == NUM_MEM_COLS,
    {
        NUM_MEM_COLS
    }

    /// Writes the chip's predicate on the window of the main trace into
    /// `builder`, in 19 constraints.
    pub fn eval(&self, builder: &mut ConstraintBuilder)
        ensures
            final(builder)@.len() == old(builder)@.len() + 19,
            forall|w: Window, at: Position, p: int|
                w.local.len() == NUM_MEM_COLS && w.next.len() == NUM_MEM_COLS ==> (
                #[trigger] final(builder).holds(w, at, p) <==> old(builder).holds(w, at, p)
                    && memory_row_holds(
                    MemoryRow::from_flat(w.local),
                    MemoryRow::from_flat(w.next),
                    at,
                    p,
                )),
            forall|width: int|
                old(builder).fits(width) && NUM_MEM_COLS <= width
                    ==> #[trigger] final(builder).fits(width),
    {
        let main_local = window_row(Row::Local, NUM_MEM_COLS);
        let main_next = window_row(Row::Next, NUM_MEM_COLS);
        let local = MemoryCols::from_row(main_local.as_slice()).unwrap();
        let next = MemoryCols::from_row(main_next.as_slice()).unwrap();
        proof {
            lemma_window_row(local, Row::Local);
            lemma_window_row(next, Row::Next);
        }
        let ghost b0 = *builder;

        // Flags
        builder.assert_bool_in(Scope::every(), Expr::var(local.is_static_initial));
        builder.assert_bool_in(Scope::every(), Expr::var(local.is_read));
        builder.assert_bool_in(Scope::every(), Expr::var(local.is_write));
        builder.assert_bool_in(Scope::every(), Expr::var(local.addr_not_equal));
        let kinds = Expr::var(local.is_static_initial).plus(Expr::var(local.is_read)).plus(
            Expr::var(local.is_write),
        );
        let ghost kinds_g = kinds;
        builder.assert_bool_in(Scope::every(), kinds);
        let ghost b1 = *builder;
        proof {
            reveal_with_fuel(Expr::value, 4);
            reveal_with_fuel(Expr::fits, 4);
            assert forall|w: Window, at: Position, p: int|
                w.local.len() == NUM_MEM_COLS && w.next.len()
                    == NUM_MEM_COLS implies #[trigger] b1.holds(w, at, p) <==> b0.holds(w, at, p)
                && memory_flags_hold(MemoryRow::from_flat(w.local), p) by {
                let here = MemoryRow::from_flat(w.local);
                assert(kinds_g.value(w) == here.is_static_initial + here.is_read + here.is_write);
                assert(Expr::Var(local.is_static_initial).value(w) == here.is_static_initial);
                assert(Expr::Var(local.is_read).value(w) == here.is_read);
                assert(Expr::Var(local.is_write).value(w) == here.is_write);
                assert(Expr::Var(local.addr_not_equal).value(w) == here.addr_not_equal);
            }
            assert forall|width: int|
                b0.fits(width) && NUM_MEM_COLS <= width implies #[trigger] b1.fits(width) by {
                assert(kinds_g.fits(width));
            }
        }

        // Order of the log
        let addr_delta = Expr::var(next.addr).minus(Expr::var(local.addr));
        let clk_delta = Expr::var(next.clk).minus(Expr::var(local.clk));
        let addr_equal = Expr::one().minus(Expr::var(local.addr_not_equal));
        let choice = Expr::var(local.addr_not_equal).times(addr_delta.clone()).plus(
            addr_equal.clone().times(clk_delta),
        );
        let ghost (delta_g, choice_g) = (addr_delta, choice);
        assert_inverse_or_zero(
            builder,
            RowFilter::Every,
            Expr::var(local.diff),
            Expr::var(local.diff_inv),
        );
        assert_indicates_nonzero(
            builder,
            RowFilter::Transition,
            addr_delta,
            Expr::var(local.diff_inv),
            Expr::var(local.addr_not_equal),
        );
        builder.assert_eq_in(Scope::transition(), Expr::var(local.diff), choice);
        let ghost b2 = *builder;
        proof {
            reveal_with_fuel(Expr::value, 5);
            reveal_with_fuel(Expr::fits, 5);
            assert forall|w: Window, at: Position, p: int|
                w.local.len() == NUM_MEM_COLS && w.next.len()
                    == NUM_MEM_COLS implies #[trigger] b2.holds(w, at, p) <==> b1.holds(w, at, p)
                && memory_order_holds(
                MemoryRow::from_flat(w.local),
                MemoryRow::from_flat(w.next),
                at,
                p,
            ) by {
                let here = MemoryRow::from_flat(w.local);
                let there = MemoryRow::from_flat(w.next);
                assert(delta_g.value(w) == there.addr - here.addr);
                assert(choice_g.value(w) == here.addr_not_equal * (there.addr - here.addr) + (1
                    - here.addr_not_equal) * (there.clk - here.clk));
                assert(Expr::Var(local.diff).value(w) == here.diff);
                assert(Expr::Var(local.diff_inv).value(w) == here.diff_inv);
                assert(Expr::Var(local.addr_not_equal).value(w) == here.addr_not_equal);
            }
            assert forall|width: int|
                b1.fits(width) && NUM_MEM_COLS <= width implies #[trigger] b2.fits(width) by {
                assert(delta_g.fits(width));
                assert(choice_g.fits(width));
            }
        }

        // Values
        let starts = Expr::var(local.is_static_initial).plus(Expr::var(local.is_write));
        let no_start = Expr::one().minus(Expr::var(next.is_static_initial)).minus(
            Expr::var(next.is_write),
        );
        let fresh = Expr::var(local.addr_not_equal).times(no_start);
        let stale = addr_equal.clone().times(Expr::var(next.is_static_initial));
        let ghost (starts_g, fresh_g, stale_g) = (starts, fresh, stale);
        builder.assert_one_in(Scope::first_row(), starts);
        builder.assert_zero_in(Scope::transition(), fresh);
        builder.assert_zero_in(Scope::transition(), stale);
        let ghost b3 = *builder;
        proof {
            reveal_with_fuel(Expr::value, 5);
            reveal_with_fuel(Expr::fits, 5);
            assert forall|w: Window, at: Position, p: int|
                w.local.len() == NUM_MEM_COLS && w.next.len()
                    == NUM_MEM_COLS implies #[trigger] b3.holds(w, at, p) <==> b2.holds(w, at, p)
                && memory_starts_hold(
                MemoryRow::from_flat(w.local),
                MemoryRow::from_flat(w.next),
                at,
                p,
            ) by {
                let here = MemoryRow::from_flat(w.local);
                let there = MemoryRow::from_flat(w.next);
                assert(starts_g.value(w) == here.is_static_initial + here.is_write);
                assert(fresh_g.value(w) == here.addr_not_equal * (1 - there.is_static_initial
                    - there.is_write));
                assert(stale_g.value(w) == (1 - here.addr_not_equal) * there.is_static_initial);
            }
            assert forall|width: int|
                b2.fits(width) && NUM_MEM_COLS <= width implies #[trigger] b3.fits(width) by {
                assert(starts_g.fits(width) && fresh_g.fits(width) && stale_g.fits(width));
            }
            assert(b3@.len() == b0@.len() + 13);
        }
        let mut k: usize = 0;
        while k < 4
            invariant
                0 <= k <= 4,
                is_window_row(local, Row::Local),
                is_window_row(next, Row::Next),
                addr_equal == Expr::Sub(
                    Box::new(Expr::Const(1)),
                    Box::new(Expr::Var(local.addr_not_equal)),
                ),
                builder@.len() == b3@.len() + k,
                forall|w: Window, at: Position, p: int|
                    w.local.len() == NUM_MEM_COLS && w.next.len() == NUM_MEM_COLS ==> (
                    #[trigger] builder.holds(w, at, p) <==> b3.holds(w, at, p) && (!at.last
                        ==> forall|j: int|
                        0 <= j < k ==> memory_limb_kept(
                            MemoryRow::from_flat(w.local),
                            MemoryRow::from_flat(w.next),
                            j,
                            p,
                        ))),
                forall|width: int|
                    b3.fits(width) && NUM_MEM_COLS <= width ==> #[trigger] builder.fits(width),
            decreases 4 - k,
        {
            let ghost before = *builder;
            let kept = Expr::var(next.value.limb(k)).minus(Expr::var(local.value.limb(k)));
            let not_write = Expr::one().minus(Expr::var(next.is_write));
            let scope = Scope::transition().when(not_write).when(addr_equal.clone());
            let ghost (kept_g, guard_g) = (kept, scope.guard);
            builder.assert_zero_in(scope, kept);
            proof {
                lemma_window_row(local, Row::Local);
                lemma_window_row(next, Row::Next);
                reveal_with_fuel(Expr::value, 4);
                reveal_with_fuel(Expr::fits, 4);
                assert forall|w: Window, at: Position, p: int|
                    w.local.len() == NUM_MEM_COLS && w.next.len()
                        == NUM_MEM_COLS implies #[trigger] builder.holds(w, at, p) <==> b3.holds(
                    w,
                    at,
                    p,
                ) && (!at.last ==> forall|j: int|
                    0 <= j < k + 1 ==> memory_limb_kept(
                        MemoryRow::from_flat(w.local),
                        MemoryRow::from_flat(w.next),
                        j,
                        p,
                    )) by {
                    let here = MemoryRow::from_flat(w.local);
                    let there = MemoryRow::from_flat(w.next);
                    assert(before.holds(w, at, p) <==> b3.holds(w, at, p) && (!at.last
                        ==> forall|j: int| 0 <= j < k ==> memory_limb_kept(here, there, j, p)));
                    assert(kept_g.value(w) == there.value[k as int] - here.value[k as int]);
                    assert(guard_g == Some(
                        Expr::Mul(
                            Box::new(
                                Expr::Sub(
                                    Box::new(Expr::Const(1)),
                                    Box::new(Expr::Var(next.is_write)),
                                ),
                            ),
                            Box::new(addr_equal),
                        ),
                    ));
                    assert(guard_g.unwrap().value(w) == (1 - there.is_write) * (1
                        - here.addr_not_equal));
                    assert(builder.holds(w, at, p) <==> before.holds(w, at, p) && (!at.last
                        ==> memory_limb_kept(here, there, k as int, p)));
                }
                assert forall|width: int|
                    b3.fits(width) && NUM_MEM_COLS <= width implies #[trigger] builder.fits(
                    width,
                ) by {
                    assert(before.fits(width));
                    assert(kept_g.fits(width));
                    assert(guard_g.unwrap().fits(width));
                }
            }
            k += 1;
        }
        let ghost b4 = *builder;

        // Local range check counter
        let bumped = Expr::var(local.counter).plus(Expr::one());
        let ghost bumped_g = bumped;
        builder.assert_zero_in(Scope::first_row(), Expr::var(local.counter));
        builder.assert_eq_in(Scope::transition(), Expr::var(next.counter), bumped);

        proof {
            reveal_with_fuel(Expr::value, 3);
            reveal_with_fuel(Expr::fits, 3);
            assert forall|w: Window, at: Position, p: int|
                w.local.len() == NUM_MEM_COLS && w.next.len()
                    == NUM_MEM_COLS implies #[trigger] builder.holds(w, at, p) <==> b0.holds(
                w,
                at,
                p,
            ) && memory_row_holds(
                MemoryRow::from_flat(w.local),
                MemoryRow::from_flat(w.next),
                at,
                p,
            ) by {
                let here = MemoryRow::from_flat(w.local);
                let there = MemoryRow::from_flat(w.next);
                assert(bumped_g.value(w) == here.counter + 1);
                assert(Expr::Var(local.counter).value(w) == here.counter);
                assert(Expr::Var(next.counter).value(w) == there.counter);
                assert(builder.holds(w, at, p) <==> b4.holds(w, at, p) && memory_counter_holds(
                    here,
                    there,
                    at,
                    p,
                ));
                assert(b4.holds(w, at, p) <==> b3.holds(w, at, p) && (!at.last ==> forall|j: int|
                    0 <= j < 4 ==> memory_limb_kept(here, there, j, p)));
                assert(b3.holds(w, at, p) <==> b2.holds(w, at, p) && memory_starts_hold(
                    here,
                    there,
                    at,
                    p,
                ));
                assert(b2.holds(w, at, p) <==> b1.holds(w, at, p) && memory_order_holds(
                    here,
                    there,
                    at,
                    p,
                ));
                assert(b1.holds(w, at, p) <==> b0.holds(w, at, p) && memory_flags_hold(here, p));
            }
            assert forall|width: int|
                b0.fits(width) && NUM_MEM_COLS <= width implies #[trigger] builder.fits(width) by {
                assert(b1.fits(width));
                assert(b2.fits(width));
                assert(b3.fits(width));
                assert(b4.fits(width));
                assert(bumped_g.fits(width));
            }
        }
    }
}

/// The chip's predicate on a window at a position.
pub open spec fn memory_step(p: int) -> spec_fn(Window, Position) -> bool {
    |w: Window, at: Position| memory_row_holds(MemoryRow::from_flat(w.local), MemoryRow::from_flat(w.next), at, p)
}

/// The chip's predicate holds on the window of row `r` of a trace.
pub open spec fn memory_step_holds(values: Seq<u64>, width: nat, r: int, p: int) -> bool {
    step_at(values, width, r, memory_step(p))
}

/// The chip's predicate holds on the window of every row of a trace.
pub open spec fn memory_trace_holds(values: Seq<u64>, width: nat, p: int) -> bool {
    steps_hold(values, width, memory_step(p))
}

impl MemoryChip {
    /// The chip's predicate as a constraint system of its own.
    pub fn constraints(&self) -> (builder: ConstraintBuilder)
        ensures
            builder@.len() == 19,
            forall|w: Window, at: Position, p: int|
                w.local.len() == NUM_MEM_COLS && w.next.len() == NUM_MEM_COLS ==> (
                #[trigger] builder.holds(w, at, p) <==> memory_row_holds(
                    MemoryRow::from_flat(w.local),
                    MemoryRow::from_flat(w.next),
                    at,
                    p,
                )),
            builder.fits(NUM_MEM_COLS as int),
    {
        let mut builder = ConstraintBuilder::new();
        self.eval(&mut builder);
        builder
    }

    /// Whether `trace` meets the chip's predicate on every row, modulo `p`:
    /// `None` unless the trace has the width of the chip.
    pub fn check(&self, trace: &DenseMatrix<u64, Vec<u64>>, p: u64) -> (r: Option<bool>)
        requires
            p > 0,
        ensures
            r.is_some() <==> matrix_width(*trace) == NUM_MEM_COLS,
            r.is_some() ==> r.unwrap() == memory_trace_holds(
                matrix_values(*trace),
                matrix_width(*trace),
                p as int,
            ),
    {
        if width(trace) != NUM_MEM_COLS {
            return None;
        }
        let builder = self.constraints();
        let r = check_trace(&builder, trace, p);
        proof {
            lemma_trace_means(
                builder,
                matrix_values(*trace),
                matrix_width(*trace),
                p as int,
                memory_step(p as int),
            );
        }
        r
    }
}

} // verus!
