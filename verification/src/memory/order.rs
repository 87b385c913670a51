//! The memory chip's local range check: that every `diff` is small and
//! not zero.
//!
//! The counter column counts the rows of the log and so is a table of the
//! integers below the log's height. Every row that has a successor looks
//! `diff - 1` up in that table, and `counter_mult` holds, row by row, how
//! often the row's counter is looked up. Where the two reconcile, every
//! `diff` lies between 1 and the height, and the log is strictly in order:
//! addresses grow, and within an address clocks do.

use crate::builder::position;
use crate::field::{is_prime, lemma_canonical_equal, sub_mod};
use crate::matrix::{height, matrix_values, matrix_width, row, row_of, rows_in, width};
use crate::memory::columns::{MemoryRow, NUM_MEM_COLS};
use crate::memory::consistency::{
    lemma_bounded_diff_orders, lemma_trace_is_log, memory_log_step_holds, memory_rows,
};
use crate::memory::stark::memory_trace_holds;
use crate::memory::MemoryChip;
use crate::range::lookup::{reconcile_lookups, reconciles};
use crate::trace::lemma_row_in_bounds;
use p3_matrix::dense::DenseMatrix;
use vstd::arithmetic::div_mod::*;
use vstd::prelude::*;

verus! {

/// How many of the first `n` rows of a trace of `height` rows have a
/// successor: all of them, but for the last row of the trace.
pub open spec fn with_successor(n: int, height: int) -> int {
    if n < height {
        n
    } else if height == 0 {
        0
    } else {
        height - 1
    }
}

/// What a row with the given `diff` looks up: `diff - 1` in the field.
pub open spec fn lookup_of(diff: u64, p: int) -> u64 {
    ((diff - 1) % p) as u64
}

/// What every row that has a successor looks up, in the order of the rows.
pub open spec fn trace_lookups(values: Seq<u64>, width: nat, p: int) -> Seq<u64> {
    let h = rows_in(values.len(), width) as int;
    Seq::new(with_successor(h, h) as nat, |r: int| lookup_of(row_of(values, width, r)[9], p))
}

/// The `counter_mult` of every row, in the order of the rows.
pub open spec fn trace_multiplicities(values: Seq<u64>, width: nat) -> Seq<u64> {
    Seq::new(rows_in(values.len(), width), |r: int| row_of(values, width, r)[13])
}

/// The lookups of the diffs reconcile with the multiplicities: every value
/// looked up is below the height of the trace, and each row's
/// `counter_mult` is the number of lookups of the row's number.
pub open spec fn diffs_reconcile(values: Seq<u64>, width: nat, p: int) -> bool {
    reconciles(
        trace_lookups(values, width, p),
        trace_multiplicities(values, width),
        rows_in(values.len(), width) as u32,
    )
}

impl MemoryChip {
    /// Whether the lookups of the diffs of `trace` reconcile with its
    /// multiplicities: `None` unless the trace has the width of the chip
    /// and a height that a table can have.
    pub fn check_diffs(&self, trace: &DenseMatrix<u64, Vec<u64>>, p: u64) -> (r: Option<bool>)
        requires
            p > 0,
        ensures
            r.is_some() <==> matrix_width(*trace) == NUM_MEM_COLS && rows_in(
                matrix_values(*trace).len(),
                matrix_width(*trace),
            ) <= u32::MAX,
            r.is_some() ==> r.unwrap() == diffs_reconcile(
                matrix_values(*trace),
                matrix_width(*trace),
                p as int,
            ),
    {
        let h = height(trace);
        if width(trace) != NUM_MEM_COLS || h > u32::MAX as usize {
            return None;
        }
        let ghost values = matrix_values(*trace);
        let ghost wd = matrix_width(*trace);
        let mut diffs: Vec<u64> = Vec::new();
        let mut mult: Vec<u64> = Vec::new();
        let mut i: usize = 0;
        while i < h
            invariant
                0 <= i <= h,
                h == rows_in(values.len(), wd),
                values == matrix_values(*trace),
                wd == matrix_width(*trace),
                wd == NUM_MEM_COLS,
                mult@ == trace_multiplicities(values, wd).take(i as int),
                p > 0,
                diffs@ == trace_lookups(values, wd, p as int).take(
                    with_successor(i as int, h as int),
                ),
            decreases h - i,
        {
            let cells = row(trace, i).unwrap();
            proof {
                lemma_row_in_bounds(values, wd, i as int);
            }
            mult.push(cells[13]);
            if i + 1 < h {
                diffs.push(sub_mod(cells[9], 1, p));
            }
            proof {
                assert(mult@ =~= trace_multiplicities(values, wd).take(i as int + 1));
                assert(diffs@ =~= trace_lookups(values, wd, p as int).take(
                    with_successor(i as int + 1, h as int),
                ));
            }
            i += 1;
        }
        proof {
            assert(mult@ =~= trace_multiplicities(values, wd));
            assert(diffs@ =~= trace_lookups(values, wd, p as int));
        }
        Some(reconcile_lookups(diffs.as_slice(), mult.as_slice(), h as u32))
    }
}

/// In a canonical trace no higher than the modulus that meets the chip's
/// predicate, the counter of each row is the row's number: the counter
/// column is the table of the integers below the height.
pub proof fn lemma_counter_is_table(values: Seq<u64>, width: nat, p: int, r: int)
    requires
        width == NUM_MEM_COLS,
        forall|i: int| 0 <= i < values.len() ==> #[trigger] values[i] < p,
        memory_trace_holds(values, width, p),
        rows_in(values.len(), width) <= p,
        0 <= r < rows_in(values.len(), width),
    ensures
        memory_rows(values, width)[r].counter == r,
    decreases r,
{
    let rows = memory_rows(values, width);
    lemma_trace_is_log(values, width, p);
    if r == 0 {
        assert(memory_log_step_holds(rows, 0, p));
        lemma_canonical_equal(rows[0].counter, 0, p);
    } else {
        lemma_counter_is_table(values, width, p, r - 1);
        assert(memory_log_step_holds(rows, r - 1, p));
        lemma_small_mod(r as nat, rows.len());
        lemma_canonical_equal(rows[r].counter, r, p);
    }
}

/// The row `next` comes strictly after `local` in the order of the log: at
/// a greater address, with `diff` the distance in address, or at the same
/// address and later, with `diff` the distance in clock.
pub open spec fn strictly_after(local: MemoryRow, next: MemoryRow) -> bool {
    if next.addr == local.addr {
        next.clk > local.clk && local.diff == next.clk - local.clk
    } else {
        next.addr > local.addr && local.diff == next.addr - local.addr
    }
}

/// Modulo a prime, a canonical trace that meets the chip's predicate and
/// whose diffs reconcile is strictly in order, as far as its addresses and
/// clocks stay below the modulus by more than the height of the trace: each
/// row is followed by one at a greater address, or at the same address and
/// later.
pub proof fn lemma_checked_log_is_ordered(values: Seq<u64>, width: nat, p: int, r: int)
    requires
        is_prime(p),
        p <= u64::MAX,
        width == NUM_MEM_COLS,
        forall|i: int| 0 <= i < values.len() ==> #[trigger] values[i] < p,
        memory_trace_holds(values, width, p),
        rows_in(values.len(), width) <= u32::MAX,
        diffs_reconcile(values, width, p),
        0 <= r,
        r + 1 < rows_in(values.len(), width),
        memory_rows(values, width)[r].addr + rows_in(values.len(), width) < p,
        memory_rows(values, width)[r].clk + rows_in(values.len(), width) < p,
    ensures
        strictly_after(memory_rows(values, width)[r], memory_rows(values, width)[r + 1]),
{
    let rows = memory_rows(values, width);
    let h = rows_in(values.len(), width) as int;
    lemma_trace_is_log(values, width, p);
    assert(memory_log_step_holds(rows, r, p));
    lemma_small_mod((r + 1) as nat, h as nat);
    let lookups = trace_lookups(values, width, p);
    assert(lookups[r] < h as u32);
    lemma_row_in_bounds(values, width, r);
    lemma_mod_bound(rows[r].diff - 1, p);
    assert(lookups[r] == (rows[r].diff - 1) % p);
    lemma_bounded_diff_orders(rows[r], rows[r + 1], position(r, h), h, p);
}

} // verus!
