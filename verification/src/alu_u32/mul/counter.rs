//! The counter column over a whole trace.

use crate::alu_u32::mul::columns::{MulRow, NUM_MUL_COLS};
use crate::alu_u32::mul::stark::{mul_counter_holds, mul_step_holds, mul_trace_holds};
use crate::matrix::{row_of, rows_in};
use crate::trace::{int_row, lemma_row_in_bounds, lemma_window_at};
use crate::builder::position;
use crate::field::{
    is_prime, lemma_canonical_equal, lemma_multiple_vanishes, lemma_prime_factor,
    lemma_vanishing_is_multiple, vanishes,
};
use vstd::arithmetic::div_mod::*;
use vstd::prelude::*;

verus! {

/// The counter's constraints are met on row `i` of the trace; the row after
/// the last is the first.
pub open spec fn mul_counter_step_holds(rows: Seq<MulRow>, i: int, p: int) -> bool {
    mul_counter_holds(
        rows[i],
        rows[(i + 1) % (rows.len() as int)],
        position(i, rows.len() as int),
        p,
    )
}

/// The counter's constraints are met on every row of the trace.
pub open spec fn mul_counters_hold(rows: Seq<MulRow>, p: int) -> bool {
    forall|i: int| 0 <= i < rows.len() ==> #[trigger] mul_counter_step_holds(rows, i, p)
}

/// Every counter is a canonical field element.
pub open spec fn counters_canonical(rows: Seq<MulRow>, p: int) -> bool {
    forall|i: int| 0 <= i < rows.len() ==> 0 <= (#[trigger] rows[i]).counter < p
}

/// A trace of 1024 rows that counts 1, 2, 3, .. meets the counter's
/// constraints.
pub proof fn lemma_counting_trace_holds(rows: Seq<MulRow>, p: int)
    requires
        p > 0,
        rows.len() == 1024,
        forall|i: int| 0 <= i < 1024 ==> (#[trigger] rows[i]).counter == i + 1,
    ensures
        mul_counters_hold(rows, p),
{
    lemma_multiple_vanishes(0, p);
    assert forall|i: int| 0 <= i < rows.len() implies #[trigger] mul_counter_step_holds(
        rows,
        i,
        p,
    ) by {
        if i < 1023 {
            lemma_small_mod((i + 1) as nat, 1024);
            let next = rows[i + 1];
            let d = next.counter - rows[i].counter;
            assert(d == 1);
            assert(d * (d - 1) == 0) by (nonlinear_arith)
                requires
                    d == 1,
            ;
        }
    }
}

/// Between two canonical counters, a step that the field takes for 0 or 1
/// is 0 or 1, or else wraps around from `p - 1` to 0.
proof fn lemma_step(here: int, there: int, p: int)
    requires
        is_prime(p),
        0 <= here < p,
        0 <= there < p,
        vanishes((there - here) * (there - here - 1), p),
    ensures
        there == here || there == here + 1 || (here == p - 1 && there == 0),
{
    let d = there - here;
    lemma_prime_factor(d, d - 1, p);
    if vanishes(d, p) {
        lemma_vanishing_is_multiple(d, p);
        let k = d / p;
        assert(k == 0) by (nonlinear_arith)
            requires
                d == p * k,
                -p < d < p,
        ;
    } else {
        lemma_vanishing_is_multiple(d - 1, p);
        let k = (d - 1) / p;
        assert(k == 0 || k == -1) by (nonlinear_arith)
            requires
                d - 1 == p * k,
                -p - 1 < d - 1 < p - 1,
                p > 1,
        ;
        assert(p * 0 == 0 && p * (-1) == -p);
    }
}

/// Up to row `i`, the counter has grown by at most one per row.
proof fn lemma_counter_bound(rows: Seq<MulRow>, p: int, i: int)
    requires
        is_prime(p),
        1024 < p,
        rows.len() + 1 < p,
        counters_canonical(rows, p),
        mul_counters_hold(rows, p),
        0 <= i < rows.len(),
    ensures
        1 <= rows[i].counter <= i + 1,
        i > 0 ==> rows[i].counter == rows[i - 1].counter || rows[i].counter == rows[i - 1].counter
            + 1,
    decreases i,
{
    let n = rows.len() as int;
    if i == 0 {
        assert(mul_counter_step_holds(rows, 0, p));
        lemma_canonical_equal(rows[0].counter, 1, p);
    } else {
        lemma_counter_bound(rows, p, i - 1);
        let here = rows[i - 1];
        assert(mul_counter_step_holds(rows, i - 1, p));
        lemma_small_mod(i as nat, n as nat);
        lemma_step(here.counter, rows[i].counter, p);
    }
}

/// Modulo a prime larger than the trace and than 1024, a trace of canonical
/// counters that meets the constraints starts at 1, ends at 1024, and from
/// each row to the next stays or grows by exactly one.
pub proof fn lemma_counters_sound(rows: Seq<MulRow>, p: int)
    requires
        is_prime(p),
        1024 < p,
        rows.len() + 1 < p,
        rows.len() > 0,
        counters_canonical(rows, p),
        mul_counters_hold(rows, p),
    ensures
        rows[0].counter == 1,
        rows[rows.len() - 1].counter == 1024,
        forall|i: int|
            0 < i < rows.len() ==> (#[trigger] rows[i]).counter == rows[i - 1].counter
                || rows[i].counter == rows[i - 1].counter + 1,
{
    let n = rows.len() as int;
    lemma_counter_bound(rows, p, 0);
    assert forall|i: int| 0 < i < rows.len() implies (#[trigger] rows[i]).counter == rows[i
        - 1].counter || rows[i].counter == rows[i - 1].counter + 1 by {
        lemma_counter_bound(rows, p, i);
    }
    let last = rows[n - 1];
    assert(mul_counter_step_holds(rows, n - 1, p));
    lemma_canonical_equal(last.counter, 1024, p);
}

/// Such a trace skips nothing: every value from 1 to 1024 is the counter of
/// some row at or after `from`, whenever the counter at `from` has not
/// passed it.
pub proof fn lemma_counter_reaches(rows: Seq<MulRow>, p: int, v: int, from: int) -> (i: int)
    requires
        is_prime(p),
        1024 < p,
        rows.len() + 1 < p,
        counters_canonical(rows, p),
        mul_counters_hold(rows, p),
        0 <= from < rows.len(),
        rows[from].counter <= v <= 1024,
    ensures
        from <= i < rows.len(),
        rows[i].counter == v,
    decreases rows.len() - from,
{
    lemma_counters_sound(rows, p);
    if rows[from].counter == v {
        from
    } else {
        assert(rows[from + 1].counter == rows[from].counter || rows[from + 1].counter
            == rows[from].counter + 1);
        lemma_counter_reaches(rows, p, v, from + 1)
    }
}

/// The rows of a trace under the columns' names.
pub open spec fn mul_rows(values: Seq<u64>, width: nat) -> Seq<MulRow> {
    Seq::new(rows_in(values.len(), width), |r: int| MulRow::from_flat(int_row(values, width, r)))
}

/// A trace that meets the chip's predicate meets the counter's constraints,
/// and a trace of canonical field elements has canonical counters.
pub proof fn lemma_trace_counters(values: Seq<u64>, width: nat, p: int)
    requires
        width == NUM_MUL_COLS,
        mul_trace_holds(values, width, p),
    ensures
        mul_counters_hold(mul_rows(values, width), p),
        (forall|i: int| 0 <= i < values.len() ==> #[trigger] values[i] < p) ==> counters_canonical(
            mul_rows(values, width),
            p,
        ),
{
    let rows = mul_rows(values, width);
    assert forall|i: int| 0 <= i < rows.len() implies #[trigger] mul_counter_step_holds(
        rows,
        i,
        p,
    ) by {
        assert(mul_step_holds(values, width, i, p));
        lemma_window_at(values, width, i);
    }
    if forall|i: int| 0 <= i < values.len() ==> #[trigger] values[i] < p {
        assert forall|i: int| 0 <= i < rows.len() implies 0 <= (#[trigger] rows[i]).counter < p by {
            lemma_row_in_bounds(values, width, i);
            let row = row_of(values, width, i);
            assert(row[17] == values[i * width + 17]);
        }
    }
}

} // verus!
