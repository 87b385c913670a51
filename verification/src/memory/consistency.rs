//! What the memory chip's constraints say of a log: how `diff`, its inverse
//! and the address flag go together, and that every row holds what was last
//! written to its address, or the initial value where nothing was.

use crate::builder::{position, Position};
use crate::field::{
    congruent, is_prime, lemma_boolean, lemma_canonical_equal, lemma_one_at_most,
};
use crate::is_zero::lemma_inverse_or_zero;
use crate::matrix::{row_of, rows_in};
use crate::memory::columns::{MemoryRow, NUM_MEM_COLS};
use crate::memory::stark::{
    memory_flags_hold, memory_limb_kept, memory_order_holds, memory_row_holds,
    memory_step_holds, memory_trace_holds, memory_values_hold,
};
use crate::trace::{int_row, lemma_row_in_bounds, lemma_window_at};
use vstd::arithmetic::div_mod::*;
use vstd::prelude::*;

verus! {

/// Every cell of the row is a canonical field element.
pub open spec fn memory_row_canonical(row: MemoryRow, p: int) -> bool {
    &&& 0 <= row.addr < p
    &&& row.value.len() == 4
    &&& forall|k: int| 0 <= k < 4 ==> 0 <= #[trigger] row.value[k] < p
    &&& 0 <= row.clk < p
    &&& 0 <= row.is_static_initial < p
    &&& 0 <= row.is_read < p
    &&& 0 <= row.is_write < p
    &&& 0 <= row.diff < p
    &&& 0 <= row.diff_inv < p
    &&& 0 <= row.addr_not_equal < p
    &&& 0 <= row.counter < p
    &&& 0 <= row.counter_mult < p
}

/// Modulo a prime, on canonical rows that meet the constraints: a zero
/// `diff` comes with a zero inverse and a zero flag, and a non-zero `diff`
/// with its inverse.
pub proof fn lemma_diff_and_inverse(local: MemoryRow, next: MemoryRow, at: Position, p: int)
    requires
        is_prime(p),
        memory_row_canonical(local, p),
        memory_row_canonical(next, p),
        !at.last,
        memory_order_holds(local, next, at, p),
    ensures
        local.diff == 0 ==> local.diff_inv == 0 && local.addr_not_equal == 0,
        local.diff != 0 ==> congruent(local.diff * local.diff_inv, 1, p),
{
    lemma_inverse_or_zero(local.diff, local.diff_inv, p);
    lemma_small_mod(local.diff as nat, p as nat);
    lemma_small_mod(local.diff_inv as nat, p as nat);
    lemma_small_mod(1, p as nat);
    lemma_small_mod(0, p as nat);
    if local.diff == 0 {
        assert(local.diff * local.diff_inv == 0) by (nonlinear_arith)
            requires
                local.diff == 0,
        ;
        lemma_mod_equivalence(local.diff * local.diff_inv, 1, p);
        assert(local.diff_inv == 0);
        assert((next.addr - local.addr) * local.diff_inv == 0) by (nonlinear_arith)
            requires
                local.diff_inv == 0,
        ;
        lemma_canonical_equal(local.addr_not_equal, 0, p);
    }
}

/// Modulo a prime, on canonical rows that meet the constraints: the flag is
/// 1 where the next row is at another address and 0 where it is at the same,
/// and `diff` is the distance in address in the first case and in clock in
/// the second.
pub proof fn lemma_flag_tells_address(local: MemoryRow, next: MemoryRow, at: Position, p: int)
    requires
        is_prime(p),
        memory_row_canonical(local, p),
        memory_row_canonical(next, p),
        memory_flags_hold(local, p),
        !at.last,
        memory_order_holds(local, next, at, p),
    ensures
        next.addr != local.addr ==> local.addr_not_equal == 1 && local.diff == (next.addr
            - local.addr) % p,
        next.addr == local.addr ==> local.addr_not_equal == 0 && local.diff == (next.clk
            - local.clk) % p,
{
    let flag = local.addr_not_equal;
    let delta = next.addr - local.addr;
    let tick = next.clk - local.clk;
    lemma_boolean(flag, p);
    lemma_small_mod(1, p as nat);
    lemma_small_mod(0, p as nat);
    lemma_small_mod(local.diff as nat, p as nat);
    if flag == 0 {
        assert(delta * (1 - flag) == delta) by (nonlinear_arith)
            requires
                flag == 0,
        ;
        lemma_canonical_equal(next.addr, local.addr, p);
        assert(flag * delta + (1 - flag) * tick == tick) by (nonlinear_arith)
            requires
                flag == 0,
        ;
        lemma_mod_equivalence(local.diff, tick, p);
    } else {
        assert(flag == 1);
        if delta == 0 {
            assert(delta * local.diff_inv == 0) by (nonlinear_arith)
                requires
                    delta == 0,
            ;
            lemma_mod_equivalence(flag, 0, p);
        }
        assert(flag * delta + (1 - flag) * tick == delta) by (nonlinear_arith)
            requires
                flag == 1,
        ;
        lemma_mod_equivalence(local.diff, delta, p);
    }
}

/// Modulo a prime, on canonical rows that meet the constraints: where
/// `diff - 1` is below a bound, as a range check shows it, and addresses and
/// clocks stay more than that bound below the modulus, the log is strictly
/// in order: the next row is at a greater address, or at the same address
/// and later, and `diff` is the distance itself.
pub proof fn lemma_bounded_diff_orders(
    local: MemoryRow,
    next: MemoryRow,
    at: Position,
    bound: int,
    p: int,
)
    requires
        is_prime(p),
        memory_row_canonical(local, p),
        memory_row_canonical(next, p),
        memory_flags_hold(local, p),
        !at.last,
        memory_order_holds(local, next, at, p),
        (local.diff - 1) % p < bound,
        local.addr + bound < p,
        local.clk + bound < p,
    ensures
        next.addr > local.addr || (next.addr == local.addr && next.clk > local.clk),
        next.addr > local.addr ==> local.diff == next.addr - local.addr,
        next.addr == local.addr ==> local.diff == next.clk - local.clk,
{
    lemma_flag_tells_address(local, next, at, p);
    if local.diff == 0 {
        lemma_mod_add_multiples_vanish(-1, p);
        lemma_small_mod((p - 1) as nat, p as nat);
    } else {
        lemma_small_mod((local.diff - 1) as nat, p as nat);
    }
    assert(1 <= local.diff <= bound);
    if next.addr != local.addr {
        let delta = next.addr - local.addr;
        if delta < 0 {
            lemma_mod_add_multiples_vanish(delta, p);
            lemma_small_mod((p + delta) as nat, p as nat);
        } else {
            lemma_small_mod(delta as nat, p as nat);
        }
    } else {
        let tick = next.clk - local.clk;
        if tick < 0 {
            lemma_mod_add_multiples_vanish(tick, p);
            lemma_small_mod((p + tick) as nat, p as nat);
        } else {
            lemma_small_mod(tick as nat, p as nat);
        }
    }
}

/// Modulo a prime, on canonical rows that meet the constraints: a row that
/// is no write, at the address of the row before it, holds that row's
/// value.
pub proof fn lemma_value_kept(local: MemoryRow, next: MemoryRow, at: Position, p: int)
    requires
        is_prime(p),
        memory_row_canonical(local, p),
        memory_row_canonical(next, p),
        memory_flags_hold(local, p),
        !at.last,
        memory_order_holds(local, next, at, p),
        memory_values_hold(local, next, at, p),
        next.addr == local.addr,
        next.is_write == 0,
    ensures
        next.value == local.value,
{
    lemma_flag_tells_address(local, next, at, p);
    assert forall|k: int| 0 <= k < 4 implies next.value[k] == local.value[k] by {
        assert(memory_limb_kept(local, next, k, p));
        let d = next.value[k] - local.value[k];
        assert((1 - next.is_write) * (1 - local.addr_not_equal) * d == d) by (nonlinear_arith)
            requires
                next.is_write == 0,
                local.addr_not_equal == 0,
        ;
        lemma_canonical_equal(next.value[k], local.value[k], p);
    }
    assert(next.value =~= local.value);
}

/// Modulo a prime above 3, on canonical rows that meet the constraints: a
/// row at another address than the row before it is a write or an initial
/// value, and a row at the same address is no initial value.
pub proof fn lemma_address_starts(local: MemoryRow, next: MemoryRow, at: Position, p: int)
    requires
        is_prime(p),
        p > 3,
        memory_row_canonical(local, p),
        memory_row_canonical(next, p),
        memory_flags_hold(local, p),
        memory_flags_hold(next, p),
        !at.last,
        memory_order_holds(local, next, at, p),
        memory_values_hold(local, next, at, p),
    ensures
        next.addr != local.addr ==> next.is_static_initial + next.is_write == 1 && next.is_read
            == 0,
        next.addr == local.addr ==> next.is_static_initial == 0,
{
    lemma_flag_tells_address(local, next, at, p);
    lemma_one_at_most(next.is_static_initial, next.is_read, next.is_write, p);
    let rest = 1 - next.is_static_initial - next.is_write;
    if next.addr != local.addr {
        assert(local.addr_not_equal * rest == rest) by (nonlinear_arith)
            requires
                local.addr_not_equal == 1,
        ;
        lemma_canonical_equal(rest, 0, p);
    } else {
        assert((1 - local.addr_not_equal) * next.is_static_initial == next.is_static_initial)
            by (nonlinear_arith)
            requires
                local.addr_not_equal == 0,
        ;
        lemma_canonical_equal(next.is_static_initial, 0, p);
    }
}

/// Modulo a prime above 3, a canonical first row that meets the constraints
/// is a write or an initial value.
pub proof fn lemma_log_starts(first: MemoryRow, next: MemoryRow, at: Position, p: int)
    requires
        is_prime(p),
        p > 3,
        memory_row_canonical(first, p),
        memory_flags_hold(first, p),
        at.first,
        memory_values_hold(first, next, at, p),
    ensures
        first.is_static_initial + first.is_write == 1,
        first.is_read == 0,
{
    lemma_one_at_most(first.is_static_initial, first.is_read, first.is_write, p);
    lemma_canonical_equal(first.is_static_initial + first.is_write, 1, p);
}

/// The chip's predicate holds on row `i` of the log; the row after the last
/// is the first.
pub open spec fn memory_log_step_holds(rows: Seq<MemoryRow>, i: int, p: int) -> bool {
    memory_row_holds(
        rows[i],
        rows[(i + 1) % (rows.len() as int)],
        position(i, rows.len() as int),
        p,
    )
}

/// The chip's predicate holds on every row of the log.
pub open spec fn memory_log_holds(rows: Seq<MemoryRow>, p: int) -> bool {
    forall|i: int| 0 <= i < rows.len() ==> #[trigger] memory_log_step_holds(rows, i, p)
}

/// Every row of the log is canonical.
pub open spec fn memory_log_canonical(rows: Seq<MemoryRow>, p: int) -> bool {
    forall|i: int| 0 <= i < rows.len() ==> memory_row_canonical(#[trigger] rows[i], p)
}

/// What the log's predicate says of row `k - 1` and its successor.
proof fn lemma_trace_step(rows: Seq<MemoryRow>, p: int, k: int)
    requires
        memory_log_holds(rows, p),
        0 < k < rows.len(),
    ensures
        !position(k - 1, rows.len() as int).last,
        memory_row_holds(rows[k - 1], rows[k], position(k - 1, rows.len() as int), p),
{
    let n = rows.len() as int;
    lemma_small_mod(k as nat, n as nat);
    assert(memory_log_step_holds(rows, k - 1, p));
}

/// Every row of a log that meets the constraints meets those on its flags.
proof fn lemma_log_flags(rows: Seq<MemoryRow>, p: int, k: int)
    requires
        memory_log_holds(rows, p),
        0 <= k < rows.len(),
    ensures
        memory_flags_hold(rows[k], p),
{
    assert(memory_log_step_holds(rows, k, p));
}

/// Modulo a prime, in a canonical log that meets the constraints: where no
/// row from `i + 1` to `j` is a write, and all are at the address of row
/// `i`, row `j` holds the value that row `i` holds. So a read returns what
/// was last written to its address; a log in which it returns anything else
/// does not meet the constraints.
pub proof fn lemma_read_returns_last_write(rows: Seq<MemoryRow>, p: int, i: int, j: int)
    requires
        is_prime(p),
        memory_log_canonical(rows, p),
        memory_log_holds(rows, p),
        0 <= i <= j < rows.len(),
        forall|k: int|
            i < k <= j ==> (#[trigger] rows[k]).addr == rows[i].addr && rows[k].is_write == 0,
    ensures
        rows[j].value == rows[i].value,
    decreases j - i,
{
    if i < j {
        lemma_read_returns_last_write(rows, p, i, j - 1);
        lemma_trace_step(rows, p, j);
        let local = rows[j - 1];
        let next = rows[j];
        assert(local.addr == rows[i].addr);
        assert(next.addr == rows[i].addr && next.is_write == 0);
        assert(memory_row_canonical(local, p) && memory_row_canonical(next, p));
        lemma_value_kept(local, next, position(j - 1, rows.len() as int), p);
    }
}

/// Row `j` holds the value of row `i`, which is a write or an initial
/// value at the same address, with no write after it up to row `j`.
pub open spec fn source_of(rows: Seq<MemoryRow>, i: int, j: int) -> bool {
    &&& 0 <= i <= j
    &&& rows[i].is_write == 1 || rows[i].is_static_initial == 1
    &&& forall|k: int|
        i < k <= j ==> (#[trigger] rows[k]).addr == rows[i].addr && rows[k].is_write == 0
    &&& rows[j].value == rows[i].value
}

/// Modulo a prime above 3, in a canonical log that meets the constraints,
/// every row holds a value that has a source: the last write to its address
/// at or before it, or the initial value of the address where nothing was
/// written. No row holds a value that is neither written nor initial.
pub proof fn lemma_value_has_source(rows: Seq<MemoryRow>, p: int, j: int) -> (i: int)
    requires
        is_prime(p),
        p > 3,
        memory_log_canonical(rows, p),
        memory_log_holds(rows, p),
        0 <= j < rows.len(),
    ensures
        source_of(rows, i, j),
    decreases j,
{
    let n = rows.len() as int;
    lemma_log_flags(rows, p, j);
    lemma_one_at_most(rows[j].is_static_initial, rows[j].is_read, rows[j].is_write, p);
    if rows[j].is_write == 1 {
        j
    } else if j == 0 {
        assert(memory_log_step_holds(rows, 0, p));
        lemma_log_starts(rows[0], rows[(0int + 1) % n], position(0, n), p);
        j
    } else {
        lemma_trace_step(rows, p, j);
        lemma_log_flags(rows, p, j - 1);
        lemma_address_starts(rows[j - 1], rows[j], position(j - 1, n), p);
        if rows[j].addr != rows[j - 1].addr {
            j
        } else {
            let i = lemma_value_has_source(rows, p, j - 1);
            lemma_value_kept(rows[j - 1], rows[j], position(j - 1, n), p);
            assert forall|k: int| i < k <= j implies (#[trigger] rows[k]).addr == rows[i].addr
                && rows[k].is_write == 0 by {
                if k == j && i < j - 1 {
                    assert(rows[j - 1].addr == rows[i].addr);
                }
            }
            i
        }
    }
}

/// The rows of a trace under the columns' names.
pub open spec fn memory_rows(values: Seq<u64>, width: nat) -> Seq<MemoryRow> {
    Seq::new(
        rows_in(values.len(), width),
        |r: int| MemoryRow::from_flat(int_row(values, width, r)),
    )
}

/// A trace that meets the chip's predicate is a log that meets it, and a
/// trace of canonical field elements is a canonical log.
pub proof fn lemma_trace_is_log(values: Seq<u64>, width: nat, p: int)
    requires
        width == NUM_MEM_COLS,
        memory_trace_holds(values, width, p),
    ensures
        memory_log_holds(memory_rows(values, width), p),
        (forall|i: int| 0 <= i < values.len() ==> #[trigger] values[i] < p)
            ==> memory_log_canonical(memory_rows(values, width), p),
{
    let rows = memory_rows(values, width);
    assert forall|i: int| 0 <= i < rows.len() implies #[trigger] memory_log_step_holds(
        rows,
        i,
        p,
    ) by {
        assert(memory_step_holds(values, width, i, p));
        lemma_window_at(values, width, i);
    }
    if forall|i: int| 0 <= i < values.len() ==> #[trigger] values[i] < p {
        assert forall|i: int| 0 <= i < rows.len() implies memory_row_canonical(
            #[trigger] rows[i],
            p,
        ) by {
            lemma_row_in_bounds(values, width, i);
            let row = row_of(values, width, i);
            assert forall|k: int| 0 <= k < 14 implies 0 <= #[trigger] int_row(values, width, i)[k]
                < p by {
                assert(row[k] == values[i * width + k]);
            }
            let ints = int_row(values, width, i);
            assert(rows[i].value == ints.subrange(1, 5));
            assert forall|k: int| 0 <= k < 4 implies 0 <= #[trigger] rows[i].value[k] < p by {
                assert(rows[i].value[k] == ints[k + 1]);
            }
            assert(0 <= ints[0] < p && 0 <= ints[5] < p && 0 <= ints[6] < p && 0 <= ints[7] < p
                && 0 <= ints[8] < p && 0 <= ints[9] < p && 0 <= ints[10] < p && 0 <= ints[11] < p
                && 0 <= ints[12] < p && 0 <= ints[13] < p);
        }
    }
}

} // verus!
