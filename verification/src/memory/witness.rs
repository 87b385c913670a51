//! Logs that meet the memory chip's predicate.
//!
//! A log of operations is consistent when every address starts with a write
//! or an initial value, no initial value stands elsewhere, and every read
//! holds the value of the operation before it at its address. A log in
//! which every read returns the value of the last write to its address, or
//! the initial value where nothing was written, is consistent, and every
//! consistent log has rows that the chip accepts.

use crate::builder::{position, Position};
use crate::field::{
    congruent, is_prime, lemma_inverse_exists, lemma_multiple_vanishes, lemma_same_remainder,
    vanishes,
};
use crate::is_zero::{inverse_or_zero, lemma_witness_holds};
use crate::memory::columns::MemoryRow;
use crate::memory::consistency::{memory_log_holds, memory_log_step_holds};
use crate::memory::stark::{
    memory_counter_holds, memory_flags_hold, memory_limb_kept, memory_order_holds,
    memory_values_hold,
};
use vstd::arithmetic::div_mod::*;
use vstd::prelude::*;

verus! {

/// What an operation does to its address.
pub enum OpKind {
    /// It gives the address its value before the program starts.
    Initial,
    /// It reads the value.
    Read,
    /// It writes a value.
    Write,
}

/// One operation of a log: what was done to which address in which cycle,
/// and the value read or written.
pub struct MemoryOp {
    pub addr: int,
    pub clk: int,
    pub kind: OpKind,
    pub value: Seq<int>,
}

/// `op` may follow `before` in a log: at another address it is a write or
/// an initial value; at the same address it is no initial value and, where
/// it is a read, holds the value of `before`.
pub open spec fn op_follows(before: MemoryOp, op: MemoryOp) -> bool {
    if op.addr != before.addr {
        !(op.kind is Read)
    } else {
        !(op.kind is Initial) && (op.kind is Read ==> op.value == before.value)
    }
}

/// Operation `i` of the log may follow the one before it.
pub open spec fn follows_at(ops: Seq<MemoryOp>, i: int) -> bool {
    op_follows(ops[i - 1], ops[i])
}

/// The log is consistent: its addresses are canonical, it starts with a
/// write or an initial value, and each operation may follow the one before
/// it.
pub open spec fn log_consistent(ops: Seq<MemoryOp>, p: int) -> bool {
    &&& forall|i: int| 0 <= i < ops.len() ==> 0 <= (#[trigger] ops[i]).addr < p
    &&& ops.len() > 0 ==> !(ops[0].kind is Read)
    &&& forall|i: int| 0 < i < ops.len() ==> #[trigger] follows_at(ops, i)
}

/// Operation `i` is the source of the read `j`: a write or an initial
/// value, followed up to `j` by nothing but reads of its address.
pub open spec fn source_of_read(ops: Seq<MemoryOp>, i: int, j: int) -> bool {
    &&& 0 <= i < j < ops.len()
    &&& !(ops[i].kind is Read)
    &&& forall|k: int| i < k <= j ==> (#[trigger] ops[k]).addr == ops[i].addr && ops[k].kind is Read
}

/// The read `j` returns the value of its source `i`.
pub open spec fn returns_from(ops: Seq<MemoryOp>, i: int, j: int) -> bool {
    source_of_read(ops, i, j) && ops[j].value == ops[i].value
}

/// Every read returns the value of its source: of the last write to its
/// address, or of the initial value where nothing was written.
pub open spec fn reads_return_last_write(ops: Seq<MemoryOp>) -> bool {
    forall|j: int|
        0 <= j < ops.len() && (#[trigger] ops[j]).kind is Read ==> exists|i: int| #[trigger]
            returns_from(ops, i, j)
}

/// Operation `i` of the log is no initial value unless it starts an
/// address.
pub open spec fn initial_starts(ops: Seq<MemoryOp>, i: int) -> bool {
    ops[i].addr == ops[i - 1].addr ==> !(ops[i].kind is Initial)
}

/// The log is laid out by address: its addresses are canonical, and an
/// initial value stands at the start of its address and nowhere else.
pub open spec fn log_laid_out(ops: Seq<MemoryOp>, p: int) -> bool {
    &&& forall|i: int| 0 <= i < ops.len() ==> 0 <= (#[trigger] ops[i]).addr < p
    &&& forall|i: int| 0 < i < ops.len() ==> #[trigger] initial_starts(ops, i)
}

/// A log laid out by address in which every read returns the value of the
/// last write to its address, with no write in between, is consistent.
pub proof fn lemma_last_write_is_consistent(ops: Seq<MemoryOp>, p: int)
    requires
        log_laid_out(ops, p),
        reads_return_last_write(ops),
    ensures
        log_consistent(ops, p),
{
    if ops.len() > 0 && ops[0].kind is Read {
        let i = choose|i: int| #[trigger] returns_from(ops, i, 0);
        assert(false);
    }
    assert forall|j: int| 0 < j < ops.len() implies #[trigger] follows_at(ops, j) by {
        assert(initial_starts(ops, j));
        if ops[j].kind is Read {
            let i = choose|i: int| #[trigger] returns_from(ops, i, j);
            assert(ops[j].addr == ops[i].addr);
            if i < j - 1 {
                assert(ops[j - 1].addr == ops[i].addr && ops[j - 1].kind is Read);
                let h = choose|h: int| #[trigger] returns_from(ops, h, j - 1);
                if h < i {
                    assert(ops[i].kind is Read);
                }
                if h > i {
                    assert(ops[h].kind is Read);
                }
                assert(h == i);
            }
        }
    }
}

/// The inverse of `x` modulo `p`, and 0 for what vanishes.
pub open spec fn inverse_of(x: int, p: int) -> int {
    if vanishes(x, p) {
        0
    } else {
        choose|y: int| 0 <= y < p && #[trigger] ((x * y) % p) == 1
    }
}

/// Whether the operation after `i` is at another address.
pub open spec fn moves(ops: Seq<MemoryOp>, i: int) -> bool {
    i + 1 < ops.len() && ops[i + 1].addr != ops[i].addr
}

/// The distance from operation `i` to the next: in address where that
/// changes, in clock otherwise, and 0 for the last.
pub open spec fn distance(ops: Seq<MemoryOp>, i: int, p: int) -> int {
    if i + 1 >= ops.len() {
        0
    } else if moves(ops, i) {
        (ops[i + 1].addr - ops[i].addr) % p
    } else {
        (ops[i + 1].clk - ops[i].clk) % p
    }
}

/// The row of operation `i` of a log.
pub open spec fn witness_row(ops: Seq<MemoryOp>, i: int, p: int) -> MemoryRow {
    MemoryRow {
        addr: ops[i].addr,
        value: ops[i].value,
        clk: ops[i].clk,
        is_static_initial: if ops[i].kind is Initial {
            1
        } else {
            0
        },
        is_read: if ops[i].kind is Read {
            1
        } else {
            0
        },
        is_write: if ops[i].kind is Write {
            1
        } else {
            0
        },
        diff: distance(ops, i, p),
        diff_inv: inverse_of(distance(ops, i, p), p),
        addr_not_equal: if moves(ops, i) {
            1
        } else {
            0
        },
        counter: i,
        counter_mult: 0,
    }
}

/// The rows of a log of operations.
pub open spec fn memory_witness(ops: Seq<MemoryOp>, p: int) -> Seq<MemoryRow> {
    Seq::new(ops.len(), |i: int| witness_row(ops, i, p))
}

/// Modulo a prime, `inverse_of` is the inverse, or zero with what vanishes.
proof fn lemma_inverse_of(x: int, p: int)
    requires
        is_prime(p),
    ensures
        inverse_or_zero(x, inverse_of(x, p), p),
        !vanishes(x, p) ==> (x * inverse_of(x, p)) % p == 1,
{
    if vanishes(x, p) {
        lemma_witness_holds(x, 0, 0, p);
    } else {
        let t = lemma_inverse_exists(x, p);
        assert(0 <= t < p && (x * t) % p == 1);
        lemma_witness_holds(x, inverse_of(x, p), 1, p);
    }
}

/// A product with a factor that is zero vanishes.
proof fn lemma_zero_factor(a: int, b: int, p: int)
    requires
        p > 0,
        a == 0 || b == 0,
    ensures
        vanishes(a * b, p),
{
    assert(a * b == 0) by (nonlinear_arith)
        requires
            a == 0 || b == 0,
    ;
    lemma_multiple_vanishes(0, p);
}

/// A flag that is zero or one is boolean in every field.
proof fn lemma_bit_is_boolean(x: int, p: int)
    requires
        p > 0,
        x == 0 || x == 1,
    ensures
        vanishes(x * (x - 1), p),
{
    lemma_zero_factor(x, x - 1, p);
}

/// The rows of a consistent log meet the constraints on flags.
proof fn lemma_witness_flags(ops: Seq<MemoryOp>, i: int, p: int)
    requires
        p > 0,
        0 <= i < ops.len(),
    ensures
        memory_flags_hold(witness_row(ops, i, p), p),
{
    let row = witness_row(ops, i, p);
    lemma_bit_is_boolean(row.is_static_initial, p);
    lemma_bit_is_boolean(row.is_read, p);
    lemma_bit_is_boolean(row.is_write, p);
    lemma_bit_is_boolean(row.addr_not_equal, p);
    lemma_bit_is_boolean(row.is_static_initial + row.is_read + row.is_write, p);
}

/// The rows of a consistent log meet the constraints on the order.
proof fn lemma_witness_order(ops: Seq<MemoryOp>, i: int, at: Position, p: int)
    requires
        is_prime(p),
        log_consistent(ops, p),
        0 <= i < ops.len(),
        !at.last ==> i + 1 < ops.len(),
    ensures
        memory_order_holds(
            witness_row(ops, i, p),
            witness_row(ops, if i + 1 < ops.len() {
                i + 1
            } else {
                0
            }, p),
            at,
            p,
        ),
{
    let local = witness_row(ops, i, p);
    let diff = local.diff;
    let inv = local.diff_inv;
    lemma_inverse_of(diff, p);
    if !at.last {
        let next = witness_row(ops, i + 1, p);
        let delta = next.addr - local.addr;
        let tick = next.clk - local.clk;
        let flag = local.addr_not_equal;
        lemma_fundamental_div_mod(delta, p);
        lemma_fundamental_div_mod(tick, p);
        if moves(ops, i) {
            assert(ops[i + 1].addr != ops[i].addr);
            assert(0 <= ops[i].addr < p && 0 <= ops[i + 1].addr < p);
            // the distance is the address change, and does not vanish
            assert(diff == delta % p);
            if delta > 0 {
                lemma_small_mod(delta as nat, p as nat);
            } else {
                lemma_mod_add_multiples_vanish(delta, p);
                lemma_small_mod((p + delta) as nat, p as nat);
            }
            assert(diff != 0);
            lemma_mod_twice(delta, p);
            assert(!vanishes(diff, p));
            // delta * inv is congruent to diff * inv, which is one
            let q = delta / p;
            assert(delta * inv - diff * inv == p * (q * inv)) by (nonlinear_arith)
                requires
                    delta == p * q + diff,
            ;
            lemma_same_remainder(delta * inv, diff * inv, q * inv, p);
            lemma_small_mod(1, p as nat);
            lemma_mod_equivalence(flag, delta * inv, p);
            lemma_zero_factor(delta, 1 - flag, p);
            assert(flag * delta + (1 - flag) * tick == delta) by (nonlinear_arith)
                requires
                    flag == 1,
            ;
            lemma_mod_equivalence(diff, delta, p);
        } else {
            assert(delta == 0);
            assert(delta * inv == 0) by (nonlinear_arith)
                requires
                    delta == 0,
            ;
            lemma_multiple_vanishes(0, p);
            lemma_zero_factor(delta, 1 - flag, p);
            assert(flag * delta + (1 - flag) * tick == tick) by (nonlinear_arith)
                requires
                    flag == 0,
            ;
            lemma_mod_twice(tick, p);
            lemma_mod_equivalence(diff, tick, p);
        }
    }
}

/// The rows of a consistent log meet the constraints on values.
proof fn lemma_witness_values(ops: Seq<MemoryOp>, i: int, at: Position, p: int)
    requires
        p > 0,
        log_consistent(ops, p),
        0 <= i < ops.len(),
        at.first ==> i == 0,
        !at.last ==> i + 1 < ops.len(),
    ensures
        memory_values_hold(
            witness_row(ops, i, p),
            witness_row(ops, if i + 1 < ops.len() {
                i + 1
            } else {
                0
            }, p),
            at,
            p,
        ),
{
    let local = witness_row(ops, i, p);
    lemma_multiple_vanishes(0, p);
    if !at.last {
        let next = witness_row(ops, i + 1, p);
        assert(follows_at(ops, i + 1));
        let flag = local.addr_not_equal;
        lemma_zero_factor(flag, 1 - next.is_static_initial - next.is_write, p);
        lemma_zero_factor(1 - flag, next.is_static_initial, p);
        assert forall|k: int| 0 <= k < 4 implies memory_limb_kept(local, next, k, p) by {
            let d = next.value[k] - local.value[k];
            if next.is_write == 1 || flag == 1 {
                assert((1 - next.is_write) * (1 - flag) == 0) by (nonlinear_arith)
                    requires
                        next.is_write == 1 || flag == 1,
                ;
                lemma_zero_factor((1 - next.is_write) * (1 - flag), d, p);
            } else {
                assert(ops[i + 1].value == ops[i].value);
                lemma_zero_factor((1 - next.is_write) * (1 - flag), d, p);
            }
        }
    }
}

/// Modulo a prime, the rows of a consistent log meet the chip's predicate
/// on every row: a log in which each read returns the value before it at
/// its address, and each address starts with a write or an initial value,
/// is accepted.
pub proof fn lemma_consistent_log_accepted(ops: Seq<MemoryOp>, p: int)
    requires
        is_prime(p),
        log_consistent(ops, p),
    ensures
        memory_log_holds(memory_witness(ops, p), p),
{
    let rows = memory_witness(ops, p);
    let n = rows.len() as int;
    assert forall|i: int| 0 <= i < rows.len() implies #[trigger] memory_log_step_holds(
        rows,
        i,
        p,
    ) by {
        let at = position(i, n);
        let succ = if i + 1 < n {
            i + 1
        } else {
            0
        };
        if i + 1 < n {
            lemma_small_mod((i + 1) as nat, n as nat);
        } else {
            lemma_mod_self_0(n);
        }
        assert((i + 1) % n == succ);
        let local = rows[i];
        let next = rows[succ];
        lemma_witness_flags(ops, i, p);
        lemma_witness_order(ops, i, at, p);
        lemma_witness_values(ops, i, at, p);
        lemma_multiple_vanishes(0, p);
        assert(memory_counter_holds(local, next, at, p));
    }
}

} // verus!
