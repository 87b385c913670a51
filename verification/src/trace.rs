//! Checking a constraint system on a whole trace.
//!
//! A trace is a matrix of field elements, one row per step. Every row is
//! checked together with its successor; the successor of the last row is
//! the first, and the constraints on transitions skip the last row.

use crate::builder::{all_hold, position, Constraint, ConstraintBuilder, Position};
use crate::expr::Window;
use crate::matrix::{height, matrix_values, matrix_width, row, row_of, rows_in, width};
use p3_matrix::dense::DenseMatrix;
use vstd::arithmetic::div_mod::*;
use vstd::prelude::*;

verus! {

/// Row `r` of a trace, as integers.
pub open spec fn int_row(values: Seq<u64>, width: nat, r: int) -> Seq<int> {
    row_of(values, width, r).map_values(|x: u64| x as int)
}

/// The row after row `r`: the next one, or the first after the last.
pub open spec fn successor(values: Seq<u64>, width: nat, r: int) -> int {
    (r + 1) % (rows_in(values.len(), width) as int)
}

/// The window on row `r` of a trace and on the row after it.
pub open spec fn window_at(values: Seq<u64>, width: nat, r: int) -> Window {
    Window::of(row_of(values, width, r), row_of(values, width, successor(values, width, r)))
}

/// The constraints `cs` are met on row `r` of a trace.
pub open spec fn step_holds(cs: Seq<Constraint>, values: Seq<u64>, width: nat, r: int, p: int) -> bool {
    all_hold(cs, window_at(values, width, r), position(r, rows_in(values.len(), width) as int), p)
}

/// The constraints `cs` are met on every row of a trace.
pub open spec fn trace_holds(cs: Seq<Constraint>, values: Seq<u64>, width: nat, p: int) -> bool {
    forall|r: int| 0 <= r < rows_in(values.len(), width) ==> #[trigger] step_holds(cs, values, width, r, p)
}

/// The predicate `step` holds on the window of row `r` of a trace.
pub open spec fn step_at(
    values: Seq<u64>,
    width: nat,
    r: int,
    step: spec_fn(Window, Position) -> bool,
) -> bool {
    step(window_at(values, width, r), position(r, rows_in(values.len(), width) as int))
}

/// The predicate `step` holds on the window of every row of a trace.
pub open spec fn steps_hold(
    values: Seq<u64>,
    width: nat,
    step: spec_fn(Window, Position) -> bool,
) -> bool {
    forall|r: int|
        0 <= r < rows_in(values.len(), width) ==> #[trigger] step_at(values, width, r, step)
}

/// Constraints that mean `step` on every window of a trace's width are met
/// on the trace exactly when `step` holds on the window of every row.
pub proof fn lemma_trace_means(
    builder: ConstraintBuilder,
    values: Seq<u64>,
    width: nat,
    p: int,
    step: spec_fn(Window, Position) -> bool,
)
    requires
        forall|w: Window, at: Position|
            w.local.len() == width && w.next.len() == width ==> (#[trigger] builder.holds(w, at, p)
                <==> step(w, at)),
    ensures
        trace_holds(builder@, values, width, p) <==> steps_hold(values, width, step),
{
    let cs = builder@;
    assert forall|r: int| 0 <= r < rows_in(values.len(), width) implies (#[trigger] step_holds(
        cs,
        values,
        width,
        r,
        p,
    ) <==> step_at(values, width, r, step)) by {
        lemma_window_at(values, width, r);
        let w = window_at(values, width, r);
        let at = position(r, rows_in(values.len(), width) as int);
        assert(builder.holds(w, at, p) <==> step(w, at));
    }
    if trace_holds(cs, values, width, p) {
        assert forall|r: int| 0 <= r < rows_in(values.len(), width) implies #[trigger] step_at(
            values,
            width,
            r,
            step,
        ) by {
            assert(step_holds(cs, values, width, r, p));
        }
    }
    if steps_hold(values, width, step) {
        assert forall|r: int| 0 <= r < rows_in(values.len(), width) implies #[trigger] step_holds(
            cs,
            values,
            width,
            r,
            p,
        ) by {
            assert(step_at(values, width, r, step));
        }
    }
}

/// Whether the constraints gathered in `builder` are met on every row of
/// `trace`, modulo `p`: `None` where the trace has rows and a constraint
/// mentions a column that they lack.
pub fn check_trace(builder: &ConstraintBuilder, trace: &DenseMatrix<u64, Vec<u64>>, p: u64) -> (r:
    Option<bool>)
    requires
        p > 0,
    ensures
        r.is_some() <==> rows_in(matrix_values(*trace).len(), matrix_width(*trace)) == 0
            || builder.fits(matrix_width(*trace) as int),
        r.is_some() ==> r.unwrap() == trace_holds(
            builder@,
            matrix_values(*trace),
            matrix_width(*trace),
            p as int,
        ),
{
    let h = height(trace);
    let ghost values = matrix_values(*trace);
    let ghost wd = matrix_width(*trace);
    let mut met = true;
    let mut i: usize = 0;
    while i < h
        invariant
            p > 0,
            0 <= i <= h,
            h == rows_in(values.len(), wd),
            values == matrix_values(*trace),
            wd == matrix_width(*trace),
            i > 0 ==> builder.fits(wd as int),
            met == forall|r: int| 0 <= r < i ==> #[trigger] step_holds(builder@, values, wd, r, p as int),
        decreases h - i,
    {
        let succ = if i + 1 == h {
            0
        } else {
            i + 1
        };
        proof {
            if i + 1 == h {
                lemma_mod_self_0(h as int);
            } else {
                lemma_small_mod((i + 1) as nat, h as nat);
            }
        }
        let local = row(trace, i).unwrap();
        let next = row(trace, succ).unwrap();
        let at = Position { first: i == 0, last: i + 1 == h };
        proof {
            assert(local@.len() == wd && next@.len() == wd) by {
                lemma_row_in_bounds(values, wd, i as int);
                lemma_row_in_bounds(values, wd, succ as int);
            }
        }
        match builder.check_row(local.as_slice(), next.as_slice(), at, p) {
            None => {
                return None;
            },
            Some(ok) => {
                proof {
                    assert(ok == step_holds(builder@, values, wd, i as int, p as int));
                }
                if !ok {
                    met = false;
                }
            },
        }
        i += 1;
    }
    Some(met)
}

/// The window on a row of a trace holds that row and its successor, both of
/// the trace's width.
pub proof fn lemma_window_at(values: Seq<u64>, width: nat, r: int)
    requires
        0 <= r < rows_in(values.len(), width),
    ensures
        window_at(values, width, r).local == int_row(values, width, r),
        window_at(values, width, r).next == int_row(values, width, successor(values, width, r)),
        window_at(values, width, r).local.len() == width,
        window_at(values, width, r).next.len() == width,
        0 <= successor(values, width, r) < rows_in(values.len(), width),
{
    let h = rows_in(values.len(), width) as int;
    lemma_mod_bound(r + 1, h);
    lemma_row_in_bounds(values, width, r);
    lemma_row_in_bounds(values, width, successor(values, width, r));
}

/// A row below the height lies within the buffer.
pub proof fn lemma_row_in_bounds(values: Seq<u64>, width: nat, r: int)
    requires
        0 <= r < rows_in(values.len(), width),
    ensures
        0 <= r * width,
        r * width + width <= values.len(),
        row_of(values, width, r).len() == width,
{
    let h = values.len() as int / width as int;
    lemma_fundamental_div_mod(values.len() as int, width as int);
    lemma_mod_bound(values.len() as int, width as int);
    assert(r * width + width <= h * width) by (nonlinear_arith)
        requires
            0 <= r < h,
            width > 0,
    ;
    assert(h * width == width * h) by (nonlinear_arith);
    assert(0 <= r * width) by (nonlinear_arith)
        requires
            0 <= r,
            width >= 0,
    ;
}

} // verus!
