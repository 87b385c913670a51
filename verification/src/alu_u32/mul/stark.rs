//! The constraints of the multiplication chip.
//!
//! A product of two words is certified modulo 2^32 and modulo 2^16 by two
//! congruences with witnessed quotients. The three selectors are bits of
//! which one at most is set. The congruences are those of the plain
//! product and bind every row alike: what the output of a high-half
//! operation is, the chip does not say.

use crate::alu_u32::mul::columns::{lemma_model_fields, Mul32Cols, MulRow, NUM_MUL_COLS};
use crate::alu_u32::mul::Mul32Chip;
use crate::builder::{position, ConstraintBuilder, Position, Scope};
use crate::expr::{cells, cells_fit, values, window_row, Expr, Row, Var, Window};
use crate::field::{boolean, congruent, vanishes};
use crate::matrix::{matrix_values, matrix_width, width};
use crate::trace::{check_trace, lemma_trace_means, step_at, steps_hold};
use crate::word::{low_limbs_value, radix, weighted_sum, Word};
use p3_matrix::dense::DenseMatrix;
use vstd::prelude::*;

verus! {

/// The terms of the schoolbook product that pair limb `i` of the first word
/// with the limbs below `m` of the second, as far as the positions add up to
/// less than `n`. Limbs are counted from the least significant one.
pub open spec fn pi_row(n: int, base: Seq<int>, a: Seq<int>, b: Seq<int>, i: int, m: int) -> int
    decreases m,
{
    if m <= 0 {
        0
    } else {
        pi_row(n, base, a, b, i, m - 1) + if i + (m - 1) < n {
            base[i + (m - 1)] * a[3 - i] * b[3 - (m - 1)]
        } else {
            0
        }
    }
}

/// The schoolbook product of two words cut off at `n` limbs, over the limbs
/// below `rows` of the first word: every term `base[i + j] * a_i * b_j`
/// with `i + j < n`.
pub open spec fn pi_sum(n: int, base: Seq<int>, a: Seq<int>, b: Seq<int>, rows: int) -> int
    decreases rows,
{
    if rows <= 0 {
        0
    } else {
        pi_sum(n, base, a, b, rows - 1) + pi_row(n, base, a, b, rows - 1, n)
    }
}

/// The product of two words in base 256, without the terms that reach limb
/// `n` or beyond.
pub open spec fn partial_product(a: Seq<int>, b: Seq<int>, n: int) -> int {
    pi_sum(n, radix(), a, b, n)
}

/// The two congruences that bind the output to the product of the inputs.
pub open spec fn mul_congruences_hold(row: MulRow, p: int) -> bool {
    &&& congruent(
        partial_product(row.input_1, row.input_2, 4) - low_limbs_value(row.output, 4),
        row.r * 2,
        p,
    )
    &&& congruent(
        partial_product(row.input_1, row.input_2, 2) - low_limbs_value(row.output, 2),
        row.s * 65536,
        p,
    )
}

/// The counter starts at 1, ends at 1024 and, from a row to the next, stays
/// or grows by one.
pub open spec fn mul_counter_holds(local: MulRow, next: MulRow, at: Position, p: int) -> bool {
    &&& at.first ==> congruent(local.counter, 1, p)
    &&& !at.last ==> vanishes(
        (next.counter - local.counter) * (next.counter - local.counter - 1),
        p,
    )
    &&& at.last ==> congruent(local.counter, 1024, p)
}

/// Each selector is zero or one, and so is their sum: one operation at most
/// is selected.
pub open spec fn mul_flags_hold(row: MulRow, p: int) -> bool {
    &&& boolean(row.is_mul, p)
    &&& boolean(row.is_mulhs, p)
    &&& boolean(row.is_mulhu, p)
    &&& boolean(row.is_mul + row.is_mulhs + row.is_mulhu, p)
}

/// The predicate of the chip on a row and its successor.
pub open spec fn mul_row_holds(local: MulRow, next: MulRow, at: Position, p: int) -> bool {
    &&& mul_congruences_hold(local, p)
    &&& mul_flags_hold(local, p)
    &&& mul_counter_holds(local, next, at, p)
}

/// All cells of the row lie within `width` columns.
pub open spec fn mul_cols_fit(cols: Mul32Cols<Var>, width: int) -> bool {
    cells_fit(cols.flat(), width)
}

/// The partially reduced product of two words: the sum of
/// `base[i + j] * input_1[3 - i] * input_2[3 - j]` over `i + j < N`.
pub fn pi_m<const N: usize>(base: &[Expr], input_1: Word<Var>, input_2: Word<Var>) -> (e: Expr)
    requires
        N <= 4,
        N <= base@.len(),
    ensures
        forall|w: Window| #[trigger]
            e.value(w) == pi_sum(
                N as int,
                values(base@, w),
                cells(input_1@, w),
                cells(input_2@, w),
                N as int,
            ),
        forall|width: int|
            (forall|k: int| 0 <= k < N ==> (#[trigger] base@[k]).fits(width)) && cells_fit(
                input_1@,
                width,
            ) && cells_fit(input_2@, width) ==> #[trigger] e.fits(width),
{
    let mut acc = Expr::zero();
    let mut i: usize = 0;
    while i < N
        invariant
            N <= 4,
            N <= base@.len(),
            0 <= i <= N,
            forall|w: Window| #[trigger]
                acc.value(w) == pi_sum(
                    N as int,
                    values(base@, w),
                    cells(input_1@, w),
                    cells(input_2@, w),
                    i as int,
                ),
            forall|width: int|
                (forall|k: int| 0 <= k < N ==> (#[trigger] base@[k]).fits(width)) && cells_fit(
                    input_1@,
                    width,
                ) && cells_fit(input_2@, width) ==> #[trigger] acc.fits(width),
        decreases N - i,
    {
        let mut j: usize = 0;
        while j < N
            invariant
                N <= 4,
                N <= base@.len(),
                0 <= i < N,
                0 <= j <= N,
                forall|w: Window| #[trigger]
                    acc.value(w) == pi_sum(
                        N as int,
                        values(base@, w),
                        cells(input_1@, w),
                        cells(input_2@, w),
                        i as int,
                    ) + pi_row(
                        N as int,
                        values(base@, w),
                        cells(input_1@, w),
                        cells(input_2@, w),
                        i as int,
                        j as int,
                    ),
                forall|width: int|
                    (forall|k: int| 0 <= k < N ==> (#[trigger] base@[k]).fits(width)) && cells_fit(
                        input_1@,
                        width,
                    ) && cells_fit(input_2@, width) ==> #[trigger] acc.fits(width),
            decreases N - j,
        {
            if i + j < N {
                let ghost before = acc;
                let x = input_1.limb(3 - i);
                let y = input_2.limb(3 - j);
                let term = base[i + j].clone().times(Expr::var(x)).times(Expr::var(y));
                acc = acc.plus(term);
                proof {
                    reveal_with_fuel(Expr::value, 4);
                    reveal_with_fuel(Expr::fits, 4);
                    assert forall|w: Window| #[trigger]
                        acc.value(w) == before.value(w) + values(base@, w)[i + j] * cells(
                            input_1@,
                            w,
                        )[3 - i] * cells(input_2@, w)[3 - j] by {}
                    assert forall|width: int|
                        (forall|k: int| 0 <= k < N ==> (#[trigger] base@[k]).fits(width))
                            && cells_fit(input_1@, width) && cells_fit(
                            input_2@,
                            width,
                        ) implies #[trigger] acc.fits(width) by {
                        assert(before.fits(width));
                        assert(base@[i + j].fits(width));
                        assert(input_1@[3 - i].column < width);
                        assert(input_2@[3 - j].column < width);
                    }
                }
            }
            j += 1;
        }
        i += 1;
    }
    acc
}

/// The value of the `N` low limbs of a word: the sum of
/// `base[i] * input[3 - i]` over the limbs `i` below `N`.
pub fn sigma_m<const N: usize>(base: &[Expr], input: Word<Var>) -> (e: Expr)
    requires
        N <= 4 ==> N <= base@.len(),
        N > 4 ==> 4 <= base@.len(),
    ensures
        forall|w: Window| #[trigger]
            e.value(w) == weighted_sum(
                values(base@, w),
                cells(input@, w),
                if N <= 4 {
                    N as int
                } else {
                    4
                },
            ),
        forall|width: int|
            (forall|k: int| 0 <= k < N && k < 4 ==> (#[trigger] base@[k]).fits(width))
                && cells_fit(input@, width) ==> #[trigger] e.fits(width),
{
    let count: usize = if N <= 4 {
        N
    } else {
        4
    };
    let mut acc = Expr::zero();
    let mut i: usize = 0;
    while i < count
        invariant
            count <= 4,
            count <= N,
            count <= base@.len(),
            0 <= i <= count,
            forall|w: Window| #[trigger]
                acc.value(w) == weighted_sum(values(base@, w), cells(input@, w), i as int),
            forall|width: int|
                (forall|k: int| 0 <= k < N && k < 4 ==> (#[trigger] base@[k]).fits(width))
                    && cells_fit(input@, width) ==> #[trigger] acc.fits(width),
        decreases count - i,
    {
        let ghost before = acc;
        let x = input.limb(3 - i);
        let term = base[i].clone().times(Expr::var(x));
        acc = acc.plus(term);
        proof {
            reveal_with_fuel(Expr::value, 3);
            reveal_with_fuel(Expr::fits, 3);
            assert forall|w: Window| #[trigger]
                acc.value(w) == before.value(w) + values(base@, w)[i as int] * cells(input@, w)[3
                    - i] by {}
            assert forall|width: int|
                (forall|k: int| 0 <= k < N && k < 4 ==> (#[trigger] base@[k]).fits(width))
                    && cells_fit(input@, width) implies #[trigger] acc.fits(width) by {
                assert(before.fits(width));
                assert(base@[i as int].fits(width));
                assert(input@[3 - i].column < width);
            }
        }
        i += 1;
    }
    acc
}

/// Writes the predicate of the chip on the rows `local` and `next` into
/// `builder`, in nine constraints: the two congruences on `local`, the
/// four on the selectors, and the counter's start, step and end.
pub fn mul_builder(
    local: &Mul32Cols<Var>,
    next: &Mul32Cols<Var>,
    builder: &mut ConstraintBuilder,
)
    ensures
        final(builder)@.len() == old(builder)@.len() + 9,
        forall|w: Window, at: Position, p: int| #[trigger]
            final(builder).holds(w, at, p) <==> old(builder).holds(w, at, p) && mul_row_holds(
                local.under(w),
                next.under(w),
                at,
                p,
            ),
        forall|width: int|
            old(builder).fits(width) && mul_cols_fit(*local, width) && mul_cols_fit(*next, width)
                ==> #[trigger] final(builder).fits(width),
{
    let base_m: [Expr; 4] = [
        Expr::from_canonical_u32(1),
        Expr::from_canonical_u32(256),
        Expr::from_canonical_u32(65536),
        Expr::from_canonical_u32(16777216),
    ];

    // Partially reduced summation of input product limbs (mod 2^32)
    let pi = pi_m::<4>(base_m.as_slice(), local.input_1, local.input_2);

    // Partially reduced summation of output limbs (mod 2^32)
    let sigma = sigma_m::<4>(base_m.as_slice(), local.output);

    // Partially reduced summation of input product limbs (mod 2^16)
    let pi_prime = pi_m::<2>(base_m.as_slice(), local.input_1, local.input_2);

    // Partially reduced summation of output limbs (mod 2^16)
    let sigma_prime = sigma_m::<2>(base_m.as_slice(), local.output);

    let ghost b0 = *builder;
    let ghost (pi4, sigma4, pi2, sigma2) = (pi, sigma, pi_prime, sigma_prime);

    // Congruence checks
    let carry = Expr::var(local.r).times(Expr::two());
    let carry_prime = Expr::var(local.s).times(base_m[2].clone());
    let ghost (carry_g, carry_prime_g) = (carry, carry_prime);
    builder.assert_eq(pi.minus(sigma), carry);
    builder.assert_eq(pi_prime.minus(sigma_prime), carry_prime);

    // One operation at most
    let selected = Expr::var(local.is_mul).plus(Expr::var(local.is_mulhs)).plus(
        Expr::var(local.is_mulhu),
    );
    let ghost selected_g = selected;
    builder.assert_bool_in(Scope::every(), Expr::var(local.is_mul));
    builder.assert_bool_in(Scope::every(), Expr::var(local.is_mulhs));
    builder.assert_bool_in(Scope::every(), Expr::var(local.is_mulhu));
    builder.assert_bool_in(Scope::every(), selected);

    // Range check counter
    builder.assert_eq_in(Scope::first_row(), Expr::var(local.counter), Expr::one());
    let counter_diff = Expr::var(next.counter).minus(Expr::var(local.counter));
    let step = counter_diff.clone().times(counter_diff.minus(Expr::one()));
    let ghost step_g = step;
    builder.assert_zero_in(Scope::transition(), step);
    builder.assert_eq_in(
        Scope::last_row(),
        Expr::var(local.counter),
        Expr::from_canonical_u32(1024),
    );

    proof {
        let base = base_m@;
        assert(base.len() == 4);
        reveal_with_fuel(Expr::value, 4);
        reveal_with_fuel(Expr::fits, 4);
        assert forall|w: Window, at: Position, p: int| #[trigger]
            builder.holds(w, at, p) <==> b0.holds(w, at, p) && mul_row_holds(
                local.under(w),
                next.under(w),
                at,
                p,
            ) by {
            lemma_model_fields(*local, |v: Var| w.at(v));
            lemma_model_fields(*next, |v: Var| w.at(v));
            let row = local.under(w);
            let succ = next.under(w);
            assert(values(base, w) =~= radix());
            assert(cells(local.input_1@, w) == row.input_1);
            assert(cells(local.input_2@, w) == row.input_2);
            assert(cells(local.output@, w) == row.output);
            assert(pi4.value(w) == partial_product(row.input_1, row.input_2, 4));
            assert(pi2.value(w) == partial_product(row.input_1, row.input_2, 2));
            assert(sigma4.value(w) == low_limbs_value(row.output, 4));
            assert(sigma2.value(w) == low_limbs_value(row.output, 2));
            assert(carry_g.value(w) == row.r * 2);
            assert(carry_prime_g.value(w) == row.s * 65536);
            assert(step_g.value(w) == (succ.counter - row.counter) * (succ.counter - row.counter
                - 1));
            assert(Expr::Var(local.counter).value(w) == row.counter);
            assert(Expr::Var(local.is_mul).value(w) == row.is_mul);
            assert(Expr::Var(local.is_mulhs).value(w) == row.is_mulhs);
            assert(Expr::Var(local.is_mulhu).value(w) == row.is_mulhu);
            assert(selected_g.value(w) == row.is_mul + row.is_mulhs + row.is_mulhu);
        }
        assert forall|width: int|
            b0.fits(width) && mul_cols_fit(*local, width) && mul_cols_fit(
                *next,
                width,
            ) implies #[trigger] builder.fits(width) by {
            lemma_cols_fit(*local, width);
            lemma_cols_fit(*next, width);
            assert(base[0].fits(width) && base[1].fits(width) && base[2].fits(width)
                && base[3].fits(width));
            assert(pi4.fits(width) && sigma4.fits(width) && pi2.fits(width) && sigma2.fits(width));
            assert(carry_g.fits(width) && carry_prime_g.fits(width) && step_g.fits(width));
            assert(selected_g.fits(width));
        }
    }
}

/// Where a row fits, each of its named cells does.
pub proof fn lemma_cols_fit(cols: Mul32Cols<Var>, width: int)
    requires
        mul_cols_fit(cols, width),
    ensures
        cells_fit(cols.input_1@, width),
        cells_fit(cols.input_2@, width),
        cells_fit(cols.output@, width),
        cols.r.column < width,
        cols.s.column < width,
        cols.is_mul.column < width,
        cols.is_mulhs.column < width,
        cols.is_mulhu.column < width,
        cols.counter.column < width,
{
    let flat = cols.flat();
    assert forall|k: int| 0 <= k < 4 implies (#[trigger] cols.input_1@[k]).column < width by {
        assert(flat[k] == cols.input_1@[k]);
    }
    assert forall|k: int| 0 <= k < 4 implies (#[trigger] cols.input_2@[k]).column < width by {
        assert(flat[k + 4] == cols.input_2@[k]);
    }
    assert forall|k: int| 0 <= k < 4 implies (#[trigger] cols.output@[k]).column < width by {
        assert(flat[k + 8] == cols.output@[k]);
    }
    assert(flat[12] == cols.r);
    assert(flat[13] == cols.s);
    assert(flat[14] == cols.is_mul);
    assert(flat[15] == cols.is_mulhs);
    assert(flat[16] == cols.is_mulhu);
    assert(flat[17] == cols.counter);
}

impl Mul32Chip {
    /// The number of columns of the chip's trace.
    pub fn width(&self) -> (n: usize)
        ensures
            n == NUM_MUL_COLS,
    {
        NUM_MUL_COLS
    }

    /// Writes the chip's predicate on the window of the main trace into
    /// `builder`, in nine constraints.
    pub fn eval(&self, builder: &mut ConstraintBuilder)
        ensures
            final(builder)@.len() == old(builder)@.len() + 9,
            forall|w: Window, at: Position, p: int|
                w.local.len() == NUM_MUL_COLS && w.next.len() == NUM_MUL_COLS ==> (
                #[trigger] final(builder).holds(w, at, p) <==> old(builder).holds(w, at, p)
                    && mul_row_holds(
                    MulRow::from_flat(w.local),
                    MulRow::from_flat(w.next),
                    at,
                    p,
                )),
            forall|width: int|
                old(builder).fits(width) && NUM_MUL_COLS <= width
                    ==> #[trigger] final(builder).fits(width),
    {
        let main_local = window_row(Row::Local, NUM_MUL_COLS);
        let main_next = window_row(Row::Next, NUM_MUL_COLS);
        let local = Mul32Cols::from_row(main_local.as_slice()).unwrap();
        let next = Mul32Cols::from_row(main_next.as_slice()).unwrap();
        mul_builder(&local, &next, builder);
        proof {
            assert forall|w: Window|
                w.local.len() == NUM_MUL_COLS && w.next.len() == NUM_MUL_COLS implies #[trigger] local.under(
                w,
            ) == MulRow::from_flat(w.local) && next.under(w) == MulRow::from_flat(w.next) by {
                assert(local.flat().map_values(|v: Var| w.at(v)) =~= w.local);
                assert(next.flat().map_values(|v: Var| w.at(v)) =~= w.next);
            }
        }
    }
}

/// The chip's predicate on a window at a position.
pub open spec fn mul_step(p: int) -> spec_fn(Window, Position) -> bool {
    |w: Window, at: Position| mul_row_holds(MulRow::from_flat(w.local), MulRow::from_flat(w.next), at, p)
}

/// The chip's predicate holds on the window of row `r` of a trace.
pub open spec fn mul_step_holds(values: Seq<u64>, width: nat, r: int, p: int) -> bool {
    step_at(values, width, r, mul_step(p))
}

/// The chip's predicate holds on the window of every row of a trace.
pub open spec fn mul_trace_holds(values: Seq<u64>, width: nat, p: int) -> bool {
    steps_hold(values, width, mul_step(p))
}

impl Mul32Chip {
    /// The chip's predicate as a constraint system of its own.
    pub fn constraints(&self) -> (builder: ConstraintBuilder)
        ensures
            builder@.len() == 9,
            forall|w: Window, at: Position, p: int|
                w.local.len() == NUM_MUL_COLS && w.next.len() == NUM_MUL_COLS ==> (
                #[trigger] builder.holds(w, at, p) <==> mul_row_holds(
                    MulRow::from_flat(w.local),
                    MulRow::from_flat(w.next),
                    at,
                    p,
                )),
            builder.fits(NUM_MUL_COLS as int),
    {
        let mut builder = ConstraintBuilder::new();
        self.eval(&mut builder);
        builder
    }

    /// Whether `trace` meets the chip's predicate on every row, modulo `p`:
    /// `None` unless the trace has the width of the chip.
    pub fn check(&self, trace: &DenseMatrix<u64, Vec<u64>>, p: u64) -> (r: Option<bool>)
        requires
            p > 0,
        ensures
            r.is_some() <==> matrix_width(*trace) == NUM_MUL_COLS,
            r.is_some() ==> r.unwrap() == mul_trace_holds(
                matrix_values(*trace),
                matrix_width(*trace),
                p as int,
            ),
    {
        if width(trace) != NUM_MUL_COLS {
            return None;
        }
        let builder = self.constraints();
        let r = check_trace(&builder, trace, p);
        proof {
            lemma_trace_means(
                builder,
                matrix_values(*trace),
                matrix_width(*trace),
                p as int,
                mul_step(p as int),
            );
        }
        r
    }
}

} // verus!
