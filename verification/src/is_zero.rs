//! Telling zero from non-zero by polynomial identities.
//!
//! A field element is non-zero exactly when it has an inverse. A witness
//! column that holds the inverse, or zero for zero, turns "is this zero"
//! into identities that a constraint system can state.

use crate::builder::{ConstraintBuilder, Position, RowFilter, Scope};
use crate::expr::{Expr, Window};
use crate::field::{
    congruent, inverse, is_prime, lemma_canonical_equal, lemma_inverse_exists,
    lemma_multiple_vanishes, lemma_product_vanishes, reduce, vanishes,
};
use vstd::arithmetic::div_mod::*;
use vstd::prelude::*;

verus! {

/// `inv` is the inverse of `x`, or both are zero: `x * (x * inv - 1)` and
/// `inv * (x * inv - 1)` vanish.
pub open spec fn inverse_or_zero(x: int, inv: int, p: int) -> bool {
    vanishes(x * (x * inv - 1), p) && vanishes(inv * (x * inv - 1), p)
}

/// `flag` tells whether `x` is non-zero, by the witness `inv`: `flag` is
/// `x * inv`, and `x * (1 - flag)` vanishes.
pub open spec fn indicates_nonzero(x: int, inv: int, flag: int, p: int) -> bool {
    congruent(flag, x * inv, p) && vanishes(x * (1 - flag), p)
}

/// Asserts on `rows` that `inv` is the inverse of `x`, or zero with it.
pub fn assert_inverse_or_zero(builder: &mut ConstraintBuilder, rows: RowFilter, x: Expr, inv: Expr)
    ensures
        final(builder)@.len() == old(builder)@.len() + 2,
        forall|w: Window, at: Position, p: int| #[trigger]
            final(builder).holds(w, at, p) <==> old(builder).holds(w, at, p) && (rows.selects(at)
                ==> inverse_or_zero(x.value(w), inv.value(w), p)),
        forall|width: int| #[trigger]
            final(builder).fits(width) <==> old(builder).fits(width) && x.fits(width) && inv.fits(
                width,
            ),
{
    let unit = x.clone().times(inv.clone()).minus(Expr::one());
    let first = x.times(unit.clone());
    let second = inv.times(unit);
    let ghost (f, s) = (first, second);
    builder.assert_zero_in(Scope::on(rows), first);
    builder.assert_zero_in(Scope::on(rows), second);
    proof {
        reveal_with_fuel(Expr::value, 4);
        reveal_with_fuel(Expr::fits, 4);
        assert forall|w: Window| #[trigger]
            f.value(w) == x.value(w) * (x.value(w) * inv.value(w) - 1) && s.value(w) == inv.value(w)
                * (x.value(w) * inv.value(w) - 1) by {}
        assert forall|width: int| #[trigger]
            f.fits(width) <==> x.fits(width) && inv.fits(width) by {}
        assert forall|width: int| #[trigger]
            s.fits(width) <==> x.fits(width) && inv.fits(width) by {}
    }
}

/// Asserts on `rows` that `flag` tells whether `x` is non-zero, by the
/// witness `inv`.
pub fn assert_indicates_nonzero(
    builder: &mut ConstraintBuilder,
    rows: RowFilter,
    x: Expr,
    inv: Expr,
    flag: Expr,
)
    ensures
        final(builder)@.len() == old(builder)@.len() + 2,
        forall|w: Window, at: Position, p: int| #[trigger]
            final(builder).holds(w, at, p) <==> old(builder).holds(w, at, p) && (rows.selects(at)
                ==> indicates_nonzero(x.value(w), inv.value(w), flag.value(w), p)),
        forall|width: int| #[trigger]
            final(builder).fits(width) <==> old(builder).fits(width) && x.fits(width) && inv.fits(
                width,
            ) && flag.fits(width),
{
    let product = x.clone().times(inv);
    let rest = x.times(Expr::one().minus(flag.clone()));
    let ghost (m, r) = (product, rest);
    builder.assert_eq_in(Scope::on(rows), flag, product);
    builder.assert_zero_in(Scope::on(rows), rest);
    proof {
        reveal_with_fuel(Expr::value, 4);
        reveal_with_fuel(Expr::fits, 4);
        assert forall|w: Window| #[trigger]
            m.value(w) == x.value(w) * inv.value(w) && r.value(w) == x.value(w) * (1 - flag.value(
                w,
            )) by {}
        assert forall|width: int| #[trigger]
            m.fits(width) <==> x.fits(width) && inv.fits(width) by {}
        assert forall|width: int| #[trigger]
            r.fits(width) <==> x.fits(width) && flag.fits(width) by {}
    }
}

/// The flag and the witness for `x`: `(0, 0)` for zero, and 1 with the
/// inverse otherwise. `None` where `x` is neither zero nor invertible,
/// which no prime modulus allows.
pub fn is_zero(x: u64, p: u64) -> (r: Option<(u64, u64)>)
    requires
        p > 0,
    ensures
        vanishes(x as int, p as int) ==> r == Some((0u64, 0u64)),
        !vanishes(x as int, p as int) ==> match r {
            Some((flag, inv)) => flag == 1 && inv < p && (x * inv) % p as int == 1,
            None => forall|y: int| #[trigger] ((x * y) % p as int) != 1,
        },
{
    if reduce(x, p) == 0 {
        Some((0, 0))
    } else {
        match inverse(x, p) {
            Some(inv) => Some((1, inv)),
            None => None,
        }
    }
}

/// Modulo a prime, `is_zero` always finds its witness.
pub proof fn lemma_is_zero_total(x: int, p: int)
    requires
        is_prime(p),
        !vanishes(x, p),
    ensures
        exists|y: int| #[trigger] ((x * y) % p) == 1,
{
    let t = lemma_inverse_exists(x, p);
    assert((x * t) % p == 1);
}

/// What `is_zero` hands back meets both sets of identities.
pub proof fn lemma_witness_holds(x: int, inv: int, flag: int, p: int)
    requires
        p > 1,
        (vanishes(x, p) && inv == 0 && flag == 0) || ((x * inv) % p == 1 && flag == 1),
    ensures
        inverse_or_zero(x, inv, p),
        indicates_nonzero(x, inv, flag, p),
{
    if inv == 0 && flag == 0 && vanishes(x, p) {
        assert(x * inv == 0 && inv * (x * inv - 1) == 0 && x * (1 - flag) == x) by (nonlinear_arith)
            requires
                inv == 0,
                flag == 0,
        ;
        lemma_multiple_vanishes(0, p);
        crate::field::lemma_vanishing_is_multiple(x, p);
        let k = x / p;
        assert(x * (x * inv - 1) == p * (k * (x * inv - 1))) by (nonlinear_arith)
            requires
                x == p * k,
        ;
        lemma_multiple_vanishes(k * (x * inv - 1), p);
    } else {
        lemma_small_mod(1, p as nat);
        lemma_mod_equivalence(x * inv, 1, p);
        crate::field::lemma_vanishing_is_multiple(x * inv - 1, p);
        let k = (x * inv - 1) / p;
        assert(x * (x * inv - 1) == p * (x * k) && inv * (x * inv - 1) == p * (inv * k)) by (nonlinear_arith)
            requires
                x * inv - 1 == p * k,
        ;
        lemma_multiple_vanishes(x * k, p);
        lemma_multiple_vanishes(inv * k, p);
        assert(x * (1 - flag) == 0) by (nonlinear_arith)
            requires
                flag == 1,
        ;
        lemma_multiple_vanishes(0, p);
        lemma_mod_equivalence(flag, x * inv, p);
    }
}

/// Modulo a prime, the witness is the inverse of `x` or zero with it
/// exactly when either both vanish or their product is one.
pub proof fn lemma_inverse_or_zero(x: int, inv: int, p: int)
    requires
        is_prime(p),
    ensures
        inverse_or_zero(x, inv, p) <==> (vanishes(x, p) && vanishes(inv, p)) || congruent(
            x * inv,
            1,
            p,
        ),
{
    lemma_product_vanishes(x, x * inv - 1, p);
    lemma_product_vanishes(inv, x * inv - 1, p);
    if vanishes(x, p) || vanishes(inv, p) {
        lemma_product_vanishes(x, inv, p);
        lemma_mod_equivalence(x * inv, 1, p);
        lemma_small_mod(1, p as nat);
    }
}

/// Modulo a prime, on canonical cells: where both sets of identities hold,
/// a zero comes with witness 0 and flag 0, and a non-zero with its inverse
/// and flag 1.
pub proof fn lemma_flag_decides(x: int, inv: int, flag: int, p: int)
    requires
        is_prime(p),
        0 <= x < p,
        0 <= inv < p,
        0 <= flag < p,
        inverse_or_zero(x, inv, p),
        indicates_nonzero(x, inv, flag, p),
    ensures
        x == 0 ==> inv == 0 && flag == 0,
        x != 0 ==> congruent(x * inv, 1, p) && flag == 1,
{
    lemma_inverse_or_zero(x, inv, p);
    lemma_small_mod(x as nat, p as nat);
    lemma_small_mod(inv as nat, p as nat);
    lemma_small_mod(1, p as nat);
    if x == 0 {
        assert(x * inv == 0) by (nonlinear_arith)
            requires
                x == 0,
        ;
        lemma_mod_equivalence(x * inv, 1, p);
        lemma_small_mod(0, p as nat);
        lemma_canonical_equal(flag, 0, p);
    } else {
        assert(congruent(x * inv, 1, p));
        lemma_mod_equivalence(flag, x * inv, p);
        lemma_mod_equivalence(x * inv, 1, p);
        lemma_mod_equivalence(flag, 1, p);
        lemma_canonical_equal(flag, 1, p);
    }
}

/// Modulo a prime, a non-zero cell with a witness that is not its inverse
/// breaks the identities.
pub proof fn lemma_wrong_witness_fails(x: int, inv: int, p: int)
    requires
        is_prime(p),
        !vanishes(x, p),
        !congruent(x * inv, 1, p),
    ensures
        !inverse_or_zero(x, inv, p),
{
    lemma_inverse_or_zero(x, inv, p);
}

} // verus!
