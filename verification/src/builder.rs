//! The constraint system that a chip writes its predicate into.
//!
//! A constraint names the rows it binds, a guard and a body: on a bound row
//! the product of guard and body must vanish in the field. A chip's
//! predicate is the conjunction of the constraints it emits.

use crate::expr::{Expr, Window};
use crate::field::{congruent, mul_mod, vanishes};
use vstd::arithmetic::div_mod::*;
use vstd::prelude::*;

verus! {

/// Where in the trace the current row stands.
#[derive(Clone, Copy, Debug, PartialEq, Eq, Structural)]
pub struct Position {
    pub first: bool,
    pub last: bool,
}

/// The position of row `i` in a trace of `height` rows.
pub open spec fn position(i: int, height: int) -> Position {
    Position { first: i == 0, last: i == height - 1 }
}

/// The rows of a trace that a constraint binds.
#[derive(Clone, Copy, Debug, PartialEq, Eq, Structural)]
pub enum RowFilter {
    /// Every row.
    Every,
    /// The first row only.
    First,
    /// The last row only.
    Last,
    /// Every row but the last.
    Transition,
}

impl RowFilter {
    /// Whether a constraint on these rows binds the row at `at`.
    pub open spec fn selects(self, at: Position) -> bool {
        match self {
            RowFilter::Every => true,
            RowFilter::First => at.first,
            RowFilter::Last => at.last,
            RowFilter::Transition => !at.last,
        }
    }

    /// Whether a constraint on these rows binds the row at `at`.
    pub fn binds(self, at: Position) -> (b: bool)
        ensures
            b == self.selects(at),
    {
        match self {
            RowFilter::Every => true,
            RowFilter::First => at.first,
            RowFilter::Last => at.last,
            RowFilter::Transition => !at.last,
        }
    }
}

/// The rows and the condition under which assertions are made.
pub struct Scope {
    pub rows: RowFilter,
    /// The condition, where there is one.
    pub guard: Option<Expr>,
}

/// The value `v` under a guard: multiplied by the guard where there is one.
pub open spec fn weighted(guard: Option<Expr>, v: int, w: Window) -> int {
    match guard {
        None => v,
        Some(g) => g.value(w) * v,
    }
}

/// The guard, where there is one, fits a row of `width` columns.
pub open spec fn guard_fits(guard: Option<Expr>, width: int) -> bool {
    match guard {
        None => true,
        Some(g) => g.fits(width),
    }
}

impl Scope {
    /// Every row, unconditionally.
    pub fn every() -> (s: Scope)
        ensures
            s == (Scope { rows: RowFilter::Every, guard: None }),
    {
        Scope { rows: RowFilter::Every, guard: None }
    }

    /// The first row.
    pub fn first_row() -> (s: Scope)
        ensures
            s == (Scope { rows: RowFilter::First, guard: None }),
    {
        Scope { rows: RowFilter::First, guard: None }
    }

    /// The last row.
    pub fn last_row() -> (s: Scope)
        ensures
            s == (Scope { rows: RowFilter::Last, guard: None }),
    {
        Scope { rows: RowFilter::Last, guard: None }
    }

    /// Every row that has a successor.
    pub fn transition() -> (s: Scope)
        ensures
            s == (Scope { rows: RowFilter::Transition, guard: None }),
    {
        Scope { rows: RowFilter::Transition, guard: None }
    }

    /// The given rows, unconditionally.
    pub fn on(rows: RowFilter) -> (s: Scope)
        ensures
            s == (Scope { rows, guard: None }),
    {
        Scope { rows, guard: None }
    }

    /// The same rows, and only where `condition` does not vanish as well.
    pub fn when(self, condition: Expr) -> (s: Scope)
        ensures
            s.rows == self.rows,
            s.guard == Some(
                match self.guard {
                    None => condition,
                    Some(g) => Expr::Mul(Box::new(g), Box::new(condition)),
                },
            ),
    {
        match self.guard {
            None => Scope { rows: self.rows, guard: Some(condition) },
            Some(g) => Scope { rows: self.rows, guard: Some(g.times(condition)) },
        }
    }
}

/// One polynomial identity: on the rows that `rows` selects, `body` is zero
/// in the field, or `guard * body` where there is a guard.
#[derive(Debug, PartialEq, Eq)]
pub struct Constraint {
    pub rows: RowFilter,
    pub guard: Option<Expr>,
    pub body: Expr,
}

impl Constraint {
    /// The constraint is met on the window `w` at position `at`, in the
    /// integers modulo `p`.
    pub open spec fn holds(self, w: Window, at: Position, p: int) -> bool {
        self.rows.selects(at) ==> vanishes(weighted(self.guard, self.body.value(w), w), p)
    }

    /// Both polynomials fit a row of `width` columns.
    pub open spec fn fits(self, width: int) -> bool {
        guard_fits(self.guard, width) && self.body.fits(width)
    }
}

/// Every constraint of `cs` is met.
pub open spec fn all_hold(cs: Seq<Constraint>, w: Window, at: Position, p: int) -> bool {
    forall|i: int| 0 <= i < cs.len() ==> (#[trigger] cs[i]).holds(w, at, p)
}

/// Every constraint of `cs` fits a row of `width` columns.
pub open spec fn all_fit(cs: Seq<Constraint>, width: int) -> bool {
    forall|i: int| 0 <= i < cs.len() ==> (#[trigger] cs[i]).fits(width)
}

/// One more constraint is one more conjunct.
pub proof fn lemma_push_holds(cs: Seq<Constraint>, c: Constraint, w: Window, at: Position, p: int)
    ensures
        all_hold(cs.push(c), w, at, p) <==> all_hold(cs, w, at, p) && c.holds(w, at, p),
{
    let ext = cs.push(c);
    if all_hold(ext, w, at, p) {
        assert forall|i: int| 0 <= i < cs.len() implies (#[trigger] cs[i]).holds(w, at, p) by {
            assert(ext[i] == cs[i]);
        }
        assert(ext[cs.len() as int] == c);
    }
    if all_hold(cs, w, at, p) && c.holds(w, at, p) {
        assert forall|i: int| 0 <= i < ext.len() implies (#[trigger] ext[i]).holds(w, at, p) by {
            if i < cs.len() {
                assert(ext[i] == cs[i]);
            }
        }
    }
}

/// One more constraint is one more thing to fit.
pub proof fn lemma_push_fits(cs: Seq<Constraint>, c: Constraint, width: int)
    ensures
        all_fit(cs.push(c), width) <==> all_fit(cs, width) && c.fits(width),
{
    let ext = cs.push(c);
    if all_fit(ext, width) {
        assert forall|i: int| 0 <= i < cs.len() implies (#[trigger] cs[i]).fits(width) by {
            assert(ext[i] == cs[i]);
        }
        assert(ext[cs.len() as int] == c);
    }
    if all_fit(cs, width) && c.fits(width) {
        assert forall|i: int| 0 <= i < ext.len() implies (#[trigger] ext[i]).fits(width) by {
            if i < cs.len() {
                assert(ext[i] == cs[i]);
            }
        }
    }
}

/// The constraints gathered so far, in the order of their assertion.
pub struct ConstraintBuilder {
    constraints: Vec<Constraint>,
}

impl View for ConstraintBuilder {
    type V = Seq<Constraint>;

    closed spec fn view(&self) -> Seq<Constraint> {
        self.constraints@
    }
}

impl ConstraintBuilder {
    /// All constraints gathered are met on `w` at `at`, modulo `p`.
    pub open spec fn holds(&self, w: Window, at: Position, p: int) -> bool {
        all_hold(self@, w, at, p)
    }

    /// All constraints gathered fit a row of `width` columns.
    pub open spec fn fits(&self, width: int) -> bool {
        all_fit(self@, width)
    }

    /// A builder that holds no constraint.
    pub fn new() -> (b: Self)
        ensures
            b@ == Seq::<Constraint>::empty(),
    {
        ConstraintBuilder { constraints: Vec::new() }
    }

    /// The constraints gathered so far.
    pub fn constraints(&self) -> (cs: &Vec<Constraint>)
        ensures
            cs@ == self@,
    {
        &self.constraints
    }

    /// Asserts within `scope` that `x` is zero.
    pub fn assert_zero_in(&mut self, scope: Scope, x: Expr)
        ensures
            final(self)@ == old(self)@.push(
                (Constraint { rows: scope.rows, guard: scope.guard, body: x }),
            ),
            forall|w: Window, at: Position, p: int| #[trigger]
                final(self).holds(w, at, p) <==> old(self).holds(w, at, p) && (scope.rows.selects(
                    at,
                ) ==> vanishes(weighted(scope.guard, x.value(w), w), p)),
            forall|width: int| #[trigger]
                final(self).fits(width) <==> old(self).fits(width) && guard_fits(
                    scope.guard,
                    width,
                ) && x.fits(width),
    {
        let ghost c = Constraint { rows: scope.rows, guard: scope.guard, body: x };
        self.constraints.push(Constraint { rows: scope.rows, guard: scope.guard, body: x });
        proof {
            assert forall|w: Window, at: Position, p: int| #[trigger]
                self.holds(w, at, p) <==> old(self).holds(w, at, p) && c.holds(w, at, p) by {
                lemma_push_holds(old(self)@, c, w, at, p);
            }
            assert forall|width: int| #[trigger]
                self.fits(width) <==> old(self).fits(width) && c.fits(width) by {
                lemma_push_fits(old(self)@, c, width);
            }
        }
    }

    /// Asserts within `scope` that `x` and `y` are equal.
    pub fn assert_eq_in(&mut self, scope: Scope, x: Expr, y: Expr)
        ensures
            final(self)@ == old(self)@.push(
                (Constraint {
                    rows: scope.rows,
                    guard: scope.guard,
                    body: Expr::Sub(Box::new(x), Box::new(y)),
                }),
            ),
            forall|w: Window, at: Position, p: int| #[trigger]
                final(self).holds(w, at, p) <==> old(self).holds(w, at, p) && (scope.rows.selects(
                    at,
                ) ==> vanishes(weighted(scope.guard, x.value(w) - y.value(w), w), p)),
            forall|width: int| #[trigger]
                final(self).fits(width) <==> old(self).fits(width) && guard_fits(
                    scope.guard,
                    width,
                ) && x.fits(width) && y.fits(width),
    {
        let ghost body = Expr::Sub(Box::new(x), Box::new(y));
        self.assert_zero_in(scope, x.minus(y));
        proof {
            assert forall|w: Window| #[trigger] body.value(w) == x.value(w) - y.value(w) by {}
            assert forall|width: int| #[trigger]
                body.fits(width) <==> x.fits(width) && y.fits(width) by {}
        }
    }

    /// Asserts within `scope` that `x` is one.
    pub fn assert_one_in(&mut self, scope: Scope, x: Expr)
        ensures
            final(self)@ == old(self)@.push(
                (Constraint {
                    rows: scope.rows,
                    guard: scope.guard,
                    body: Expr::Sub(Box::new(x), Box::new(Expr::Const(1))),
                }),
            ),
            forall|w: Window, at: Position, p: int| #[trigger]
                final(self).holds(w, at, p) <==> old(self).holds(w, at, p) && (scope.rows.selects(
                    at,
                ) ==> vanishes(weighted(scope.guard, x.value(w) - 1, w), p)),
            forall|width: int| #[trigger]
                final(self).fits(width) <==> old(self).fits(width) && guard_fits(
                    scope.guard,
                    width,
                ) && x.fits(width),
    {
        self.assert_eq_in(scope, x, Expr::one());
    }

    /// Asserts within `scope` that `x` is zero or one: `x * (x - 1)` is zero.
    pub fn assert_bool_in(&mut self, scope: Scope, x: Expr)
        ensures
            final(self)@ == old(self)@.push(
                (Constraint {
                    rows: scope.rows,
                    guard: scope.guard,
                    body: Expr::Mul(
                        Box::new(x),
                        Box::new(Expr::Sub(Box::new(x), Box::new(Expr::Const(1)))),
                    ),
                }),
            ),
            forall|w: Window, at: Position, p: int| #[trigger]
                final(self).holds(w, at, p) <==> old(self).holds(w, at, p) && (scope.rows.selects(
                    at,
                ) ==> vanishes(weighted(scope.guard, x.value(w) * (x.value(w) - 1), w), p)),
            forall|width: int| #[trigger]
                final(self).fits(width) <==> old(self).fits(width) && guard_fits(
                    scope.guard,
                    width,
                ) && x.fits(width),
    {
        let again = x.clone();
        let ghost body = Expr::Mul(
            Box::new(x),
            Box::new(Expr::Sub(Box::new(x), Box::new(Expr::Const(1)))),
        );
        self.assert_zero_in(scope, x.times(again.minus(Expr::one())));
        proof {
            reveal_with_fuel(Expr::value, 3);
            reveal_with_fuel(Expr::fits, 3);
            assert forall|w: Window| #[trigger]
                body.value(w) == x.value(w) * (x.value(w) - 1) by {}
            assert forall|width: int| #[trigger] body.fits(width) <==> x.fits(width) by {}
        }
    }

    /// Asserts on every row that `x` is zero.
    pub fn assert_zero(&mut self, x: Expr)
        ensures
            final(self)@ == old(self)@.push(
                (Constraint { rows: RowFilter::Every, guard: None, body: x }),
            ),
            forall|w: Window, at: Position, p: int| #[trigger]
                final(self).holds(w, at, p) <==> old(self).holds(w, at, p) && vanishes(
                    x.value(w),
                    p,
                ),
            forall|width: int| #[trigger]
                final(self).fits(width) <==> old(self).fits(width) && x.fits(width),
    {
        self.assert_zero_in(Scope::every(), x);
    }

    /// Asserts on every row that `x` and `y` are equal.
    pub fn assert_eq(&mut self, x: Expr, y: Expr)
        ensures
            final(self)@ == old(self)@.push(
                (Constraint {
                    rows: RowFilter::Every,
                    guard: None,
                    body: Expr::Sub(Box::new(x), Box::new(y)),
                }),
            ),
            forall|w: Window, at: Position, p: int| #[trigger]
                final(self).holds(w, at, p) <==> old(self).holds(w, at, p) && congruent(
                    x.value(w),
                    y.value(w),
                    p,
                ),
            forall|width: int| #[trigger]
                final(self).fits(width) <==> old(self).fits(width) && x.fits(width) && y.fits(
                    width,
                ),
    {
        self.assert_eq_in(Scope::every(), x, y);
    }

    /// Whether the constraints are met on the rows `local` and `next` at
    /// position `at`, modulo `p`: `None` where the rows differ in width or a
    /// constraint mentions a column they lack.
    pub fn check_row(&self, local: &[u64], next: &[u64], at: Position, p: u64) -> (r: Option<bool>)
        requires
            p > 0,
        ensures
            r.is_some() <==> local@.len() == next@.len() && self.fits(local@.len() as int),
            r.is_some() ==> r.unwrap() == self.holds(Window::of(local@, next@), at, p as int),
    {
        if local.len() != next.len() {
            return None;
        }
        let ghost w = Window::of(local@, next@);
        let ghost width = local@.len() as int;
        let mut met = true;
        let mut i: usize = 0;
        while i < self.constraints.len()
            invariant
                p > 0,
                0 <= i <= self.constraints.len(),
                local@.len() == next@.len(),
                w == Window::of(local@, next@),
                width == local@.len(),
                all_fit(self@.take(i as int), width),
                met == all_hold(self@.take(i as int), w, at, p as int),
            decreases self.constraints.len() - i,
        {
            let c = &self.constraints[i];
            proof {
                assert(self@.take(i as int + 1) == self@.take(i as int).push(*c));
                lemma_push_holds(self@.take(i as int), *c, w, at, p as int);
                lemma_push_fits(self@.take(i as int), *c, width);
            }
            let body = c.body.evaluate(local, next, p);
            let weight = match &c.guard {
                None => Some(1u64),
                Some(g) => g.evaluate(local, next, p),
            };
            match (weight, body) {
                (Some(g), Some(b)) => {
                    let product = match &c.guard {
                        None => b,
                        Some(guard) => {
                            proof {
                                lemma_mul_mod_noop(guard.value(w), c.body.value(w), p as int);
                            }
                            mul_mod(g, b, p)
                        },
                    };
                    if c.rows.binds(at) && product != 0 {
                        met = false;
                    }
                },
                _ => {
                    proof {
                        assert(!c.fits(width));
                        assert(self@[i as int] == *c);
                        assert(!all_fit(self@, width));
                    }
                    return None;
                },
            }
            i += 1;
        }
        proof {
            assert(self@.take(i as int) == self@);
        }
        Some(met)
    }
}

} // verus!
