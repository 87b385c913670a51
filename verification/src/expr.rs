//! Polynomial expressions over the cells of two neighbouring trace rows.
//!
//! An expression is a tree of sums, differences and products over constants
//! and cells. Its meaning is the integer that the polynomial takes on a
//! window of integers; a field sees that integer modulo its characteristic.

use crate::field::{add_mod, mul_mod, reduce, sub_mod};
use vstd::arithmetic::div_mod::*;
use vstd::prelude::*;

verus! {

/// Which of the two rows in view a cell belongs to.
#[derive(Clone, Copy, Debug, PartialEq, Eq, Structural)]
pub enum Row {
    Local,
    Next,
}

/// One cell of the window: a column of the current or of the next row.
#[derive(Clone, Copy, Debug, PartialEq, Eq, Structural)]
pub struct Var {
    pub row: Row,
    pub column: usize,
}

/// The values of the two rows in view.
pub struct Window {
    pub local: Seq<int>,
    pub next: Seq<int>,
}

impl Window {
    /// The value of one cell.
    pub open spec fn at(self, v: Var) -> int {
        match v.row {
            Row::Local => self.local[v.column as int],
            Row::Next => self.next[v.column as int],
        }
    }

    /// The window over two rows of canonical field elements.
    pub open spec fn of(local: Seq<u64>, next: Seq<u64>) -> Window {
        Window {
            local: local.map_values(|x: u64| x as int),
            next: next.map_values(|x: u64| x as int),
        }
    }
}

/// A polynomial over the cells of a window.
#[derive(Debug, PartialEq, Eq)]
pub enum Expr {
    Const(u64),
    Var(Var),
    Add(Box<Expr>, Box<Expr>),
    Sub(Box<Expr>, Box<Expr>),
    Mul(Box<Expr>, Box<Expr>),
}

impl Clone for Expr {
    fn clone(&self) -> (copy: Self)
        ensures
            copy == *self,
        decreases self,
    {
        match self {
            Expr::Const(c) => Expr::Const(*c),
            Expr::Var(v) => Expr::Var(*v),
            Expr::Add(a, b) => Expr::Add(Box::new((**a).clone()), Box::new((**b).clone())),
            Expr::Sub(a, b) => Expr::Sub(Box::new((**a).clone()), Box::new((**b).clone())),
            Expr::Mul(a, b) => Expr::Mul(Box::new((**a).clone()), Box::new((**b).clone())),
        }
    }
}

impl Expr {
    /// The integer that the polynomial takes on `w`.
    pub open spec fn value(self, w: Window) -> int
        decreases self,
    {
        match self {
            Expr::Const(c) => c as int,
            Expr::Var(v) => w.at(v),
            Expr::Add(a, b) => a.value(w) + b.value(w),
            Expr::Sub(a, b) => a.value(w) - b.value(w),
            Expr::Mul(a, b) => a.value(w) * b.value(w),
        }
    }

    /// Every cell that the polynomial mentions lies in a row of `width`
    /// columns.
    pub open spec fn fits(self, width: int) -> bool
        decreases self,
    {
        match self {
            Expr::Const(_) => true,
            Expr::Var(v) => v.column < width,
            Expr::Add(a, b) => a.fits(width) && b.fits(width),
            Expr::Sub(a, b) => a.fits(width) && b.fits(width),
            Expr::Mul(a, b) => a.fits(width) && b.fits(width),
        }
    }

    /// The constant 0.
    pub fn zero() -> (e: Expr)
        ensures
            e == Expr::Const(0),
    {
        Expr::Const(0)
    }

    /// The constant 1.
    pub fn one() -> (e: Expr)
        ensures
            e == Expr::Const(1),
    {
        Expr::Const(1)
    }

    /// The constant 2.
    pub fn two() -> (e: Expr)
        ensures
            e == Expr::Const(2),
    {
        Expr::Const(2)
    }

    /// The constant `x`.
    pub fn from_canonical_u32(x: u32) -> (e: Expr)
        ensures
            e == Expr::Const(x as u64),
    {
        Expr::Const(x as u64)
    }

    /// The polynomial that is the cell `v`.
    pub fn var(v: Var) -> (e: Expr)
        ensures
            e == Expr::Var(v),
    {
        Expr::Var(v)
    }

    /// The sum of two polynomials.
    pub fn plus(self, rhs: Expr) -> (e: Expr)
        ensures
            e == Expr::Add(Box::new(self), Box::new(rhs)),
    {
        Expr::Add(Box::new(self), Box::new(rhs))
    }

    /// The difference of two polynomials.
    pub fn minus(self, rhs: Expr) -> (e: Expr)
        ensures
            e == Expr::Sub(Box::new(self), Box::new(rhs)),
    {
        Expr::Sub(Box::new(self), Box::new(rhs))
    }

    /// The product of two polynomials.
    pub fn times(self, rhs: Expr) -> (e: Expr)
        ensures
            e == Expr::Mul(Box::new(self), Box::new(rhs)),
    {
        Expr::Mul(Box::new(self), Box::new(rhs))
    }

    /// The value modulo `p` on two rows of field elements: `None` where the
    /// rows differ in width or the polynomial mentions a column they lack.
    pub fn evaluate(&self, local: &[u64], next: &[u64], p: u64) -> (r: Option<u64>)
        requires
            p > 0,
        ensures
            r.is_some() <==> local@.len() == next@.len() && self.fits(local@.len() as int),
            r.is_some() ==> r.unwrap() == self.value(Window::of(local@, next@)) % p as int,
        decreases self,
    {
        if local.len() != next.len() {
            return None;
        }
        let ghost w = Window::of(local@, next@);
        match self {
            Expr::Const(c) => Some(reduce(*c, p)),
            Expr::Var(v) => {
                if v.column < local.len() {
                    match v.row {
                        Row::Local => Some(reduce(local[v.column], p)),
                        Row::Next => Some(reduce(next[v.column], p)),
                    }
                } else {
                    None
                }
            },
            Expr::Add(a, b) => {
                match (a.evaluate(local, next, p), b.evaluate(local, next, p)) {
                    (Some(x), Some(y)) => {
                        proof {
                            lemma_add_mod_noop(a.value(w), b.value(w), p as int);
                        }
                        Some(add_mod(x, y, p))
                    },
                    _ => None,
                }
            },
            Expr::Sub(a, b) => {
                match (a.evaluate(local, next, p), b.evaluate(local, next, p)) {
                    (Some(x), Some(y)) => {
                        proof {
                            lemma_sub_mod_noop(a.value(w), b.value(w), p as int);
                        }
                        Some(sub_mod(x, y, p))
                    },
                    _ => None,
                }
            },
            Expr::Mul(a, b) => {
                match (a.evaluate(local, next, p), b.evaluate(local, next, p)) {
                    (Some(x), Some(y)) => {
                        proof {
                            lemma_mul_mod_noop(a.value(w), b.value(w), p as int);
                        }
                        Some(mul_mod(x, y, p))
                    },
                    _ => None,
                }
            },
        }
    }
}

/// The values that the polynomials `es` take on `w`.
pub open spec fn values(es: Seq<Expr>, w: Window) -> Seq<int> {
    es.map_values(|e: Expr| e.value(w))
}

/// The values that the cells `vs` take on `w`.
pub open spec fn cells(vs: Seq<Var>, w: Window) -> Seq<int> {
    vs.map_values(|v: Var| w.at(v))
}

/// All of the cells `vs` lie in a row of `width` columns.
pub open spec fn cells_fit(vs: Seq<Var>, width: int) -> bool {
    forall|k: int| 0 <= k < vs.len() ==> (#[trigger] vs[k]).column < width
}

/// The cells of one row of the window, column by column.
pub fn window_row(row: Row, width: usize) -> (cells: Vec<Var>)
    ensures
        cells@ == Seq::new(width as nat, |i: int| (Var { row, column: i as usize })),
{
    let mut cells: Vec<Var> = Vec::new();
    let mut i: usize = 0;
    while i < width
        invariant
            0 <= i <= width,
            cells@ == Seq::new(i as nat, |k: int| (Var { row, column: k as usize })),
        decreases width - i,
    {
        cells.push(Var { row, column: i });
        assert(cells@ =~= Seq::new((i + 1) as nat, |k: int| (Var { row, column: k as usize })));
        i += 1;
    }
    cells
}

} // verus!
