//! The range checker's own trace.
//!
//! The chip binds nothing row by row. What it stands for is shown across
//! chips, by reconciling lookups with multiplicities.

use crate::builder::ConstraintBuilder;
use crate::matrix::{matrix_values, matrix_width, new_col};
use crate::range::columns::NUM_RANGE_COLS;
use crate::range::RangeCheckerChip;
use p3_matrix::dense::DenseMatrix;
use vstd::prelude::*;

verus! {

/// The table of the integers below `max`, in increasing order.
pub open spec fn table(max: u32) -> Seq<u64> {
    Seq::new(max as nat, |i: int| i as u64)
}

impl<const MAX: u32> RangeCheckerChip<MAX> {
    /// The chip for the integers below `MAX`.
    pub fn new() -> Self {
        RangeCheckerChip {  }
    }

    /// The number of columns of the chip's trace.
    pub fn width(&self) -> (n: usize)
        ensures
            n == NUM_RANGE_COLS,
    {
        NUM_RANGE_COLS
    }

    /// Writes the chip's predicate into `builder`: nothing.
    pub fn eval(&self, builder: &mut ConstraintBuilder)
        ensures
            final(builder)@ == old(builder)@,
    {
    }

    /// The entries of the table from top to bottom.
    pub fn preprocessed_column(&self) -> (column: Vec<u64>)
        ensures
            column@ == table(MAX),
    {
        let mut column: Vec<u64> = Vec::new();
        let mut i: u32 = 0;
        while i < MAX
            invariant
                0 <= i <= MAX,
                column@ == table(i),
            decreases MAX - i,
        {
            column.push(i as u64);
            assert(column@ =~= table((i + 1) as u32));
            i += 1;
        }
        column
    }

    /// The preprocessed trace: one column that holds every integer below
    /// `MAX` exactly once, in increasing order.
    pub fn preprocessed_trace(&self) -> (trace: DenseMatrix<u64, Vec<u64>>)
        ensures
            matrix_values(trace) == table(MAX),
            matrix_width(trace) == 1,
    {
        new_col(self.preprocessed_column())
    }
}

/// A value is an entry of the table exactly when it is below the bound, and
/// then it stands in the row of its own number, and in no other.
pub proof fn lemma_table_entries(max: u32, v: u64)
    ensures
        table(max).contains(v) <==> v < max,
        forall|i: int| 0 <= i < table(max).len() && table(max)[i] == v ==> i == v,
{
    if v < max {
        assert(table(max)[v as int] == v);
    }
}

} // verus!
