//! The rows of the range checker: one main column and one preprocessed.

use vstd::prelude::*;

verus! {

/// The main trace: how often each entry of the table is looked up.
#[derive(Clone, Copy, Debug, Default)]
pub struct RangeCols<T> {
    pub mult: T,
}

/// The preprocessed trace: the entries of the table.
#[derive(Clone, Copy, Debug, Default)]
pub struct RangePreprocessedCols<T> {
    pub counter: T,
}

/// The width of a row of the main trace.
pub const NUM_RANGE_COLS: usize = 1;

/// The width of a row of the preprocessed trace.
pub const NUM_RANGE_PREPROCESSED_COLS: usize = 1;

impl<T> RangeCols<T> {
    /// The cells in the order of the fields.
    pub open spec fn flat(self) -> Seq<T> {
        seq![self.mult]
    }
}

impl<T: Copy> RangeCols<T> {
    /// Reads a flat row under the columns' names; `None` unless the row has
    /// the width of the schema.
    pub fn from_row(row: &[T]) -> (cols: Option<Self>)
        ensures
            cols.is_some() <==> row@.len() == NUM_RANGE_COLS,
            cols.is_some() ==> cols.unwrap().flat() == row@,
    {
        if row.len() != NUM_RANGE_COLS {
            return None;
        }
        let cols = RangeCols { mult: row[0] };
        assert(cols.flat() =~= row@);
        Some(cols)
    }
}

impl<T> RangePreprocessedCols<T> {
    /// The cells in the order of the fields.
    pub open spec fn flat(self) -> Seq<T> {
        seq![self.counter]
    }
}

impl<T: Copy> RangePreprocessedCols<T> {
    /// Reads a flat row under the columns' names; `None` unless the row has
    /// the width of the schema.
    pub fn from_row(row: &[T]) -> (cols: Option<Self>)
        ensures
            cols.is_some() <==> row@.len() == NUM_RANGE_PREPROCESSED_COLS,
            cols.is_some() ==> cols.unwrap().flat() == row@,
    {
        if row.len() != NUM_RANGE_PREPROCESSED_COLS {
            return None;
        }
        let cols = RangePreprocessedCols { counter: row[0] };
        assert(cols.flat() =~= row@);
        Some(cols)
    }
}

} // verus!
