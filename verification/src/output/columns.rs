//! The row of the output chip.

use crate::expr::{Var, Window};
use crate::util::indices_arr;
use vstd::prelude::*;

verus! {

/// The columns of one row, under their names.
#[derive(Clone, Copy, Debug, Default)]
pub struct OutputCols<T> {
    /// The opcode seen on the bus
    pub opcode: T,
    /// Main CPU clock cycle
    pub clk: T,
    /// The clock's distance to the next row
    pub diff: T,
    /// Increment-by-one counter
    pub counter: T,
    /// Whether the row records an operation, or only pads the trace
    pub is_real: T,
}

/// The width of a row.
pub const NUM_OUTPUT_COLS: usize = 5;

/// A row of integers under the columns' names: what the constraints speak of.
pub struct OutputRow {
    pub opcode: int,
    pub clk: int,
    pub diff: int,
    pub counter: int,
    pub is_real: int,
}

impl OutputRow {
    /// The named reading of a flat row: column `k` of the row is the `k`-th
    /// cell in the order of the fields.
    pub open spec fn from_flat(row: Seq<int>) -> OutputRow {
        OutputRow { opcode: row[0], clk: row[1], diff: row[2], counter: row[3], is_real: row[4] }
    }
}

impl<T> OutputCols<T> {
    /// The cells in the order of the fields.
    pub open spec fn flat(self) -> Seq<T> {
        seq![self.opcode, self.clk, self.diff, self.counter, self.is_real]
    }

    /// The row of integers that the cells stand for under `f`.
    pub open spec fn model(self, f: spec_fn(T) -> int) -> OutputRow {
        OutputRow::from_flat(self.flat().map_values(f))
    }
}

impl<T: Copy> OutputCols<T> {
    /// Reads a flat row under the columns' names; `None` unless the row has
    /// the width of the schema.
    pub fn from_row(row: &[T]) -> (cols: Option<Self>)
        ensures
            cols.is_some() <==> row@.len() == NUM_OUTPUT_COLS,
            cols.is_some() ==> cols.unwrap().flat() == row@,
    {
        if row.len() != NUM_OUTPUT_COLS {
            return None;
        }
        let cols = OutputCols {
            opcode: row[0],
            clk: row[1],
            diff: row[2],
            counter: row[3],
            is_real: row[4],
        };
        assert(cols.flat() =~= row@);
        Some(cols)
    }

    /// Writes the cells out as a flat row.
    pub fn to_row(&self) -> (row: Vec<T>)
        ensures
            row@ == self.flat(),
    {
        let row = vec![self.opcode, self.clk, self.diff, self.counter, self.is_real];
        assert(row@ =~= self.flat());
        row
    }
}

impl OutputCols<Var> {
    /// The row of integers that the cells take on the window `w`.
    pub open spec fn under(self, w: Window) -> OutputRow {
        self.model(|v: Var| w.at(v))
    }
}

impl OutputCols<u64> {
    /// The row of integers that the field elements stand for.
    pub open spec fn ints(self) -> OutputRow {
        self.model(|x: u64| x as int)
    }
}

/// The offset of each column within a flat row, under the column's name.
pub fn make_col_map() -> (map: OutputCols<usize>)
    ensures
        map.flat() == Seq::new(NUM_OUTPUT_COLS as nat, |i: int| i as usize),
{
    let indices = indices_arr::<NUM_OUTPUT_COLS>();
    let map = OutputCols::from_row(indices.as_slice()).unwrap();
    assert(map.flat() =~= Seq::new(NUM_OUTPUT_COLS as nat, |i: int| i as usize));
    map
}

} // verus!
