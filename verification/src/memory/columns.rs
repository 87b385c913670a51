//! The row of the memory chip.

use crate::expr::{Row, Var, Window};
use crate::util::indices_arr;
use crate::word::Word;
use vstd::prelude::*;

verus! {

/// The columns of one row, under their names.
#[derive(Clone, Copy, Debug, Default)]
pub struct MemoryCols<T> {
    /// Memory address
    pub addr: T,
    /// Memory cell
    pub value: Word<T>,
    /// Main CPU clock cycle
    pub clk: T,
    /// Flag indicating if this is an initial static data value or not
    pub is_static_initial: T,
    /// Whether memory operation is a read
    pub is_read: T,
    /// Whether memory operation is a write
    pub is_write: T,
    /// Either addr' - addr (if address is changed), or clk' - clk (if address is not changed)
    pub diff: T,
    /// The inverse of `diff`, or 0 if `diff = 0`.
    pub diff_inv: T,
    /// A boolean flag indicating whether addr' - addr != 0
    pub addr_not_equal: T,
    /// Increment-by-one counter for local range check
    pub counter: T,
    /// Multiplicities for local range check
    pub counter_mult: T,
}

/// The width of a row.
pub const NUM_MEM_COLS: usize = 14;

/// A row of integers under the columns' names: what the constraints speak of.
pub struct MemoryRow {
    pub addr: int,
    pub value: Seq<int>,
    pub clk: int,
    pub is_static_initial: int,
    pub is_read: int,
    pub is_write: int,
    pub diff: int,
    pub diff_inv: int,
    pub addr_not_equal: int,
    pub counter: int,
    pub counter_mult: int,
}

impl MemoryRow {
    /// The named reading of a flat row: column `k` of the row is the `k`-th
    /// cell in the order of the fields.
    pub open spec fn from_flat(row: Seq<int>) -> MemoryRow {
        MemoryRow {
            addr: row[0],
            value: row.subrange(1, 5),
            clk: row[5],
            is_static_initial: row[6],
            is_read: row[7],
            is_write: row[8],
            diff: row[9],
            diff_inv: row[10],
            addr_not_equal: row[11],
            counter: row[12],
            counter_mult: row[13],
        }
    }
}

impl<T> MemoryCols<T> {
    /// The cells in the order of the fields.
    pub open spec fn flat(self) -> Seq<T> {
        seq![self.addr] + self.value@ + seq![
            self.clk,
            self.is_static_initial,
            self.is_read,
            self.is_write,
            self.diff,
            self.diff_inv,
            self.addr_not_equal,
            self.counter,
            self.counter_mult,
        ]
    }

    /// The row of integers that the cells stand for under `f`.
    pub open spec fn model(self, f: spec_fn(T) -> int) -> MemoryRow {
        MemoryRow::from_flat(self.flat().map_values(f))
    }
}

impl<T: Copy> MemoryCols<T> {
    /// Reads a flat row under the columns' names; `None` unless the row has
    /// the width of the schema.
    pub fn from_row(row: &[T]) -> (cols: Option<Self>)
        ensures
            cols.is_some() <==> row@.len() == NUM_MEM_COLS,
            cols.is_some() ==> cols.unwrap().flat() == row@,
    {
        if row.len() != NUM_MEM_COLS {
            return None;
        }
        let cols = MemoryCols {
            addr: row[0],
            value: Word([row[1], row[2], row[3], row[4]]),
            clk: row[5],
            is_static_initial: row[6],
            is_read: row[7],
            is_write: row[8],
            diff: row[9],
            diff_inv: row[10],
            addr_not_equal: row[11],
            counter: row[12],
            counter_mult: row[13],
        };
        assert(cols.flat() =~= row@);
        Some(cols)
    }

    /// Writes the cells out as a flat row.
    pub fn to_row(&self) -> (row: Vec<T>)
        ensures
            row@ == self.flat(),
    {
        let row = vec![
            self.addr,
            self.value.limb(0),
            self.value.limb(1),
            self.value.limb(2),
            self.value.limb(3),
            self.clk,
            self.is_static_initial,
            self.is_read,
            self.is_write,
            self.diff,
            self.diff_inv,
            self.addr_not_equal,
            self.counter,
            self.counter_mult,
        ];
        assert(row@ =~= self.flat());
        row
    }
}

impl MemoryCols<Var> {
    /// The row of integers that the cells take on the window `w`.
    pub open spec fn under(self, w: Window) -> MemoryRow {
        self.model(|v: Var| w.at(v))
    }
}

impl MemoryCols<u64> {
    /// The row of integers that the field elements stand for.
    pub open spec fn ints(self) -> MemoryRow {
        self.model(|x: u64| x as int)
    }
}

/// The cells of `cols` are those of the row `row` of the window, each
/// column under its name.
pub open spec fn is_window_row(cols: MemoryCols<Var>, row: Row) -> bool {
    cols.flat() == Seq::new(NUM_MEM_COLS as nat, |i: int| (Var { row, column: i as usize }))
}

/// The named cells of a window row, one by one.
pub proof fn lemma_window_row(cols: MemoryCols<Var>, row: Row)
    requires
        is_window_row(cols, row),
    ensures
        cols.addr == (Var { row, column: 0 }),
        cols.value@[0] == (Var { row, column: 1 }),
        cols.value@[1] == (Var { row, column: 2 }),
        cols.value@[2] == (Var { row, column: 3 }),
        cols.value@[3] == (Var { row, column: 4 }),
        cols.clk == (Var { row, column: 5 }),
        cols.is_static_initial == (Var { row, column: 6 }),
        cols.is_read == (Var { row, column: 7 }),
        cols.is_write == (Var { row, column: 8 }),
        cols.diff == (Var { row, column: 9 }),
        cols.diff_inv == (Var { row, column: 10 }),
        cols.addr_not_equal == (Var { row, column: 11 }),
        cols.counter == (Var { row, column: 12 }),
        cols.counter_mult == (Var { row, column: 13 }),
{
    let flat = cols.flat();
    assert(flat[0] == cols.addr);
    assert(flat[1] == cols.value@[0]);
    assert(flat[2] == cols.value@[1]);
    assert(flat[3] == cols.value@[2]);
    assert(flat[4] == cols.value@[3]);
    assert(flat[5] == cols.clk);
    assert(flat[6] == cols.is_static_initial);
    assert(flat[7] == cols.is_read);
    assert(flat[8] == cols.is_write);
    assert(flat[9] == cols.diff);
    assert(flat[10] == cols.diff_inv);
    assert(flat[11] == cols.addr_not_equal);
    assert(flat[12] == cols.counter);
    assert(flat[13] == cols.counter_mult);
}

/// The offset of each column within a flat row, under the column's name.
pub fn make_col_map() -> (map: MemoryCols<usize>)
    ensures
        map.flat() == Seq::new(NUM_MEM_COLS as nat, |i: int| i as usize),
{
    let indices = indices_arr::<NUM_MEM_COLS>();
    let map = MemoryCols::from_row(indices.as_slice()).unwrap();
    assert(map.flat() =~= Seq::new(NUM_MEM_COLS as nat, |i: int| i as usize));
    map
}

} // verus!
