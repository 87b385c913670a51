//! The row of the bitwise chip.

use crate::expr::{Row, Var, Window};
use crate::util::{indices_arr, push_all};
use crate::word::Word;
use vstd::prelude::*;

verus! {

/// The columns of one row, under their names.
#[derive(Clone, Copy, Debug, Default)]
pub struct Bitwise32Cols<T> {
    pub input_1: Word<T>,
    pub input_2: Word<T>,
    /// Bit decomposition of input_1 bytes
    pub bits_1: [[T; 8]; 4],
    /// Bit decomposition of input_2 bytes
    pub bits_2: [[T; 8]; 4],
    /// Aggregated output
    pub output: Word<T>,
    pub is_and: T,
    pub is_or: T,
    pub is_xor: T,
}

/// The width of a row.
pub const NUM_BITWISE_COLS: usize = 79;

/// A row of integers under the columns' names: what the constraints speak
/// of. The bits of a word are laid out limb by limb, each limb from its
/// least significant bit: bit `j` of limb `i` is at `8 * i + j`.
pub struct BitwiseRow {
    pub input_1: Seq<int>,
    pub input_2: Seq<int>,
    pub bits_1: Seq<int>,
    pub bits_2: Seq<int>,
    pub output: Seq<int>,
    pub is_and: int,
    pub is_or: int,
    pub is_xor: int,
}

impl BitwiseRow {
    /// The named reading of a flat row: column `k` of the row is the `k`-th
    /// cell in the order of the fields.
    pub open spec fn from_flat(row: Seq<int>) -> BitwiseRow {
        BitwiseRow {
            input_1: row.subrange(0, 4),
            input_2: row.subrange(4, 8),
            bits_1: row.subrange(8, 40),
            bits_2: row.subrange(40, 72),
            output: row.subrange(72, 76),
            is_and: row[76],
            is_or: row[77],
            is_xor: row[78],
        }
    }
}

/// The cells of a grid of bits, limb by limb.
pub open spec fn grid_flat<T>(grid: [[T; 8]; 4]) -> Seq<T> {
    grid@[0]@ + grid@[1]@ + grid@[2]@ + grid@[3]@
}

impl<T> Bitwise32Cols<T> {
    /// The cells in the order of the fields.
    pub open spec fn flat(self) -> Seq<T> {
        self.input_1@ + self.input_2@ + grid_flat(self.bits_1) + grid_flat(self.bits_2)
            + self.output@ + seq![self.is_and, self.is_or, self.is_xor]
    }

    /// The row of integers that the cells stand for under `f`.
    pub open spec fn model(self, f: spec_fn(T) -> int) -> BitwiseRow {
        BitwiseRow::from_flat(self.flat().map_values(f))
    }
}

/// Four cells of a flat row, from `start` on.
fn take_4<T: Copy>(row: &[T], start: usize) -> (cells: [T; 4])
    requires
        start + 4 <= row@.len(),
    ensures
        cells@ == row@.subrange(start as int, start + 4),
{
    let cells = [row[start], row[start + 1], row[start + 2], row[start + 3]];
    assert(cells@ =~= row@.subrange(start as int, start + 4));
    cells
}

/// Eight cells of a flat row, from `start` on.
fn take_8<T: Copy>(row: &[T], start: usize) -> (cells: [T; 8])
    requires
        start + 8 <= row@.len(),
    ensures
        cells@ == row@.subrange(start as int, start + 8),
{
    let cells = [
        row[start],
        row[start + 1],
        row[start + 2],
        row[start + 3],
        row[start + 4],
        row[start + 5],
        row[start + 6],
        row[start + 7],
    ];
    assert(cells@ =~= row@.subrange(start as int, start + 8));
    cells
}

/// A grid of bits from 32 cells of a flat row, from `start` on.
fn take_grid<T: Copy>(row: &[T], start: usize) -> (grid: [[T; 8]; 4])
    requires
        start + 32 <= row@.len(),
    ensures
        grid_flat(grid) == row@.subrange(start as int, start + 32),
{
    let width = row.len();
    assert(start + 32 <= width);
    let grid = [
        take_8(row, start),
        take_8(row, start + 8),
        take_8(row, start + 16),
        take_8(row, start + 24),
    ];
    assert(grid_flat(grid) =~= row@.subrange(start as int, start + 32));
    grid
}

impl<T: Copy> Bitwise32Cols<T> {
    /// Reads a flat row under the columns' names; `None` unless the row has
    /// the width of the schema.
    pub fn from_row(row: &[T]) -> (cols: Option<Self>)
        ensures
            cols.is_some() <==> row@.len() == NUM_BITWISE_COLS,
            cols.is_some() ==> cols.unwrap().flat() == row@,
    {
        if row.len() != NUM_BITWISE_COLS {
            return None;
        }
        let cols = Bitwise32Cols {
            input_1: Word(take_4(row, 0)),
            input_2: Word(take_4(row, 4)),
            bits_1: take_grid(row, 8),
            bits_2: take_grid(row, 40),
            output: Word(take_4(row, 72)),
            is_and: row[76],
            is_or: row[77],
            is_xor: row[78],
        };
        assert(cols.flat() =~= row@);
        Some(cols)
    }

    /// Writes the cells out as a flat row.
    pub fn to_row(&self) -> (row: Vec<T>)
        ensures
            row@ == self.flat(),
    {
        let mut row: Vec<T> = Vec::new();
        push_all(&mut row, self.input_1.0.as_slice());
        push_all(&mut row, self.input_2.0.as_slice());
        push_all(&mut row, self.bits_1[0].as_slice());
        push_all(&mut row, self.bits_1[1].as_slice());
        push_all(&mut row, self.bits_1[2].as_slice());
        push_all(&mut row, self.bits_1[3].as_slice());
        push_all(&mut row, self.bits_2[0].as_slice());
        push_all(&mut row, self.bits_2[1].as_slice());
        push_all(&mut row, self.bits_2[2].as_slice());
        push_all(&mut row, self.bits_2[3].as_slice());
        push_all(&mut row, self.output.0.as_slice());
        row.push(self.is_and);
        row.push(self.is_or);
        row.push(self.is_xor);
        assert(row@ =~= self.flat());
        row
    }
}

impl Bitwise32Cols<Var> {
    /// The row of integers that the cells take on the window `w`.
    pub open spec fn under(self, w: Window) -> BitwiseRow {
        self.model(|v: Var| w.at(v))
    }
}

impl Bitwise32Cols<u64> {
    /// The row of integers that the field elements stand for.
    pub open spec fn ints(self) -> BitwiseRow {
        self.model(|x: u64| x as int)
    }
}

/// The named fields of the model are the images of the named cells.
pub proof fn lemma_model_fields<T>(cols: Bitwise32Cols<T>, f: spec_fn(T) -> int)
    ensures
        cols.model(f).input_1 == cols.input_1@.map_values(f),
        cols.model(f).input_2 == cols.input_2@.map_values(f),
        cols.model(f).bits_1 == grid_flat(cols.bits_1).map_values(f),
        cols.model(f).bits_2 == grid_flat(cols.bits_2).map_values(f),
        cols.model(f).output == cols.output@.map_values(f),
        cols.model(f).is_and == f(cols.is_and),
        cols.model(f).is_or == f(cols.is_or),
        cols.model(f).is_xor == f(cols.is_xor),
{
    let flat = cols.flat().map_values(f);
    assert(flat.subrange(0, 4) =~= cols.input_1@.map_values(f));
    assert(flat.subrange(4, 8) =~= cols.input_2@.map_values(f));
    assert(flat.subrange(8, 40) =~= grid_flat(cols.bits_1).map_values(f));
    assert(flat.subrange(40, 72) =~= grid_flat(cols.bits_2).map_values(f));
    assert(flat.subrange(72, 76) =~= cols.output@.map_values(f));
}

/// The cells of `cols` are those of the row `row` of the window, each
/// column under its name.
pub open spec fn is_window_row(cols: Bitwise32Cols<Var>, row: Row) -> bool {
    cols.flat() == Seq::new(NUM_BITWISE_COLS as nat, |i: int| (Var { row, column: i as usize }))
}

/// The named cells of a window row, one by one.
pub proof fn lemma_window_row(cols: Bitwise32Cols<Var>, row: Row)
    requires
        is_window_row(cols, row),
    ensures
        forall|i: int|
            0 <= i < 4 ==> #[trigger] cols.input_1@[i] == (Var { row, column: i as usize }),
        forall|i: int|
            0 <= i < 4 ==> #[trigger] cols.input_2@[i] == (Var { row, column: (4 + i) as usize }),
        forall|i: int, j: int|
            0 <= i < 4 && 0 <= j < 8 ==> #[trigger] cols.bits_1@[i]@[j] == (Var {
                row,
                column: (8 + 8 * i + j) as usize,
            }),
        forall|i: int, j: int|
            0 <= i < 4 && 0 <= j < 8 ==> #[trigger] cols.bits_2@[i]@[j] == (Var {
                row,
                column: (40 + 8 * i + j) as usize,
            }),
        forall|i: int|
            0 <= i < 4 ==> #[trigger] cols.output@[i] == (Var { row, column: (72 + i) as usize }),
        cols.is_and == (Var { row, column: 76 }),
        cols.is_or == (Var { row, column: 77 }),
        cols.is_xor == (Var { row, column: 78 }),
{
    let flat = cols.flat();
    assert forall|i: int| 0 <= i < 4 implies #[trigger] cols.input_1@[i] == (Var {
        row,
        column: i as usize,
    }) by {
        assert(flat[i] == cols.input_1@[i]);
    }
    assert forall|i: int| 0 <= i < 4 implies #[trigger] cols.input_2@[i] == (Var {
        row,
        column: (4 + i) as usize,
    }) by {
        assert(flat[4 + i] == cols.input_2@[i]);
    }
    assert forall|i: int, j: int| 0 <= i < 4 && 0 <= j < 8 implies #[trigger] cols.bits_1@[i]@[j]
        == (Var { row, column: (8 + 8 * i + j) as usize }) by {
        assert(grid_flat(cols.bits_1)[8 * i + j] == cols.bits_1@[i]@[j]);
        assert(flat[8 + 8 * i + j] == cols.bits_1@[i]@[j]);
    }
    assert forall|i: int, j: int| 0 <= i < 4 && 0 <= j < 8 implies #[trigger] cols.bits_2@[i]@[j]
        == (Var { row, column: (40 + 8 * i + j) as usize }) by {
        assert(grid_flat(cols.bits_2)[8 * i + j] == cols.bits_2@[i]@[j]);
        assert(flat[40 + 8 * i + j] == cols.bits_2@[i]@[j]);
    }
    assert forall|i: int| 0 <= i < 4 implies #[trigger] cols.output@[i] == (Var {
        row,
        column: (72 + i) as usize,
    }) by {
        assert(flat[72 + i] == cols.output@[i]);
    }
    assert(flat[76] == cols.is_and);
    assert(flat[77] == cols.is_or);
    assert(flat[78] == cols.is_xor);
}

/// The offset of each column within a flat row, under the column's name.
pub fn make_col_map() -> (map: Bitwise32Cols<usize>)
    ensures
        map.flat() == Seq::new(NUM_BITWISE_COLS as nat, |i: int| i as usize),
{
    let indices = indices_arr::<NUM_BITWISE_COLS>();
    let map = Bitwise32Cols::from_row(indices.as_slice()).unwrap();
    assert(map.flat() =~= Seq::new(NUM_BITWISE_COLS as nat, |i: int| i as usize));
    map
}

} // verus!
