//! The row of the multiplication chip.

use crate::expr::{Var, Window};
use crate::util::indices_arr;
use crate::word::Word;
use vstd::prelude::*;

verus! {

/// The columns of one row, under their names.
#[derive(Clone, Copy, Debug, Default)]
pub struct Mul32Cols<T> {
    pub input_1: Word<T>,
    pub input_2: Word<T>,
    /// Witnessed output
    pub output: Word<T>,
    /// Witnessed quotients in the congruence relation
    pub r: T,
    pub s: T,
    pub is_mul: T,
    pub is_mulhs: T,
    pub is_mulhu: T,
    pub counter: T,
}

/// The width of a row.
pub const NUM_MUL_COLS: usize = 18;

/// A row of integers under the columns' names: what the constraints speak of.
pub struct MulRow {
    pub input_1: Seq<int>,
    pub input_2: Seq<int>,
    pub output: Seq<int>,
    pub r: int,
    pub s: int,
    pub is_mul: int,
    pub is_mulhs: int,
    pub is_mulhu: int,
    pub counter: int,
}

impl MulRow {
    /// The named reading of a flat row: column `k` of the row is the `k`-th
    /// cell in the order of the fields.
    pub open spec fn from_flat(row: Seq<int>) -> MulRow {
        MulRow {
            input_1: row.subrange(0, 4),
            input_2: row.subrange(4, 8),
            output: row.subrange(8, 12),
            r: row[12],
            s: row[13],
            is_mul: row[14],
            is_mulhs: row[15],
            is_mulhu: row[16],
            counter: row[17],
        }
    }
}

impl<T> Mul32Cols<T> {
    /// The cells in the order of the fields.
    pub open spec fn flat(self) -> Seq<T> {
        self.input_1@ + self.input_2@ + self.output@ + seq![
            self.r,
            self.s,
            self.is_mul,
            self.is_mulhs,
            self.is_mulhu,
            self.counter,
        ]
    }

    /// The row of integers that the cells stand for under `f`.
    pub open spec fn model(self, f: spec_fn(T) -> int) -> MulRow {
        MulRow::from_flat(self.flat().map_values(f))
    }
}

impl<T: Copy> Mul32Cols<T> {
    /// Reads a flat row under the columns' names; `None` unless the row has
    /// the width of the schema.
    pub fn from_row(row: &[T]) -> (cols: Option<Self>)
        ensures
            cols.is_some() <==> row@.len() == NUM_MUL_COLS,
            cols.is_some() ==> cols.unwrap().flat() == row@,
    {
        if row.len() != NUM_MUL_COLS {
            return None;
        }
        let cols = Mul32Cols {
            input_1: Word([row[0], row[1], row[2], row[3]]),
            input_2: Word([row[4], row[5], row[6], row[7]]),
            output: Word([row[8], row[9], row[10], row[11]]),
            r: row[12],
            s: row[13],
            is_mul: row[14],
            is_mulhs: row[15],
            is_mulhu: row[16],
            counter: row[17],
        };
        assert(cols.flat() =~= row@);
        Some(cols)
    }

    /// Writes the cells out as a flat row.
    pub fn to_row(&self) -> (row: Vec<T>)
        ensures
            row@ == self.flat(),
    {
        let row = vec![
            self.input_1.limb(0),
            self.input_1.limb(1),
            self.input_1.limb(2),
            self.input_1.limb(3),
            self.input_2.limb(0),
            self.input_2.limb(1),
            self.input_2.limb(2),
            self.input_2.limb(3),
            self.output.limb(0),
            self.output.limb(1),
            self.output.limb(2),
            self.output.limb(3),
            self.r,
            self.s,
            self.is_mul,
            self.is_mulhs,
            self.is_mulhu,
            self.counter,
        ];
        assert(row@ =~= self.flat());
        row
    }
}

impl Mul32Cols<Var> {
    /// The row of integers that the cells take on the window `w`.
    pub open spec fn under(self, w: Window) -> MulRow {
        self.model(|v: Var| w.at(v))
    }
}

impl Mul32Cols<u64> {
    /// The row of integers that the field elements stand for.
    pub open spec fn ints(self) -> MulRow {
        self.model(|x: u64| x as int)
    }
}

/// The named fields of the model are the images of the named cells.
pub proof fn lemma_model_fields<T>(cols: Mul32Cols<T>, f: spec_fn(T) -> int)
    ensures
        cols.model(f).input_1 == cols.input_1@.map_values(f),
        cols.model(f).input_2 == cols.input_2@.map_values(f),
        cols.model(f).output == cols.output@.map_values(f),
        cols.model(f).r == f(cols.r),
        cols.model(f).s == f(cols.s),
        cols.model(f).is_mul == f(cols.is_mul),
        cols.model(f).is_mulhs == f(cols.is_mulhs),
        cols.model(f).is_mulhu == f(cols.is_mulhu),
        cols.model(f).counter == f(cols.counter),
{
    let flat = cols.flat().map_values(f);
    assert(flat.subrange(0, 4) =~= cols.input_1@.map_values(f));
    assert(flat.subrange(4, 8) =~= cols.input_2@.map_values(f));
    assert(flat.subrange(8, 12) =~= cols.output@.map_values(f));
}

/// The offset of each column within a flat row, under the column's name.
pub fn make_col_map() -> (map: Mul32Cols<usize>)
    ensures
        map.flat() == Seq::new(NUM_MUL_COLS as nat, |i: int| i as usize),
{
    let indices = indices_arr::<NUM_MUL_COLS>();
    let map = Mul32Cols::from_row(indices.as_slice()).unwrap();
    assert(map.flat() =~= Seq::new(NUM_MUL_COLS as nat, |i: int| i as usize));
    map
}

} // verus!
