//! The range checker: a table of the integers below a bound, against which
//! other chips look their values up.

pub mod columns;
pub mod lookup;
pub mod stark;

use vstd::prelude::*;

verus! {

/// The chip that holds the table of the integers below `MAX`.
#[derive(Clone, Copy, Debug, Default)]
pub struct RangeCheckerChip<const MAX: u32> {}

} // verus!
