//! The output chip: the log of the values that a program writes out.

pub mod columns;
pub mod stark;

use vstd::prelude::*;

verus! {

/// The chip that certifies the write operations on the output bus.
#[derive(Clone, Copy, Debug, Default)]
pub struct OutputChip {}

} // verus!
