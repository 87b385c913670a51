//! The 32-bit bitwise chip: AND, OR and XOR by bit decomposition.

pub mod columns;
pub mod stark;
pub mod witness;

use vstd::prelude::*;

verus! {

/// The chip that certifies bitwise operations on words.
#[derive(Clone, Copy, Debug, Default)]
pub struct Bitwise32Chip {}

} // verus!
