//! The 32-bit multiplication chip.

pub mod columns;
pub mod counter;
pub mod stark;
pub mod witness;

use vstd::prelude::*;

verus! {

/// The chip that certifies 32-bit products.
#[derive(Clone, Copy, Debug, Default)]
pub struct Mul32Chip {}

} // verus!
