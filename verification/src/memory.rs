//! The memory chip: the log of reads and writes, sorted by address and then
//! by clock.

pub mod columns;
pub mod consistency;
pub mod order;
pub mod stark;
pub mod witness;

use vstd::prelude::*;

verus! {

/// The chip that certifies that reads see what was last written.
#[derive(Clone, Copy, Debug, Default)]
pub struct MemoryChip {}

} // verus!
