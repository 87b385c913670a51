//! The opcodes that the chips' constraints name.

use vstd::prelude::*;

verus! {

/// The opcode of the instruction that writes a value to the output.
pub const WRITE: u32 = 300;

} // verus!
