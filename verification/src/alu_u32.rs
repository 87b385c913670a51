//! The 32-bit arithmetic-logic units.

pub mod bitwise;
pub mod mul;
