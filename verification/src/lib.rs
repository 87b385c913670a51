//! Trace schemas and algebraic constraints for the functional units of a
//! zero-knowledge virtual machine, stated symbolically and proved against
//! their arithmetic meaning.
//!
//! A chip is a schema of named columns over a flat row of field elements
//! and a predicate on a row and its successor. The predicate is written as
//! polynomial identities into a [`builder::ConstraintBuilder`]; what the
//! identities mean in the integers modulo the field's characteristic is
//! stated beside each chip as a predicate on rows of integers, and each
//! chip's `eval` is proved to emit exactly that predicate.
//!
//! - [`field`], [`is_zero`]: arithmetic modulo a run-time modulus, and the
//!   number theory behind the constraints.
//! - [`expr`], [`builder`], [`trace`], [`matrix`]: polynomials, constraint
//!   systems, and their evaluation on rows and on whole traces.
//! - [`alu_u32`], [`output`], [`memory`], [`range`]: the chips, with the
//!   rows that meet their predicates and what the predicates exclude.
//! - [`machine`]: the advice tape and the configuration of the proof
//!   system.

pub mod alu_u32;
pub mod builder;
pub mod expr;
pub mod field;
pub mod is_zero;
pub mod machine;
pub mod matrix;
pub mod memory;
pub mod opcodes;
pub mod output;
pub mod range;
pub mod trace;
pub mod util;
pub mod word;
