//! A Brainfuck toolchain in two stages: a compiler that lowers source text to
//! a flat, jump-resolved instruction sequence, and a virtual machine that runs
//! such a sequence against a bounded tape of wrapping byte cells.
//!
//! Every function is verified against a mathematical model.
//!
//! - [`brackets`]: bracket nesting, described by a depth function over the
//!   source text.
//! - [`compile`]: the instruction set and the compiler.
//! - [`machine`]: execution as a step function over machine configurations.
//! - [`interpret`]: the virtual machine itself.
//! - [`decimal`]: numerals for the positions in error messages.

pub mod brackets;
pub mod compile;
pub mod decimal;
pub mod interpret;
pub mod machine;
