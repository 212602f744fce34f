//! A small virtual machine for a tape-based esoteric language.
//!
//! The machine owns a bounded tape of byte cells and a data pointer, resolves
//! the loop brackets of a program into a jump table before running it, and
//! reports every fault as a record that points into the program text.
//!
//! - `automata`: the tape and its bounded operations.
//! - `brackets`: what resolving the brackets of a program means, and the
//!   laws of the jump table.
//! - `nesting`: the same table, characterised by balanced text.
//! - `machine`: the states of the engine, its transition and its runs.
//! - `parser`: the engine itself.
//! - `errors`, `errs`, `text`: error kinds, error records and their rendering.

pub mod automata;
pub mod brackets;
pub mod errors;
pub mod errs;
pub mod machine;
pub mod nesting;
pub mod parser;
pub mod text;
