//! A single-pass translator from a small stack-machine instruction set to
//! assembly for a 16-bit target computer.
//!
//! Every instruction is parsed on its own and turned into one block of
//! assembly. The generator keeps two counters, for jump labels and for
//! scratch variables, and remembers which scratch variable backs each static
//! index, so that the names it hands out are unique within one run.
//!
//! - [`words`] and [`decimal`] read and write the pieces of a line.
//! - [`parser`] holds the instruction model and reads one line at a time.
//! - [`codegen`] emits the block of each instruction.
//! - [`translator`] feeds a whole source through and lays out the output.
//! - [`config`] names the source and the output of a run.
//! - [`machine`] models the target computer, and [`meaning`] says what the
//!   blocks do when it runs them.
//! - [`laws`] states what holds of a run as a whole.

pub mod words;
pub mod decimal;
pub mod error;
pub mod parser;
pub mod codegen;
pub mod translator;
pub mod config;
pub mod machine;
pub mod meaning;
pub mod laws;
