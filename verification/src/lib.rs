//! An execution engine for a minimal tape language: an unbounded tape of
//! byte cells, one data pointer, and eight single-character instructions.
//!
//! The engine performs no input or output of its own. [`Interpreter::step`]
//! executes one instruction and says what the caller has to do next (write a
//! byte, read a line), and [`Interpreter::run`] executes a whole program
//! against lines of input that are already at hand.

pub mod brackets;
pub mod interpreter;
pub mod laws;
pub mod machine;
pub mod tape;

pub use interpreter::{Execution, Interpreter, Report};
pub use machine::{Action, Fault, Status};
pub use tape::Tape;
