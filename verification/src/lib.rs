//! A small Forth virtual machine: values, stacks, a dictionary of words,
//! a compiler for colon definitions and a threaded-code executor.

pub mod builtins;
pub mod context;
pub mod dictionary;
pub mod error;
pub mod laws;
pub mod machine;
pub mod stack;
pub mod text;
pub mod variable;

pub use context::VM;
pub use dictionary::{Cell, Dictionary, Immediate, Op, Word};
pub use error::{Error, Fault};
pub use machine::{Machine, State};
pub use stack::{Stack, StackIterator};
pub use variable::{Value, Variable};
