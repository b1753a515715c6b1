//! A small stack-based bytecode machine with a bounded heap and a
//! mark-and-compact collector.
//!
//! Every executable function carries a contract over a mathematical model of
//! the machine ([`machine::Machine`]); the laws of the instruction set and of
//! the collector are proved in [`laws`].

pub mod decode;
pub mod gc;
pub mod instruction;
pub mod laws;
pub mod machine;
pub mod value;
pub mod vm;
