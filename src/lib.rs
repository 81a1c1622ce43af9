//! An interpreter for the eight-instruction tape language: source text is
//! translated into a sequence of operations with a bracket jump table, and a
//! machine over a fixed byte tape executes that sequence.

pub mod operation;
pub mod program;
pub mod machine;
