//! Helpers for developing the interpreter.

pub mod generate_ast;
