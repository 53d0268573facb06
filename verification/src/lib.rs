//! Lexical front end of a small scripting language: source text in, a
//! sequence of classified and positioned tokens out, with lexical errors
//! recorded in a diagnostic sink rather than aborting the scan.

pub mod expr;
pub mod init;
pub mod scanner;
pub mod tools;
