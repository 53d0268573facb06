//! The tokenizer and the data it produces.

pub mod error;
pub mod grammar;
pub mod laws;
pub mod scanner;
pub mod text;
pub mod token;
pub mod token_type;
