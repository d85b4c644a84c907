//! The expression pipeline: characters to tokens to a syntax tree.

pub mod error;
pub mod number;
pub mod lexer;
pub mod parser;
pub mod token;
