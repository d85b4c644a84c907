//! Arithmetic expressions over decimal literals: a lexer, a precedence-climbing
//! parser with one token of lookahead, and the syntax tree they produce; and
//! the line editor of a calculator that is fed by keys.
//!
//! Every function in this crate carries a contract that Verus proves, but for
//! the few contracts of string operations in [`strings`], which are
//! taken on trust. Numbers stay in the form in which they were written (see
//! [`express::number`]); turning a literal into a machine number, and
//! arithmetic on machine numbers, is left to the caller.

pub mod express;
pub mod keypad;
pub mod strings;
