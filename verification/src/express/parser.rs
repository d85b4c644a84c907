//! Syntax trees and the parsers that build them.

pub mod grammar;
pub mod lookahead;

use vstd::prelude::*;
use crate::express::lexer::{Token, TokenView};

verus! {

/// The operators of the language, and `Unknown` for what is none of them.
#[derive(Debug, PartialEq, Eq, Clone, Copy)]
pub enum OpSymbol {
    Unknown,
    Add,
    Subtract,
    Multiply,
    Divide,
    Mod,
    Caret,
}

/// The operator that a token stands for; `Unknown` for a token that is no
/// operator.
pub open spec fn op_symbol(t: TokenView) -> OpSymbol {
    match t {
        TokenView::Plus => OpSymbol::Add,
        TokenView::Minus => OpSymbol::Subtract,
        TokenView::Multiply => OpSymbol::Multiply,
        TokenView::Division => OpSymbol::Divide,
        TokenView::Exponential => OpSymbol::Caret,
        TokenView::Percent => OpSymbol::Mod,
        _ => OpSymbol::Unknown,
    }
}

impl From<Token> for OpSymbol {
    fn from(value: Token) -> (r: Self)
        ensures
            r == op_symbol(value@),
    {
        match value {
            Token::Plus => OpSymbol::Add,
            Token::Minus => OpSymbol::Subtract,
            Token::Multiply => OpSymbol::Multiply,
            Token::Division => OpSymbol::Divide,
            Token::Exponential => OpSymbol::Caret,
            Token::Percent => OpSymbol::Mod,
            _ => OpSymbol::Unknown,
        }
    }
}

impl vstd::std_specs::convert::FromSpecImpl<Token> for OpSymbol {
    open spec fn obeys_from_spec() -> bool {
        true
    }

    open spec fn from_spec(v: Token) -> Self {
        op_symbol(v@)
    }
}

} // verus!
