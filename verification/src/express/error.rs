//! The errors of the pipeline, one sum type per stage and one that unifies the
//! lexical and syntactic failures a parse can end in.

use vstd::prelude::*;
use vstd::string::StringExecFns;

verus! {

/// A failure of the lexer.
#[derive(Debug, Clone, PartialEq)]
pub enum LexerError {
    /// A run of digits and points that is not a decimal literal; carries the run.
    InvalidNumber(String),
    /// A character outside the alphabet of expressions.
    UnknowChar(char),
}

/// Mathematical model of a [`LexerError`].
pub enum LexerErrorView {
    InvalidNumber(Seq<char>),
    UnknowChar(char),
}

impl View for LexerError {
    type V = LexerErrorView;

    open spec fn view(&self) -> LexerErrorView {
        match self {
            LexerError::InvalidNumber(text) => LexerErrorView::InvalidNumber(text@),
            LexerError::UnknowChar(ch) => LexerErrorView::UnknowChar(*ch),
        }
    }
}

impl LexerErrorView {
    /// The one-line diagnostic of a lexical error.
    pub open spec fn message(self) -> Seq<char> {
        match self {
            LexerErrorView::InvalidNumber(text) => "Invalid number: '"@ + text
                + "'! | TokenError::InvalidNumber"@,
            LexerErrorView::UnknowChar(ch) => "Unknow char: '"@.push(ch)
                + "'! | TokenError::UnknowChar"@,
        }
    }
}

impl LexerError {
    /// Renders the error as a one-line diagnostic.
    pub fn to_string(&self) -> (s: String)
        ensures
            s@ == self@.message(),
    {
        match self {
            LexerError::InvalidNumber(text) => {
                let mut s = String::from_str("Invalid number: '");
                s.append(text.as_str());
                s.append("'! | TokenError::InvalidNumber");
                s
            },
            LexerError::UnknowChar(ch) => {
                let mut s = String::from_str("Unknow char: '");
                s.push(*ch);
                s.append("'! | TokenError::UnknowChar");
                s
            },
        }
    }
}

/// Any failure that parsing a text can end in: the first lexical or syntactic
/// error met, and nothing besides it.
#[derive(Debug, Clone, PartialEq)]
pub enum CalError {
    /// The lexer rejected the text.
    LexError(LexerError),
    /// The tokens do not form an expression; carries the diagnostic.
    SyntaxError(String),
}

/// Mathematical model of a [`CalError`].
pub enum CalErrorView {
    LexError(LexerErrorView),
    SyntaxError(Seq<char>),
}

impl View for CalError {
    type V = CalErrorView;

    open spec fn view(&self) -> CalErrorView {
        match self {
            CalError::LexError(le) => CalErrorView::LexError(le@),
            CalError::SyntaxError(msg) => CalErrorView::SyntaxError(msg@),
        }
    }
}

impl CalErrorView {
    /// The one-line diagnostic of an error.
    pub open spec fn message(self) -> Seq<char> {
        match self {
            CalErrorView::LexError(le) => "Lex error:"@ + le.message(),
            CalErrorView::SyntaxError(msg) => "Syntax error: "@ + msg,
        }
    }
}

impl CalError {
    /// A failed result that holds the lexical error `le`.
    pub fn lex<T>(le: LexerError) -> (r: Result<T, Self>)
        ensures
            r == Err::<T, Self>(CalError::LexError(le)),
    {
        Err(CalError::LexError(le))
    }

    /// A failed result that holds a syntax error with the diagnostic `msg`.
    pub fn syn<T>(msg: &str) -> (r: Result<T, Self>)
        ensures
            r matches Err(e) && e@ == CalErrorView::SyntaxError(msg@),
    {
        Err(CalError::SyntaxError(String::from_str(msg)))
    }

    /// Renders the error as a one-line diagnostic.
    pub fn to_string(&self) -> (s: String)
        ensures
            s@ == self@.message(),
    {
        match self {
            CalError::LexError(le) => {
                let mut s = String::from_str("Lex error:");
                let inner = le.to_string();
                s.append(inner.as_str());
                s
            },
            CalError::SyntaxError(msg) => {
                let mut s = String::from_str("Syntax error: ");
                s.append(msg.as_str());
                s
            },
        }
    }
}

/// A tree holds an operator at a place where that operator has no meaning, so
/// the tree denotes no value.
#[derive(Debug, Clone, Copy, PartialEq, Eq)]
pub struct CalculateError;

/// The model of a result: the model of whichever side it holds.
pub open spec fn result_view<T: View, E: View>(r: Result<T, E>) -> Result<T::V, E::V> {
    match r {
        Ok(t) => Ok(t@),
        Err(e) => Err(e@),
    }
}

} // verus!
