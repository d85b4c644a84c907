//! Tokenizing a whole text in one pass over its characters.
//!
//! [`get_token`] keeps the digits and points that it meets in a store and
//! turns the store into a number when a symbol, a blank or the end of the text
//! closes it. It gives what the lexer of [`crate::express::lexer`] gives token
//! by token.

use vstd::prelude::*;
use crate::express::error::{CalErrorView, LexerError, LexerErrorView};
use crate::express::lexer::{
    blank, is_blank, lemma_number_run, lemma_scan_advances, lemma_scan_skip, scan, skip_blanks,
    symbol, token_views, tokenized, TokenView,
};
use crate::express::number::{is_decimal, is_number_char, number_char, Decimal};

pub use crate::express::lexer::Token;

verus! {

/// The characters that numbers are written with.
pub const NUMBER_STR: &'static str = "0123456789.";

/// The characters that stand between numbers: the symbols and the blanks.
pub const OPERATOR_STR: &'static str = "()+-*/^% \n";

/// The token `t` in front of the tokens that follow it, or the error that
/// reading those met.
pub open spec fn followed(
    t: TokenView,
    rest: Result<Seq<TokenView>, CalErrorView>,
) -> Result<Seq<TokenView>, CalErrorView> {
    match rest {
        Ok(more) => Ok(seq![t] + more),
        Err(e) => Err(e),
    }
}

/// A blank in front of a text changes nothing of its tokens.
proof fn lemma_blank_first(s: Seq<char>, i: int)
    requires
        0 <= i < s.len(),
        is_blank(s[i]),
    ensures
        tokenized(s.skip(i)) == tokenized(s.skip(i + 1)),
{
    let a = s.skip(i);
    let b = s.skip(i + 1);
    lemma_scan_skip(s, i, 0);
    lemma_scan_skip(s, i + 1, 0);
    lemma_scan_advances(s, i);
    lemma_scan_advances(s, i + 1);
    assert(a.skip(scan(a, 0).next) =~= b.skip(scan(b, 0).next));
}

/// A symbol in front of a text is its first token.
proof fn lemma_symbol_first(s: Seq<char>, i: int)
    requires
        0 <= i < s.len(),
        symbol(s[i]) is Some,
    ensures
        tokenized(s.skip(i)) == followed(symbol(s[i])->Some_0, tokenized(s.skip(i + 1))),
{
    let a = s.skip(i);
    assert(skip_blanks(a, 0) == 0);
    assert(a.skip(1) =~= s.skip(i + 1));
}

/// A character that is no symbol, no blank, no digit and no point is the
/// error that a text which starts with it gives.
proof fn lemma_unknown_first(s: Seq<char>, i: int)
    requires
        0 <= i < s.len(),
        symbol(s[i]) is None,
        !is_blank(s[i]),
        !is_number_char(s[i]),
    ensures
        tokenized(s.skip(i)) == Err::<Seq<TokenView>, CalErrorView>(
            CalErrorView::LexError(LexerErrorView::UnknowChar(s[i])),
        ),
{
    let a = s.skip(i);
    assert(skip_blanks(a, 0) == 0);
}

/// A run of digits and points in front of a text is its first token when
/// the run is a literal, and the error that the text gives when it is none.
proof fn lemma_number_first(s: Seq<char>, j: int, i: int)
    requires
        0 <= j < i <= s.len(),
        forall|k: int| j <= k < i ==> is_number_char(#[trigger] s[k]),
        i < s.len() ==> !is_number_char(s[i]),
    ensures
        is_decimal(s.subrange(j, i)) ==> tokenized(s.skip(j)) == followed(
            TokenView::Number(s.subrange(j, i)),
            tokenized(s.skip(i)),
        ),
        !is_decimal(s.subrange(j, i)) ==> tokenized(s.skip(j)) == Err::<
            Seq<TokenView>,
            CalErrorView,
        >(CalErrorView::LexError(LexerErrorView::InvalidNumber(s.subrange(j, i)))),
{
    let a = s.skip(j);
    assert(skip_blanks(a, 0) == 0);
    lemma_number_run(a, 0, i - j);
    assert(a.subrange(0, i - j) =~= s.subrange(j, i));
    assert(a.skip(i - j) =~= s.skip(i));
}

/// Reads `str` as a number.
pub fn parse_num(str: &str) -> (r: Result<Decimal, LexerError>)
    ensures
        match r {
            Ok(d) => is_decimal(str@) && d@ == str@,
            Err(e) => !is_decimal(str@) && e@ == LexerErrorView::InvalidNumber(str@),
        },
{
    match Decimal::parse(str) {
        Some(num) => Ok(num),
        None => Err(LexerError::InvalidNumber(str.to_owned())),
    }
}

/// The tokens of the text `expr_str`, or the first error in it.
pub fn get_token(expr_str: &str) -> (r: Result<Vec<Token>, LexerError>)
    ensures
        match r {
            Ok(v) => tokenized(expr_str@) == Ok::<Seq<TokenView>, CalErrorView>(token_views(v@)),
            Err(e) => tokenized(expr_str@) == Err::<Seq<TokenView>, CalErrorView>(
                CalErrorView::LexError(e@),
            ),
        },
{
    let ghost s = expr_str@;
    let mut tokens: Vec<Token> = Vec::new();
    let mut stor_str = String::new();
    let mut stored = false;
    assert(s.skip(0) =~= s);
    assert(token_views(tokens@) + tokenized(s)->Ok_0 =~= tokenized(s)->Ok_0);
    for ch in it: expr_str.chars()
        invariant
            it.seq() == s,
            s == expr_str@,
            stored == (stor_str@.len() > 0),
            stor_str@.len() <= it.index(),
            stor_str@ == s.subrange(it.index() - stor_str@.len(), it.index()),
            forall|k: int| it.index() - stor_str@.len() <= k < it.index() ==> is_number_char(#[trigger] s[k]),
            match tokenized(s.skip(it.index() - stor_str@.len())) {
                Ok(rest) => tokenized(s) == Ok::<Seq<TokenView>, CalErrorView>(
                    token_views(tokens@) + rest,
                ),
                Err(e) => tokenized(s) == Err::<Seq<TokenView>, CalErrorView>(e),
            },
    {
        let ghost i = it.index();
        let ghost j = i - stor_str@.len();
        if number_char(ch) {
            stor_str.push(ch);
            stored = true;
            assert(stor_str@ =~= s.subrange(j, i + 1));
        } else {
            // clear the contents of the store
            if stored {
                proof {
                    lemma_number_first(s, j, i);
                }
                let ghost seen = tokens@;
                match parse_num(stor_str.as_str()) {
                    Ok(num) => {
                        tokens.push(Token::Number(num));
                    },
                    Err(e) => {
                        return Err(e);
                    },
                }
                stor_str = String::new();
                stored = false;
                proof {
                    assert(token_views(tokens@) =~= token_views(seen).push(
                        TokenView::Number(s.subrange(j, i)),
                    ));
                    if let Ok(rest) = tokenized(s.skip(i)) {
                        assert(token_views(seen) + (seq![TokenView::Number(s.subrange(j, i))]
                            + rest) =~= token_views(tokens@) + rest);
                    }
                }
            }
            assert(stor_str@ =~= s.subrange(i + 1, i + 1));
            let ghost seen = tokens@;
            // push the symbol
            let token = match ch {
                '(' => Some(Token::OpenPh),
                ')' => Some(Token::ClosePh),
                '+' => Some(Token::Plus),
                '-' => Some(Token::Minus),
                '*' => Some(Token::Multiply),
                '/' => Some(Token::Division),
                '^' => Some(Token::Exponential),
                '%' => Some(Token::Percent),
                _ => None,
            };
            match token {
                Some(token) => {
                    proof {
                        lemma_symbol_first(s, i);
                    }
                    let ghost t = token@;
                    tokens.push(token);
                    proof {
                        assert(token_views(tokens@) =~= token_views(seen).push(t));
                        if let Ok(rest) = tokenized(s.skip(i + 1)) {
                            assert(token_views(seen) + (seq![t] + rest) =~= token_views(tokens@)
                                + rest);
                        }
                    }
                },
                None => {
                    if blank(ch) {
                        proof {
                            lemma_blank_first(s, i);
                        }
                    } else {
                        proof {
                            lemma_unknown_first(s, i);
                        }
                        return Err(LexerError::UnknowChar(ch));
                    }
                },
            }
        }
    }
    let ghost n = s.len() as int;
    // the store may hold the last number
    if stored {
        proof {
            lemma_number_first(s, n - stor_str@.len(), n);
            assert(tokenized(s.skip(n)) == Ok::<Seq<TokenView>, CalErrorView>(Seq::empty()));
        }
        let ghost seen = tokens@;
        let ghost text = stor_str@;
        match parse_num(stor_str.as_str()) {
            Ok(num) => {
                tokens.push(Token::Number(num));
            },
            Err(e) => {
                return Err(e);
            },
        }
        assert(token_views(tokens@) =~= token_views(seen) + (seq![TokenView::Number(text)]
            + Seq::<TokenView>::empty()));
    } else {
        assert(tokenized(s.skip(n)) == Ok::<Seq<TokenView>, CalErrorView>(Seq::empty()));
        assert(token_views(tokens@) + Seq::<TokenView>::empty() =~= token_views(tokens@));
    }
    Ok(tokens)
}

} // verus!
