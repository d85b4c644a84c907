//! The grammar of expressions, stated apart from any parser, and the laws
//! that tie the parser to it.
//!
//! A [`Chain`] is an expression as it is written: operands with operators
//! between them. [`chain_tokens`] gives the tokens that write it, and
//! [`chain_expr`] the tree that it means, by the rule of [`group`]: the last
//! of the operators that bind least is the root. The laws:
//!
//! - [`lemma_two_operators`]: what the rule makes of two operators in a row;
//! - [`lemma_chain_parses`]: on the tokens of a valid expression the parser
//!   yields the tree of that expression and stops behind it;
//! - [`lemma_valid_text_parses`]: so it does on every text that has those
//!   tokens, whatever blanks the text holds;
//! - [`lemma_written_expression_parses`]: and there is such a text, the tokens
//!   written one behind the other;
//! - [`lemma_tokenized_render`]: the lexer loses nothing of a text but its
//!   blanks;
//! - [`lemma_parsed_tree_evaluable`]: every tree that the parser yields
//!   denotes a value;
//! - [`lemma_same_text_same_tree`]: parsing is a function of the text.

use vstd::prelude::*;
use crate::express::error::CalErrorView;
use crate::express::lexer::{
    is_blank, lemma_number_end, lemma_number_run, lemma_scan_advances, lemma_skip_blanks, scan,
    skip_blanks, symbol, tokenized, TokenView,
};
use crate::express::number::{is_decimal, is_number_char};
use crate::express::parser::{OpSymbol, op_symbol};
use crate::express::parser::lookahead::{
    lemma_binop_weight, lemma_expr_evaluable, lemma_unit_weight, parse_binop, parse_expr,
    parse_text, parse_unit, pending, pop, precedence, start, ExprView, Input, Parsed,
};

verus! {

/// An operand as it is written: a number, a signed number, or an expression
/// in parentheses.
pub enum Unit {
    Num(Seq<char>),
    Signed(OpSymbol, Seq<char>),
    Group(Box<Chain>),
}

/// A binary operator and the operand behind it.
pub struct Link {
    pub op: OpSymbol,
    pub unit: Unit,
}

/// An expression as it is written: an operand, and any number of operators
/// each with its operand.
pub struct Chain {
    pub first: Unit,
    pub rest: Seq<Link>,
}

/// The token that writes a binary operator.
pub open spec fn op_token(op: OpSymbol) -> TokenView {
    match op {
        OpSymbol::Add => TokenView::Plus,
        OpSymbol::Subtract => TokenView::Minus,
        OpSymbol::Multiply => TokenView::Multiply,
        OpSymbol::Divide => TokenView::Division,
        OpSymbol::Mod => TokenView::Percent,
        OpSymbol::Caret => TokenView::Exponential,
        OpSymbol::Unknown => TokenView::EOF,
    }
}

/// The tokens that write an operand.
pub open spec fn unit_tokens(u: Unit) -> Seq<TokenView>
    decreases u,
{
    match u {
        Unit::Num(text) => seq![TokenView::Number(text)],
        Unit::Signed(op, text) => seq![op_token(op), TokenView::Number(text)],
        Unit::Group(c) => seq![TokenView::OpenPh] + chain_tokens(*c) + seq![TokenView::ClosePh],
    }
}

/// The tokens that write an expression.
pub open spec fn chain_tokens(c: Chain) -> Seq<TokenView>
    decreases c,
{
    unit_tokens(c.first) + links_tokens(c.rest, 0)
}

/// The tokens that write the links of `ls` from the one at `from` on.
pub open spec fn links_tokens(ls: Seq<Link>, from: int) -> Seq<TokenView>
    decreases ls, ls.len() - from,
{
    if 0 <= from < ls.len() {
        seq![op_token(ls[from].op)] + unit_tokens(ls[from].unit) + links_tokens(ls, from + 1)
    } else {
        Seq::empty()
    }
}

/// How strongly a binary operator binds; -1 for `Unknown`.
pub open spec fn op_precedence(op: OpSymbol) -> int {
    match op {
        OpSymbol::Add | OpSymbol::Subtract => 5,
        OpSymbol::Multiply | OpSymbol::Divide | OpSymbol::Mod => 10,
        OpSymbol::Caret => 15,
        OpSymbol::Unknown => -1,
    }
}

/// The operand is written with a sign only where it is signed.
pub open spec fn unit_valid(u: Unit) -> bool
    decreases u,
{
    match u {
        Unit::Num(_) => true,
        Unit::Signed(op, _) => op is Add || op is Subtract,
        Unit::Group(c) => chain_valid(*c),
    }
}

/// Every operator of the expression is one of the six, and every operand is
/// valid.
pub open spec fn chain_valid(c: Chain) -> bool
    decreases c,
{
    unit_valid(c.first) && links_valid(c.rest, 0)
}

/// The links of `ls` from the one at `from` on are valid.
pub open spec fn links_valid(ls: Seq<Link>, from: int) -> bool
    decreases ls, ls.len() - from,
{
    if 0 <= from < ls.len() {
        !(ls[from].op is Unknown) && unit_valid(ls[from].unit) && links_valid(ls, from + 1)
    } else {
        true
    }
}

/// Among the links of `ls` from `lo` up to `hi`, the place of the last one
/// whose operator binds least.
pub open spec fn last_min(ls: Seq<Link>, lo: int, hi: int) -> int
    decreases hi - lo,
{
    if hi - lo <= 1 {
        lo
    } else {
        let k = last_min(ls, lo, hi - 1);
        if op_precedence(ls[hi - 1].op) <= op_precedence(ls[k].op) {
            hi - 1
        } else {
            k
        }
    }
}

/// `last_min` names a link of the range; no operator of the range binds less
/// than the one there, and behind it all bind more.
pub proof fn lemma_last_min(ls: Seq<Link>, lo: int, hi: int)
    requires
        lo < hi,
    ensures
        lo <= last_min(ls, lo, hi) < hi,
        forall|i: int|
            lo <= i < hi ==> op_precedence(#[trigger] ls[i].op) >= op_precedence(
                ls[last_min(ls, lo, hi)].op,
            ),
        forall|i: int|
            last_min(ls, lo, hi) < i < hi ==> op_precedence(#[trigger] ls[i].op) > op_precedence(
                ls[last_min(ls, lo, hi)].op,
            ),
    decreases hi - lo,
{
    if hi - lo > 1 {
        lemma_last_min(ls, lo, hi - 1);
    }
}

/// The tree of an operand.
pub open spec fn unit_expr(u: Unit) -> ExprView
    decreases u,
{
    match u {
        Unit::Num(text) => ExprView::Num(text),
        Unit::Signed(op, text) => ExprView::UnaryOp(op, Box::new(ExprView::Num(text))),
        Unit::Group(c) => chain_expr(*c),
    }
}

/// The tree of an expression: its operands grouped by its operators.
pub open spec fn chain_expr(c: Chain) -> ExprView
    decreases c,
{
    group(unit_expr(c.first), c.rest, 0, c.rest.len() as int)
}

/// The tree of the operand `first` followed by the links of `ls` from `lo` up
/// to `hi`. The last of the operators that bind least is the root; what
/// stands before it is its left side and what stands behind it its right
/// side. So a stronger operator binds first, and operators that bind equally
/// group from the left.
pub open spec fn group(first: ExprView, ls: Seq<Link>, lo: int, hi: int) -> ExprView
    decreases ls, hi - lo,
{
    if 0 <= lo < hi <= ls.len() {
        let k = last_min(ls, lo, hi);
        proof {
            lemma_last_min(ls, lo, hi);
        }
        ExprView::BinOp(
            ls[k].op,
            Box::new(group(first, ls, lo, k)),
            Box::new(group(unit_expr(ls[k].unit), ls, k + 1, hi)),
        )
    } else {
        first
    }
}

/// Of two operators in a row, the second takes the middle operand for itself
/// exactly when it binds more strongly than the first; else the first takes
/// it, and the second joins what the first has made. So `2+3*4` is `2+(3*4)`,
/// `2*3+4` is `(2*3)+4`, and `2^3^2` is `(2^3)^2`.
pub proof fn lemma_two_operators(a: Unit, op1: OpSymbol, b: Unit, op2: OpSymbol, c: Unit)
    ensures
        chain_expr(Chain { first: a, rest: seq![Link { op: op1, unit: b }, Link { op: op2, unit: c }] })
            == if op_precedence(op1) < op_precedence(op2) {
            ExprView::BinOp(
                op1,
                Box::new(unit_expr(a)),
                Box::new(ExprView::BinOp(op2, Box::new(unit_expr(b)), Box::new(unit_expr(c)))),
            )
        } else {
            ExprView::BinOp(
                op2,
                Box::new(ExprView::BinOp(op1, Box::new(unit_expr(a)), Box::new(unit_expr(b)))),
                Box::new(unit_expr(c)),
            )
        },
{
    let ls = seq![Link { op: op1, unit: b }, Link { op: op2, unit: c }];
    let first = unit_expr(a);
    assert(ls[0] == Link { op: op1, unit: b });
    assert(ls[1] == Link { op: op2, unit: c });
    assert(last_min(ls, 0, 1) == 0);
    assert(last_min(ls, 1, 2) == 1);
    if op_precedence(op1) < op_precedence(op2) {
        lemma_last_min_is(ls, 0, 2, 0);
        assert(group(first, ls, 0, 0) == first);
        assert(group(unit_expr(c), ls, 2, 2) == unit_expr(c));
        assert(group(unit_expr(b), ls, 1, 2) == ExprView::BinOp(
            op2,
            Box::new(unit_expr(b)),
            Box::new(unit_expr(c)),
        ));
    } else {
        lemma_last_min_is(ls, 0, 2, 1);
        assert(group(first, ls, 0, 0) == first);
        assert(group(unit_expr(b), ls, 1, 1) == unit_expr(b));
        assert(group(unit_expr(c), ls, 2, 2) == unit_expr(c));
        assert(group(first, ls, 0, 1) == ExprView::BinOp(
            op1,
            Box::new(first),
            Box::new(unit_expr(b)),
        ));
    }
}

/// The parser is in a state that a lexer can bring about: once it looks at
/// the end, nothing is to come.
pub open spec fn settled(input: Input) -> bool {
    input.peek is EOF ==> input.rest.len() == 0
}

/// What a settled parser has before it, the token looked at included.
pub open spec fn stream(input: Input) -> Seq<Result<TokenView, CalErrorView>> {
    if input.peek is EOF {
        input.rest
    } else {
        seq![Ok(input.peek)] + input.rest
    }
}

/// The answers of a lexer that reads the tokens `toks` without an error.
pub open spec fn answers(toks: Seq<TokenView>) -> Seq<Result<TokenView, CalErrorView>> {
    toks.map_values(|t: TokenView| Ok::<TokenView, CalErrorView>(t))
}

/// None of the tokens is the end.
pub open spec fn no_end(toks: Seq<TokenView>) -> bool {
    forall|i: int| 0 <= i < toks.len() ==> !(#[trigger] toks[i] is EOF)
}

/// The state of a parser that has the tokens `toks` before it and is in the
/// state `after` once it has taken them.
pub open spec fn prepend(toks: Seq<TokenView>, after: Input) -> Input {
    if toks.len() == 0 {
        after
    } else {
        Input { peek: toks[0], rest: answers(toks.drop_first()) + stream(after) }
    }
}

/// Taking a token from the front leaves the rest in front.
proof fn lemma_pop_prepend(t: TokenView, more: Seq<TokenView>, after: Input)
    requires
        settled(after),
    ensures
        pop(prepend(seq![t] + more, after)) == (Parsed { out: Ok(t), input: prepend(more, after) }),
{
    let toks = seq![t] + more;
    assert(toks.drop_first() =~= more);
    let input = prepend(toks, after);
    if more.len() > 0 {
        assert(input.rest.drop_first() =~= answers(more.drop_first()) + stream(after));
    } else {
        assert(input.rest =~= stream(after));
        if stream(after).len() > 0 {
            assert(stream(after).drop_first() =~= after.rest);
        }
    }
}

/// Tokens in front of tokens are the two runs in one.
proof fn lemma_prepend_concat(a: Seq<TokenView>, b: Seq<TokenView>, after: Input)
    requires
        settled(after),
        no_end(b),
    ensures
        prepend(a + b, after) == prepend(a, prepend(b, after)),
{
    if a.len() == 0 {
        assert(a + b =~= b);
    } else {
        if b.len() > 0 {
            assert(!(b[0] is EOF));
            assert(stream(prepend(b, after)) =~= answers(b) + stream(after));
        }
        assert(answers((a + b).drop_first()) + stream(after) =~= answers(a.drop_first()) + stream(
            prepend(b, after),
        ));
    }
}

/// A valid expression is written without the end token.
proof fn lemma_unit_tokens_no_end(u: Unit)
    requires
        unit_valid(u),
    ensures
        no_end(unit_tokens(u)),
        unit_tokens(u).len() > 0,
    decreases u,
{
    match u {
        Unit::Group(c) => {
            lemma_chain_tokens_no_end(*c);
        },
        _ => {},
    }
}

/// A valid expression is written without the end token.
proof fn lemma_chain_tokens_no_end(c: Chain)
    requires
        chain_valid(c),
    ensures
        no_end(chain_tokens(c)),
        chain_tokens(c).len() > 0,
    decreases c,
{
    lemma_unit_tokens_no_end(c.first);
    lemma_links_tokens_no_end(c.rest, 0);
}

/// Valid links are written without the end token.
proof fn lemma_links_tokens_no_end(ls: Seq<Link>, from: int)
    requires
        links_valid(ls, from),
    ensures
        no_end(links_tokens(ls, from)),
    decreases ls, ls.len() - from,
{
    if 0 <= from < ls.len() {
        lemma_unit_tokens_no_end(ls[from].unit);
        lemma_links_tokens_no_end(ls, from + 1);
    }
}

/// The place of the first link of `ls`, from `from` on, whose operator binds
/// less than `min_prec`; the length of `ls` when there is none.
pub open spec fn stop(ls: Seq<Link>, from: int, min_prec: int) -> int
    decreases ls.len() - from,
{
    if 0 <= from < ls.len() && op_precedence(ls[from].op) >= min_prec {
        stop(ls, from + 1, min_prec)
    } else {
        from
    }
}

/// Up to `stop` every operator binds at least as strongly as `min_prec`, and
/// the one at `stop` binds less.
proof fn lemma_stop(ls: Seq<Link>, from: int, min_prec: int)
    requires
        0 <= from <= ls.len(),
    ensures
        from <= stop(ls, from, min_prec) <= ls.len(),
        forall|i: int|
            from <= i < stop(ls, from, min_prec) ==> op_precedence(#[trigger] ls[i].op)
                >= min_prec,
        stop(ls, from, min_prec) < ls.len() ==> op_precedence(ls[stop(ls, from, min_prec)].op)
            < min_prec,
    decreases ls.len() - from,
{
    if from < ls.len() && op_precedence(ls[from].op) >= min_prec {
        lemma_stop(ls, from + 1, min_prec);
    }
}

/// Links whose operators bind at least as strongly as `min_prec` do not stop
/// the search.
proof fn lemma_stop_later(ls: Seq<Link>, from: int, to: int, min_prec: int)
    requires
        0 <= from <= to <= ls.len(),
        forall|i: int| from <= i < to ==> op_precedence(#[trigger] ls[i].op) >= min_prec,
    ensures
        stop(ls, from, min_prec) == stop(ls, to, min_prec),
    decreases to - from,
{
    if from < to {
        lemma_stop_later(ls, from + 1, to, min_prec);
    }
}

/// A link whose operator binds no more than any other of the range, and less
/// than all behind it, is the one that `last_min` names.
proof fn lemma_last_min_is(ls: Seq<Link>, lo: int, hi: int, k: int)
    requires
        lo <= k < hi,
        forall|i: int| lo <= i < hi ==> op_precedence(#[trigger] ls[i].op) >= op_precedence(ls[k].op),
        forall|i: int| k < i < hi ==> op_precedence(#[trigger] ls[i].op) > op_precedence(ls[k].op),
    ensures
        last_min(ls, lo, hi) == k,
{
    lemma_last_min(ls, lo, hi);
    let m = last_min(ls, lo, hi);
    if m < k {
        assert(op_precedence(ls[k].op) > op_precedence(ls[m].op));
        assert(op_precedence(ls[m].op) >= op_precedence(ls[k].op));
    } else if k < m {
        assert(op_precedence(ls[m].op) > op_precedence(ls[k].op));
        assert(op_precedence(ls[k].op) >= op_precedence(ls[m].op));
    }
}

/// The parser reads a valid operand as the tree of that operand, whatever
/// follows it.
pub proof fn lemma_unit_parses(u: Unit, next: Input)
    requires
        unit_valid(u),
        settled(next),
    ensures
        parse_unit(prepend(unit_tokens(u), next)) == (Parsed {
            out: Ok(unit_expr(u)),
            input: next,
        }),
    decreases u,
{
    let input = prepend(unit_tokens(u), next);
    match u {
        Unit::Num(text) => {
            let t = TokenView::Number(text);
            assert(unit_tokens(u) =~= seq![t] + Seq::<TokenView>::empty());
            lemma_pop_prepend(t, Seq::empty(), next);
        },
        Unit::Signed(op, text) => {
            let t = TokenView::Number(text);
            assert(unit_tokens(u) =~= seq![op_token(op)] + seq![t]);
            lemma_pop_prepend(op_token(op), seq![t], next);
            assert(seq![t] =~= seq![t] + Seq::<TokenView>::empty());
            lemma_pop_prepend(t, Seq::empty(), next);
        },
        Unit::Group(c) => {
            let close = seq![TokenView::ClosePh];
            let inner = chain_tokens(*c);
            assert(unit_tokens(u) =~= seq![TokenView::OpenPh] + (inner + close));
            lemma_pop_prepend(TokenView::OpenPh, inner + close, next);
            lemma_prepend_concat(inner, close, next);
            let behind = prepend(close, next);
            lemma_chain_parses(*c, behind);
            assert(close =~= seq![TokenView::ClosePh] + Seq::<TokenView>::empty());
            lemma_pop_prepend(TokenView::ClosePh, Seq::empty(), next);
        },
    }
}

/// The parser reads a valid expression as the tree of that expression, and
/// stops in front of what follows it, if that is no binary operator.
pub proof fn lemma_chain_parses(c: Chain, after: Input)
    requires
        chain_valid(c),
        settled(after),
        precedence(after.peek) < 0,
    ensures
        parse_expr(prepend(chain_tokens(c), after)) == (Parsed {
            out: Ok(chain_expr(c)),
            input: after,
        }),
    decreases c,
{
    let ls = c.rest;
    let first = unit_tokens(c.first);
    let links = links_tokens(ls, 0);
    lemma_links_tokens_no_end(ls, 0);
    lemma_prepend_concat(first, links, after);
    let next = prepend(links, after);
    lemma_unit_parses(c.first, next);
    lemma_unit_weight(prepend(chain_tokens(c), after));
    let lhs = unit_expr(c.first);
    lemma_links_parse(ls, 0, 0, lhs, 0, 15, after);
    lemma_links_bind(ls, 0);
    lemma_stop_later(ls, 0, ls.len() as int, 0);
}

/// The operators of valid links bind.
proof fn lemma_links_bind(ls: Seq<Link>, from: int)
    requires
        0 <= from,
        links_valid(ls, from),
    ensures
        forall|i: int| from <= i < ls.len() ==> op_precedence(#[trigger] ls[i].op) >= 5,
        forall|i: int| from <= i < ls.len() ==> unit_valid(#[trigger] ls[i].unit),
    decreases ls.len() - from,
{
    if from < ls.len() {
        lemma_links_bind(ls, from + 1);
    }
}

/// The loop of the parser over valid links. It stands in front of the link
/// at `from` and holds the tree of `first` and the links from `lo` up to
/// `from`, none of which binds less than the next can. It takes the links up
/// to the first that binds less than `min_prec` and leaves the tree of all
/// that it has taken.
proof fn lemma_links_parse(
    ls: Seq<Link>,
    lo: int,
    from: int,
    first: ExprView,
    min_prec: nat,
    bound: int,
    after: Input,
)
    requires
        links_valid(ls, from),
        0 <= lo <= from <= ls.len(),
        settled(after),
        precedence(after.peek) < 0,
        forall|i: int| lo <= i < from ==> op_precedence(#[trigger] ls[i].op) >= bound,
        from < ls.len() ==> op_precedence(ls[from].op) <= bound,
    ensures
        parse_binop(
            prepend(links_tokens(ls, from), after),
            min_prec,
            group(first, ls, lo, from),
        ) == (Parsed {
            out: Ok(group(first, ls, lo, stop(ls, from, min_prec as int))),
            input: prepend(links_tokens(ls, stop(ls, from, min_prec as int)), after),
        }),
    decreases ls, ls.len() - from,
{
    let input = prepend(links_tokens(ls, from), after);
    let lhs = group(first, ls, lo, from);
    lemma_links_bind(ls, from);
    if from < ls.len() && op_precedence(ls[from].op) >= min_prec {
        let op = ls[from].op;
        let p = op_precedence(op);
        let u = ls[from].unit;
        let tail = links_tokens(ls, from + 1);
        lemma_links_tokens_no_end(ls, from + 1);
        lemma_unit_tokens_no_end(u);
        assert(links_tokens(ls, from) =~= seq![op_token(op)] + (unit_tokens(u) + tail));
        assert(input.peek == op_token(op));
        assert(precedence(input.peek) == p);
        // the operator is taken
        lemma_pop_prepend(op_token(op), unit_tokens(u) + tail, after);
        let popped = pop(input);
        assert(popped.input == prepend(unit_tokens(u) + tail, after));
        // its operand is read
        lemma_prepend_concat(unit_tokens(u), tail, after);
        let next = prepend(tail, after);
        lemma_unit_parses(u, next);
        let unit = parse_unit(popped.input);
        assert(unit == Parsed { out: Ok(unit_expr(u)), input: next });
        lemma_unit_weight(popped.input);
        // and what binds more strongly goes to the right-hand side
        let e1 = stop(ls, from + 1, p + 1);
        lemma_stop(ls, from + 1, p + 1);
        let right = if p < precedence(next.peek) {
            parse_binop(next, (p + 1) as nat, unit_expr(u))
        } else {
            Parsed { out: Ok(unit_expr(u)), input: next }
        };
        if from + 1 < ls.len() {
            let op2 = ls[from + 1].op;
            assert(links_tokens(ls, from + 1) =~= seq![op_token(op2)] + (unit_tokens(
                ls[from + 1].unit,
            ) + links_tokens(ls, from + 2)));
            assert(next.peek == op_token(op2));
            assert(precedence(next.peek) == op_precedence(op2));
        } else {
            assert(next == after);
        }
        if p < precedence(next.peek) {
            lemma_links_parse(ls, from + 1, from + 1, unit_expr(u), (p + 1) as nat, 15, after);
            lemma_binop_weight(next, (p + 1) as nat, unit_expr(u));
        } else {
            assert(e1 == from + 1);
        }
        assert(right == Parsed {
            out: Ok(group(unit_expr(u), ls, from + 1, e1)),
            input: prepend(links_tokens(ls, e1), after),
        });
        // the link at `from` is the root of all that was taken
        assert(forall|i: int| lo <= i < e1 ==> op_precedence(#[trigger] ls[i].op) >= p);
        lemma_last_min_is(ls, lo, e1, from);
        let joined = ExprView::BinOp(op, Box::new(lhs), Box::new(group(unit_expr(u), ls, from + 1, e1)));
        assert(joined == group(first, ls, lo, e1));
        assert(op_symbol(op_token(op)) == op);
        lemma_links_valid_later(ls, from, e1);
        lemma_links_parse(ls, lo, e1, first, min_prec, p, after);
        lemma_stop_later(ls, from, e1, min_prec as int);
        assert(parse_binop(input, min_prec, lhs) == parse_binop(right.input, min_prec, joined));
    } else {
        if from < ls.len() {
            let op = ls[from].op;
            assert(links_tokens(ls, from) =~= seq![op_token(op)] + (unit_tokens(ls[from].unit)
                + links_tokens(ls, from + 1)));
            assert(input.peek == op_token(op));
            assert(precedence(input.peek) == op_precedence(op));
        } else {
            assert(input == after);
        }
    }
}

/// Links that are valid from a place on are valid from any later place on.
proof fn lemma_links_valid_later(ls: Seq<Link>, from: int, to: int)
    requires
        0 <= from <= to,
        links_valid(ls, from),
    ensures
        links_valid(ls, to),
    decreases to - from,
{
    if from < to && from < ls.len() {
        lemma_links_valid_later(ls, from + 1, to);
    } else if from < to {
        assert(links_valid(ls, to));
    }
}

/// A text that the lexer reads without an error gives the parser its tokens
/// as answers, and the end is none of them.
proof fn lemma_tokenized_pending(s: Seq<char>)
    requires
        tokenized(s) is Ok,
    ensures
        pending(s) == answers(tokenized(s)->Ok_0),
        no_end(tokenized(s)->Ok_0),
    decreases s.len(),
{
    let step = scan(s, 0);
    lemma_scan_advances(s, 0);
    if step.item == Ok::<TokenView, CalErrorView>(TokenView::EOF) {
        assert(pending(s) =~= answers(tokenized(s)->Ok_0));
    } else {
        let t = step.item->Ok_0;
        let rest = s.skip(step.next);
        lemma_tokenized_pending(rest);
        let toks = tokenized(rest)->Ok_0;
        assert(tokenized(s)->Ok_0 == seq![t] + toks);
        assert(pending(s) =~= answers(seq![t] + toks));
    }
}

/// Every text whose tokens write a valid expression parses, never with an
/// error, and as the tree of that expression.
pub proof fn lemma_valid_text_parses(s: Seq<char>, c: Chain)
    requires
        chain_valid(c),
        tokenized(s) == Ok::<Seq<TokenView>, CalErrorView>(chain_tokens(c)),
    ensures
        parse_text(s) == Ok::<ExprView, CalErrorView>(chain_expr(c)),
{
    let toks = chain_tokens(c);
    let end = Input { peek: TokenView::EOF, rest: Seq::empty() };
    lemma_chain_tokens_no_end(c);
    lemma_scan_advances(s, 0);
    let step = scan(s, 0);
    let rest = s.skip(step.next);
    lemma_tokenized_pending(rest);
    assert(tokenized(rest)->Ok_0 =~= toks.drop_first());
    assert(answers(toks.drop_first()) + stream(end) =~= answers(toks.drop_first()));
    assert(start(s) == Ok::<Input, CalErrorView>(prepend(toks, end)));
    lemma_chain_parses(c, end);
}

/// Parsing is a function of the text: equal texts give equal trees, and
/// equal errors where they give none.
pub proof fn lemma_same_text_same_tree(a: Seq<char>, b: Seq<char>)
    requires
        a == b,
    ensures
        parse_text(a) == parse_text(b),
        tokenized(a) == tokenized(b),
{
}

/// Every tree that parsing a text gives denotes a value.
pub proof fn lemma_parsed_tree_evaluable(s: Seq<char>)
    ensures
        parse_text(s) matches Ok(e) ==> e.evaluable(),
{
    if let Ok(input) = start(s) {
        lemma_expr_evaluable(input);
    }
}

/// The characters that write a token.
pub open spec fn token_text(t: TokenView) -> Seq<char> {
    match t {
        TokenView::OpenPh => seq!['('],
        TokenView::ClosePh => seq![')'],
        TokenView::Plus => seq!['+'],
        TokenView::Minus => seq!['-'],
        TokenView::Multiply => seq!['*'],
        TokenView::Division => seq!['/'],
        TokenView::Exponential => seq!['^'],
        TokenView::Percent => seq!['%'],
        TokenView::Number(text) => text,
        TokenView::EOF => Seq::empty(),
    }
}

/// The text that writes the tokens one behind the other, with nothing
/// between them.
pub open spec fn render(toks: Seq<TokenView>) -> Seq<char>
    decreases toks.len(),
{
    if toks.len() == 0 {
        Seq::empty()
    } else {
        token_text(toks[0]) + render(toks.drop_first())
    }
}

/// Every number among the tokens is a decimal literal.
pub open spec fn literals_decimal(toks: Seq<TokenView>) -> bool {
    forall|i: int|
        0 <= i < toks.len() ==> (#[trigger] toks[i] matches TokenView::Number(text) ==> is_decimal(
            text,
        ))
}

/// No number stands directly behind a number.
pub open spec fn separated(toks: Seq<TokenView>) -> bool {
    forall|i: int|
        0 <= i && i + 1 < toks.len() && #[trigger] toks[i] is Number ==> !(toks[i + 1] is Number)
}

/// The tokens do not start with a number.
pub open spec fn starts_plain(toks: Seq<TokenView>) -> bool {
    toks.len() > 0 ==> !(toks[0] is Number)
}

/// A text that was rendered from tokens which are not the end starts with
/// the first character of the first token, and that one is no blank.
proof fn lemma_render_head(toks: Seq<TokenView>)
    requires
        toks.len() > 0,
        no_end(toks),
        literals_decimal(toks),
    ensures
        render(toks).len() > 0,
        token_text(toks[0]).len() > 0,
        render(toks)[0] == token_text(toks[0])[0],
        !is_blank(render(toks)[0]),
        toks[0] is Number <==> is_number_char(render(toks)[0]),
{
    let t = toks[0];
    assert(!(t is EOF));
    if let TokenView::Number(text) = t {
        assert(is_decimal(text));
        assert(is_number_char(text[0]));
    }
}

/// The lexer reads a rendered text back as the tokens it was rendered from.
pub proof fn lemma_render_tokenized(toks: Seq<TokenView>)
    requires
        no_end(toks),
        literals_decimal(toks),
        separated(toks),
    ensures
        tokenized(render(toks)) == Ok::<Seq<TokenView>, CalErrorView>(toks),
    decreases toks.len(),
{
    let s = render(toks);
    if toks.len() == 0 {
        assert(tokenized(s)->Ok_0 =~= toks);
    } else {
        let t = toks[0];
        let more = toks.drop_first();
        let r = render(more);
        let w = token_text(t);
        lemma_render_head(toks);
        assert(no_end(more)) by {
            assert forall|i: int| 0 <= i < more.len() implies !(#[trigger] more[i] is EOF) by {
                assert(more[i] == toks[i + 1]);
            }
        }
        assert(literals_decimal(more)) by {
            assert forall|i: int| 0 <= i < more.len() implies (#[trigger] more[i] matches TokenView::Number(
                text,
            ) ==> is_decimal(text)) by {
                assert(more[i] == toks[i + 1]);
            }
        }
        assert(separated(more)) by {
            assert forall|i: int|
                0 <= i && i + 1 < more.len() && #[trigger] more[i] is Number implies !(more[i
                    + 1] is Number) by {
                assert(more[i] == toks[i + 1]);
                assert(more[i + 1] == toks[i + 2]);
            }
        }
        lemma_render_tokenized(more);
        assert(skip_blanks(s, 0) == 0);
        if more.len() > 0 {
            lemma_render_head(more);
            assert(s[w.len() as int] == r[0]);
        }
        assert(s.skip(w.len() as int) =~= r);
        if let TokenView::Number(text) = t {
            assert(toks[0] is Number);
            if more.len() > 0 {
                assert(more[0] == toks[1]);
                assert(!(more[0] is Number));
                assert(!is_number_char(r[0]));
            }
            assert forall|k: int| 0 <= k < w.len() implies is_number_char(#[trigger] s[k]) by {
                assert(s[k] == text[k]);
            }
            lemma_number_run(s, 0, w.len() as int);
            assert(s.subrange(0, w.len() as int) =~= text);
        } else {
            assert(w.len() == 1);
            assert(symbol(s[0]) == Some(t));
        }
        assert(scan(s, 0).item == Ok::<TokenView, CalErrorView>(t));
        assert(scan(s, 0).next == w.len());
        assert(seq![t] + more =~= toks);
    }
}

/// The characters of `s` from `from` on that are no blanks.
pub open spec fn unblank(s: Seq<char>, from: int) -> Seq<char>
    decreases s.len() - from,
{
    if 0 <= from < s.len() {
        if is_blank(s[from]) {
            unblank(s, from + 1)
        } else {
            seq![s[from]] + unblank(s, from + 1)
        }
    } else {
        Seq::empty()
    }
}

/// Blanks add nothing.
proof fn lemma_unblank_blanks(s: Seq<char>, from: int, to: int)
    requires
        0 <= from <= to <= s.len(),
        forall|k: int| from <= k < to ==> is_blank(#[trigger] s[k]),
    ensures
        unblank(s, from) == unblank(s, to),
    decreases to - from,
{
    if from < to {
        lemma_unblank_blanks(s, from + 1, to);
    }
}

/// A run without a blank stays as it is.
proof fn lemma_unblank_run(s: Seq<char>, from: int, to: int)
    requires
        0 <= from <= to <= s.len(),
        forall|k: int| from <= k < to ==> !is_blank(#[trigger] s[k]),
    ensures
        unblank(s, from) == s.subrange(from, to) + unblank(s, to),
    decreases to - from,
{
    if from < to {
        lemma_unblank_run(s, from + 1, to);
        assert(seq![s[from]] + (s.subrange(from + 1, to) + unblank(s, to)) =~= s.subrange(from, to)
            + unblank(s, to));
    } else {
        assert(s.subrange(from, to) + unblank(s, to) =~= unblank(s, to));
    }
}

/// What is left of a text is what is left of its rest.
proof fn lemma_unblank_skip(s: Seq<char>, p: int, from: int)
    requires
        0 <= p,
        0 <= from,
        p + from <= s.len(),
    ensures
        unblank(s.skip(p), from) == unblank(s, p + from),
    decreases s.len() - p - from,
{
    if p + from < s.len() {
        lemma_unblank_skip(s, p, from + 1);
    }
}

/// The lexer loses nothing but blanks: the tokens of a text, written one
/// behind the other, are the text without its blanks.
pub proof fn lemma_tokenized_render(s: Seq<char>)
    requires
        tokenized(s) is Ok,
    ensures
        render(tokenized(s)->Ok_0) == unblank(s, 0),
    decreases s.len(),
{
    let step = scan(s, 0);
    let j = skip_blanks(s, 0);
    lemma_scan_advances(s, 0);
    lemma_skip_blanks(s, 0);
    lemma_unblank_blanks(s, 0, j);
    if j < s.len() {
        let t = step.item->Ok_0;
        let k = step.next;
        let rest = s.skip(k);
        lemma_tokenized_render(rest);
        lemma_unblank_skip(s, k, 0);
        let toks = seq![t] + tokenized(rest)->Ok_0;
        assert(toks.drop_first() =~= tokenized(rest)->Ok_0);
        if is_number_char(s[j]) {
            lemma_number_end(s, j);
        }
        assert(token_text(t) =~= s.subrange(j, k));
        lemma_unblank_run(s, j, k);
    }
}

/// Tokens that do not start with a number keep two runs separated when they
/// follow the first.
proof fn lemma_separated_concat(a: Seq<TokenView>, b: Seq<TokenView>)
    requires
        separated(a),
        separated(b),
        starts_plain(b),
    ensures
        separated(a + b),
{
    let ab = a + b;
    assert forall|i: int| 0 <= i && i + 1 < ab.len() && #[trigger] ab[i] is Number implies !(ab[i
        + 1] is Number) by {
        if i + 1 < a.len() {
            assert(ab[i] == a[i] && ab[i + 1] == a[i + 1]);
        } else if i < a.len() {
            assert(ab[i + 1] == b[0]);
        } else {
            assert(ab[i] == b[i - a.len()] && ab[i + 1] == b[i - a.len() + 1]);
        }
    }
}

/// A token that is no number keeps a run separated when it leads it.
proof fn lemma_separated_cons(t: TokenView, b: Seq<TokenView>)
    requires
        !(t is Number),
        separated(b),
    ensures
        separated(seq![t] + b),
{
    let tb = seq![t] + b;
    assert forall|i: int| 0 <= i && i + 1 < tb.len() && #[trigger] tb[i] is Number implies !(tb[i
        + 1] is Number) by {
        if i > 0 {
            assert(tb[i] == b[i - 1] && tb[i + 1] == b[i]);
        }
    }
}

/// In a valid operand no number is written directly behind a number.
proof fn lemma_unit_tokens_separated(u: Unit)
    requires
        unit_valid(u),
    ensures
        separated(unit_tokens(u)),
    decreases u,
{
    match u {
        Unit::Num(text) => {},
        Unit::Signed(op, text) => {},
        Unit::Group(c) => {
            lemma_chain_tokens_separated(*c);
            lemma_separated_cons(TokenView::OpenPh, chain_tokens(*c));
            lemma_separated_concat(
                seq![TokenView::OpenPh] + chain_tokens(*c),
                seq![TokenView::ClosePh],
            );
        },
    }
}

/// In a valid expression no number is written directly behind a number.
proof fn lemma_chain_tokens_separated(c: Chain)
    requires
        chain_valid(c),
    ensures
        separated(chain_tokens(c)),
    decreases c,
{
    lemma_unit_tokens_separated(c.first);
    lemma_links_tokens_separated(c.rest, 0);
    lemma_separated_concat(unit_tokens(c.first), links_tokens(c.rest, 0));
}

/// In valid links no number is written directly behind a number, and the
/// first token is an operator.
proof fn lemma_links_tokens_separated(ls: Seq<Link>, from: int)
    requires
        links_valid(ls, from),
    ensures
        separated(links_tokens(ls, from)),
        starts_plain(links_tokens(ls, from)),
    decreases ls, ls.len() - from,
{
    if 0 <= from < ls.len() {
        lemma_unit_tokens_separated(ls[from].unit);
        lemma_links_tokens_separated(ls, from + 1);
        lemma_separated_cons(op_token(ls[from].op), unit_tokens(ls[from].unit));
        lemma_separated_concat(
            seq![op_token(ls[from].op)] + unit_tokens(ls[from].unit),
            links_tokens(ls, from + 1),
        );
    }
}

/// Every valid expression whose numbers are decimal literals, written out
/// token by token, parses as the tree of that expression: the parser raises
/// no error on it.
pub proof fn lemma_written_expression_parses(c: Chain)
    requires
        chain_valid(c),
        literals_decimal(chain_tokens(c)),
    ensures
        parse_text(render(chain_tokens(c))) == Ok::<ExprView, CalErrorView>(chain_expr(c)),
{
    lemma_chain_tokens_no_end(c);
    lemma_chain_tokens_separated(c);
    lemma_render_tokenized(chain_tokens(c));
    lemma_valid_text_parses(render(chain_tokens(c)), c);
}

} // verus!
