//! The precedence-climbing parser, which looks one token ahead.
//!
//! The grammar has three kinds of unit: a number, a number with a sign in
//! front of it, and an expression in parentheses. An expression is a unit
//! followed by any number of binary operators, each with a unit behind it. A
//! sign binds to the one number behind it and to nothing else. Of the binary
//! operators `^` binds most strongly (15), then `*`, `/` and `%` (10), then `+`
//! and `-` (5); operators that bind equally group from the left, `^` too. The
//! parser reads one expression and leaves alone what follows it. The first
//! error ends the parse: the parser does not recover.
//!
//! The functions of the parser are modelled by functions of the same names
//! on [`Input`], the model of a parser between two steps. Each of those says
//! what the step yields and in which state it leaves the parser, on success
//! and on failure. What the parser makes of a well-written expression is
//! stated in [`crate::express::parser::grammar`].
//!
//! The parser calls itself once for each level of parentheses and once more
//! where a stronger operator follows a weaker one, so the depth of its calls
//! grows with the depth of the expression.

use vstd::prelude::*;
use vstd::string::StringExecFns;
use crate::express::error::{CalError, CalErrorView, CalculateError, result_view};
use crate::express::lexer::{Lexer, Token, TokenView, chars_of, lemma_scan_advances, scan};
use crate::express::number::Decimal;
use crate::express::parser::{OpSymbol, op_symbol};

verus! {

/// Mathematical model of a syntax tree: a number is the text of its literal.
pub enum ExprView {
    Num(Seq<char>),
    UnaryOp(OpSymbol, Box<ExprView>),
    BinOp(OpSymbol, Box<ExprView>, Box<ExprView>),
}

/// What the lexer will answer on a text, call by call, until it reports the
/// end; after that it reports the end for ever.
pub open spec fn pending(s: Seq<char>) -> Seq<Result<TokenView, CalErrorView>>
    decreases s.len(),
{
    let step = scan(s, 0);
    if step.item == Ok::<TokenView, CalErrorView>(TokenView::EOF) {
        Seq::empty()
    } else {
        proof {
            lemma_scan_advances(s, 0);
        }
        seq![step.item] + pending(s.skip(step.next))
    }
}

/// Model of a parser between two steps: the token it looks at and the answers
/// of the lexer that are still to come.
pub struct Input {
    pub peek: TokenView,
    pub rest: Seq<Result<TokenView, CalErrorView>>,
}

/// A result of one parsing step together with the state the parser is left in.
pub struct Parsed<T> {
    pub out: Result<T, CalErrorView>,
    pub input: Input,
}

/// How strongly a token binds as a binary operator; -1 for a token that is
/// none.
pub open spec fn precedence(t: TokenView) -> int {
    match t {
        TokenView::Plus | TokenView::Minus => 5,
        TokenView::Multiply | TokenView::Division | TokenView::Percent => 10,
        TokenView::Exponential => 15,
        _ => -1,
    }
}

impl Input {
    /// A bound on the steps that are left: the tokens still to come, the one
    /// looked at included.
    pub open spec fn weight(self) -> nat {
        if self.peek is EOF {
            self.rest.len()
        } else {
            self.rest.len() + 1
        }
    }
}

/// A step that failed with `e` and left the parser in `input`.
pub open spec fn failed<T>(e: CalErrorView, input: Input) -> Parsed<T> {
    Parsed { out: Err(e), input }
}

/// A step that failed on the unexpected token whose diagnostic is `msg`.
pub open spec fn refused<T>(msg: Seq<char>, input: Input) -> Parsed<T> {
    Parsed { out: Err(CalErrorView::SyntaxError(msg)), input }
}

/// Takes the token looked at and looks at the next one. At the end of the
/// text the parser keeps looking at the end. When the lexer fails, the token
/// looked at stays and the failed answer is used up.
pub open spec fn pop(input: Input) -> Parsed<TokenView> {
    if input.rest.len() == 0 {
        Parsed { out: Ok(input.peek), input: Input { peek: TokenView::EOF, rest: input.rest } }
    } else {
        match input.rest[0] {
            Ok(t) => Parsed {
                out: Ok(input.peek),
                input: Input { peek: t, rest: input.rest.drop_first() },
            },
            Err(e) => failed(e, Input { peek: input.peek, rest: input.rest.drop_first() }),
        }
    }
}

/// A number: the token looked at must be one.
pub open spec fn parse_num(input: Input) -> Parsed<ExprView> {
    let p = pop(input);
    match p.out {
        Err(e) => failed(e, p.input),
        Ok(TokenView::Number(text)) => Parsed { out: Ok(ExprView::Num(text)), input: p.input },
        Ok(t) => refused("Expect {number}, get '"@ + t.describe() + "'"@, p.input),
    }
}

/// A sign and the number behind it.
pub open spec fn parse_unary(input: Input) -> Parsed<ExprView> {
    let p = pop(input);
    match p.out {
        Err(e) => failed(e, p.input),
        Ok(t) => if t is Plus || t is Minus {
            let n = parse_num(p.input);
            match n.out {
                Err(e) => failed(e, n.input),
                Ok(num) => Parsed {
                    out: Ok(ExprView::UnaryOp(op_symbol(t), Box::new(num))),
                    input: n.input,
                },
            }
        } else {
            refused("Expect '+' or '-', get '"@ + t.describe() + "'"@, p.input)
        },
    }
}

/// A unit: a number, a signed number, or an expression in parentheses.
pub open spec fn parse_unit(input: Input) -> Parsed<ExprView>
    decreases input.weight(), 2int,
{
    match input.peek {
        TokenView::Number(_) => parse_num(input),
        TokenView::Plus | TokenView::Minus => parse_unary(input),
        TokenView::OpenPh => parse_ph(input),
        t => refused("Unrecognized token '"@ + t.describe() + "'"@, input),
    }
}

/// An expression in parentheses; the token looked at is taken for the
/// opening one.
pub open spec fn parse_ph(input: Input) -> Parsed<ExprView>
    decreases pop(input).input.weight(), 4int,
{
    let p = pop(input);
    match p.out {
        Err(e) => failed(e, p.input),
        Ok(_) => {
            let inner = parse_expr(p.input);
            match inner.out {
                Err(e) => failed(e, inner.input),
                Ok(expr) => {
                    let close = pop(inner.input);
                    match close.out {
                        Err(e) => failed(e, close.input),
                        Ok(TokenView::ClosePh) => Parsed { out: Ok(expr), input: close.input },
                        Ok(t) => refused("Expect ')', get '"@ + t.describe() + "'"@, close.input),
                    }
                },
            }
        },
    }
}

/// An expression: a unit, and the operators and units that follow it.
///
/// A unit never adds to what is left ([`lemma_unit_weight`]), so the test on
/// the weights always holds; it is there for the definition to end.
pub open spec fn parse_expr(input: Input) -> Parsed<ExprView>
    decreases input.weight(), 3int,
{
    let first = parse_unit(input);
    match first.out {
        Err(e) => failed(e, first.input),
        Ok(lhs) => if first.input.weight() <= input.weight() {
            parse_binop(first.input, 0, lhs)
        } else {
            first
        },
    }
}

/// The operators that bind at least as strongly as `min_prec`, each with its
/// right-hand side, folded onto `lhs` from the left. A right-hand side is a
/// unit, together with what follows it under operators that bind more
/// strongly than the one before it.
///
/// Neither a unit nor a run of operators adds to what is left
/// ([`lemma_unit_weight`], [`lemma_binop_weight`]), so the tests on the
/// weights always hold; they are there for the definition to end.
pub open spec fn parse_binop(input: Input, min_prec: nat, lhs: ExprView) -> Parsed<ExprView>
    decreases input.weight(), 1int,
{
    let tok_prec = precedence(input.peek);
    if tok_prec < min_prec {
        Parsed { out: Ok(lhs), input }
    } else {
        let p = pop(input);
        match p.out {
            Err(e) => failed(e, p.input),
            Ok(t) => {
                let unit = parse_unit(p.input);
                match unit.out {
                    Err(e) => failed(e, unit.input),
                    Ok(rhs) => if unit.input.weight() <= p.input.weight() {
                        let right = if tok_prec < precedence(unit.input.peek) {
                            parse_binop(unit.input, (tok_prec + 1) as nat, rhs)
                        } else {
                            Parsed { out: Ok(rhs), input: unit.input }
                        };
                        match right.out {
                            Err(e) => failed(e, right.input),
                            Ok(rhs) => if right.input.weight() <= unit.input.weight() {
                                parse_binop(
                                    right.input,
                                    min_prec,
                                    ExprView::BinOp(op_symbol(t), Box::new(lhs), Box::new(rhs)),
                                )
                            } else {
                                right
                            },
                        }
                    } else {
                        unit
                    },
                }
            },
        }
    }
}

/// Taking a token never adds to what is left.
pub proof fn lemma_pop_weight(input: Input)
    ensures
        pop(input).input.weight() <= input.weight(),
        !(input.peek is EOF) ==> pop(input).input.weight() < input.weight(),
{
}

/// A unit never adds to what is left.
pub proof fn lemma_unit_weight(input: Input)
    ensures
        parse_unit(input).input.weight() <= input.weight(),
    decreases input.weight(), 2int,
{
    lemma_pop_weight(input);
    lemma_pop_weight(pop(input).input);
    if input.peek is OpenPh {
        lemma_ph_weight(input);
    }
}

/// An expression in parentheses never adds to what is left.
pub proof fn lemma_ph_weight(input: Input)
    ensures
        parse_ph(input).input.weight() <= input.weight(),
    decreases pop(input).input.weight(), 4int,
{
    let p = pop(input);
    lemma_pop_weight(input);
    if p.out is Ok {
        lemma_expr_weight(p.input);
        lemma_pop_weight(parse_expr(p.input).input);
    }
}

/// An expression never adds to what is left.
pub proof fn lemma_expr_weight(input: Input)
    ensures
        parse_expr(input).input.weight() <= input.weight(),
    decreases input.weight(), 3int,
{
    lemma_unit_weight(input);
    let first = parse_unit(input);
    if let Ok(lhs) = first.out {
        lemma_binop_weight(first.input, 0, lhs);
    }
}

/// A run of operators and right-hand sides never adds to what is left.
pub proof fn lemma_binop_weight(input: Input, min_prec: nat, lhs: ExprView)
    ensures
        parse_binop(input, min_prec, lhs).input.weight() <= input.weight(),
    decreases input.weight(), 1int,
{
    let tok_prec = precedence(input.peek);
    if tok_prec >= min_prec {
        let p = pop(input);
        lemma_pop_weight(input);
        if let Ok(t) = p.out {
            let unit = parse_unit(p.input);
            lemma_unit_weight(p.input);
            if let Ok(rhs) = unit.out {
                if tok_prec < precedence(unit.input.peek) {
                    lemma_binop_weight(unit.input, (tok_prec + 1) as nat, rhs);
                }
                let right = if tok_prec < precedence(unit.input.peek) {
                    parse_binop(unit.input, (tok_prec + 1) as nat, rhs)
                } else {
                    Parsed { out: Ok(rhs), input: unit.input }
                };
                if let Ok(rhs) = right.out {
                    lemma_binop_weight(
                        right.input,
                        min_prec,
                        ExprView::BinOp(op_symbol(t), Box::new(lhs), Box::new(rhs)),
                    );
                }
            }
        }
    }
}

/// A unit that the parser reads denotes a value.
pub proof fn lemma_unit_evaluable(input: Input)
    ensures
        parse_unit(input).out matches Ok(e) ==> e.evaluable(),
    decreases input.weight(), 2int,
{
    lemma_pop_weight(input);
    if input.peek is OpenPh {
        lemma_ph_evaluable(input);
    } else if input.peek is Plus || input.peek is Minus {
        if let Ok(e) = parse_unary(input).out {
            let num = parse_num(pop(input).input).out->Ok_0;
            assert(num.evaluable());
            assert(e == ExprView::UnaryOp(op_symbol(pop(input).out->Ok_0), Box::new(num)));
        }
    }
}

/// An expression in parentheses that the parser reads denotes a value.
pub proof fn lemma_ph_evaluable(input: Input)
    ensures
        parse_ph(input).out matches Ok(e) ==> e.evaluable(),
    decreases pop(input).input.weight(), 4int,
{
    let p = pop(input);
    if p.out is Ok {
        lemma_expr_evaluable(p.input);
    }
}

/// An expression that the parser reads denotes a value: no tree that the
/// parser builds holds an operator where that operator has no meaning.
pub proof fn lemma_expr_evaluable(input: Input)
    ensures
        parse_expr(input).out matches Ok(e) ==> e.evaluable(),
    decreases input.weight(), 3int,
{
    lemma_unit_evaluable(input);
    lemma_unit_weight(input);
    let first = parse_unit(input);
    if let Ok(lhs) = first.out {
        lemma_binop_evaluable(first.input, 0, lhs);
    }
}

/// Operators and right-hand sides that the parser folds onto a tree that
/// denotes a value leave a tree that denotes a value.
pub proof fn lemma_binop_evaluable(input: Input, min_prec: nat, lhs: ExprView)
    requires
        lhs.evaluable(),
    ensures
        parse_binop(input, min_prec, lhs).out matches Ok(e) ==> e.evaluable(),
    decreases input.weight(), 1int,
{
    let tok_prec = precedence(input.peek);
    if tok_prec >= min_prec {
        let p = pop(input);
        lemma_pop_weight(input);
        if let Ok(t) = p.out {
            let unit = parse_unit(p.input);
            lemma_unit_weight(p.input);
            lemma_unit_evaluable(p.input);
            if let Ok(rhs) = unit.out {
                if tok_prec < precedence(unit.input.peek) {
                    lemma_binop_weight(unit.input, (tok_prec + 1) as nat, rhs);
                    lemma_binop_evaluable(unit.input, (tok_prec + 1) as nat, rhs);
                }
                let right = if tok_prec < precedence(unit.input.peek) {
                    parse_binop(unit.input, (tok_prec + 1) as nat, rhs)
                } else {
                    Parsed { out: Ok(rhs), input: unit.input }
                };
                if let Ok(rhs) = right.out {
                    lemma_binop_evaluable(
                        right.input,
                        min_prec,
                        ExprView::BinOp(op_symbol(t), Box::new(lhs), Box::new(rhs)),
                    );
                }
            }
        }
    }
}

/// A syntax tree.
#[derive(Debug, PartialEq)]
pub enum Expr {
    /// A number, as its literal was written.
    Num(Decimal),
    /// A signed number.
    UnaryOp(Box<UnaryOp>),
    /// Two expressions joined by a binary operator.
    BinOp(Box<BinOp>),
}

/// A sign in front of an expression.
#[derive(Debug, PartialEq)]
pub struct UnaryOp {
    pub op: OpSymbol,
    pub num: Expr,
}

/// A binary operator between its two operands.
#[derive(Debug, PartialEq)]
pub struct BinOp {
    pub op: OpSymbol,
    pub lhs: Expr,
    pub rhs: Expr,
}

impl View for Expr {
    type V = ExprView;

    open spec fn view(&self) -> ExprView
        decreases self,
    {
        match self {
            Expr::Num(d) => ExprView::Num(d@),
            Expr::UnaryOp(u) => ExprView::UnaryOp(u.op, Box::new(u.num@)),
            Expr::BinOp(b) => ExprView::BinOp(b.op, Box::new(b.lhs@), Box::new(b.rhs@)),
        }
    }
}

impl ExprView {
    /// The tree denotes a value: every sign is a plus or a minus, and every
    /// binary operator is one of the six.
    pub open spec fn evaluable(self) -> bool
        decreases self,
    {
        match self {
            ExprView::Num(_) => true,
            ExprView::UnaryOp(op, num) => (op is Add || op is Subtract) && num.evaluable(),
            ExprView::BinOp(op, lhs, rhs) => !(op is Unknown) && lhs.evaluable()
                && rhs.evaluable(),
        }
    }
}

impl Expr {
    /// Checks that the tree denotes a value, which every tree that the
    /// parser builds does.
    pub fn validate(&self) -> (r: Result<(), CalculateError>)
        ensures
            r is Ok <==> self@.evaluable(),
        decreases self,
    {
        match self {
            Expr::Num(_) => Ok(()),
            Expr::UnaryOp(u) => match u.op {
                OpSymbol::Add | OpSymbol::Subtract => u.num.validate(),
                _ => Err(CalculateError),
            },
            Expr::BinOp(b) => {
                match b.lhs.validate() {
                    Ok(()) => {},
                    Err(e) => {
                        return Err(e);
                    },
                }
                match b.rhs.validate() {
                    Ok(()) => {},
                    Err(e) => {
                        return Err(e);
                    },
                }
                match b.op {
                    OpSymbol::Unknown => Err(CalculateError),
                    _ => Ok(()),
                }
            },
        }
    }
}

/// How strongly a token binds as a binary operator.
fn get_tok_prec(token: &Token) -> (r: i8)
    ensures
        r == precedence(token@),
{
    match token {
        Token::Plus | Token::Minus => 5,
        Token::Multiply | Token::Division | Token::Percent => 10,
        Token::Exponential => 15,
        _ => -1,
    }
}

/// The parser: the token it looks at, and the lexer behind it.
pub struct LookAhead {
    peek: Token,
    lexer: Lexer,
}

impl View for LookAhead {
    type V = Input;

    closed spec fn view(&self) -> Input {
        Input { peek: self.peek@, rest: pending(self.lexer@) }
    }
}

/// The state of a parser that has just been set on a text: it looks at the
/// first token. Setting it fails when the lexer fails on that token.
pub open spec fn start(s: Seq<char>) -> Result<Input, CalErrorView> {
    let step = scan(s, 0);
    match step.item {
        Ok(t) => Ok(Input { peek: t, rest: pending(s.skip(step.next)) }),
        Err(e) => Err(e),
    }
}

/// The tree of the expression that a text starts with, or the first error on
/// the way to it.
pub open spec fn parse_text(s: Seq<char>) -> Result<ExprView, CalErrorView> {
    match start(s) {
        Ok(input) => parse_expr(input).out,
        Err(e) => Err(e),
    }
}

/// Parses the expression that the text `express` starts with.
pub fn parse_express(express: &str) -> (r: Result<Expr, CalError>)
    ensures
        result_view(r) == parse_text(express@),
{
    match LookAhead::try_from(express) {
        Ok(parser) => {
            let mut parser = parser;
            parser.parse_expr()
        },
        Err(e) => Err(e),
    }
}

impl LookAhead {
    /// A parser on the text `chars`.
    pub fn new(chars: Vec<char>) -> (r: Result<Self, CalError>)
        ensures
            result_view(r) == start(chars@),
    {
        let mut lexer = Lexer::new(chars);
        proof {
            lemma_scan_advances(lexer@, 0);
        }
        match lexer.read() {
            Ok(peek) => Ok(LookAhead { peek, lexer }),
            Err(e) => Err(e),
        }
    }

    /// The token that the parser looks at.
    pub fn peek(&self) -> (t: &Token)
        ensures
            t@ == self@.peek,
    {
        &self.peek
    }

    /// Takes the token looked at and reads the next one.
    pub fn pop(&mut self) -> (r: Result<Token, CalError>)
        ensures
            result_view(r) == pop(old(self)@).out,
            final(self)@ == pop(old(self)@).input,
    {
        proof {
            lemma_scan_advances(self.lexer@, 0);
        }
        let ghost before = pending(self.lexer@);
        match self.lexer.read() {
            Ok(next) => {
                let mut token = next;
                std::mem::swap(&mut self.peek, &mut token);
                proof {
                    if before.len() > 0 {
                        assert(before.drop_first() =~= pending(self.lexer@));
                    }
                }
                Ok(token)
            },
            Err(e) => {
                assert(before.drop_first() =~= pending(self.lexer@));
                Err(e)
            },
        }
    }
}

impl<'a> TryFrom<&'a str> for LookAhead {
    type Error = CalError;

    /// A parser on the text `value`.
    fn try_from(value: &'a str) -> (r: Result<Self, CalError>)
        ensures
            result_view(r) == start(value@),
    {
        LookAhead::new(chars_of(value))
    }
}

impl<'a> vstd::std_specs::convert::TryFromSpecImpl<&'a str> for LookAhead {
    open spec fn obeys_try_from_spec() -> bool {
        false
    }

    open spec fn try_from_spec(v: &'a str) -> Result<Self, CalError> {
        arbitrary()
    }
}

/// The diagnostic for the token `token`, met where `lead` says what was
/// expected.
fn unexpected<T>(lead: &str, token: &Token) -> (r: Result<T, CalError>)
    ensures
        r matches Err(e) && e@ == CalErrorView::SyntaxError(lead@ + token@.describe() + "'"@),
{
    let mut msg = String::from_str(lead);
    let name = token.describe();
    msg.append(name.as_str());
    msg.append("'");
    CalError::syn(msg.as_str())
}

impl LookAhead {
    /// Parses an expression: a unit, and the operators and units that follow
    /// it, grouped by how strongly the operators bind; operators that bind
    /// equally group from the left.
    pub fn parse_expr(&mut self) -> (r: Result<Expr, CalError>)
        ensures
            result_view(r) == parse_expr(old(self)@).out,
            final(self)@ == parse_expr(old(self)@).input,
        decreases old(self)@.weight(), 3int,
    {
        proof {
            lemma_unit_weight(self@);
        }
        match self.parse_unit() {
            Ok(lhs) => self.parse_binop(0, lhs),
            Err(e) => Err(e),
        }
    }

    fn parse_binop(&mut self, expr_prec: i8, lhs: Expr) -> (r: Result<Expr, CalError>)
        requires
            expr_prec >= 0,
        ensures
            result_view(r) == parse_binop(old(self)@, expr_prec as nat, lhs@).out,
            final(self)@ == parse_binop(old(self)@, expr_prec as nat, lhs@).input,
        decreases old(self)@.weight(), 1int,
    {
        let mut acc = lhs;
        loop
            invariant
                expr_prec >= 0,
                self@.weight() <= old(self)@.weight(),
                parse_binop(self@, expr_prec as nat, acc@) == parse_binop(
                    old(self)@,
                    expr_prec as nat,
                    lhs@,
                ),
            decreases self@.weight(),
        {
            let ghost before = self@;
            let tok_prec = get_tok_prec(self.peek());
            if tok_prec < expr_prec {
                return Ok(acc);
            }
            proof {
                lemma_pop_weight(before);
                lemma_unit_weight(pop(before).input);
            }
            let op = match self.pop() {
                Ok(token) => OpSymbol::from(token),
                Err(e) => {
                    return Err(e);
                },
            };
            let mut rhs = match self.parse_unit() {
                Ok(unit) => unit,
                Err(e) => {
                    return Err(e);
                },
            };
            let ghost after_unit = self@;
            let next_prec = get_tok_prec(self.peek());
            if tok_prec < next_prec {
                proof {
                    lemma_binop_weight(after_unit, (tok_prec + 1) as nat, rhs@);
                }
                rhs = match self.parse_binop(tok_prec + 1, rhs) {
                    Ok(right) => right,
                    Err(e) => {
                        return Err(e);
                    },
                };
            }
            acc = Expr::BinOp(Box::new(BinOp { op, lhs: acc, rhs }));
        }
    }

    /// Parses a unit: a number, a signed number, or an expression in
    /// parentheses.
    pub fn parse_unit(&mut self) -> (r: Result<Expr, CalError>)
        ensures
            result_view(r) == parse_unit(old(self)@).out,
            final(self)@ == parse_unit(old(self)@).input,
        decreases old(self)@.weight(), 2int,
    {
        proof {
            lemma_pop_weight(self@);
        }
        match self.peek() {
            Token::Number(_) => self.parse_num(),
            Token::Plus | Token::Minus => self.parse_unary(),
            Token::OpenPh => self.parse_ph(),
            token => unexpected("Unrecognized token '", token),
        }
    }

    /// Parses a number.
    pub fn parse_num(&mut self) -> (r: Result<Expr, CalError>)
        ensures
            result_view(r) == parse_num(old(self)@).out,
            final(self)@ == parse_num(old(self)@).input,
    {
        match self.pop() {
            Ok(Token::Number(n)) => Ok(Expr::Num(n)),
            Ok(token) => unexpected("Expect {number}, get '", &token),
            Err(e) => Err(e),
        }
    }

    /// Parses a sign and the number behind it.
    pub fn parse_unary(&mut self) -> (r: Result<Expr, CalError>)
        ensures
            result_view(r) == parse_unary(old(self)@).out,
            final(self)@ == parse_unary(old(self)@).input,
    {
        let op = match self.pop() {
            Ok(Token::Plus) => OpSymbol::Add,
            Ok(Token::Minus) => OpSymbol::Subtract,
            Ok(token) => {
                return unexpected("Expect '+' or '-', get '", &token);
            },
            Err(e) => {
                return Err(e);
            },
        };
        match self.parse_num() {
            Ok(num) => Ok(Expr::UnaryOp(Box::new(UnaryOp { op, num }))),
            Err(e) => Err(e),
        }
    }

    /// Parses an expression in parentheses. The token looked at is taken for
    /// the opening parenthesis, whatever it is.
    pub fn parse_ph(&mut self) -> (r: Result<Expr, CalError>)
        ensures
            result_view(r) == parse_ph(old(self)@).out,
            final(self)@ == parse_ph(old(self)@).input,
        decreases pop(old(self)@).input.weight(), 4int,
    {
        match self.pop() {
            Ok(_) => {},
            Err(e) => {
                return Err(e);
            },
        }
        let expr = match self.parse_expr() {
            Ok(expr) => expr,
            Err(e) => {
                return Err(e);
            },
        };
        match self.pop() {
            Ok(Token::ClosePh) => Ok(expr),
            Ok(token) => unexpected("Expect ')', get '", &token),
            Err(e) => Err(e),
        }
    }
}

} // verus!
