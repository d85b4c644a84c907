use libcalcore::express::error::{CalError, CalculateError, LexerError};
use libcalcore::express::lexer::Token;
use libcalcore::express::number::Decimal;
use libcalcore::express::parser::lookahead::{BinOp, Expr, LookAhead, UnaryOp};
use libcalcore::express::parser::OpSymbol;

fn num(text: &str) -> Expr {
    Expr::Num(Decimal::parse(text).unwrap())
}

fn bin(op: OpSymbol, lhs: Expr, rhs: Expr) -> Expr {
    Expr::BinOp(Box::new(BinOp { op, lhs, rhs }))
}

fn signed(op: OpSymbol, num: Expr) -> Expr {
    Expr::UnaryOp(Box::new(UnaryOp { op, num }))
}

fn parse(text: &str) -> Result<Expr, CalError> {
    LookAhead::try_from(text)?.parse_expr()
}

fn syntax_error(text: &str) -> String {
    match parse(text) {
        Err(CalError::SyntaxError(msg)) => msg,
        other => panic!("no syntax error: {:?}", other),
    }
}

/// The value of a tree in double precision.
fn value(expr: &Expr) -> Result<f64, CalculateError> {
    match expr {
        Expr::Num(n) => Ok(n.as_str().parse::<f64>().unwrap()),
        Expr::UnaryOp(uo) => match uo.op {
            OpSymbol::Add => value(&uo.num),
            OpSymbol::Subtract => Ok(-value(&uo.num)?),
            _ => Err(CalculateError),
        },
        Expr::BinOp(bo) => {
            let lhv = value(&bo.lhs)?;
            let rhv = value(&bo.rhs)?;
            match bo.op {
                OpSymbol::Add => Ok(lhv + rhv),
                OpSymbol::Subtract => Ok(lhv - rhv),
                OpSymbol::Multiply => Ok(lhv * rhv),
                OpSymbol::Divide => Ok(lhv / rhv),
                OpSymbol::Mod => Ok(lhv % rhv),
                OpSymbol::Caret => Ok(lhv.powf(rhv)),
                _ => Err(CalculateError),
            }
        }
    }
}

/// The value of a text, snapped to eight decimals.
fn evaluate(text: &str) -> f64 {
    let ast = parse(text).unwrap();
    assert_eq!(ast.validate(), Ok(()));
    let precision = 10_i32.pow(8) as f64;
    (value(&ast).unwrap() * precision).round() / precision
}

#[test]
fn test_lookahead_parser() {
    let mut parser = LookAhead::try_from("1+2/3*4+(1%4)^1.2").unwrap();
    let ast = parser.parse_expr().unwrap();

    assert!(
        f64::abs(value(&ast).unwrap() - (1.0 + 2.0 / 3.0 * 4.0 + f64::powf(1.0 % 4.0, 1.2)))
            < f64::EPSILON
    )
}

#[test]
fn the_sample_expression_rounds_to_eight_decimals() {
    assert_eq!(evaluate("1+2/3*4+(1%4)^1.2"), 4.66666667);
}

#[test]
fn the_sample_expression_has_this_tree() {
    let tree = bin(
        OpSymbol::Add,
        bin(
            OpSymbol::Add,
            num("1"),
            bin(OpSymbol::Multiply, bin(OpSymbol::Divide, num("2"), num("3")), num("4")),
        ),
        bin(OpSymbol::Caret, bin(OpSymbol::Mod, num("1"), num("4")), num("1.2")),
    );
    assert_eq!(parse("1+2/3*4+(1%4)^1.2"), Ok(tree));
}

#[test]
fn a_missing_closing_parenthesis_is_reported() {
    assert_eq!(syntax_error("(1+2"), "Expect ')', get 'EOF'");
    assert_eq!(syntax_error("(1 2)"), "Expect ')', get 'Number(2)'");
}

#[test]
fn unary_minus_binds_to_the_literal_only() {
    assert_eq!(
        parse("-3+4"),
        Ok(bin(OpSymbol::Add, signed(OpSymbol::Subtract, num("3")), num("4")))
    );
    assert_eq!(evaluate("-3+4"), 1.0);
    assert_eq!(evaluate("2*-3"), -6.0);
    assert_eq!(evaluate("2--3"), 5.0);
    assert_eq!(evaluate("+3"), 3.0);
}

#[test]
fn a_sign_needs_a_number_behind_it() {
    assert_eq!(syntax_error("-(1+2)"), "Expect {number}, get 'OpenPh'");
    assert_eq!(syntax_error("--3"), "Expect {number}, get 'Minus'");
    assert_eq!(syntax_error("-"), "Expect {number}, get 'EOF'");
}

#[test]
fn stronger_operators_bind_first() {
    assert_eq!(
        parse("2+3*4"),
        Ok(bin(OpSymbol::Add, num("2"), bin(OpSymbol::Multiply, num("3"), num("4"))))
    );
    assert_eq!(
        parse("2*3+4"),
        Ok(bin(OpSymbol::Add, bin(OpSymbol::Multiply, num("2"), num("3")), num("4")))
    );
    assert_eq!(evaluate("2+3*4"), 14.0);
    assert_eq!(evaluate("2*3+4"), 10.0);
    assert_eq!(evaluate("2+3*4^2"), 50.0);
    assert_eq!(evaluate("2^2*3+1"), 13.0);
    assert_eq!(evaluate("(2+3)*4"), 20.0);
}

#[test]
fn equal_operators_group_from_the_left() {
    assert_eq!(
        parse("2^3^2"),
        Ok(bin(OpSymbol::Caret, bin(OpSymbol::Caret, num("2"), num("3")), num("2")))
    );
    assert_eq!(evaluate("2^3^2"), 64.0);
    assert_eq!(evaluate("8-3-2"), 3.0);
    assert_eq!(evaluate("8/4/2"), 1.0);
    assert_eq!(evaluate("7%4*2"), 6.0);
}

#[test]
fn division_by_zero_is_no_error() {
    assert_eq!(evaluate("5/0"), f64::INFINITY);
    assert!(evaluate("5%0").is_nan());
    assert!(evaluate("(0-8)^0.5").is_nan());
}

#[test]
fn the_same_text_gives_the_same_tree_and_value() {
    for text in ["1+2/3*4+(1%4)^1.2", "-3+4", "2^3^2", "5/0", "((1))"] {
        assert_eq!(parse(text), parse(text));
        assert_eq!(evaluate(text).to_bits(), evaluate(text).to_bits());
    }
}

#[test]
fn valid_expressions_never_fail() {
    for text in [
        "1",
        "+1",
        "-1.5",
        "(1)",
        "((1))",
        "1+2",
        "1 + 2 * 3 - 4 / 5 % 6 ^ 7",
        "(1+2)*(3-4)",
        "1^2*3+4",
        "1+2*3^4",
        "2*-3",
        "(((1+2)*3)^(4%5))/6",
        ".5+7.",
    ] {
        let tree = parse(text).unwrap();
        assert_eq!(tree.validate(), Ok(()));
    }
}

#[test]
fn unexpected_tokens_are_named() {
    assert_eq!(syntax_error(""), "Unrecognized token 'EOF'");
    assert_eq!(syntax_error("1+"), "Unrecognized token 'EOF'");
    assert_eq!(syntax_error("*2"), "Unrecognized token 'Multiply'");
    assert_eq!(syntax_error("1+)"), "Unrecognized token 'ClosePh'");
    assert_eq!(syntax_error("()"), "Unrecognized token 'ClosePh'");
    assert_eq!(syntax_error("(1+"), "Unrecognized token 'EOF'");
}

#[test]
fn lexical_errors_pass_through_the_parser() {
    assert_eq!(parse("1+2.2.2"), Err(CalError::LexError(LexerError::InvalidNumber(String::from("2.2.2")))));
    assert_eq!(parse("1+2$"), Err(CalError::LexError(LexerError::UnknowChar('$'))));
    assert_eq!(parse("(a)"), Err(CalError::LexError(LexerError::UnknowChar('a'))));
    assert!(LookAhead::try_from("?").is_err());
}

#[test]
fn what_follows_an_expression_is_left_alone() {
    let mut parser = LookAhead::try_from("1 2 $").unwrap();
    assert_eq!(parser.parse_expr(), Ok(num("1")));
    assert_eq!(parser.peek(), &Token::Number(Decimal::parse("2").unwrap()));
    let mut parser = LookAhead::new("1+2)".chars().collect()).unwrap();
    assert_eq!(parser.parse_expr(), Ok(bin(OpSymbol::Add, num("1"), num("2"))));
    assert_eq!(parser.peek(), &Token::ClosePh);
    assert_eq!(parser.pop(), Ok(Token::ClosePh));
    assert_eq!(parser.pop(), Ok(Token::EOF));
    assert_eq!(parser.pop(), Ok(Token::EOF));
}

#[test]
fn the_steps_of_the_parser_can_be_taken_alone() {
    let mut parser = LookAhead::try_from("4 -5 (6) 7").unwrap();
    assert_eq!(parser.parse_num(), Ok(num("4")));
    assert_eq!(parser.parse_unary(), Ok(signed(OpSymbol::Subtract, num("5"))));
    assert_eq!(parser.parse_ph(), Ok(num("6")));
    assert_eq!(parser.parse_unit(), Ok(num("7")));
    assert_eq!(
        parser.parse_unary(),
        Err(CalError::SyntaxError(String::from("Expect '+' or '-', get 'EOF'")))
    );
    assert_eq!(
        parser.parse_ph(),
        Err(CalError::SyntaxError(String::from("Unrecognized token 'EOF'")))
    );
}

#[test]
fn a_tree_with_a_misplaced_operator_has_no_value() {
    let bad_sign = signed(OpSymbol::Multiply, num("1"));
    assert_eq!(bad_sign.validate(), Err(CalculateError));
    assert_eq!(value(&bad_sign), Err(CalculateError));
    let bad_join = bin(OpSymbol::Unknown, num("1"), num("2"));
    assert_eq!(bad_join.validate(), Err(CalculateError));
    assert_eq!(value(&bad_join), Err(CalculateError));
    let deep = bin(OpSymbol::Add, num("1"), signed(OpSymbol::Unknown, num("2")));
    assert_eq!(deep.validate(), Err(CalculateError));
    assert_eq!(OpSymbol::from(Token::Percent), OpSymbol::Mod);
    assert_eq!(OpSymbol::from(Token::EOF), OpSymbol::Unknown);
}
