use libcalcore::express::error::{CalError, LexerError};
use libcalcore::express::lexer::{tokenize, NUMBER_CHARS, OPERATOR_CHARS};
use libcalcore::express::number::Decimal;
use libcalcore::express::token::{get_token, parse_num, Token, NUMBER_STR, OPERATOR_STR};

fn number(text: &str) -> Token {
    Token::Number(Decimal::parse(text).unwrap())
}

#[test]
fn one_pass_gives_the_tokens_in_order() {
    assert_eq!(
        get_token("1+2*3/4+(1%4)^1.2"),
        Ok(vec![
            number("1"),
            Token::Plus,
            number("2"),
            Token::Multiply,
            number("3"),
            Token::Division,
            number("4"),
            Token::Plus,
            Token::OpenPh,
            number("1"),
            Token::Percent,
            number("4"),
            Token::ClosePh,
            Token::Exponential,
            number("1.2"),
        ])
    );
}

#[test]
fn one_pass_reports_the_first_error() {
    assert_eq!(get_token("1+2.2.2"), Err(LexerError::InvalidNumber(String::from("2.2.2"))));
    assert_eq!(get_token("1+2.2.2+x"), Err(LexerError::InvalidNumber(String::from("2.2.2"))));
    assert_eq!(get_token("1.2.3a"), Err(LexerError::InvalidNumber(String::from("1.2.3"))));
    assert_eq!(get_token("12a"), Err(LexerError::UnknowChar('a')));
    assert_eq!(get_token("a.."), Err(LexerError::UnknowChar('a')));
    assert_eq!(get_token("."), Err(LexerError::InvalidNumber(String::from("."))));
}

#[test]
fn one_pass_takes_blanks_for_separators() {
    assert_eq!(get_token(""), Ok(vec![]));
    assert_eq!(get_token(" \n "), Ok(vec![]));
    assert_eq!(get_token("1 2\n3"), Ok(vec![number("1"), number("2"), number("3")]));
    assert_eq!(get_token("( 7. )"), Ok(vec![Token::OpenPh, number("7."), Token::ClosePh]));
}

#[test]
fn one_pass_and_the_lexer_agree() {
    for text in [
        "",
        "1",
        "1+2",
        " 1 + 2 ",
        "1+2.2.2",
        "(1%4)^1.2",
        "1.2.3a",
        "a1.2.3",
        "..",
        "1..2 3",
        "7\n*\n8",
        "1\t2",
        ")(",
        "12345678901234567890",
    ] {
        let by_lexer = tokenize(text);
        let in_one_pass = get_token(text).map_err(CalError::LexError);
        assert_eq!(by_lexer, in_one_pass);
    }
}

#[test]
fn a_text_is_read_as_a_number() {
    assert_eq!(parse_num("1.2"), Ok(Decimal::parse("1.2").unwrap()));
    assert_eq!(parse_num("1.2").unwrap().as_str(), "1.2");
    assert_eq!(parse_num("1.2.3"), Err(LexerError::InvalidNumber(String::from("1.2.3"))));
    assert_eq!(parse_num(""), Err(LexerError::InvalidNumber(String::from(""))));
    assert_eq!(parse_num("+1"), Err(LexerError::InvalidNumber(String::from("+1"))));
}

#[test]
fn the_alphabet_is_what_the_lexer_accepts() {
    assert_eq!(NUMBER_CHARS, "0123456789.");
    assert_eq!(OPERATOR_CHARS, "()+-*/^% \n");
    assert_eq!(NUMBER_STR, NUMBER_CHARS);
    assert_eq!(OPERATOR_STR, OPERATOR_CHARS);
    for code in 0..256u32 {
        let c = char::from_u32(code).unwrap();
        let text = c.to_string();
        let known = NUMBER_CHARS.contains(c) || OPERATOR_CHARS.contains(c);
        match tokenize(&text) {
            Err(CalError::LexError(LexerError::UnknowChar(found))) => {
                assert!(!known);
                assert_eq!(found, c);
            }
            _ => assert!(known),
        }
    }
}

#[test]
fn tokens_written_one_behind_the_other_are_read_back() {
    let tokens = vec![
        Token::OpenPh,
        Token::Minus,
        number("3"),
        Token::Plus,
        number(".5"),
        Token::ClosePh,
        Token::Exponential,
        number("12."),
        Token::Percent,
        number("0"),
        Token::Division,
        Token::Multiply,
    ];
    assert_eq!(tokenize("(-3+.5)^12.%0/*"), Ok(tokens));
}

fn written(token: &Token) -> String {
    match token {
        Token::OpenPh => String::from("("),
        Token::ClosePh => String::from(")"),
        Token::Plus => String::from("+"),
        Token::Minus => String::from("-"),
        Token::Multiply => String::from("*"),
        Token::Division => String::from("/"),
        Token::Exponential => String::from("^"),
        Token::Percent => String::from("%"),
        Token::Number(literal) => String::from(literal.as_str()),
        Token::EOF => String::new(),
    }
}

#[test]
fn the_tokens_are_the_text_without_its_blanks() {
    for text in ["", " ", "1 2", " ( 1.5\n+ .25 ) ^ 2 % 7 ", "1+2*3/4+(1%4)^1.2", "))  ((", "- - 1"] {
        let tokens = tokenize(text).unwrap();
        let joined: String = tokens.iter().map(written).collect();
        let bare: String = text.chars().filter(|c| *c != ' ' && *c != '\n').collect();
        assert_eq!(joined, bare);
    }
}
