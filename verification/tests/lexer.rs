use libcalcore::express::error::{CalError, LexerError};
use libcalcore::express::lexer::{tokenize, Lexer, Token};
use libcalcore::express::number::Decimal;

fn number(text: &str) -> Token {
    Token::Number(Decimal::parse(text).unwrap())
}

#[test]
fn test_token() {
    let valid_express = "1+2*3/4+(1%4)^1.2";
    let invalid_express = "1+2.2.2";

    let valid_tokens = tokenize(valid_express);
    let invalid_tokens = tokenize(invalid_express);

    println!("Valid_tokens: [{:?}]", valid_tokens);
    println!("Invalid_tokens: [{:?}]", invalid_tokens);

    assert!(valid_tokens.is_ok());
    assert!(invalid_tokens.is_err());
}

#[test]
fn tokenize_lists_every_token_in_order() {
    let tokens = tokenize("1+2*3/4+(1%4)^1.2").unwrap();
    assert_eq!(
        tokens,
        vec![
            number("1"),
            Token::Plus,
            number("2"),
            Token::Multiply,
            number("3"),
            Token::Division,
            number("4"),
            Token::Plus,
            Token::OpenPh,
            number("1"),
            Token::Percent,
            number("4"),
            Token::ClosePh,
            Token::Exponential,
            number("1.2"),
        ]
    );
}

#[test]
fn two_points_make_an_invalid_number() {
    assert_eq!(
        tokenize("1+2.2.2"),
        Err(CalError::LexError(LexerError::InvalidNumber(String::from("2.2.2"))))
    );
}

#[test]
fn a_lone_point_is_an_invalid_number() {
    assert_eq!(
        tokenize("."),
        Err(CalError::LexError(LexerError::InvalidNumber(String::from("."))))
    );
}

#[test]
fn a_letter_is_an_unknown_char() {
    assert_eq!(tokenize("1+a"), Err(CalError::LexError(LexerError::UnknowChar('a'))));
}

#[test]
fn blanks_separate_and_vanish() {
    assert_eq!(
        tokenize(" 1 +\n2 "),
        Ok(vec![number("1"), Token::Plus, number("2")])
    );
    assert_eq!(tokenize("1 2"), Ok(vec![number("1"), number("2")]));
    assert_eq!(tokenize("  \n"), Ok(vec![]));
}

#[test]
fn a_tab_is_no_blank() {
    assert_eq!(tokenize("1\t2"), Err(CalError::LexError(LexerError::UnknowChar('\t'))));
}

#[test]
fn the_end_is_reported_again_and_again() {
    let mut lexer = Lexer::from("7");
    assert_eq!(lexer.read(), Ok(number("7")));
    assert_eq!(lexer.read(), Ok(Token::EOF));
    assert_eq!(lexer.read(), Ok(Token::EOF));
    assert_eq!(lexer.read(), Ok(Token::EOF));
}

#[test]
fn reading_goes_on_behind_an_error() {
    let mut lexer = Lexer::new("1.2.3+?4".chars().collect());
    assert_eq!(
        lexer.read(),
        Err(CalError::LexError(LexerError::InvalidNumber(String::from("1.2.3"))))
    );
    assert_eq!(lexer.read(), Ok(Token::Plus));
    assert_eq!(lexer.read(), Err(CalError::LexError(LexerError::UnknowChar('?'))));
    assert_eq!(lexer.read(), Ok(number("4")));
    assert_eq!(lexer.read(), Ok(Token::EOF));
}

#[test]
fn literals_with_a_point_at_either_end() {
    assert_eq!(tokenize("1."), Ok(vec![number("1.")]));
    assert_eq!(tokenize(".5"), Ok(vec![number(".5")]));
    assert_eq!(Decimal::parse("1.").unwrap().as_str(), "1.");
    assert!(Decimal::parse("").is_none());
    assert!(Decimal::parse(".").is_none());
    assert!(Decimal::parse("1.2.3").is_none());
    assert!(Decimal::parse("1e5").is_none());
    assert!(Decimal::parse("-1").is_none());
    assert_eq!(Decimal::from_string(String::from("..")), Err(String::from("..")));
    assert_eq!(Decimal::from_string(String::from("0.25")).unwrap().as_str(), "0.25");
}

#[test]
fn every_literal_is_a_number_to_the_standard_parser() {
    for text in ["0", "12", "1.5", ".5", "7.", "000.000", "123456789012345678901234567890.5"] {
        let literal = Decimal::parse(text).unwrap();
        assert!(literal.as_str().parse::<f64>().is_ok());
    }
    for text in ["", ".", "1.2.3", "..", "1..", "..1"] {
        assert!(Decimal::parse(text).is_none());
        assert!(text.parse::<f64>().is_err());
    }
}

#[test]
fn errors_render_as_one_line() {
    let invalid = CalError::LexError(LexerError::InvalidNumber(String::from("2.2.2")));
    assert_eq!(
        invalid.to_string(),
        "Lex error:Invalid number: '2.2.2'! | TokenError::InvalidNumber"
    );
    let unknown = LexerError::UnknowChar('x');
    assert_eq!(unknown.to_string(), "Unknow char: 'x'! | TokenError::UnknowChar");
    let syntax: Result<(), CalError> = CalError::syn("Expect ')', get 'EOF'");
    assert_eq!(syntax.unwrap_err().to_string(), "Syntax error: Expect ')', get 'EOF'");
    let lex: Result<u8, CalError> = CalError::lex(LexerError::UnknowChar('#'));
    assert_eq!(lex, Err(CalError::LexError(LexerError::UnknowChar('#'))));
}
