use calculator::errors::{EvaluationError, ParseError, SyntaxReason};
use calculator::lexer::{scan, tokenize_chars, validate_token_sequence, Lexer, Token};

#[derive(Debug, PartialEq)]
enum Tok {
    Number(f64),
    Plus,
    Minus,
    Multiply,
    Divide,
    OpenParen,
    CloseParen,
}

fn shape(tokens: &[Token]) -> Vec<Tok> {
    tokens
        .iter()
        .map(|t| match t {
            Token::Number(text) => Tok::Number(text.parse::<f64>().unwrap()),
            Token::Plus => Tok::Plus,
            Token::Minus => Tok::Minus,
            Token::Multiply => Tok::Multiply,
            Token::Divide => Tok::Divide,
            Token::OpenParen => Tok::OpenParen,
            Token::CloseParen => Tok::CloseParen,
        })
        .collect()
}

fn lex(input: &str) -> Result<Vec<Tok>, ParseError> {
    let lexer = Lexer::new(input.to_string());
    lexer.tokenize().map(|t| shape(&t))
}

fn num(text: &str) -> Token {
    Token::Number(text.to_string())
}

#[test]
fn test_lexer_basic_numbers() {
    let tokens = lex("42").unwrap();
    assert_eq!(tokens, vec![Tok::Number(42.0)]);
}

#[test]
fn test_lexer_decimal_numbers() {
    let tokens = lex("3.14").unwrap();
    assert_eq!(tokens, vec![Tok::Number(3.14)]);
}

#[test]
fn test_lexer_negative_numbers() {
    let tokens = lex("-7").unwrap();
    assert_eq!(tokens, vec![Tok::Number(-7.0)]);
}

#[test]
fn test_lexer_operators() {
    let tokens = lex("1+2-3*4/5").unwrap();
    assert_eq!(
        tokens,
        vec![
            Tok::Number(1.0),
            Tok::Plus,
            Tok::Number(2.0),
            Tok::Minus,
            Tok::Number(3.0),
            Tok::Multiply,
            Tok::Number(4.0),
            Tok::Divide,
            Tok::Number(5.0),
        ]
    );
}

#[test]
fn test_lexer_parentheses() {
    let tokens = lex("(1+2)").unwrap();
    assert_eq!(
        tokens,
        vec![
            Tok::OpenParen,
            Tok::Number(1.0),
            Tok::Plus,
            Tok::Number(2.0),
            Tok::CloseParen,
        ]
    );
}

#[test]
fn test_lexer_invalid_character() {
    let result = lex("1+a");
    assert!(matches!(result, Err(ParseError::InvalidCharacter(_))));
}

#[test]
fn test_lexer_empty_input() {
    let result = lex("");
    assert!(matches!(result, Err(ParseError::EmptyInputPassed)));
}

#[test]
fn test_lexer_multiple_decimal_points() {
    let result = lex("3.14.159");
    assert!(matches!(result, Err(ParseError::SyntaxError(_))));
}

#[test]
fn invalid_character_reports_the_character() {
    assert_eq!(lex("1+a"), Err(ParseError::InvalidCharacter('a')));
    assert_eq!(lex("2^3"), Err(ParseError::InvalidCharacter('^')));
}

#[test]
fn numbers_keep_their_text() {
    let lexer = Lexer::new("-2.50 * .5".to_string());
    let tokens = lexer.tokenize().unwrap();
    assert_eq!(tokens, vec![num("-2.50"), Token::Multiply, num(".5")]);
}

#[test]
fn all_white_space_is_removed() {
    assert_eq!(lex(" 1 +\t2\n"), Ok(vec![Tok::Number(1.0), Tok::Plus, Tok::Number(2.0)]));
    assert_eq!(lex("1 2"), Ok(vec![Tok::Number(12.0)]));
    assert_eq!(lex(" \t "), Err(ParseError::EmptyInputPassed));
}

#[test]
fn unary_minus_after_operator_or_parenthesis() {
    assert_eq!(
        lex("2*-3"),
        Ok(vec![Tok::Number(2.0), Tok::Multiply, Tok::Number(-3.0)])
    );
    assert_eq!(
        lex("(-3)"),
        Ok(vec![Tok::OpenParen, Tok::Number(-3.0), Tok::CloseParen])
    );
    assert_eq!(
        lex("2--3"),
        Ok(vec![Tok::Number(2.0), Tok::Minus, Tok::Number(-3.0)])
    );
}

#[test]
fn unary_minus_needs_a_number() {
    assert_eq!(lex("-(2)"), Err(ParseError::SyntaxError(SyntaxReason::InvalidMinus)));
    assert_eq!(lex("2*-"), Err(ParseError::SyntaxError(SyntaxReason::InvalidMinus)));
}

#[test]
fn lone_point_is_not_a_number() {
    let expected = Err(ParseError::EvaluationError(EvaluationError::ParseNumberError {
        value: ".".to_string(),
    }));
    assert_eq!(lex("."), expected);
    assert_eq!(lex("1+-."), expected);
}

#[test]
fn second_point_is_a_syntax_error() {
    assert_eq!(
        lex("1..2"),
        Err(ParseError::SyntaxError(SyntaxReason::MultipleDecimalPoints))
    );
}

#[test]
fn parentheses_must_balance() {
    assert_eq!(lex("2+3)"), Err(ParseError::UnopenedParenthesis));
    assert_eq!(lex("(2+3"), Err(ParseError::MissingClosingParenthesis));
    assert_eq!(lex(")(2"), Err(ParseError::UnopenedParenthesis));
}

#[test]
fn forbidden_neighbours() {
    let syntax = |r: SyntaxReason| Err(ParseError::SyntaxError(r));
    assert_eq!(lex("+2"), syntax(SyntaxReason::StartsWithOperator));
    assert_eq!(lex("5*"), syntax(SyntaxReason::EndsWithOperator));
    assert_eq!(lex("2+*3"), syntax(SyntaxReason::TwoOperatorsInARow));
    assert_eq!(lex("(2+)"), syntax(SyntaxReason::OperatorBeforeClosingParenthesis));
    assert_eq!(lex("(*2)"), syntax(SyntaxReason::OperatorAfterOpeningParenthesis));
    assert_eq!(lex("2+()"), syntax(SyntaxReason::EmptyParentheses));
    assert_eq!(lex("(2)3"), syntax(SyntaxReason::NumberAfterClosingParenthesis));
    assert_eq!(lex("2(3)"), syntax(SyntaxReason::OpeningParenthesisAfterNumber));
}

#[test]
fn validation_of_token_sequences() {
    assert_eq!(validate_token_sequence(&vec![]), Err(ParseError::EmptyInputPassed));
    assert_eq!(validate_token_sequence(&vec![num("1")]), Ok(()));
    assert_eq!(
        validate_token_sequence(&vec![Token::CloseParen, num("1")]),
        Err(ParseError::UnopenedParenthesis)
    );
    assert_eq!(
        validate_token_sequence(&vec![Token::Multiply, Token::CloseParen]),
        Err(ParseError::UnopenedParenthesis)
    );
    assert_eq!(
        validate_token_sequence(&vec![num("1"), Token::Plus, Token::Plus, num("2")]),
        Err(ParseError::SyntaxError(SyntaxReason::TwoOperatorsInARow))
    );
    assert_eq!(
        validate_token_sequence(&vec![Token::OpenParen, Token::CloseParen]),
        Err(ParseError::SyntaxError(SyntaxReason::EmptyParentheses))
    );
}

#[test]
fn scan_without_sequence_checks() {
    let chars: Vec<char> = "1+".chars().collect();
    assert_eq!(scan(&chars), Ok(vec![num("1"), Token::Plus]));
    assert_eq!(
        tokenize_chars(&chars),
        Err(ParseError::SyntaxError(SyntaxReason::EndsWithOperator))
    );
    assert_eq!(tokenize_chars(&vec![]), Err(ParseError::EmptyInputPassed));
}
