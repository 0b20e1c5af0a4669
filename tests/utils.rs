use calculator::errors::ParseError;
use calculator::utils::{validate_char, ArithmeticOperationSign, CharMeaning};

#[test]
fn characters_are_classified() {
    assert_eq!(validate_char(&'7'), Ok(CharMeaning::Number));
    assert_eq!(validate_char(&'.'), Ok(CharMeaning::Number));
    assert_eq!(validate_char(&' '), Ok(CharMeaning::Whitespace));
    assert_eq!(validate_char(&'\t'), Ok(CharMeaning::Whitespace));
    assert_eq!(validate_char(&'\u{3000}'), Ok(CharMeaning::Whitespace));
    assert_eq!(
        validate_char(&'*'),
        Ok(CharMeaning::Sign(ArithmeticOperationSign::Multiply))
    );
    assert_eq!(
        validate_char(&'/'),
        Ok(CharMeaning::Sign(ArithmeticOperationSign::Divide))
    );
    assert_eq!(
        validate_char(&'-'),
        Ok(CharMeaning::Sign(ArithmeticOperationSign::Subtract))
    );
    assert_eq!(
        validate_char(&'+'),
        Ok(CharMeaning::Sign(ArithmeticOperationSign::Add))
    );
    assert_eq!(validate_char(&')'), Ok(CharMeaning::Parenthesis));
    assert_eq!(validate_char(&'x'), Err(ParseError::InvalidCharacter('x')));
}

#[test]
fn every_character_of_a_decimal_expression_is_accepted() {
    assert!("2.5 * (2 - .5)".chars().all(|c| validate_char(&c).is_ok()));
}
