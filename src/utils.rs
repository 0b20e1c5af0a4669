use vstd::prelude::*;

use crate::errors::ParseError;

verus! {

/// The four binary operators.
#[derive(Clone, Copy, Debug, PartialEq, Eq, Structural)]
pub enum ArithmeticOperationSign {
    Multiply,
    Divide,
    Add,
    Subtract,
}

/// What a single input character stands for.
#[derive(Clone, Copy, Debug, PartialEq, Eq, Structural)]
pub enum CharMeaning {
    Number,
    Sign(ArithmeticOperationSign),
    Whitespace,
    Parenthesis,
}

/// The characters with the Unicode White_Space property: tab, line feed,
/// vertical tab, form feed, carriage return, space, next line, no-break space,
/// ogham space mark, the spaces from en quad to hair space, line and paragraph
/// separators, narrow no-break space, medium mathematical space and
/// ideographic space.
pub open spec fn white_space(c: char) -> bool {
    ||| '\u{9}' <= c && c <= '\u{d}'
    ||| c == ' '
    ||| c == '\u{85}'
    ||| c == '\u{a0}'
    ||| c == '\u{1680}'
    ||| '\u{2000}' <= c && c <= '\u{200a}'
    ||| c == '\u{2028}'
    ||| c == '\u{2029}'
    ||| c == '\u{202f}'
    ||| c == '\u{205f}'
    ||| c == '\u{3000}'
}

/// Relies on `char::is_whitespace`, which is true exactly of the characters
/// with the Unicode White_Space property.
#[verifier::external_body]
pub(crate) fn is_white_space(c: char) -> (r: bool)
    ensures
        r == white_space(c),
{
    c.is_whitespace()
}

/// A decimal digit `0` to `9`.
pub open spec fn is_digit(c: char) -> bool {
    '0' <= c && c <= '9'
}

pub open spec fn sign_of(c: char) -> Option<ArithmeticOperationSign> {
    if c == '*' {
        Some(ArithmeticOperationSign::Multiply)
    } else if c == '/' {
        Some(ArithmeticOperationSign::Divide)
    } else if c == '-' {
        Some(ArithmeticOperationSign::Subtract)
    } else if c == '+' {
        Some(ArithmeticOperationSign::Add)
    } else {
        None
    }
}

/// The meaning of `c` on an input line: digits and the decimal point make up
/// numbers; anything outside numbers, operators, parentheses and white space
/// is an `InvalidCharacter`.
pub open spec fn meaning_of(c: char) -> Result<CharMeaning, ParseError> {
    if is_digit(c) || c == '.' {
        Ok(CharMeaning::Number)
    } else if white_space(c) {
        Ok(CharMeaning::Whitespace)
    } else if sign_of(c) is Some {
        Ok(CharMeaning::Sign(sign_of(c)->0))
    } else if c == '(' || c == ')' {
        Ok(CharMeaning::Parenthesis)
    } else {
        Err(ParseError::InvalidCharacter(c))
    }
}

/// Classifies a character of an input line.
pub fn validate_char(char: &char) -> (r: Result<CharMeaning, ParseError>)
    ensures
        r == meaning_of(*char),
{
    let c = *char;
    if ('0' <= c && c <= '9') || c == '.' {
        Ok(CharMeaning::Number)
    } else if is_white_space(c) {
        Ok(CharMeaning::Whitespace)
    } else {
        match c {
            '*' => Ok(CharMeaning::Sign(ArithmeticOperationSign::Multiply)),
            '/' => Ok(CharMeaning::Sign(ArithmeticOperationSign::Divide)),
            '-' => Ok(CharMeaning::Sign(ArithmeticOperationSign::Subtract)),
            '+' => Ok(CharMeaning::Sign(ArithmeticOperationSign::Add)),
            '(' | ')' => Ok(CharMeaning::Parenthesis),
            _ => Err(ParseError::InvalidCharacter(c)),
        }
    }
}

} // verus!
