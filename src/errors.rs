use vstd::prelude::*;

verus! {

/// Why a token sequence is not a well-formed expression.
#[derive(Clone, Copy, Debug, PartialEq, Eq, Structural)]
pub enum SyntaxReason {
    InvalidMinus,
    MultipleDecimalPoints,
    StartsWithOperator,
    EndsWithOperator,
    TwoOperatorsInARow,
    OperatorBeforeClosingParenthesis,
    OperatorAfterOpeningParenthesis,
    EmptyParentheses,
    ClosingParenthesisAfterOperator,
    NumberAfterClosingParenthesis,
    OpeningParenthesisAfterNumber,
    TrailingTokens,
    ExpectedOperand,
    UnexpectedEnd,
}

impl SyntaxReason {
    /// Human-readable description of the reason.
    pub fn message(&self) -> &'static str {
        match self {
            SyntaxReason::InvalidMinus => "Invalid use of minus sign",
            SyntaxReason::MultipleDecimalPoints => "Multiple decimal points in a number",
            SyntaxReason::StartsWithOperator => "Expression starts with an operator",
            SyntaxReason::EndsWithOperator => "Expression ends with an operator",
            SyntaxReason::TwoOperatorsInARow => "Two operators in a row",
            SyntaxReason::OperatorBeforeClosingParenthesis => "Operator followed by closing parenthesis",
            SyntaxReason::OperatorAfterOpeningParenthesis => "Open parenthesis followed by an operator",
            SyntaxReason::EmptyParentheses => "Empty parentheses",
            SyntaxReason::ClosingParenthesisAfterOperator => "Closing parenthesis preceded by an operator",
            SyntaxReason::NumberAfterClosingParenthesis =>
                "Closing parenthesis followed by a number (implicit multiplication)",
            SyntaxReason::OpeningParenthesisAfterNumber =>
                "Number followed by opening parenthesis (implicit multiplication)",
            SyntaxReason::TrailingTokens => "Unexpected tokens at the end of expression",
            SyntaxReason::ExpectedOperand => "Expected a number or opening parenthesis",
            SyntaxReason::UnexpectedEnd => "Unexpected end of input",
        }
    }
}

/// Failures in turning text into numeric values.
#[derive(Clone, Debug, PartialEq)]
pub enum EvaluationError {
    ParseNumberError { value: String },
}

/// Everything that makes an input line fail before any arithmetic is done.
#[derive(Clone, Debug, PartialEq)]
pub enum ParseError {
    UnopenedParenthesis,
    MissingClosingParenthesis,
    InvalidCharacter(char),
    EmptyInputPassed,
    SyntaxError(SyntaxReason),
    EvaluationError(EvaluationError),
}

/// The mathematical value of a `ParseError`: the same kinds, with text as a sequence.
pub enum ParseErrorKind {
    UnopenedParenthesis,
    MissingClosingParenthesis,
    InvalidCharacter(char),
    EmptyInputPassed,
    SyntaxError(SyntaxReason),
    ParseNumberError(Seq<char>),
}

impl View for ParseError {
    type V = ParseErrorKind;

    open spec fn view(&self) -> ParseErrorKind {
        match self {
            ParseError::UnopenedParenthesis => ParseErrorKind::UnopenedParenthesis,
            ParseError::MissingClosingParenthesis => ParseErrorKind::MissingClosingParenthesis,
            ParseError::InvalidCharacter(c) => ParseErrorKind::InvalidCharacter(*c),
            ParseError::EmptyInputPassed => ParseErrorKind::EmptyInputPassed,
            ParseError::SyntaxError(r) => ParseErrorKind::SyntaxError(*r),
            ParseError::EvaluationError(EvaluationError::ParseNumberError { value }) =>
                ParseErrorKind::ParseNumberError(value@),
        }
    }
}

} // verus!
