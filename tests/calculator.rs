use calculator::calculator::Calculator;
use calculator::errors::{ParseError, SyntaxReason};
use calculator::lexer::Token;
use calculator::parser::{Parser, Program, Step};
use calculator::utils::ArithmeticOperationSign;

#[derive(Debug, PartialEq)]
enum Failure {
    Parse(ParseError),
    DivideByZero(f64, f64),
    InvalidOperation(f64, f64, ArithmeticOperationSign),
}

fn run(program: &Program) -> Result<f64, Failure> {
    let mut stack: Vec<f64> = Vec::new();
    for step in &program.steps {
        match step {
            Step::Push(text) => stack.push(text.parse::<f64>().unwrap()),
            Step::Apply(op) => {
                let right = stack.pop().unwrap();
                let left = stack.pop().unwrap();
                let value = match op {
                    ArithmeticOperationSign::Add => left + right,
                    ArithmeticOperationSign::Subtract => left - right,
                    ArithmeticOperationSign::Multiply => left * right,
                    ArithmeticOperationSign::Divide => {
                        if right == 0.0 {
                            return Err(Failure::DivideByZero(left, right));
                        }
                        left / right
                    }
                };
                if !value.is_finite() {
                    return Err(Failure::InvalidOperation(left, right, *op));
                }
                stack.push(value);
            }
        }
    }
    if let Some(e) = &program.error {
        return Err(Failure::Parse(e.clone()));
    }
    assert_eq!(stack.len(), 1);
    Ok(stack[0])
}

fn calculate(input: &str) -> Result<f64, Failure> {
    let program = Calculator::compile(input).map_err(Failure::Parse)?;
    run(&program)
}

fn push(text: &str) -> Step {
    Step::Push(text.to_string())
}

fn num(text: &str) -> Token {
    Token::Number(text.to_string())
}

#[test]
fn test_calculator_simple_addition() {
    let result = calculate("2+3").unwrap();
    assert_eq!(result, 5.0);
}

#[test]
fn test_calculator_subtraction() {
    let result = calculate("5-3").unwrap();
    assert_eq!(result, 2.0);
}

#[test]
fn test_calculator_multiplication() {
    let result = calculate("2*3").unwrap();
    assert_eq!(result, 6.0);
}

#[test]
fn test_calculator_division() {
    let result = calculate("6/2").unwrap();
    assert_eq!(result, 3.0);
}

#[test]
fn test_calculator_order_of_operations() {
    let result = calculate("2+3*4").unwrap();
    assert_eq!(result, 14.0);
}

#[test]
fn test_calculator_parentheses() {
    let result = calculate("(2+3)*4").unwrap();
    assert_eq!(result, 20.0);
}

#[test]
fn test_calculator_nested_parentheses() {
    let result = calculate("2*(3+(4-1))").unwrap();
    assert_eq!(result, 12.0);
}

#[test]
fn test_calculator_with_decimals() {
    let result = calculate("2.5*2").unwrap();
    assert_eq!(result, 5.0);
}

#[test]
fn test_calculator_divide_by_zero() {
    let result = calculate("5/0");
    assert!(result.is_err());
}

#[test]
fn test_calculator_invalid_expression() {
    let result = calculate("5*");
    assert!(result.is_err());
}

#[test]
fn test_calculator_unbalanced_parentheses() {
    let result = calculate("(2+3");
    assert!(result.is_err());
}

#[test]
fn test_calculator_implicit_multiplication() {
    let result = calculate("2(3)");
    assert!(result.is_err());
}

#[test]
fn test_calculator_complex_expression() {
    let result = calculate("2*(3+4)/(2-0.5)").unwrap();
    assert!((result - 9.333333).abs() < 0.000001);
}

#[test]
fn precedence_in_the_program() {
    let program = Calculator::compile("2+3*4").unwrap();
    assert_eq!(
        program.steps,
        vec![
            push("2"),
            push("3"),
            push("4"),
            Step::Apply(ArithmeticOperationSign::Multiply),
            Step::Apply(ArithmeticOperationSign::Add),
        ]
    );
    assert_eq!(program.error, None);
}

#[test]
fn equal_precedence_is_left_associative() {
    let program = Calculator::compile("8-3-2").unwrap();
    assert_eq!(
        program.steps,
        vec![
            push("8"),
            push("3"),
            Step::Apply(ArithmeticOperationSign::Subtract),
            push("2"),
            Step::Apply(ArithmeticOperationSign::Subtract),
        ]
    );
    assert_eq!(calculate("8-3-2"), Ok(3.0));
    assert_eq!(calculate("8/4/2"), Ok(1.0));
}

#[test]
fn division_by_zero_carries_operands() {
    assert_eq!(calculate("5/0"), Err(Failure::DivideByZero(5.0, 0.0)));
    assert_eq!(calculate("1/(2-2)"), Err(Failure::DivideByZero(1.0, 0.0)));
}

#[test]
fn overflow_is_an_invalid_operation() {
    let big = format!("1{}", "0".repeat(300));
    let input = format!("{}*{}", big, big);
    assert!(matches!(
        calculate(&input),
        Err(Failure::InvalidOperation(_, _, ArithmeticOperationSign::Multiply))
    ));
}

#[test]
fn unbalanced_parentheses_kinds() {
    assert_eq!(
        calculate("(2+3"),
        Err(Failure::Parse(ParseError::MissingClosingParenthesis))
    );
    assert_eq!(calculate("2+3)"), Err(Failure::Parse(ParseError::UnopenedParenthesis)));
}

#[test]
fn invalid_character_through_the_pipeline() {
    assert_eq!(
        calculate("1+a"),
        Err(Failure::Parse(ParseError::InvalidCharacter('a')))
    );
}

#[test]
fn implicit_multiplication_is_a_syntax_error() {
    assert_eq!(
        calculate("2(3)"),
        Err(Failure::Parse(ParseError::SyntaxError(
            SyntaxReason::OpeningParenthesisAfterNumber
        )))
    );
}

#[test]
fn adjacent_groups_end_with_trailing_tokens() {
    let program = Calculator::compile("(1)(2)").unwrap();
    assert_eq!(program.steps, vec![push("1")]);
    assert_eq!(
        program.error,
        Some(ParseError::SyntaxError(SyntaxReason::TrailingTokens))
    );
    // the arithmetic before the stray tokens comes first
    assert_eq!(calculate("(1/0)(2)"), Err(Failure::DivideByZero(1.0, 0.0)));
}

#[test]
fn adjacent_groups_inside_parentheses() {
    assert_eq!(
        calculate("((1)(2))"),
        Err(Failure::Parse(ParseError::MissingClosingParenthesis))
    );
}

#[test]
fn wrapping_in_parentheses_keeps_the_program() {
    let plain = Calculator::compile("2*(3+4)/(2-0.5)").unwrap();
    let wrapped = Calculator::compile("(((2*(3+4)/(2-0.5))))").unwrap();
    assert_eq!(plain, wrapped);
    assert_eq!(calculate("((-7))"), Ok(-7.0));
}

#[test]
fn numeral_round_trip() {
    for value in [9.333333333333334_f64, -0.5, 12.0, 1e-7, 123456789.125] {
        let text = format!("{}", value);
        let program = Calculator::compile(&text).unwrap();
        assert_eq!(program.steps, vec![push(&text)]);
        assert_eq!(calculate(&text), Ok(value));
    }
}

#[test]
fn same_input_same_output() {
    let a = Calculator::compile("1 + 2 * (3 - 4) / 5");
    let b = Calculator::compile("1 + 2 * (3 - 4) / 5");
    assert_eq!(a, b);
    assert_eq!(calculate("1 + 2 * (3 - 4) / 5"), calculate("1 + 2 * (3 - 4) / 5"));
}

#[test]
fn parser_on_raw_tokens() {
    let mut parser = Parser::new(vec![num("1"), Token::Plus]);
    let program = parser.parse();
    assert_eq!(program.steps, vec![push("1")]);
    assert_eq!(
        program.error,
        Some(ParseError::SyntaxError(SyntaxReason::UnexpectedEnd))
    );
    let mut parser = Parser::new(vec![Token::Plus]);
    assert_eq!(
        parser.parse().error,
        Some(ParseError::SyntaxError(SyntaxReason::ExpectedOperand))
    );
    let mut parser = Parser::new(vec![Token::OpenParen, num("1")]);
    assert_eq!(parser.parse().error, Some(ParseError::MissingClosingParenthesis));
}
