use vstd::prelude::*;

use crate::errors::{ParseError, ParseErrorKind};
use crate::lexer::{strip, tokenize_spec, Lexer};
use crate::parser::{parse_spec, Instr, Parser, Program};

verus! {

/// What a white-space-free text compiles to: the program of its expression,
/// or the error that the tokens or their checks raise.
pub open spec fn compile_spec(s: Seq<char>) -> Result<(Seq<Instr>, Option<ParseErrorKind>), ParseErrorKind> {
    match tokenize_spec(s) {
        Ok(t) => Ok(parse_spec(t, 0)),
        Err(e) => Err(e),
    }
}

pub open spec fn compile_result(r: Result<Program, ParseError>) -> Result<(Seq<Instr>, Option<ParseErrorKind>), ParseErrorKind> {
    match r {
        Ok(p) => Ok(p@),
        Err(e) => Err(e@),
    }
}

/// The whole pipeline for one line of input: tokens, sequence checks, parse.
pub struct Calculator;

impl Calculator {
    /// Compiles one line into the program of its expression. White space is ignored.
    pub fn compile(input: &str) -> (r: Result<Program, ParseError>)
        ensures
            compile_result(r) == compile_spec(strip(input@)),
    {
        let lexer = Lexer::new(input.to_string());
        let tokens = match lexer.tokenize() {
            Ok(t) => t,
            Err(e) => {
                return Err(e);
            },
        };
        let mut parser = Parser::new(tokens);
        Ok(parser.parse())
    }
}

} // verus!
