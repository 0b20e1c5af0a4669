//! Arithmetic expressions over decimal numbers: a tokenizer with sequence
//! checks, and a recursive-descent parser that compiles an expression into
//! the steps of a stack machine, in the order of a left-to-right evaluation.
pub mod calculator;
pub mod errors;
pub mod laws;
pub mod lexer;
pub mod parser;
pub mod utils;
