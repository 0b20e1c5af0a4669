use vstd::prelude::*;

use crate::errors::{ParseError, ParseErrorKind, SyntaxReason};
use crate::lexer::{symbols, Symbol, Token};
use crate::utils::ArithmeticOperationSign;

verus! {

/// One instruction of a stack machine over numbers: push the value of a
/// decimal literal, or pop two values and push the result of an operator
/// applied to them (the deeper one is the left operand).
#[derive(Clone, Debug, PartialEq)]
pub enum Step {
    Push(String),
    Apply(ArithmeticOperationSign),
}

/// The mathematical value of a `Step`.
pub enum Instr {
    Push(Seq<char>),
    Apply(ArithmeticOperationSign),
}

impl View for Step {
    type V = Instr;

    open spec fn view(&self) -> Instr {
        match self {
            Step::Push(s) => Instr::Push(s@),
            Step::Apply(op) => Instr::Apply(*op),
        }
    }
}

pub open spec fn instrs(v: Seq<Step>) -> Seq<Instr> {
    v.map_values(|s: Step| s@)
}

/// The arithmetic of an expression, in the order in which a left-to-right
/// evaluation performs it, and the error (if any) that the parse met after
/// the last of these steps. Running the steps fails at the first arithmetic
/// step that fails; when none does, the run ends with `error`, or, without
/// one, with the single value left on the stack.
#[derive(Clone, Debug, PartialEq)]
pub struct Program {
    pub steps: Vec<Step>,
    pub error: Option<ParseError>,
}

impl View for Program {
    type V = (Seq<Instr>, Option<ParseErrorKind>);

    open spec fn view(&self) -> (Seq<Instr>, Option<ParseErrorKind>) {
        (
            instrs(self.steps@),
            match self.error {
                Some(e) => Some(e@),
                None => None,
            },
        )
    }
}

/// What parsing one part of the grammar from a position yields: the steps it
/// emits, and the position after the part or the error that stopped it.
pub type Parsed = (Seq<Instr>, Result<int, ParseErrorKind>);

pub open spec fn operator_of(x: Symbol) -> ArithmeticOperationSign {
    match x {
        Symbol::Plus => ArithmeticOperationSign::Add,
        Symbol::Minus => ArithmeticOperationSign::Subtract,
        Symbol::Multiply => ArithmeticOperationSign::Multiply,
        _ => ArithmeticOperationSign::Divide,
    }
}

/// `primary := Number | '(' expression ')'`
pub open spec fn primary_spec(t: Seq<Symbol>, p: int) -> Parsed
    decreases t.len() - p, 0int,
{
    if p < 0 || p >= t.len() {
        (Seq::empty(), Err(ParseErrorKind::SyntaxError(SyntaxReason::UnexpectedEnd)))
    } else {
        match t[p] {
            Symbol::Number(x) => (seq![Instr::Push(x)], Ok(p + 1)),
            Symbol::OpenParen => {
                let (s, r) = sum_spec(t, p + 1);
                match r {
                    Ok(q) => if 0 <= q < t.len() && t[q] is CloseParen {
                        (s, Ok(q + 1))
                    } else {
                        (s, Err(ParseErrorKind::MissingClosingParenthesis))
                    },
                    Err(e) => (s, Err(e)),
                }
            },
            _ => (Seq::empty(), Err(ParseErrorKind::SyntaxError(SyntaxReason::ExpectedOperand))),
        }
    }
}

/// The `( ('*'|'/') primary )*` tail of a product from `p` on.
pub open spec fn product_rest(t: Seq<Symbol>, p: int) -> Parsed
    decreases t.len() - p, 1int,
{
    if 0 <= p < t.len() && (t[p] is Multiply || t[p] is Divide) {
        let (s, r) = primary_spec(t, p + 1);
        match r {
            // a primary that succeeds consumes at least one symbol and stays in range
            Ok(q) => if p < q <= t.len() {
                let (s2, r2) = product_rest(t, q);
                (s + seq![Instr::Apply(operator_of(t[p]))] + s2, r2)
            } else {
                (s, r)
            },
            Err(e) => (s, Err(e)),
        }
    } else {
        (Seq::empty(), Ok(p))
    }
}

/// `mulDiv := primary ( ('*'|'/') primary )*`
pub open spec fn product_spec(t: Seq<Symbol>, p: int) -> Parsed
    decreases t.len() - p, 2int,
{
    let (s, r) = primary_spec(t, p);
    match r {
        Ok(q) => if p < q <= t.len() {
            let (s2, r2) = product_rest(t, q);
            (s + s2, r2)
        } else {
            (s, r)
        },
        Err(e) => (s, Err(e)),
    }
}

/// The `( ('+'|'-') mulDiv )*` tail of a sum from `p` on.
pub open spec fn sum_rest(t: Seq<Symbol>, p: int) -> Parsed
    decreases t.len() - p, 3int,
{
    if 0 <= p < t.len() && (t[p] is Plus || t[p] is Minus) {
        let (s, r) = product_spec(t, p + 1);
        match r {
            Ok(q) => if p < q <= t.len() {
                let (s2, r2) = sum_rest(t, q);
                (s + seq![Instr::Apply(operator_of(t[p]))] + s2, r2)
            } else {
                (s, r)
            },
            Err(e) => (s, Err(e)),
        }
    } else {
        (Seq::empty(), Ok(p))
    }
}

/// `expression := addSub := mulDiv ( ('+'|'-') mulDiv )*`
pub open spec fn sum_spec(t: Seq<Symbol>, p: int) -> Parsed
    decreases t.len() - p, 4int,
{
    let (s, r) = product_spec(t, p);
    match r {
        Ok(q) => if p < q <= t.len() {
            let (s2, r2) = sum_rest(t, q);
            (s + s2, r2)
        } else {
            (s, r)
        },
        Err(e) => (s, Err(e)),
    }
}

/// A whole parse from `p`: an expression that must use up every symbol.
pub open spec fn parse_spec(t: Seq<Symbol>, p: int) -> (Seq<Instr>, Option<ParseErrorKind>) {
    let (s, r) = sum_spec(t, p);
    match r {
        Ok(q) => if q < t.len() {
            (s, Some(ParseErrorKind::SyntaxError(SyntaxReason::TrailingTokens)))
        } else {
            (s, None)
        },
        Err(e) => (s, Some(e)),
    }
}

pub open spec fn outcome(r: Result<usize, ParseError>) -> Result<int, ParseErrorKind> {
    match r {
        Ok(q) => Ok(q as int),
        Err(e) => Err(e@),
    }
}

proof fn lemma_instrs_push(v: Seq<Step>, x: Step)
    ensures
        instrs(v.push(x)) == instrs(v).push(x@),
{
    assert(instrs(v.push(x)) =~= instrs(v).push(x@));
}

/// A recursive-descent parser over a token sequence, with a cursor.
pub struct Parser {
    tokens: Vec<Token>,
    position: usize,
}

impl Parser {
    /// The symbols that the parser reads.
    pub closed spec fn input(&self) -> Seq<Symbol> {
        symbols(self.tokens@)
    }

    /// Where the next parse starts.
    pub closed spec fn cursor(&self) -> int {
        self.position as int
    }

    pub fn new(tokens: Vec<Token>) -> (r: Self)
        ensures
            r.input() == symbols(tokens@),
            r.cursor() == 0,
    {
        Parser { tokens, position: 0 }
    }

    fn operator_at(&self, p: usize) -> (r: Option<ArithmeticOperationSign>)
        requires
            p < self.tokens.len(),
        ensures
            r == (if self.input()[p as int] is Plus || self.input()[p as int] is Minus
                || self.input()[p as int] is Multiply || self.input()[p as int] is Divide {
                Some(operator_of(self.input()[p as int]))
            } else {
                None::<ArithmeticOperationSign>
            }),
    {
        match &self.tokens[p] {
            Token::Plus => Some(ArithmeticOperationSign::Add),
            Token::Minus => Some(ArithmeticOperationSign::Subtract),
            Token::Multiply => Some(ArithmeticOperationSign::Multiply),
            Token::Divide => Some(ArithmeticOperationSign::Divide),
            _ => None,
        }
    }

    fn parse_primary(&self, p: usize, steps: &mut Vec<Step>) -> (r: Result<usize, ParseError>)
        ensures
            instrs(final(steps)@) == instrs(old(steps)@) + primary_spec(self.input(), p as int).0,
            outcome(r) == primary_spec(self.input(), p as int).1,
            r is Ok ==> p < r->Ok_0 <= self.tokens.len(),
        decreases self.tokens.len() - p, 0int,
    {
        let ghost before = instrs(steps@);
        if p >= self.tokens.len() {
            assert(before + Seq::<Instr>::empty() =~= before);
            return Err(ParseError::SyntaxError(SyntaxReason::UnexpectedEnd));
        }
        match &self.tokens[p] {
            Token::Number(text) => {
                let step = Step::Push(text.clone());
                proof {
                    lemma_instrs_push(steps@, step);
                    assert(before.push(step@) =~= before + seq![step@]);
                }
                steps.push(step);
                Ok(p + 1)
            },
            Token::OpenParen => {
                match self.parse_addition_subtraction(p + 1, steps) {
                    Ok(q) => {
                        if q >= self.tokens.len() || !matches!(&self.tokens[q], Token::CloseParen) {
                            return Err(ParseError::MissingClosingParenthesis);
                        }
                        Ok(q + 1)
                    },
                    Err(e) => Err(e),
                }
            },
            _ => {
                assert(before + Seq::<Instr>::empty() =~= before);
                Err(ParseError::SyntaxError(SyntaxReason::ExpectedOperand))
            },
        }
    }

    fn parse_multiplication_division(&self, p: usize, steps: &mut Vec<Step>) -> (r: Result<usize, ParseError>)
        ensures
            instrs(final(steps)@) == instrs(old(steps)@) + product_spec(self.input(), p as int).0,
            outcome(r) == product_spec(self.input(), p as int).1,
            r is Ok ==> p < r->Ok_0 <= self.tokens.len(),
        decreases self.tokens.len() - p, 2int,
    {
        let ghost t = self.input();
        let ghost before = instrs(steps@);
        let mut pos = match self.parse_primary(p, steps) {
            Ok(q) => q,
            Err(e) => {
                return Err(e);
            },
        };
        let ghost head = instrs(steps@);
        assert(product_spec(t, p as int).0 == (head.subrange(before.len() as int, head.len() as int)) + product_rest(t, pos as int).0) by {
            assert(head =~= before + head.subrange(before.len() as int, head.len() as int));
        }
        loop
            invariant
                p < pos <= self.tokens.len(),
                t == self.input(),
                instrs(old(steps)@) + product_spec(t, p as int).0 == instrs(steps@) + product_rest(t, pos as int).0,
                product_spec(t, p as int).1 == product_rest(t, pos as int).1,
            ensures
                p < pos <= self.tokens.len(),
                instrs(old(steps)@) + product_spec(t, p as int).0 == instrs(steps@) + product_rest(t, pos as int).0,
                product_spec(t, p as int).1 == product_rest(t, pos as int).1,
                product_rest(t, pos as int) == (Seq::<Instr>::empty(), Ok::<int, ParseErrorKind>(pos as int)),
            decreases self.tokens.len() - pos,
        {
            if pos >= self.tokens.len() {
                break;
            }
            let op = match self.operator_at(pos) {
                Some(ArithmeticOperationSign::Multiply) => ArithmeticOperationSign::Multiply,
                Some(ArithmeticOperationSign::Divide) => ArithmeticOperationSign::Divide,
                _ => {
                    break;
                },
            };
            match self.parse_primary(pos + 1, steps) {
                Ok(q) => {
                    let step = Step::Apply(op);
                    proof {
                        lemma_instrs_push(steps@, step);
                    }
                    steps.push(step);
                    pos = q;
                },
                Err(e) => {
                    return Err(e);
                },
            }
        }
        assert(instrs(steps@) + Seq::<Instr>::empty() =~= instrs(steps@));
        Ok(pos)
    }

    fn parse_addition_subtraction(&self, p: usize, steps: &mut Vec<Step>) -> (r: Result<usize, ParseError>)
        ensures
            instrs(final(steps)@) == instrs(old(steps)@) + sum_spec(self.input(), p as int).0,
            outcome(r) == sum_spec(self.input(), p as int).1,
            r is Ok ==> p < r->Ok_0 <= self.tokens.len(),
        decreases self.tokens.len() - p, 4int,
    {
        let ghost t = self.input();
        let ghost before = instrs(steps@);
        let mut pos = match self.parse_multiplication_division(p, steps) {
            Ok(q) => q,
            Err(e) => {
                return Err(e);
            },
        };
        let ghost head = instrs(steps@);
        assert(sum_spec(t, p as int).0 == (head.subrange(before.len() as int, head.len() as int)) + sum_rest(t, pos as int).0) by {
            assert(head =~= before + head.subrange(before.len() as int, head.len() as int));
        }
        loop
            invariant
                p < pos <= self.tokens.len(),
                t == self.input(),
                instrs(old(steps)@) + sum_spec(t, p as int).0 == instrs(steps@) + sum_rest(t, pos as int).0,
                sum_spec(t, p as int).1 == sum_rest(t, pos as int).1,
            ensures
                p < pos <= self.tokens.len(),
                instrs(old(steps)@) + sum_spec(t, p as int).0 == instrs(steps@) + sum_rest(t, pos as int).0,
                sum_spec(t, p as int).1 == sum_rest(t, pos as int).1,
                sum_rest(t, pos as int) == (Seq::<Instr>::empty(), Ok::<int, ParseErrorKind>(pos as int)),
            decreases self.tokens.len() - pos,
        {
            if pos >= self.tokens.len() {
                break;
            }
            let op = match self.operator_at(pos) {
                Some(ArithmeticOperationSign::Add) => ArithmeticOperationSign::Add,
                Some(ArithmeticOperationSign::Subtract) => ArithmeticOperationSign::Subtract,
                _ => {
                    break;
                },
            };
            match self.parse_multiplication_division(pos + 1, steps) {
                Ok(q) => {
                    let step = Step::Apply(op);
                    proof {
                        lemma_instrs_push(steps@, step);
                    }
                    steps.push(step);
                    pos = q;
                },
                Err(e) => {
                    return Err(e);
                },
            }
        }
        assert(instrs(steps@) + Seq::<Instr>::empty() =~= instrs(steps@));
        Ok(pos)
    }

    /// Parses from the cursor to the end of the tokens. On success of the
    /// expression the cursor moves past it; on an error it stays.
    pub fn parse(&mut self) -> (r: Program)
        ensures
            r@ == parse_spec(old(self).input(), old(self).cursor()),
            final(self).input() == old(self).input(),
            final(self).cursor() == match sum_spec(old(self).input(), old(self).cursor()).1 {
                Ok(q) => q,
                Err(_) => old(self).cursor(),
            },
    {
        let mut steps: Vec<Step> = Vec::new();
        assert(instrs(steps@) =~= Seq::<Instr>::empty());
        match self.parse_addition_subtraction(self.position, &mut steps) {
            Ok(q) => {
                assert(instrs(steps@) =~= Seq::<Instr>::empty() + sum_spec(self.input(), self.cursor()).0);
                self.position = q;
                if q < self.tokens.len() {
                    Program { steps, error: Some(ParseError::SyntaxError(SyntaxReason::TrailingTokens)) }
                } else {
                    Program { steps, error: None }
                }
            },
            Err(e) => {
                assert(instrs(steps@) =~= Seq::<Instr>::empty() + sum_spec(self.input(), self.cursor()).0);
                Program { steps, error: Some(e) }
            },
        }
    }
}

} // verus!
