use vstd::prelude::*;

use crate::errors::{EvaluationError, ParseError, ParseErrorKind, SyntaxReason};
use crate::utils::{is_digit, is_white_space, white_space};

verus! {

/// The smallest units of an expression. A number keeps its decimal text,
/// with a leading `-` where a unary minus was folded into it.
#[derive(Clone, Debug, PartialEq)]
pub enum Token {
    Number(String),
    Plus,
    Minus,
    Multiply,
    Divide,
    OpenParen,
    CloseParen,
}

/// The mathematical value of a `Token`.
pub enum Symbol {
    Number(Seq<char>),
    Plus,
    Minus,
    Multiply,
    Divide,
    OpenParen,
    CloseParen,
}

impl View for Token {
    type V = Symbol;

    open spec fn view(&self) -> Symbol {
        match self {
            Token::Number(s) => Symbol::Number(s@),
            Token::Plus => Symbol::Plus,
            Token::Minus => Symbol::Minus,
            Token::Multiply => Symbol::Multiply,
            Token::Divide => Symbol::Divide,
            Token::OpenParen => Symbol::OpenParen,
            Token::CloseParen => Symbol::CloseParen,
        }
    }
}

pub open spec fn symbols(v: Seq<Token>) -> Seq<Symbol> {
    v.map_values(|t: Token| t@)
}

pub open spec fn tokens_result(r: Result<Vec<Token>, ParseError>) -> Result<Seq<Symbol>, ParseErrorKind> {
    match r {
        Ok(v) => Ok(symbols(v@)),
        Err(e) => Err(e@),
    }
}

/// `s` with every white-space character removed.
pub open spec fn strip(s: Seq<char>) -> Seq<char>
    decreases s.len(),
{
    if s.len() == 0 {
        s
    } else if white_space(s.last()) {
        strip(s.drop_last())
    } else {
        strip(s.drop_last()).push(s.last())
    }
}

pub open spec fn is_number_char(c: char) -> bool {
    is_digit(c) || c == '.'
}

pub open spec fn is_operator_char(c: char) -> bool {
    c == '+' || c == '-' || c == '*' || c == '/'
}

/// The end of the run of digits and points that starts at `p`.
pub open spec fn run_end(s: Seq<char>, p: int) -> int
    decreases s.len() - p,
{
    if 0 <= p < s.len() && is_number_char(s[p]) {
        run_end(s, p + 1)
    } else {
        p
    }
}

pub open spec fn count_points(t: Seq<char>) -> nat
    decreases t.len(),
{
    if t.len() == 0 {
        0
    } else {
        count_points(t.drop_last()) + if t.last() == '.' {
            1nat
        } else {
            0nat
        }
    }
}

pub open spec fn has_digit(t: Seq<char>) -> bool {
    exists|i: int| 0 <= i < t.len() && is_digit(t[i])
}

/// The numeral that starts at `p`, with the position after it: a run of digits
/// and points, with at most one point and at least one digit.
pub open spec fn numeral_at(s: Seq<char>, p: int) -> Result<(Seq<char>, int), ParseErrorKind> {
    let e = run_end(s, p);
    let t = s.subrange(p, e);
    if count_points(t) > 1 {
        Err(ParseErrorKind::SyntaxError(SyntaxReason::MultipleDecimalPoints))
    } else if !has_digit(t) {
        Err(ParseErrorKind::ParseNumberError(t))
    } else {
        Ok((t, e))
    }
}

/// A `-` at `p` is unary where it opens the text or follows `(` or an operator.
pub open spec fn unary_context(s: Seq<char>, p: int) -> bool {
    p == 0 || s[p - 1] == '(' || is_operator_char(s[p - 1])
}

pub open spec fn prepend(x: Symbol, r: Result<Seq<Symbol>, ParseErrorKind>) -> Result<Seq<Symbol>, ParseErrorKind> {
    match r {
        Ok(t) => Ok(seq![x] + t),
        Err(e) => Err(e),
    }
}

pub open spec fn append_to(pre: Seq<Symbol>, r: Result<Seq<Symbol>, ParseErrorKind>) -> Result<Seq<Symbol>, ParseErrorKind> {
    match r {
        Ok(t) => Ok(pre + t),
        Err(e) => Err(e),
    }
}

pub proof fn lemma_run_end(s: Seq<char>, p: int)
    requires
        0 <= p,
    ensures
        p <= run_end(s, p),
        run_end(s, p) <= s.len() || run_end(s, p) == p,
        forall|k: int| p <= k < run_end(s, p) ==> is_number_char(#[trigger] s[k]),
        run_end(s, p) < s.len() ==> !is_number_char(s[run_end(s, p)]),
    decreases s.len() - p,
{
    if p < s.len() && is_number_char(s[p]) {
        lemma_run_end(s, p + 1);
    }
}

/// The tokens of `s` from position `p` on, or the first error met there.
pub open spec fn scan_from(s: Seq<char>, p: int) -> Result<Seq<Symbol>, ParseErrorKind>
    decreases s.len() - p,
{
    if p < 0 || p >= s.len() {
        Ok(Seq::empty())
    } else {
        let c = s[p];
        if is_number_char(c) {
            proof {
                lemma_run_end(s, p);
            }
            match numeral_at(s, p) {
                Ok((t, e)) => prepend(Symbol::Number(t), scan_from(s, e)),
                Err(err) => Err(err),
            }
        } else if c == '-' && unary_context(s, p) {
            if p + 1 < s.len() && is_number_char(s[p + 1]) {
                proof {
                    lemma_run_end(s, p + 1);
                }
                match numeral_at(s, p + 1) {
                    Ok((t, e)) => prepend(Symbol::Number(seq!['-'] + t), scan_from(s, e)),
                    Err(err) => Err(err),
                }
            } else {
                Err(ParseErrorKind::SyntaxError(SyntaxReason::InvalidMinus))
            }
        } else if c == '+' {
            prepend(Symbol::Plus, scan_from(s, p + 1))
        } else if c == '-' {
            prepend(Symbol::Minus, scan_from(s, p + 1))
        } else if c == '*' {
            prepend(Symbol::Multiply, scan_from(s, p + 1))
        } else if c == '/' {
            prepend(Symbol::Divide, scan_from(s, p + 1))
        } else if c == '(' {
            prepend(Symbol::OpenParen, scan_from(s, p + 1))
        } else if c == ')' {
            prepend(Symbol::CloseParen, scan_from(s, p + 1))
        } else {
            Err(ParseErrorKind::InvalidCharacter(c))
        }
    }
}

pub proof fn lemma_run_end_skip(s: Seq<char>, p: int, m: int)
    requires
        0 <= p <= m <= s.len(),
        forall|k: int| p <= k < m ==> is_number_char(#[trigger] s[k]),
    ensures
        run_end(s, p) == run_end(s, m),
    decreases m - p,
{
    if p < m {
        lemma_run_end_skip(s, p + 1, m);
    }
}

pub proof fn lemma_count_points_prefix(t: Seq<char>, n: int)
    requires
        0 <= n <= t.len(),
    ensures
        count_points(t.subrange(0, n)) <= count_points(t),
    decreases t.len(),
{
    if n < t.len() {
        lemma_count_points_prefix(t.drop_last(), n);
        assert(t.drop_last().subrange(0, n) =~= t.subrange(0, n));
    } else {
        assert(t.subrange(0, n) =~= t);
    }
}

proof fn lemma_append_step(pre: Seq<Symbol>, x: Symbol, r: Result<Seq<Symbol>, ParseErrorKind>)
    ensures
        append_to(pre, prepend(x, r)) == append_to(pre.push(x), r),
{
    if let Ok(t) = r {
        assert(pre + (seq![x] + t) =~= pre.push(x) + t);
    }
}

proof fn lemma_symbols_push(v: Seq<Token>, x: Token)
    ensures
        symbols(v.push(x)) == symbols(v).push(x@),
{
    assert(symbols(v.push(x)) =~= symbols(v).push(x@));
}

/// Relies on `String::push`: appends one character at the end.
#[verifier::external_body]
fn push_char(s: &mut String, c: char)
    ensures
        final(s)@ == old(s)@.push(c),
{
    s.push(c)
}

/// Reads the numeral that starts at `start`: its text and the position after it.
fn read_number(chars: &Vec<char>, start: usize) -> (r: Result<(String, usize), ParseError>)
    requires
        start < chars.len(),
    ensures
        match numeral_at(chars@, start as int) {
            Ok((t, e)) => r is Ok && r->Ok_0.0@ == t && r->Ok_0.1 == e,
            Err(k) => r is Err && r->Err_0@ == k,
        },
{
    let ghost s = chars@;
    let mut text = String::new();
    let mut pos: usize = start;
    let mut has_decimal = false;
    let mut seen_digit = false;
    assert(s.subrange(start as int, start as int) =~= Seq::<char>::empty());
    while pos < chars.len()
        invariant
            s == chars@,
            start <= pos <= chars.len(),
            forall|k: int| start <= k < pos ==> is_number_char(#[trigger] s[k]),
            count_points(s.subrange(start as int, pos as int)) == if has_decimal {
                1nat
            } else {
                0nat
            },
            seen_digit == has_digit(s.subrange(start as int, pos as int)),
            text@ == s.subrange(start as int, pos as int),
        ensures
            start <= pos <= chars.len(),
            forall|k: int| start <= k < pos ==> is_number_char(#[trigger] s[k]),
            count_points(s.subrange(start as int, pos as int)) <= 1,
            seen_digit == has_digit(s.subrange(start as int, pos as int)),
            text@ == s.subrange(start as int, pos as int),
            pos == chars.len() || !is_number_char(s[pos as int]),
        decreases chars.len() - pos,
    {
        let c = chars[pos];
        let ghost before = s.subrange(start as int, pos as int);
        let ghost after = s.subrange(start as int, pos + 1);
        assert(after.drop_last() =~= before);
        if '0' <= c && c <= '9' {
            push_char(&mut text, c);
            seen_digit = true;
            pos = pos + 1;
            assert(is_digit(after[after.len() - 1]));
        } else if c == '.' {
            if has_decimal {
                proof {
                    lemma_run_end_skip(s, start as int, pos + 1);
                    lemma_run_end(s, pos + 1);
                    let e = run_end(s, start as int);
                    lemma_count_points_prefix(s.subrange(start as int, e), pos + 1 - start);
                    assert(s.subrange(start as int, e).subrange(0, pos + 1 - start) =~= after);
                }
                return Err(ParseError::SyntaxError(SyntaxReason::MultipleDecimalPoints));
            }
            has_decimal = true;
            push_char(&mut text, c);
            pos = pos + 1;
            assert(has_digit(after) == has_digit(before)) by {
                if has_digit(after) {
                    let i = choose|i: int| 0 <= i < after.len() && is_digit(after[i]);
                    assert(before[i] == after[i]);
                }
            }
        } else {
            break;
        }
        assert(text@ =~= after);
    }
    proof {
        lemma_run_end_skip(s, start as int, pos as int);
    }
    if !seen_digit {
        return Err(ParseError::EvaluationError(EvaluationError::ParseNumberError { value: text }));
    }
    Ok((text, pos))
}

/// Splits white-space-free text into tokens, from left to right; the first
/// character that cannot start or continue a token ends the scan with its error.
pub fn scan(chars: &Vec<char>) -> (r: Result<Vec<Token>, ParseError>)
    ensures
        tokens_result(r) == scan_from(chars@, 0),
{
    let ghost s = chars@;
    let mut tokens: Vec<Token> = Vec::new();
    let mut pos: usize = 0;
    assert(symbols(tokens@) =~= Seq::<Symbol>::empty());
    while pos < chars.len()
        invariant
            s == chars@,
            pos <= chars.len(),
            scan_from(s, 0) == append_to(symbols(tokens@), scan_from(s, pos as int)),
        decreases chars.len() - pos,
    {
        let c = chars[pos];
        let ghost pre = symbols(tokens@);
        if ('0' <= c && c <= '9') || c == '.' {
            match read_number(chars, pos) {
                Ok((lit, end)) => {
                    proof {
                        lemma_run_end(s, pos as int);
                        lemma_append_step(pre, Symbol::Number(lit@), scan_from(s, end as int));
                        lemma_symbols_push(tokens@, Token::Number(lit));
                    }
                    tokens.push(Token::Number(lit));
                    pos = end;
                },
                Err(e) => {
                    return Err(e);
                },
            }
        } else if c == '-' && (pos == 0 || chars[pos - 1] == '(' || chars[pos - 1] == '+'
            || chars[pos - 1] == '-' || chars[pos - 1] == '*' || chars[pos - 1] == '/') {
            if pos + 1 < chars.len() && (('0' <= chars[pos + 1] && chars[pos + 1] <= '9')
                || chars[pos + 1] == '.') {
                match read_number(chars, pos + 1) {
                    Ok((lit, end)) => {
                        let mut text = String::new();
                        push_char(&mut text, '-');
                        text.append(lit.as_str());
                        proof {
                            lemma_run_end(s, pos + 1);
                            assert(text@ =~= seq!['-'] + lit@);
                            lemma_append_step(pre, Symbol::Number(text@), scan_from(s, end as int));
                            lemma_symbols_push(tokens@, Token::Number(text));
                        }
                        tokens.push(Token::Number(text));
                        pos = end;
                    },
                    Err(e) => {
                        return Err(e);
                    },
                }
            } else {
                return Err(ParseError::SyntaxError(SyntaxReason::InvalidMinus));
            }
        } else {
            let t = match c {
                '+' => Token::Plus,
                '-' => Token::Minus,
                '*' => Token::Multiply,
                '/' => Token::Divide,
                '(' => Token::OpenParen,
                ')' => Token::CloseParen,
                _ => {
                    return Err(ParseError::InvalidCharacter(c));
                },
            };
            proof {
                lemma_append_step(pre, t@, scan_from(s, pos + 1));
                lemma_symbols_push(tokens@, t);
            }
            tokens.push(t);
            pos = pos + 1;
        }
    }
    assert(symbols(tokens@) + Seq::<Symbol>::empty() =~= symbols(tokens@));
    Ok(tokens)
}

pub open spec fn is_operator(x: Symbol) -> bool {
    x is Plus || x is Minus || x is Multiply || x is Divide
}

/// Open minus closed parentheses among the first `n` symbols.
pub open spec fn depth(t: Seq<Symbol>, n: int) -> int
    decreases n,
{
    if n <= 0 {
        0
    } else {
        depth(t, n - 1) + if t[n - 1] is OpenParen {
            1int
        } else if t[n - 1] is CloseParen {
            -1int
        } else {
            0int
        }
    }
}

/// Some prefix closes more parentheses than it opens.
pub open spec fn unopened(t: Seq<Symbol>) -> bool {
    exists|n: int| 0 < n <= t.len() && #[trigger] depth(t, n) < 0
}

/// The adjacency rule that the symbol at `i` breaks, if any.
pub open spec fn violation_at(t: Seq<Symbol>, i: int) -> Option<SyntaxReason> {
    let x = t[i];
    let has_next = i + 1 < t.len();
    if is_operator(x) {
        if i == 0 {
            Some(SyntaxReason::StartsWithOperator)
        } else if !has_next {
            Some(SyntaxReason::EndsWithOperator)
        } else if is_operator(t[i + 1]) {
            Some(SyntaxReason::TwoOperatorsInARow)
        } else if t[i + 1] is CloseParen {
            Some(SyntaxReason::OperatorBeforeClosingParenthesis)
        } else {
            None
        }
    } else if x is OpenParen {
        if has_next && (t[i + 1] is Plus || t[i + 1] is Multiply || t[i + 1] is Divide) {
            Some(SyntaxReason::OperatorAfterOpeningParenthesis)
        } else if has_next && t[i + 1] is CloseParen {
            Some(SyntaxReason::EmptyParentheses)
        } else {
            None
        }
    } else if x is CloseParen {
        if i > 0 && is_operator(t[i - 1]) {
            Some(SyntaxReason::ClosingParenthesisAfterOperator)
        } else if i > 0 && t[i - 1] is OpenParen {
            Some(SyntaxReason::EmptyParentheses)
        } else if has_next && t[i + 1] is Number {
            Some(SyntaxReason::NumberAfterClosingParenthesis)
        } else {
            None
        }
    } else if has_next && t[i + 1] is OpenParen {
        Some(SyntaxReason::OpeningParenthesisAfterNumber)
    } else {
        None
    }
}

/// The rule broken at the first position from `i` on that breaks one.
pub open spec fn first_violation(t: Seq<Symbol>, i: int) -> Option<SyntaxReason>
    decreases t.len() - i,
{
    if i < 0 || i >= t.len() {
        None
    } else if violation_at(t, i) is Some {
        violation_at(t, i)
    } else {
        first_violation(t, i + 1)
    }
}

/// What is wrong with a token sequence as a whole: emptiness, then the balance
/// of parentheses, then the first broken adjacency rule.
pub open spec fn sequence_fault(t: Seq<Symbol>) -> Option<ParseErrorKind> {
    if t.len() == 0 {
        Some(ParseErrorKind::EmptyInputPassed)
    } else if unopened(t) {
        Some(ParseErrorKind::UnopenedParenthesis)
    } else if depth(t, t.len() as int) > 0 {
        Some(ParseErrorKind::MissingClosingParenthesis)
    } else {
        match first_violation(t, 0) {
            Some(r) => Some(ParseErrorKind::SyntaxError(r)),
            None => None,
        }
    }
}

/// The tokens of a white-space-free text, or why it is not an expression.
pub open spec fn tokenize_spec(s: Seq<char>) -> Result<Seq<Symbol>, ParseErrorKind> {
    if s.len() == 0 {
        Err(ParseErrorKind::EmptyInputPassed)
    } else {
        match scan_from(s, 0) {
            Err(e) => Err(e),
            Ok(t) => match sequence_fault(t) {
                Some(e) => Err(e),
                None => Ok(t),
            },
        }
    }
}

fn is_operator_token(x: &Token) -> (r: bool)
    ensures
        r == is_operator(x@),
{
    match x {
        Token::Plus | Token::Minus | Token::Multiply | Token::Divide => true,
        _ => false,
    }
}

fn violation(tokens: &Vec<Token>, i: usize) -> (r: Option<SyntaxReason>)
    requires
        i < tokens.len(),
    ensures
        r == violation_at(symbols(tokens@), i as int),
{
    let has_next = i + 1 < tokens.len();
    match &tokens[i] {
        Token::Plus | Token::Minus | Token::Multiply | Token::Divide => {
            if i == 0 {
                Some(SyntaxReason::StartsWithOperator)
            } else if !has_next {
                Some(SyntaxReason::EndsWithOperator)
            } else if is_operator_token(&tokens[i + 1]) {
                Some(SyntaxReason::TwoOperatorsInARow)
            } else if let Token::CloseParen = &tokens[i + 1] {
                Some(SyntaxReason::OperatorBeforeClosingParenthesis)
            } else {
                None
            }
        },
        Token::OpenParen => {
            if !has_next {
                None
            } else {
                match &tokens[i + 1] {
                    Token::Plus | Token::Multiply | Token::Divide => Some(
                        SyntaxReason::OperatorAfterOpeningParenthesis,
                    ),
                    Token::CloseParen => Some(SyntaxReason::EmptyParentheses),
                    _ => None,
                }
            }
        },
        Token::CloseParen => {
            if i > 0 && is_operator_token(&tokens[i - 1]) {
                Some(SyntaxReason::ClosingParenthesisAfterOperator)
            } else if i > 0 && matches!(&tokens[i - 1], Token::OpenParen) {
                Some(SyntaxReason::EmptyParentheses)
            } else if has_next && matches!(&tokens[i + 1], Token::Number(_)) {
                Some(SyntaxReason::NumberAfterClosingParenthesis)
            } else {
                None
            }
        },
        Token::Number(_) => {
            if has_next && matches!(&tokens[i + 1], Token::OpenParen) {
                Some(SyntaxReason::OpeningParenthesisAfterNumber)
            } else {
                None
            }
        },
    }
}

/// Checks a whole token sequence: it is not empty, its parentheses balance, and
/// no two neighbouring tokens form a forbidden pair.
pub fn validate_token_sequence(tokens: &Vec<Token>) -> (r: Result<(), ParseError>)
    ensures
        match sequence_fault(symbols(tokens@)) {
            None => r is Ok,
            Some(k) => r is Err && r->Err_0@ == k,
        },
{
    let ghost t = symbols(tokens@);
    if tokens.len() == 0 {
        return Err(ParseError::EmptyInputPassed);
    }
    let mut balance: usize = 0;
    let mut i: usize = 0;
    while i < tokens.len()
        invariant
            t == symbols(tokens@),
            i <= tokens.len(),
            balance as int == depth(t, i as int),
            balance <= i,
            forall|n: int| 0 < n <= i ==> #[trigger] depth(t, n) >= 0,
        decreases tokens.len() - i,
    {
        match &tokens[i] {
            Token::OpenParen => {
                balance = balance + 1;
            },
            Token::CloseParen => {
                if balance == 0 {
                    assert(depth(t, i + 1) < 0);
                    return Err(ParseError::UnopenedParenthesis);
                }
                balance = balance - 1;
            },
            _ => {},
        }
        i = i + 1;
    }
    if balance > 0 {
        return Err(ParseError::MissingClosingParenthesis);
    }
    assert(!unopened(t));
    assert(depth(t, t.len() as int) == 0);
    let mut i: usize = 0;
    while i < tokens.len()
        invariant
            t == symbols(tokens@),
            t.len() > 0,
            !unopened(t),
            depth(t, t.len() as int) == 0,
            i <= tokens.len(),
            first_violation(t, 0) == first_violation(t, i as int),
        decreases tokens.len() - i,
    {
        if let Some(reason) = violation(tokens, i) {
            return Err(ParseError::SyntaxError(reason));
        }
        i = i + 1;
    }
    Ok(())
}

/// Turns one line of text into tokens. It keeps the line with white space removed.
pub struct Lexer {
    input: Vec<char>,
}

impl View for Lexer {
    type V = Seq<char>;

    closed spec fn view(&self) -> Seq<char> {
        self.input@
    }
}

impl Lexer {
    pub fn new(input: String) -> (r: Self)
        ensures
            r@ == strip(input@),
    {
        let mut kept: Vec<char> = Vec::new();
        let ghost mut n: int = 0;
        for c in it: input.chars()
            invariant
                it.seq() == input@,
                n == it.index(),
                kept@ == strip(input@.take(n)),
        {
            proof {
                assert(input@.take(n + 1).drop_last() =~= input@.take(n));
            }
            if !is_white_space(c) {
                kept.push(c);
            }
            proof {
                n = n + 1;
            }
        }
        assert(input@.take(n) =~= input@);
        Lexer { input: kept }
    }

    /// The tokens of the line, after all checks on the sequence.
    pub fn tokenize(&self) -> (r: Result<Vec<Token>, ParseError>)
        ensures
            tokens_result(r) == tokenize_spec(self@),
    {
        tokenize_chars(&self.input)
    }
}

/// The tokens of a white-space-free text, after all checks on the sequence.
pub fn tokenize_chars(chars: &Vec<char>) -> (r: Result<Vec<Token>, ParseError>)
    ensures
        tokens_result(r) == tokenize_spec(chars@),
{
    if chars.len() == 0 {
        return Err(ParseError::EmptyInputPassed);
    }
    let tokens = match scan(chars) {
        Ok(t) => t,
        Err(e) => {
            return Err(e);
        },
    };
    match validate_token_sequence(&tokens) {
        Ok(()) => Ok(tokens),
        Err(e) => Err(e),
    }
}

} // verus!
