use vstd::prelude::*;

use crate::calculator::compile_spec;
use crate::errors::ParseErrorKind;
use crate::lexer::tokenize_spec;
use crate::parser::{parse_spec, primary_spec, product_rest, product_spec, sum_rest, sum_spec, Instr};
use crate::utils::white_space;
use crate::lexer::{
    count_points, depth, has_digit, strip, first_violation, is_number_char, is_operator, numeral_at, run_end, scan_from,
    sequence_fault, unary_context, unopened, violation_at, Symbol,
};

verus! {

/// `s` between one pair of parentheses.
pub open spec fn parenthesize(s: Seq<char>) -> Seq<char> {
    seq!['('] + s + seq![')']
}

proof fn lemma_run_end_shift(s: Seq<char>, k: int)
    requires
        0 <= k <= s.len(),
    ensures
        run_end(parenthesize(s), k + 1) == run_end(s, k) + 1,
    decreases s.len() - k,
{
    let w = parenthesize(s);
    if k < s.len() {
        assert(w[k + 1] == s[k]);
        lemma_run_end_shift(s, k + 1);
    } else {
        assert(w[k + 1] == ')');
    }
}

proof fn lemma_numeral_shift(s: Seq<char>, k: int)
    requires
        0 <= k <= s.len(),
    ensures
        numeral_at(parenthesize(s), k + 1) == match numeral_at(s, k) {
            Ok((t, e)) => Ok((t, e + 1)),
            Err(x) => Err::<(Seq<char>, int), ParseErrorKind>(x),
        },
{
    let w = parenthesize(s);
    lemma_run_end_shift(s, k);
    crate::lexer::lemma_run_end(s, k);
    let e = run_end(s, k);
    assert(w.subrange(k + 1, e + 1) =~= s.subrange(k, e));
}

/// Scanning the parenthesized text from `k + 1` is scanning the text from `k`,
/// with one closing parenthesis more at the end.
proof fn lemma_scan_shift(s: Seq<char>, k: int)
    requires
        0 <= k <= s.len(),
    ensures
        scan_from(parenthesize(s), k + 1) == match scan_from(s, k) {
            Ok(t) => Ok(t.push(Symbol::CloseParen)),
            Err(e) => Err::<Seq<Symbol>, ParseErrorKind>(e),
        },
    decreases s.len() - k,
{
    let w = parenthesize(s);
    if k == s.len() {
        assert(w[k + 1] == ')');
        assert(scan_from(w, k + 2) == Ok::<Seq<Symbol>, ParseErrorKind>(Seq::empty()));
        assert(seq![Symbol::CloseParen] + Seq::<Symbol>::empty() =~= Seq::<Symbol>::empty().push(Symbol::CloseParen));
    } else {
        let c = s[k];
        assert(w[k + 1] == c);
        if k > 0 {
            assert(w[k] == s[k - 1]);
        }
        assert(unary_context(w, k + 1) == unary_context(s, k));
        if is_number_char(c) {
            lemma_numeral_shift(s, k);
            crate::lexer::lemma_run_end(s, k);
            if let Ok((t, e)) = numeral_at(s, k) {
                lemma_scan_shift(s, e);
                if let Ok(rest) = scan_from(s, e) {
                    assert(seq![Symbol::Number(t)] + rest.push(Symbol::CloseParen) =~= (seq![Symbol::Number(t)] + rest).push(Symbol::CloseParen));
                }
            }
        } else if c == '-' && unary_context(s, k) {
            if k + 1 < s.len() {
                assert(w[k + 2] == s[k + 1]);
            } else {
                assert(w[k + 2] == ')');
            }
            if k + 1 < s.len() && is_number_char(s[k + 1]) {
                lemma_numeral_shift(s, k + 1);
                crate::lexer::lemma_run_end(s, k + 1);
                if let Ok((t, e)) = numeral_at(s, k + 1) {
                    lemma_scan_shift(s, e);
                    if let Ok(rest) = scan_from(s, e) {
                        let x = Symbol::Number(seq!['-'] + t);
                        assert(seq![x] + rest.push(Symbol::CloseParen) =~= (seq![x] + rest).push(Symbol::CloseParen));
                    }
                }
            }
        } else {
            lemma_scan_shift(s, k + 1);
            if let Ok(rest) = scan_from(s, k + 1) {
                let x = scan_from(s, k)->Ok_0[0];
                assert(seq![x] + rest.push(Symbol::CloseParen) =~= (seq![x] + rest).push(Symbol::CloseParen));
            }
        }
    }
}

/// `t` between an opening and a closing parenthesis.
pub open spec fn enclose(t: Seq<Symbol>) -> Seq<Symbol> {
    seq![Symbol::OpenParen] + t + seq![Symbol::CloseParen]
}

proof fn lemma_depth_enclose(t: Seq<Symbol>, n: int)
    requires
        0 <= n <= t.len(),
    ensures
        depth(enclose(t), n + 1) == 1 + depth(t, n),
    decreases n,
{
    let w = enclose(t);
    assert(depth(w, 0) == 0);
    assert(depth(t, 0) == 0);
    if n > 0 {
        lemma_depth_enclose(t, n - 1);
        assert(w[n] == t[n - 1]);
    } else {
        assert(w[0] == Symbol::OpenParen);
    }
    assert(depth(w, n + 1) == depth(w, n) + if w[n] is OpenParen {
        1int
    } else if w[n] is CloseParen {
        -1int
    } else {
        0int
    });
}

proof fn lemma_first_violation_none(t: Seq<Symbol>, k: int)
    requires
        0 <= k <= t.len(),
    ensures
        first_violation(t, k) is None <==> forall|i: int|
            k <= i < t.len() ==> #[trigger] violation_at(t, i) is None,
    decreases t.len() - k,
{
    if k < t.len() {
        lemma_first_violation_none(t, k + 1);
    }
}

/// Enclosing a token sequence that passes every check in parentheses gives
/// a sequence that passes them too.
proof fn lemma_enclose_valid(t: Seq<Symbol>)
    requires
        sequence_fault(t) is None,
    ensures
        sequence_fault(enclose(t)) is None,
{
    let w = enclose(t);
    let n = t.len() as int;
    lemma_depth_enclose(t, n);
    assert(w[n + 1] == Symbol::CloseParen);
    assert(depth(w, n + 2) == depth(t, n));
    assert(!unopened(w)) by {
        assert forall|m: int| 0 < m <= w.len() implies #[trigger] depth(w, m) >= 0 by {
            if m <= n + 1 {
                lemma_depth_enclose(t, m - 1);
                if m - 1 > 0 {
                    assert(depth(t, m - 1) >= 0);
                }
            }
        }
    }
    lemma_first_violation_none(t, 0);
    lemma_first_violation_none(w, 0);
    // what may stand first and last in a valid sequence
    assert(violation_at(t, 0) is None);
    assert(violation_at(t, n - 1) is None);
    assert(!is_operator(t[0]));
    assert(!is_operator(t[n - 1]));
    assert(!(t[0] is CloseParen)) by {
        assert(depth(t, 0) == 0);
        assert(depth(t, 1) >= 0);
    }
    assert(!(t[n - 1] is OpenParen)) by {
        assert(depth(t, 0) == 0);
        assert(depth(t, n) >= 0);
        assert(depth(t, n) == 0);
        assert(depth(t, n - 1) >= 0);
        assert(depth(t, n) == depth(t, n - 1) + if t[n - 1] is OpenParen {
            1int
        } else if t[n - 1] is CloseParen {
            -1int
        } else {
            0int
        });
    }
    assert forall|i: int| 0 <= i < w.len() implies #[trigger] violation_at(w, i) is None by {
        if i == 0 {
            assert(w[1] == t[0]);
        } else if i == n + 1 {
            assert(w[n] == t[n - 1]);
        } else {
            assert(w[i] == t[i - 1]);
            assert(violation_at(t, i - 1) is None);
            if i > 1 {
                assert(w[i - 1] == t[i - 2]);
            } else {
                assert(w[i - 1] == Symbol::OpenParen);
            }
            if i < n {
                assert(w[i + 1] == t[i]);
            } else {
                assert(w[i + 1] == Symbol::CloseParen);
            }
        }
    }
}

proof fn lemma_positions_primary(t: Seq<Symbol>, k: int)
    requires
        0 <= k,
    ensures
        primary_spec(t, k).1 is Ok ==> k < primary_spec(t, k).1->Ok_0 <= t.len(),
    decreases t.len() - k, 0int,
{
    if k < t.len() && t[k] is OpenParen {
        lemma_positions_sum(t, k + 1);
    }
}

proof fn lemma_positions_product_rest(t: Seq<Symbol>, k: int)
    requires
        0 <= k <= t.len(),
    ensures
        product_rest(t, k).1 is Ok ==> k <= product_rest(t, k).1->Ok_0 <= t.len(),
    decreases t.len() - k, 1int,
{
    if k < t.len() && (t[k] is Multiply || t[k] is Divide) {
        lemma_positions_primary(t, k + 1);
        if let Ok(q) = primary_spec(t, k + 1).1 {
            lemma_positions_product_rest(t, q);
        }
    }
}

proof fn lemma_positions_product(t: Seq<Symbol>, k: int)
    requires
        0 <= k,
    ensures
        product_spec(t, k).1 is Ok ==> k < product_spec(t, k).1->Ok_0 <= t.len(),
    decreases t.len() - k, 2int,
{
    lemma_positions_primary(t, k);
    if let Ok(q) = primary_spec(t, k).1 {
        lemma_positions_product_rest(t, q);
    }
}

proof fn lemma_positions_sum_rest(t: Seq<Symbol>, k: int)
    requires
        0 <= k <= t.len(),
    ensures
        sum_rest(t, k).1 is Ok ==> k <= sum_rest(t, k).1->Ok_0 <= t.len(),
    decreases t.len() - k, 3int,
{
    if k < t.len() && (t[k] is Plus || t[k] is Minus) {
        lemma_positions_product(t, k + 1);
        if let Ok(q) = product_spec(t, k + 1).1 {
            lemma_positions_sum_rest(t, q);
        }
    }
}

proof fn lemma_positions_sum(t: Seq<Symbol>, k: int)
    requires
        0 <= k,
    ensures
        sum_spec(t, k).1 is Ok ==> k < sum_spec(t, k).1->Ok_0 <= t.len(),
    decreases t.len() - k, 4int,
{
    lemma_positions_product(t, k);
    if let Ok(q) = product_spec(t, k).1 {
        lemma_positions_sum_rest(t, q);
    }
}

proof fn lemma_shift_primary(t: Seq<Symbol>, k: int)
    requires
        0 <= k,
        primary_spec(t, k).1 is Ok,
    ensures
        primary_spec(enclose(t), k + 1) == (primary_spec(t, k).0, Ok::<int, ParseErrorKind>(primary_spec(t, k).1->Ok_0 + 1)),
    decreases t.len() - k, 0int,
{
    let w = enclose(t);
    assert(w[k + 1] == t[k]);
    if t[k] is OpenParen {
        lemma_shift_sum(t, k + 1);
        let q = sum_spec(t, k + 1).1->Ok_0;
        assert(w[q + 1] == t[q]);
    }
}

proof fn lemma_shift_product_rest(t: Seq<Symbol>, k: int)
    requires
        0 <= k <= t.len(),
        product_rest(t, k).1 is Ok,
    ensures
        product_rest(enclose(t), k + 1) == (product_rest(t, k).0, Ok::<int, ParseErrorKind>(product_rest(t, k).1->Ok_0 + 1)),
    decreases t.len() - k, 1int,
{
    let w = enclose(t);
    if k < t.len() {
        assert(w[k + 1] == t[k]);
        if t[k] is Multiply || t[k] is Divide {
            lemma_positions_primary(t, k + 1);
            lemma_shift_primary(t, k + 1);
            let q = primary_spec(t, k + 1).1->Ok_0;
            lemma_shift_product_rest(t, q);
        }
    } else {
        assert(w[k + 1] == Symbol::CloseParen);
    }
}

proof fn lemma_shift_product(t: Seq<Symbol>, k: int)
    requires
        0 <= k,
        product_spec(t, k).1 is Ok,
    ensures
        product_spec(enclose(t), k + 1) == (product_spec(t, k).0, Ok::<int, ParseErrorKind>(product_spec(t, k).1->Ok_0 + 1)),
    decreases t.len() - k, 2int,
{
    lemma_positions_primary(t, k);
    lemma_shift_primary(t, k);
    let q = primary_spec(t, k).1->Ok_0;
    lemma_shift_product_rest(t, q);
}

proof fn lemma_shift_sum_rest(t: Seq<Symbol>, k: int)
    requires
        0 <= k <= t.len(),
        sum_rest(t, k).1 is Ok,
    ensures
        sum_rest(enclose(t), k + 1) == (sum_rest(t, k).0, Ok::<int, ParseErrorKind>(sum_rest(t, k).1->Ok_0 + 1)),
    decreases t.len() - k, 3int,
{
    let w = enclose(t);
    if k < t.len() {
        assert(w[k + 1] == t[k]);
        if t[k] is Plus || t[k] is Minus {
            lemma_positions_product(t, k + 1);
            lemma_shift_product(t, k + 1);
            let q = product_spec(t, k + 1).1->Ok_0;
            lemma_shift_sum_rest(t, q);
        }
    } else {
        assert(w[k + 1] == Symbol::CloseParen);
    }
}

proof fn lemma_shift_sum(t: Seq<Symbol>, k: int)
    requires
        0 <= k,
        sum_spec(t, k).1 is Ok,
    ensures
        sum_spec(enclose(t), k + 1) == (sum_spec(t, k).0, Ok::<int, ParseErrorKind>(sum_spec(t, k).1->Ok_0 + 1)),
    decreases t.len() - k, 4int,
{
    lemma_positions_product(t, k);
    lemma_shift_product(t, k);
    let q = product_spec(t, k).1->Ok_0;
    lemma_shift_sum_rest(t, q);
}

proof fn lemma_enclose_parse(t: Seq<Symbol>)
    requires
        parse_spec(t, 0).1 is None,
    ensures
        parse_spec(enclose(t), 0) == parse_spec(t, 0),
{
    let w = enclose(t);
    let n = t.len() as int;
    lemma_positions_sum(t, 0);
    lemma_shift_sum(t, 0);
    let s = sum_spec(t, 0).0;
    assert(w[n + 1] == Symbol::CloseParen);
    assert(primary_spec(w, 0) == (s, Ok::<int, ParseErrorKind>(n + 2)));
    assert(product_rest(w, n + 2) == (Seq::<Instr>::empty(), Ok::<int, ParseErrorKind>(n + 2)));
    assert(s + Seq::<Instr>::empty() =~= s);
    assert(product_spec(w, 0) == (s, Ok::<int, ParseErrorKind>(n + 2)));
    assert(sum_rest(w, n + 2) == (Seq::<Instr>::empty(), Ok::<int, ParseErrorKind>(n + 2)));
    assert(sum_spec(w, 0) == (s, Ok::<int, ParseErrorKind>(n + 2)));
}

/// A white-space-free text that compiles without error compiles to the same
/// program when it is put between one pair of parentheses.
pub proof fn lemma_parentheses_keep_program(s: Seq<char>)
    requires
        compile_spec(s) is Ok,
        compile_spec(s)->Ok_0.1 is None,
    ensures
        compile_spec(parenthesize(s)) == compile_spec(s),
{
    let w = parenthesize(s);
    let t = tokenize_spec(s)->Ok_0;
    lemma_scan_shift(s, 0);
    assert(w[0] == '(');
    assert(seq![Symbol::OpenParen] + t.push(Symbol::CloseParen) =~= enclose(t));
    assert(scan_from(w, 0) == Ok::<Seq<Symbol>, ParseErrorKind>(enclose(t)));
    lemma_enclose_valid(t);
    lemma_enclose_parse(t);
}

/// `s` inside `n` nested pairs of parentheses.
pub open spec fn wrap(s: Seq<char>, n: nat) -> Seq<char>
    decreases n,
{
    if n == 0 {
        s
    } else {
        parenthesize(wrap(s, (n - 1) as nat))
    }
}

proof fn lemma_nested_stripped(s: Seq<char>, n: nat)
    requires
        compile_spec(s) is Ok,
        compile_spec(s)->Ok_0.1 is None,
    ensures
        compile_spec(wrap(s, n)) == compile_spec(s),
    decreases n,
{
    if n > 0 {
        lemma_nested_stripped(s, (n - 1) as nat);
        lemma_parentheses_keep_program(wrap(s, (n - 1) as nat));
    }
}

proof fn lemma_strip_concat(a: Seq<char>, b: Seq<char>)
    ensures
        strip(a + b) == strip(a) + strip(b),
    decreases b.len(),
{
    if b.len() == 0 {
        assert(a + b =~= a);
        assert(strip(a) + strip(b) =~= strip(a));
    } else {
        lemma_strip_concat(a, b.drop_last());
        assert((a + b).drop_last() =~= a + b.drop_last());
        assert((a + b).last() == b.last());
        if !white_space(b.last()) {
            assert(strip(a) + strip(b.drop_last()).push(b.last()) =~= (strip(a) + strip(b.drop_last())).push(b.last()));
        }
    }
}

proof fn lemma_strip_one(c: char)
    requires
        !white_space(c),
    ensures
        strip(seq![c]) == seq![c],
{
    let x = seq![c];
    assert(x.drop_last() =~= Seq::<char>::empty());
    assert(strip(Seq::<char>::empty()) == Seq::<char>::empty());
    assert(Seq::<char>::empty().push(c) =~= x);
}

proof fn lemma_strip_wrap(s: Seq<char>, n: nat)
    ensures
        strip(wrap(s, n)) == wrap(strip(s), n),
    decreases n,
{
    if n > 0 {
        let inner = wrap(s, (n - 1) as nat);
        lemma_strip_wrap(s, (n - 1) as nat);
        lemma_strip_concat(seq!['('], inner);
        lemma_strip_concat(seq!['('] + inner, seq![')']);
        lemma_strip_one('(');
        lemma_strip_one(')');
    }
}

/// Any number of balanced pairs of parentheses around a line that compiles
/// without error leave its program, and so its value, unchanged.
pub proof fn lemma_nested_parentheses_keep_program(s: Seq<char>, n: nat)
    requires
        compile_spec(strip(s)) is Ok,
        compile_spec(strip(s))->Ok_0.1 is None,
    ensures
        compile_spec(strip(wrap(s, n))) == compile_spec(strip(s)),
{
    lemma_strip_wrap(s, n);
    lemma_nested_stripped(strip(s), n);
}

/// `d` without a leading minus.
pub open spec fn unsigned_part(d: Seq<char>) -> Seq<char> {
    if d.len() > 0 && d[0] == '-' {
        d.drop_first()
    } else {
        d
    }
}

/// A decimal numeral as the calculator prints values: an optional leading
/// minus, then digits with at most one point among them.
pub open spec fn is_numeral(d: Seq<char>) -> bool {
    let body = unsigned_part(d);
    &&& body.len() > 0
    &&& forall|i: int| 0 <= i < body.len() ==> is_number_char(#[trigger] body[i])
    &&& count_points(body) <= 1
    &&& has_digit(body)
}

proof fn lemma_strip_kept(d: Seq<char>)
    requires
        forall|i: int| 0 <= i < d.len() ==> !white_space(#[trigger] d[i]),
    ensures
        strip(d) == d,
    decreases d.len(),
{
    if d.len() > 0 {
        let x = d.drop_last();
        assert forall|i: int| 0 <= i < x.len() implies !white_space(#[trigger] x[i]) by {
            assert(x[i] == d[i]);
        }
        lemma_strip_kept(x);
        assert(x.push(d.last()) =~= d);
    }
}

proof fn lemma_strip_numeral(d: Seq<char>)
    requires
        is_numeral(d),
    ensures
        strip(d) == d,
{
    assert forall|i: int| 0 <= i < d.len() implies !white_space(#[trigger] d[i]) by {
        if d[0] == '-' {
            if i > 0 {
                assert(d[i] == unsigned_part(d)[i - 1]);
                assert(is_number_char(unsigned_part(d)[i - 1]));
            }
        } else {
            assert(is_number_char(unsigned_part(d)[i]));
        }
    }
    lemma_strip_kept(d);
}

/// A numeral, read back as an expression, compiles to the program that
/// pushes exactly that numeral: its value comes back unchanged.
pub proof fn lemma_numeral_round_trip(d: Seq<char>)
    requires
        is_numeral(d),
    ensures
        compile_spec(strip(d)) == Ok::<(Seq<Instr>, Option<ParseErrorKind>), ParseErrorKind>(
            (seq![Instr::Push(d)], None),
        ),
{
    lemma_strip_numeral(d);
    let n = d.len() as int;
    let start: int = if d[0] == '-' {
        1
    } else {
        0
    };
    assert forall|k: int| start <= k < n implies is_number_char(#[trigger] d[k]) by {
        assert(is_number_char(unsigned_part(d)[k - start]));
    }
    crate::lexer::lemma_run_end_skip(d, start, n);
    assert(run_end(d, n) == n);
    if start == 1 {
        assert(d.subrange(1, n) =~= d.drop_first());
        assert(seq!['-'] + d.subrange(1, n) =~= d);
        assert(d[1] == d.drop_first()[0]);
    } else {
        assert(d.subrange(0, n) =~= d);
    }
    assert(scan_from(d, n) == Ok::<Seq<Symbol>, ParseErrorKind>(Seq::empty()));
    let t = seq![Symbol::Number(d)];
    assert(seq![Symbol::Number(d)] + Seq::<Symbol>::empty() =~= t);
    assert(scan_from(d, 0) == Ok::<Seq<Symbol>, ParseErrorKind>(t));
    assert(depth(t, 0) == 0);
    assert(depth(t, 1) == 0);
    assert(!unopened(t));
    assert(first_violation(t, 1) is None);
    assert(first_violation(t, 0) is None);
    assert(sequence_fault(t) is None);
    let p = seq![Instr::Push(d)];
    assert(p + Seq::<Instr>::empty() =~= p);
    assert(primary_spec(t, 0) == (p, Ok::<int, ParseErrorKind>(1)));
    assert(product_spec(t, 0) == (p, Ok::<int, ParseErrorKind>(1)));
    assert(sum_spec(t, 0) == (p, Ok::<int, ParseErrorKind>(1)));
}

/// Compiling is a function of the text with white space removed: two lines
/// that agree on it compile to the same program, or fail with the same error.
pub proof fn lemma_compile_deterministic(a: Seq<char>, b: Seq<char>)
    requires
        strip(a) == strip(b),
    ensures
        compile_spec(strip(a)) == compile_spec(strip(b)),
{
}

/// The number of values on the stack after running `steps` on a stack of
/// `d` values, or `None` where an operator finds fewer than two.
pub open spec fn stack_after(steps: Seq<Instr>, d: int) -> Option<int>
    decreases steps.len(),
{
    if steps.len() == 0 {
        Some(d)
    } else {
        match steps[0] {
            Instr::Push(_) => stack_after(steps.drop_first(), d + 1),
            Instr::Apply(_) => if d >= 2 {
                stack_after(steps.drop_first(), d - 1)
            } else {
                None
            },
        }
    }
}

proof fn lemma_stack_concat(a: Seq<Instr>, b: Seq<Instr>, d: int)
    ensures
        stack_after(a + b, d) == match stack_after(a, d) {
            Some(e) => stack_after(b, e),
            None => None,
        },
    decreases a.len(),
{
    if a.len() == 0 {
        assert(a + b =~= b);
    } else {
        assert((a + b).drop_first() =~= a.drop_first() + b);
        assert((a + b)[0] == a[0]);
        lemma_stack_concat(a.drop_first(), b, d + 1);
        lemma_stack_concat(a.drop_first(), b, d - 1);
    }
}

proof fn lemma_stack_apply(op: crate::utils::ArithmeticOperationSign, d: int)
    requires
        d >= 2,
    ensures
        stack_after(seq![Instr::Apply(op)], d) == Some(d - 1),
{
    assert(seq![Instr::Apply(op)].drop_first() =~= Seq::<Instr>::empty());
    assert(stack_after(Seq::<Instr>::empty(), d - 1) == Some(d - 1));
}

proof fn lemma_stack_primary(t: Seq<Symbol>, k: int, d: int)
    requires
        0 <= k,
        d >= 0,
    ensures
        stack_after(primary_spec(t, k).0, d) is Some,
        stack_after(primary_spec(t, k).0, d)->0 >= d,
        primary_spec(t, k).1 is Ok ==> stack_after(primary_spec(t, k).0, d) == Some(d + 1),
    decreases t.len() - k, 0int,
{
    assert(stack_after(Seq::<Instr>::empty(), d) == Some(d));
    if 0 <= k < t.len() {
        if t[k] is OpenParen {
            lemma_stack_sum(t, k + 1, d);
        } else if t[k] is Number {
            let x = primary_spec(t, k).0;
            assert(x.drop_first() =~= Seq::<Instr>::empty());
            assert(stack_after(Seq::<Instr>::empty(), d + 1) == Some(d + 1));
        }
    }
}

proof fn lemma_stack_product_rest(t: Seq<Symbol>, k: int, d: int)
    requires
        0 <= k <= t.len(),
        d >= 1,
    ensures
        stack_after(product_rest(t, k).0, d) is Some,
        stack_after(product_rest(t, k).0, d)->0 >= d,
        product_rest(t, k).1 is Ok ==> stack_after(product_rest(t, k).0, d) == Some(d),
    decreases t.len() - k, 1int,
{
    assert(stack_after(Seq::<Instr>::empty(), d) == Some(d));
    if k < t.len() && (t[k] is Multiply || t[k] is Divide) {
        lemma_positions_primary(t, k + 1);
        lemma_stack_primary(t, k + 1, d);
        let (s, r) = primary_spec(t, k + 1);
        if let Ok(q) = r {
            let a = seq![Instr::Apply(crate::parser::operator_of(t[k]))];
            lemma_stack_product_rest(t, q, d);
            lemma_stack_apply(crate::parser::operator_of(t[k]), d + 1);
            lemma_stack_concat(s, a, d);
            lemma_stack_concat(s + a, product_rest(t, q).0, d);
        }
    }
}

proof fn lemma_stack_product(t: Seq<Symbol>, k: int, d: int)
    requires
        0 <= k,
        d >= 0,
    ensures
        stack_after(product_spec(t, k).0, d) is Some,
        stack_after(product_spec(t, k).0, d)->0 >= d,
        product_spec(t, k).1 is Ok ==> stack_after(product_spec(t, k).0, d) == Some(d + 1),
    decreases t.len() - k, 2int,
{
    lemma_positions_primary(t, k);
    lemma_stack_primary(t, k, d);
    let (s, r) = primary_spec(t, k);
    if let Ok(q) = r {
        lemma_stack_product_rest(t, q, d + 1);
        lemma_stack_concat(s, product_rest(t, q).0, d);
    }
}

proof fn lemma_stack_sum_rest(t: Seq<Symbol>, k: int, d: int)
    requires
        0 <= k <= t.len(),
        d >= 1,
    ensures
        stack_after(sum_rest(t, k).0, d) is Some,
        stack_after(sum_rest(t, k).0, d)->0 >= d,
        sum_rest(t, k).1 is Ok ==> stack_after(sum_rest(t, k).0, d) == Some(d),
    decreases t.len() - k, 3int,
{
    assert(stack_after(Seq::<Instr>::empty(), d) == Some(d));
    if k < t.len() && (t[k] is Plus || t[k] is Minus) {
        lemma_positions_product(t, k + 1);
        lemma_stack_product(t, k + 1, d);
        let (s, r) = product_spec(t, k + 1);
        if let Ok(q) = r {
            let a = seq![Instr::Apply(crate::parser::operator_of(t[k]))];
            lemma_stack_sum_rest(t, q, d);
            lemma_stack_apply(crate::parser::operator_of(t[k]), d + 1);
            lemma_stack_concat(s, a, d);
            lemma_stack_concat(s + a, sum_rest(t, q).0, d);
        }
    }
}

proof fn lemma_stack_sum(t: Seq<Symbol>, k: int, d: int)
    requires
        0 <= k,
        d >= 0,
    ensures
        stack_after(sum_spec(t, k).0, d) is Some,
        stack_after(sum_spec(t, k).0, d)->0 >= d,
        sum_spec(t, k).1 is Ok ==> stack_after(sum_spec(t, k).0, d) == Some(d + 1),
    decreases t.len() - k, 4int,
{
    lemma_positions_product(t, k);
    lemma_stack_product(t, k, d);
    let (s, r) = product_spec(t, k);
    if let Ok(q) = r {
        lemma_stack_sum_rest(t, q, d + 1);
        lemma_stack_concat(s, sum_rest(t, q).0, d);
    }
}

/// Whatever the outcome of a parse, running its steps never applies an
/// operator to fewer than two values; a parse that ends without error leaves
/// exactly one value.
pub proof fn lemma_program_is_balanced(t: Seq<Symbol>, p: int)
    requires
        0 <= p,
    ensures
        stack_after(parse_spec(t, p).0, 0) is Some,
        parse_spec(t, p).1 is None ==> stack_after(parse_spec(t, p).0, 0) == Some(1int),
{
    lemma_stack_sum(t, p, 0);
}

} // verus!
