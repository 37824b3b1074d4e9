//! Properties of the parser stated over its spec model.
use vstd::prelude::*;
use crate::ast::Expr;
use crate::parser::{
    advance, cannot_start, combine, convert_spec, first_state, gen_spec, loop_spec, no_more_tokens,
    operator_without_operand, parse_text, pm, prim_spec, strip, Fault, PState,
};
use crate::token::{prec_of, OperPrec, Tok};
use crate::tokenizer::{
    cursor_ok, lemma_pull_progress, at_most_one_point, is_digit, is_num_char, is_space, pull, run_end, scan, skip_spaces, start,
    symbol_tok, Cursor,
};

verus! {

/// A number literal: digits, with at most one decimal point, that start with a digit.
pub open spec fn is_literal(s: Seq<char>) -> bool {
    &&& s.len() > 0
    &&& is_digit(s[0])
    &&& forall|k: int| 0 <= k < s.len() ==> is_num_char(#[trigger] s[k])
    &&& at_most_one_point(s)
}

proof fn lemma_run_to_end(s: Seq<char>, pos: int)
    requires
        0 <= pos <= s.len(),
        forall|k: int| 0 <= k < s.len() ==> is_num_char(#[trigger] s[k]),
    ensures
        run_end(s, pos) == s.len(),
    decreases s.len() - pos,
{
    if pos < s.len() {
        lemma_run_to_end(s, pos + 1);
    }
}

proof fn lemma_strip_keeps(s: Seq<char>)
    requires
        forall|k: int| 0 <= k < s.len() ==> !is_space(#[trigger] s[k]),
    ensures
        strip(s) == s,
    decreases s.len(),
{
    if s.len() > 0 {
        let t = s.drop_last();
        assert forall|k: int| 0 <= k < t.len() implies !is_space(#[trigger] t[k]) by {
            assert(t[k] == s[k]);
        }
        lemma_strip_keeps(t);
        assert(s.drop_last().push(s.last()) == s);
    }
}

/// A number literal, alone on its line, parses to a leaf that holds the
/// literal as it was written.
pub proof fn lemma_literal_parses_to_itself(s: Seq<char>)
    requires
        is_literal(s),
    ensures
        parse_text(s) == Ok::<Expr, Fault>(Expr::Num(s)),
        parse_text(strip(s)) == Ok::<Expr, Fault>(Expr::Num(s)),
{
    assert forall|k: int| 0 <= k < s.len() implies !is_space(#[trigger] s[k]) by {
        assert(is_num_char(s[k]));
    }
    lemma_strip_keeps(s);
    lemma_run_to_end(s, 0);
    assert(skip_spaces(s, 0) == 0);
    assert(skip_spaces(s, s.len() as int) == s.len());
    assert(s.subrange(0, s.len() as int) == s);
}

proof fn lemma_run_span(s: Seq<char>, p: int, e: int)
    requires
        0 <= p <= e <= s.len(),
        forall|k: int| p <= k < e ==> is_num_char(#[trigger] s[k]),
        e < s.len() ==> !is_num_char(s[e]),
    ensures
        run_end(s, p) == e,
    decreases e - p,
{
    if p < e {
        lemma_run_span(s, p + 1, e);
    }
}

/// A literal written at `p`, with no digit or point right after it, scans as
/// one number token.
proof fn lemma_scan_literal(s: Seq<char>, p: int, a: Seq<char>)
    requires
        0 <= p,
        p + a.len() <= s.len(),
        s.subrange(p, p + a.len()) == a,
        is_literal(a),
        p + a.len() < s.len() ==> !is_num_char(s[p + a.len()]),
    ensures
        scan(s, p) == Some((Tok::Num(a), p + a.len())),
{
    assert(s[p] == a[0]);
    assert(skip_spaces(s, p) == p);
    assert forall|k: int| p <= k < p + a.len() implies is_num_char(#[trigger] s[k]) by {
        assert(s[k] == a[k - p]);
    }
    lemma_run_span(s, p, p + a.len());
}

/// An operator or parenthesis at `p` scans as its token.
proof fn lemma_scan_symbol(s: Seq<char>, p: int)
    requires
        0 <= p < s.len(),
        symbol_tok(s[p]) is Some,
    ensures
        scan(s, p) == Some((symbol_tok(s[p])->0, p + 1)),
{
    assert(skip_spaces(s, p) == p);
}

proof fn lemma_scan_end(s: Seq<char>)
    ensures
        scan(s, s.len() as int) == Some((Tok::EOF, s.len() as int)),
{
}

/// Powers fold to the left: `a^b^c` is `(a^b)^c` for any literals `a`, `b`, `c`.
pub proof fn lemma_power_folds_left(a: Seq<char>, b: Seq<char>, c: Seq<char>)
    requires
        is_literal(a),
        is_literal(b),
        is_literal(c),
    ensures
        parse_text(a + seq!['^'] + b + seq!['^'] + c) == Ok::<Expr, Fault>(
            Expr::Caret(
                Box::new(Expr::Caret(Box::new(Expr::Num(a)), Box::new(Expr::Num(b)))),
                Box::new(Expr::Num(c)),
            ),
        ),
{
    lemma_two_operators(a, '^', b, '^', c);
}

/// Products bind tighter than sums: `a+b*c` is `a+(b*c)` for any literals.
pub proof fn lemma_product_binds_tighter(a: Seq<char>, b: Seq<char>, c: Seq<char>)
    requires
        is_literal(a),
        is_literal(b),
        is_literal(c),
    ensures
        parse_text(a + seq!['+'] + b + seq!['*'] + c) == Ok::<Expr, Fault>(
            Expr::Add(
                Box::new(Expr::Num(a)),
                Box::new(Expr::Multiply(Box::new(Expr::Num(b)), Box::new(Expr::Num(c)))),
            ),
        ),
{
    lemma_two_operators(a, '+', b, '*', c);
}

/// Unary minus binds tighter than a power: `-a^b` is `(-a)^b` for any literals.
pub proof fn lemma_negation_binds_tighter_than_power(a: Seq<char>, b: Seq<char>)
    requires
        is_literal(a),
        is_literal(b),
    ensures
        parse_text(seq!['-'] + a + seq!['^'] + b) == Ok::<Expr, Fault>(
            Expr::Caret(Box::new(Expr::Negative(Box::new(Expr::Num(a)))), Box::new(Expr::Num(b))),
        ),
{
    let t = seq!['-'] + a + seq!['^'] + b;
    let la = a.len() as int;
    let n = t.len() as int;
    assert(t.subrange(1, 1 + la) =~= a);
    assert(t.subrange(la + 2, n) =~= b);
    assert(t[0] == '-' && t[1 + la] == '^');
    lemma_scan_symbol(t, 0);
    lemma_scan_literal(t, 1, a);
    lemma_scan_symbol(t, 1 + la);
    lemma_scan_literal(t, la + 2, b);
    lemma_scan_end(t);
    assert(skip_spaces(t, 0) == 0);
    let ta = Expr::Num(a);
    let tb = Expr::Num(b);
    let st0 = PState { cur: Tok::Subtract, cursor: Cursor { pos: 1, done: false } };
    let st1 = PState { cur: Tok::Num(a), cursor: Cursor { pos: (1 + la) as nat, done: false } };
    let st2 = PState { cur: Tok::Caret, cursor: Cursor { pos: (la + 2) as nat, done: false } };
    let st3 = PState { cur: Tok::Num(b), cursor: Cursor { pos: n as nat, done: false } };
    let st4 = PState { cur: Tok::EOF, cursor: Cursor { pos: n as nat, done: true } };
    let na = Expr::Negative(Box::new(ta));
    let nab = Expr::Caret(Box::new(na), Box::new(tb));
    assert(first_state(t) == Ok::<PState, Fault>(st0));
    assert(advance(t, st0) == Ok::<PState, Fault>(st1));
    assert(advance(t, st1) == Ok::<PState, Fault>(st2));
    assert(advance(t, st2) == Ok::<PState, Fault>(st3));
    assert(advance(t, st3) == Ok::<PState, Fault>(st4));
    assert(prim_spec(t, st1) == Ok::<(Expr, PState), Fault>((ta, st2)));
    assert(loop_spec(t, st2, OperPrec::Negative, ta) == Ok::<(Expr, PState), Fault>((ta, st2)));
    assert(gen_spec(t, st1, OperPrec::Negative) == Ok::<(Expr, PState), Fault>((ta, st2)));
    assert(prim_spec(t, st0) == Ok::<(Expr, PState), Fault>((na, st2)));
    assert(prim_spec(t, st3) == Ok::<(Expr, PState), Fault>((tb, st4)));
    assert(loop_spec(t, st4, OperPrec::Power, tb) == Ok::<(Expr, PState), Fault>((tb, st4)));
    assert(gen_spec(t, st3, OperPrec::Power) == Ok::<(Expr, PState), Fault>((tb, st4)));
    assert(convert_spec(t, st2, na) == Ok::<(Expr, PState), Fault>((nab, st4)));
    assert(loop_spec(t, st4, OperPrec::DefaultZero, nab) == Ok::<(Expr, PState), Fault>((nab, st4)));
    assert(loop_spec(t, st2, OperPrec::DefaultZero, na) == Ok::<(Expr, PState), Fault>((nab, st4)));
    assert(gen_spec(t, st0, OperPrec::DefaultZero) == Ok::<(Expr, PState), Fault>((nab, st4)));
}

/// Two adjacent parenthesised groups multiply: `(a)(b)` is `a*b` for any literals.
pub proof fn lemma_adjacent_groups_multiply(a: Seq<char>, b: Seq<char>)
    requires
        is_literal(a),
        is_literal(b),
    ensures
        parse_text(seq!['('] + a + seq![')', '('] + b + seq![')']) == Ok::<Expr, Fault>(
            Expr::Multiply(Box::new(Expr::Num(a)), Box::new(Expr::Num(b))),
        ),
{
    let t = seq!['('] + a + seq![')', '('] + b + seq![')'];
    let la = a.len() as int;
    let lb = b.len() as int;
    let n = t.len() as int;
    assert(t.subrange(1, 1 + la) =~= a);
    assert(t.subrange(la + 3, la + 3 + lb) =~= b);
    assert(t[0] == '(' && t[1 + la] == ')' && t[2 + la] == '(' && t[3 + la + lb] == ')');
    lemma_scan_symbol(t, 0);
    lemma_scan_literal(t, 1, a);
    lemma_scan_symbol(t, 1 + la);
    lemma_scan_symbol(t, 2 + la);
    lemma_scan_literal(t, la + 3, b);
    lemma_scan_symbol(t, 3 + la + lb);
    lemma_scan_end(t);
    assert(skip_spaces(t, 0) == 0);
    let ta = Expr::Num(a);
    let tb = Expr::Num(b);
    let st0 = PState { cur: Tok::LeftParen, cursor: Cursor { pos: 1, done: false } };
    let st1 = PState { cur: Tok::Num(a), cursor: Cursor { pos: (1 + la) as nat, done: false } };
    let st2 = PState { cur: Tok::RightParen, cursor: Cursor { pos: (2 + la) as nat, done: false } };
    let st3 = PState { cur: Tok::LeftParen, cursor: Cursor { pos: (3 + la) as nat, done: false } };
    let st4 = PState { cur: Tok::Num(b), cursor: Cursor { pos: (3 + la + lb) as nat, done: false } };
    let st5 = PState { cur: Tok::RightParen, cursor: Cursor { pos: n as nat, done: false } };
    let st6 = PState { cur: Tok::EOF, cursor: Cursor { pos: n as nat, done: true } };
    let ab = Expr::Multiply(Box::new(ta), Box::new(tb));
    assert(first_state(t) == Ok::<PState, Fault>(st0));
    assert(advance(t, st0) == Ok::<PState, Fault>(st1));
    assert(advance(t, st1) == Ok::<PState, Fault>(st2));
    assert(advance(t, st2) == Ok::<PState, Fault>(st3));
    assert(advance(t, st3) == Ok::<PState, Fault>(st4));
    assert(advance(t, st4) == Ok::<PState, Fault>(st5));
    assert(advance(t, st5) == Ok::<PState, Fault>(st6));
    assert(prim_spec(t, st1) == Ok::<(Expr, PState), Fault>((ta, st2)));
    assert(loop_spec(t, st2, OperPrec::DefaultZero, ta) == Ok::<(Expr, PState), Fault>((ta, st2)));
    assert(gen_spec(t, st1, OperPrec::DefaultZero) == Ok::<(Expr, PState), Fault>((ta, st2)));
    assert(prim_spec(t, st4) == Ok::<(Expr, PState), Fault>((tb, st5)));
    assert(loop_spec(t, st5, OperPrec::DefaultZero, tb) == Ok::<(Expr, PState), Fault>((tb, st5)));
    assert(gen_spec(t, st4, OperPrec::DefaultZero) == Ok::<(Expr, PState), Fault>((tb, st5)));
    assert(prim_spec(t, st3) == Ok::<(Expr, PState), Fault>((tb, st6)));
    assert(loop_spec(t, st6, OperPrec::MulDiv, tb) == Ok::<(Expr, PState), Fault>((tb, st6)));
    assert(gen_spec(t, st3, OperPrec::MulDiv) == Ok::<(Expr, PState), Fault>((tb, st6)));
    assert(prim_spec(t, st0) == Ok::<(Expr, PState), Fault>((ab, st6)));
    assert(loop_spec(t, st6, OperPrec::DefaultZero, ab) == Ok::<(Expr, PState), Fault>((ab, st6)));
    assert(gen_spec(t, st0, OperPrec::DefaultZero) == Ok::<(Expr, PState), Fault>((ab, st6)));
}

/// Parentheses override precedence: `(a+b)*c` multiplies the sum, for any literals.
pub proof fn lemma_group_overrides_precedence(a: Seq<char>, b: Seq<char>, c: Seq<char>)
    requires
        is_literal(a),
        is_literal(b),
        is_literal(c),
    ensures
        parse_text(seq!['('] + a + seq!['+'] + b + seq![')', '*'] + c) == Ok::<Expr, Fault>(
            Expr::Multiply(
                Box::new(Expr::Add(Box::new(Expr::Num(a)), Box::new(Expr::Num(b)))),
                Box::new(Expr::Num(c)),
            ),
        ),
{
    let t = seq!['('] + a + seq!['+'] + b + seq![')', '*'] + c;
    let la = a.len() as int;
    let lb = b.len() as int;
    let n = t.len() as int;
    assert(t.subrange(1, 1 + la) =~= a);
    assert(t.subrange(la + 2, la + 2 + lb) =~= b);
    assert(t.subrange(la + lb + 4, n) =~= c);
    assert(t[0] == '(' && t[1 + la] == '+' && t[2 + la + lb] == ')' && t[3 + la + lb] == '*');
    lemma_scan_symbol(t, 0);
    lemma_scan_literal(t, 1, a);
    lemma_scan_symbol(t, 1 + la);
    lemma_scan_literal(t, la + 2, b);
    lemma_scan_symbol(t, 2 + la + lb);
    lemma_scan_symbol(t, 3 + la + lb);
    lemma_scan_literal(t, la + lb + 4, c);
    lemma_scan_end(t);
    assert(skip_spaces(t, 0) == 0);
    let ta = Expr::Num(a);
    let tb = Expr::Num(b);
    let tc = Expr::Num(c);
    let st0 = PState { cur: Tok::LeftParen, cursor: Cursor { pos: 1, done: false } };
    let st1 = PState { cur: Tok::Num(a), cursor: Cursor { pos: (1 + la) as nat, done: false } };
    let st2 = PState { cur: Tok::Add, cursor: Cursor { pos: (2 + la) as nat, done: false } };
    let st3 = PState { cur: Tok::Num(b), cursor: Cursor { pos: (2 + la + lb) as nat, done: false } };
    let st4 = PState { cur: Tok::RightParen, cursor: Cursor { pos: (3 + la + lb) as nat, done: false } };
    let st5 = PState { cur: Tok::Multiply, cursor: Cursor { pos: (4 + la + lb) as nat, done: false } };
    let st6 = PState { cur: Tok::Num(c), cursor: Cursor { pos: n as nat, done: false } };
    let st7 = PState { cur: Tok::EOF, cursor: Cursor { pos: n as nat, done: true } };
    let ab = Expr::Add(Box::new(ta), Box::new(tb));
    let abc = Expr::Multiply(Box::new(ab), Box::new(tc));
    assert(first_state(t) == Ok::<PState, Fault>(st0));
    assert(advance(t, st0) == Ok::<PState, Fault>(st1));
    assert(advance(t, st1) == Ok::<PState, Fault>(st2));
    assert(advance(t, st2) == Ok::<PState, Fault>(st3));
    assert(advance(t, st3) == Ok::<PState, Fault>(st4));
    assert(advance(t, st4) == Ok::<PState, Fault>(st5));
    assert(advance(t, st5) == Ok::<PState, Fault>(st6));
    assert(advance(t, st6) == Ok::<PState, Fault>(st7));
    assert(prim_spec(t, st1) == Ok::<(Expr, PState), Fault>((ta, st2)));
    assert(prim_spec(t, st3) == Ok::<(Expr, PState), Fault>((tb, st4)));
    assert(loop_spec(t, st4, OperPrec::AddSub, tb) == Ok::<(Expr, PState), Fault>((tb, st4)));
    assert(gen_spec(t, st3, OperPrec::AddSub) == Ok::<(Expr, PState), Fault>((tb, st4)));
    assert(convert_spec(t, st2, ta) == Ok::<(Expr, PState), Fault>((ab, st4)));
    assert(loop_spec(t, st4, OperPrec::DefaultZero, ab) == Ok::<(Expr, PState), Fault>((ab, st4)));
    assert(loop_spec(t, st2, OperPrec::DefaultZero, ta) == Ok::<(Expr, PState), Fault>((ab, st4)));
    assert(gen_spec(t, st1, OperPrec::DefaultZero) == Ok::<(Expr, PState), Fault>((ab, st4)));
    assert(prim_spec(t, st0) == Ok::<(Expr, PState), Fault>((ab, st5)));
    assert(prim_spec(t, st6) == Ok::<(Expr, PState), Fault>((tc, st7)));
    assert(loop_spec(t, st7, OperPrec::MulDiv, tc) == Ok::<(Expr, PState), Fault>((tc, st7)));
    assert(gen_spec(t, st6, OperPrec::MulDiv) == Ok::<(Expr, PState), Fault>((tc, st7)));
    assert(convert_spec(t, st5, ab) == Ok::<(Expr, PState), Fault>((abc, st7)));
    assert(loop_spec(t, st7, OperPrec::DefaultZero, abc) == Ok::<(Expr, PState), Fault>((abc, st7)));
    assert(loop_spec(t, st5, OperPrec::DefaultZero, ab) == Ok::<(Expr, PState), Fault>((abc, st7)));
    assert(gen_spec(t, st0, OperPrec::DefaultZero) == Ok::<(Expr, PState), Fault>((abc, st7)));
}

/// A group left open is an invalid-operator error: `(a+b` for any literals.
pub proof fn lemma_unclosed_group_fails(a: Seq<char>, b: Seq<char>)
    requires
        is_literal(a),
        is_literal(b),
    ensures
        parse_text(seq!['('] + a + seq!['+'] + b) matches Err(Fault::InvalidOperator(_)),
{
    let t = seq!['('] + a + seq!['+'] + b;
    let la = a.len() as int;
    let n = t.len() as int;
    assert(t.subrange(1, 1 + la) =~= a);
    assert(t.subrange(la + 2, n) =~= b);
    assert(t[0] == '(' && t[1 + la] == '+');
    lemma_scan_symbol(t, 0);
    lemma_scan_literal(t, 1, a);
    lemma_scan_symbol(t, 1 + la);
    lemma_scan_literal(t, la + 2, b);
    lemma_scan_end(t);
    assert(skip_spaces(t, 0) == 0);
    let ta = Expr::Num(a);
    let tb = Expr::Num(b);
    let st0 = PState { cur: Tok::LeftParen, cursor: Cursor { pos: 1, done: false } };
    let st1 = PState { cur: Tok::Num(a), cursor: Cursor { pos: (1 + la) as nat, done: false } };
    let st2 = PState { cur: Tok::Add, cursor: Cursor { pos: (la + 2) as nat, done: false } };
    let st3 = PState { cur: Tok::Num(b), cursor: Cursor { pos: n as nat, done: false } };
    let st4 = PState { cur: Tok::EOF, cursor: Cursor { pos: n as nat, done: true } };
    let ab = Expr::Add(Box::new(ta), Box::new(tb));
    assert(first_state(t) == Ok::<PState, Fault>(st0));
    assert(advance(t, st0) == Ok::<PState, Fault>(st1));
    assert(advance(t, st1) == Ok::<PState, Fault>(st2));
    assert(advance(t, st2) == Ok::<PState, Fault>(st3));
    assert(advance(t, st3) == Ok::<PState, Fault>(st4));
    assert(prim_spec(t, st1) == Ok::<(Expr, PState), Fault>((ta, st2)));
    assert(prim_spec(t, st3) == Ok::<(Expr, PState), Fault>((tb, st4)));
    assert(loop_spec(t, st4, OperPrec::AddSub, tb) == Ok::<(Expr, PState), Fault>((tb, st4)));
    assert(gen_spec(t, st3, OperPrec::AddSub) == Ok::<(Expr, PState), Fault>((tb, st4)));
    assert(convert_spec(t, st2, ta) == Ok::<(Expr, PState), Fault>((ab, st4)));
    assert(loop_spec(t, st4, OperPrec::DefaultZero, ab) == Ok::<(Expr, PState), Fault>((ab, st4)));
    assert(loop_spec(t, st2, OperPrec::DefaultZero, ta) == Ok::<(Expr, PState), Fault>((ab, st4)));
    assert(gen_spec(t, st1, OperPrec::DefaultZero) == Ok::<(Expr, PState), Fault>((ab, st4)));
    assert(prim_spec(t, st0) matches Err(Fault::InvalidOperator(_)));
    assert(gen_spec(t, st0, OperPrec::DefaultZero) matches Err(Fault::InvalidOperator(_)));
}

/// An operator with no operand after it fails: `a+` for any literal.
pub proof fn lemma_missing_operand_fails(a: Seq<char>)
    requires
        is_literal(a),
    ensures
        parse_text(a + seq!['+']) == Err::<Expr, Fault>(cannot_start()),
{
    let t = a + seq!['+'];
    let la = a.len() as int;
    let n = t.len() as int;
    assert(t.subrange(0, la) =~= a);
    assert(t[la] == '+');
    lemma_scan_literal(t, 0, a);
    lemma_scan_symbol(t, la);
    lemma_scan_end(t);
    assert(t[0] == a[0]);
    assert(skip_spaces(t, 0) == 0);
    let ta = Expr::Num(a);
    let st0 = PState { cur: Tok::Num(a), cursor: Cursor { pos: la as nat, done: false } };
    let st1 = PState { cur: Tok::Add, cursor: Cursor { pos: n as nat, done: false } };
    let st2 = PState { cur: Tok::EOF, cursor: Cursor { pos: n as nat, done: true } };
    assert(first_state(t) == Ok::<PState, Fault>(st0));
    assert(advance(t, st0) == Ok::<PState, Fault>(st1));
    assert(advance(t, st1) == Ok::<PState, Fault>(st2));
    assert(prim_spec(t, st0) == Ok::<(Expr, PState), Fault>((ta, st1)));
    assert(prim_spec(t, st2) == Err::<(Expr, PState), Fault>(cannot_start()));
    assert(gen_spec(t, st2, OperPrec::AddSub) == Err::<(Expr, PState), Fault>(cannot_start()));
    assert(convert_spec(t, st1, ta) == Err::<(Expr, PState), Fault>(cannot_start()));
    assert(loop_spec(t, st1, OperPrec::DefaultZero, ta) == Err::<(Expr, PState), Fault>(cannot_start()));
    assert(gen_spec(t, st0, OperPrec::DefaultZero) == Err::<(Expr, PState), Fault>(cannot_start()));
}

/// A text of whitespace alone, the empty text included, holds no expression.
pub proof fn lemma_blank_text_fails(s: Seq<char>)
    requires
        forall|k: int| 0 <= k < s.len() ==> is_space(#[trigger] s[k]),
    ensures
        parse_text(s) == Err::<Expr, Fault>(no_more_tokens()),
{
    lemma_skip_all(s, 0);
}

proof fn lemma_skip_all(s: Seq<char>, pos: int)
    requires
        0 <= pos <= s.len(),
        forall|k: int| 0 <= k < s.len() ==> is_space(#[trigger] s[k]),
    ensures
        skip_spaces(s, pos) == s.len(),
    decreases s.len() - pos,
{
    if pos < s.len() {
        lemma_skip_all(s, pos + 1);
    }
}

/// Parsing only moves forward: from a cursor within the text, a successful
/// step ends at a cursor within the text, and one that reads an operand or an
/// operator moves strictly forward. So the measure guards in the parser's spec
/// functions always hold, and their fallback branches are never taken.
pub proof fn lemma_gen_progress(s: Seq<char>, st: PState, min: OperPrec)
    requires
        cursor_ok(s, st.cursor),
    ensures
        gen_spec(s, st, min) matches Ok((_, st1)) ==> cursor_ok(s, st1.cursor) && pm(s, st1) < pm(s, st),
    decreases pm(s, st), 3nat,
{
    lemma_prim_progress(s, st);
    if let Ok((left, st1)) = prim_spec(s, st) {
        lemma_loop_progress(s, st1, min, left);
    }
}

pub proof fn lemma_prim_progress(s: Seq<char>, st: PState)
    requires
        cursor_ok(s, st.cursor),
    ensures
        prim_spec(s, st) matches Ok((_, st1)) ==> cursor_ok(s, st1.cursor) && pm(s, st1) < pm(s, st),
    decreases pm(s, st), 2nat,
{
    lemma_pull_progress(s, st.cursor);
    if let Ok(st1) = advance(s, st) {
        if st.cur is Subtract {
            lemma_gen_progress(s, st1, OperPrec::Negative);
        } else if st.cur is LeftParen {
            lemma_gen_progress(s, st1, OperPrec::DefaultZero);
            if let Ok((_, st2)) = gen_spec(s, st1, OperPrec::DefaultZero) {
                lemma_pull_progress(s, st2.cursor);
                if let Ok(st3) = advance(s, st2) {
                    lemma_gen_progress(s, st3, OperPrec::MulDiv);
                }
            }
        }
    }
}

pub proof fn lemma_loop_progress(s: Seq<char>, st: PState, min: OperPrec, left: Expr)
    requires
        cursor_ok(s, st.cursor),
    ensures
        loop_spec(s, st, min, left) matches Ok((_, st1)) ==> cursor_ok(s, st1.cursor) && pm(s, st1) <= pm(s, st),
    decreases pm(s, st), 1nat,
{
    if min.rank() < prec_of(st.cur).rank() && !(st.cur is EOF) {
        lemma_convert_progress(s, st, left);
        if let Ok((e, st1)) = convert_spec(s, st, left) {
            lemma_loop_progress(s, st1, min, e);
        }
    }
}

pub proof fn lemma_convert_progress(s: Seq<char>, st: PState, left: Expr)
    requires
        cursor_ok(s, st.cursor),
    ensures
        convert_spec(s, st, left) matches Ok((_, st1)) ==> cursor_ok(s, st1.cursor) && pm(s, st1) < pm(s, st),
    decreases pm(s, st), 0nat,
{
    lemma_pull_progress(s, st.cursor);
    if let Ok(st1) = advance(s, st) {
        lemma_gen_progress(s, st1, prec_of(st.cur));
    }
}

/// One of `+ - * / ^`.
pub open spec fn is_binary_op(c: char) -> bool {
    symbol_tok(c) is Some && prec_of(symbol_tok(c)->0) != OperPrec::DefaultZero
}

/// The tree of `a o1 b o2 c`: the second operator takes `b` first only if it
/// binds strictly tighter than the first; otherwise the two fold left.
pub open spec fn two_op_tree(a: Seq<char>, o1: char, b: Seq<char>, o2: char, c: Seq<char>) -> Expr {
    let t1 = symbol_tok(o1)->0;
    let t2 = symbol_tok(o2)->0;
    if prec_of(t1).rank() < prec_of(t2).rank() {
        combine(t1, Expr::Num(a), combine(t2, Expr::Num(b), Expr::Num(c)))
    } else {
        combine(t2, combine(t1, Expr::Num(a), Expr::Num(b)), Expr::Num(c))
    }
}

/// For any two binary operators and any literals, `a o1 b o2 c` groups by
/// precedence, and operators of equal precedence fold left.
pub proof fn lemma_two_operators(a: Seq<char>, o1: char, b: Seq<char>, o2: char, c: Seq<char>)
    requires
        is_literal(a),
        is_literal(b),
        is_literal(c),
        is_binary_op(o1),
        is_binary_op(o2),
    ensures
        parse_text(a + seq![o1] + b + seq![o2] + c) == Ok::<Expr, Fault>(two_op_tree(a, o1, b, o2, c)),
{
    let t = a + seq![o1] + b + seq![o2] + c;
    let la = a.len() as int;
    let lb = b.len() as int;
    let n = t.len() as int;
    let t1 = symbol_tok(o1)->0;
    let t2 = symbol_tok(o2)->0;
    let p1 = prec_of(t1);
    let p2 = prec_of(t2);
    assert(t.subrange(0, la) =~= a);
    assert(t.subrange(la + 1, la + 1 + lb) =~= b);
    assert(t.subrange(la + lb + 2, n) =~= c);
    assert(t[la] == o1 && t[la + 1 + lb] == o2);
    assert(!is_num_char(o1) && !is_num_char(o2));
    lemma_scan_literal(t, 0, a);
    lemma_scan_literal(t, la + 1, b);
    lemma_scan_literal(t, la + lb + 2, c);
    lemma_scan_symbol(t, la);
    lemma_scan_symbol(t, la + 1 + lb);
    lemma_scan_end(t);
    assert(t[0] == a[0]);
    assert(skip_spaces(t, 0) == 0);
    let ta = Expr::Num(a);
    let tb = Expr::Num(b);
    let tc = Expr::Num(c);
    let st0 = PState { cur: Tok::Num(a), cursor: Cursor { pos: la as nat, done: false } };
    let st1 = PState { cur: t1, cursor: Cursor { pos: (la + 1) as nat, done: false } };
    let st2 = PState { cur: Tok::Num(b), cursor: Cursor { pos: (la + 1 + lb) as nat, done: false } };
    let st3 = PState { cur: t2, cursor: Cursor { pos: (la + lb + 2) as nat, done: false } };
    let st4 = PState { cur: Tok::Num(c), cursor: Cursor { pos: n as nat, done: false } };
    let st5 = PState { cur: Tok::EOF, cursor: Cursor { pos: n as nat, done: true } };
    assert(first_state(t) == Ok::<PState, Fault>(st0));
    assert(advance(t, st0) == Ok::<PState, Fault>(st1));
    assert(advance(t, st1) == Ok::<PState, Fault>(st2));
    assert(advance(t, st2) == Ok::<PState, Fault>(st3));
    assert(advance(t, st3) == Ok::<PState, Fault>(st4));
    assert(advance(t, st4) == Ok::<PState, Fault>(st5));
    assert(prim_spec(t, st0) == Ok::<(Expr, PState), Fault>((ta, st1)));
    assert(prim_spec(t, st2) == Ok::<(Expr, PState), Fault>((tb, st3)));
    assert(prim_spec(t, st4) == Ok::<(Expr, PState), Fault>((tc, st5)));
    assert(loop_spec(t, st5, p2, tc) == Ok::<(Expr, PState), Fault>((tc, st5)));
    assert(gen_spec(t, st4, p2) == Ok::<(Expr, PState), Fault>((tc, st5)));
    let r = two_op_tree(a, o1, b, o2, c);
    if p1.rank() < p2.rank() {
        let bc = combine(t2, tb, tc);
        assert(convert_spec(t, st3, tb) == Ok::<(Expr, PState), Fault>((bc, st5)));
        assert(loop_spec(t, st5, p1, bc) == Ok::<(Expr, PState), Fault>((bc, st5)));
        assert(loop_spec(t, st3, p1, tb) == Ok::<(Expr, PState), Fault>((bc, st5)));
        assert(gen_spec(t, st2, p1) == Ok::<(Expr, PState), Fault>((bc, st5)));
        assert(convert_spec(t, st1, ta) == Ok::<(Expr, PState), Fault>((r, st5)));
        assert(loop_spec(t, st5, OperPrec::DefaultZero, r) == Ok::<(Expr, PState), Fault>((r, st5)));
        assert(loop_spec(t, st1, OperPrec::DefaultZero, ta) == Ok::<(Expr, PState), Fault>((r, st5)));
    } else {
        let ab = combine(t1, ta, tb);
        assert(loop_spec(t, st3, p1, tb) == Ok::<(Expr, PState), Fault>((tb, st3)));
        assert(gen_spec(t, st2, p1) == Ok::<(Expr, PState), Fault>((tb, st3)));
        assert(convert_spec(t, st1, ta) == Ok::<(Expr, PState), Fault>((ab, st3)));
        assert(convert_spec(t, st3, ab) == Ok::<(Expr, PState), Fault>((r, st5)));
        assert(loop_spec(t, st5, OperPrec::DefaultZero, r) == Ok::<(Expr, PState), Fault>((r, st5)));
        assert(loop_spec(t, st3, OperPrec::DefaultZero, ab) == Ok::<(Expr, PState), Fault>((r, st5)));
        assert(loop_spec(t, st1, OperPrec::DefaultZero, ta) == Ok::<(Expr, PState), Fault>((r, st5)));
    }
    assert(gen_spec(t, st0, OperPrec::DefaultZero) == Ok::<(Expr, PState), Fault>((r, st5)));
}

/// The text of a chain of operator-operand pairs, as in `+2*3-4`.
pub open spec fn chain_text(items: Seq<(char, Seq<char>)>) -> Seq<char>
    decreases items.len(),
{
    if items.len() == 0 {
        Seq::empty()
    } else {
        seq![items[0].0] + items[0].1 + chain_text(items.drop_first())
    }
}

/// `left` with each pair of the chain applied in turn, leftmost first.
pub open spec fn fold_chain(left: Expr, items: Seq<(char, Seq<char>)>) -> Expr
    decreases items.len(),
{
    if items.len() == 0 {
        left
    } else {
        fold_chain(combine(symbol_tok(items[0].0)->0, left, Expr::Num(items[0].1)), items.drop_first())
    }
}

/// Every pair holds a binary operator of level `q` and a literal.
pub open spec fn chain_ok(items: Seq<(char, Seq<char>)>, q: OperPrec) -> bool {
    forall|i: int| 0 <= i < items.len() ==> {
        &&& is_binary_op(#[trigger] items[i].0)
        &&& prec_of(symbol_tok(items[i].0)->0) == q
        &&& is_literal(items[i].1)
    }
}

/// The parser's state with the chain's first operator as lookahead, or at
/// the end of the text when the chain is empty.
pub open spec fn chain_state(s: Seq<char>, p: int, items: Seq<(char, Seq<char>)>) -> PState {
    if items.len() == 0 {
        PState { cur: Tok::EOF, cursor: Cursor { pos: s.len(), done: true } }
    } else {
        PState { cur: symbol_tok(items[0].0)->0, cursor: Cursor { pos: (p + 1) as nat, done: false } }
    }
}

proof fn lemma_chain_loop(s: Seq<char>, p: int, items: Seq<(char, Seq<char>)>, q: OperPrec, left: Expr)
    requires
        0 <= p,
        p + chain_text(items).len() == s.len(),
        s.subrange(p, s.len() as int) == chain_text(items),
        chain_ok(items, q),
        q != OperPrec::DefaultZero,
    ensures
        loop_spec(s, chain_state(s, p, items), OperPrec::DefaultZero, left) == Ok::<(Expr, PState), Fault>(
            (fold_chain(left, items), chain_state(s, s.len() as int, Seq::empty())),
        ),
    decreases items.len(),
{
    if items.len() > 0 {
        let o = items[0].0;
        let b = items[0].1;
        let rest = items.drop_first();
        let lb = b.len() as int;
        let p2 = p + 1 + lb;
        let ct = chain_text(items);
        assert(ct == seq![o] + b + chain_text(rest));
        assert(chain_ok(rest, q)) by {
            assert forall|i: int| 0 <= i < rest.len() implies {
                &&& is_binary_op(#[trigger] rest[i].0)
                &&& prec_of(symbol_tok(rest[i].0)->0) == q
                &&& is_literal(rest[i].1)
            } by {
                assert(rest[i] == items[i + 1]);
            }
        }
        assert(is_binary_op(items[0].0) && is_literal(items[0].1));
        assert(s[p] == ct[0]);
        assert(s.subrange(p + 1, p2) =~= b) by {
            assert forall|k: int| 0 <= k < lb implies s.subrange(p + 1, p2)[k] == b[k] by {
                assert(s[p + 1 + k] == ct[1 + k]);
            }
        }
        assert(s.subrange(p2, s.len() as int) =~= chain_text(rest)) by {
            assert forall|k: int| 0 <= k < chain_text(rest).len() implies s.subrange(p2, s.len() as int)[k]
                == chain_text(rest)[k] by {
                assert(s[p2 + k] == ct[1 + lb + k]);
            }
        }
        if rest.len() > 0 {
            assert(chain_text(rest)[0] == rest[0].0);
            assert(s[p2] == rest[0].0);
            assert(is_binary_op(rest[0].0));
            assert(!is_num_char(s[p2]));
            lemma_scan_symbol(s, p2);
        } else {
            lemma_scan_end(s);
        }
        lemma_scan_symbol(s, p);
        lemma_scan_literal(s, p + 1, b);
        let st = chain_state(s, p, items);
        let stb = PState { cur: Tok::Num(b), cursor: Cursor { pos: p2 as nat, done: false } };
        let cs = chain_state(s, p2, rest);
        let tb = Expr::Num(b);
        let e = combine(symbol_tok(o)->0, left, tb);
        assert(advance(s, st) == Ok::<PState, Fault>(stb));
        assert(advance(s, stb) == Ok::<PState, Fault>(cs));
        assert(prim_spec(s, stb) == Ok::<(Expr, PState), Fault>((tb, cs)));
        assert(loop_spec(s, cs, q, tb) == Ok::<(Expr, PState), Fault>((tb, cs)));
        assert(gen_spec(s, stb, q) == Ok::<(Expr, PState), Fault>((tb, cs)));
        assert(convert_spec(s, st, left) == Ok::<(Expr, PState), Fault>((e, cs)));
        lemma_convert_progress(s, st, left);
        lemma_chain_loop(s, p2, rest, q, e);
    }
}

/// A chain of operators of one precedence level folds left, whatever its
/// length: `a o1 b1 o2 b2 ... on bn` is `((a o1 b1) o2 b2) ... on bn`.
pub proof fn lemma_chain_folds_left(a: Seq<char>, items: Seq<(char, Seq<char>)>, q: OperPrec)
    requires
        is_literal(a),
        chain_ok(items, q),
        q != OperPrec::DefaultZero,
    ensures
        parse_text(a + chain_text(items)) == Ok::<Expr, Fault>(fold_chain(Expr::Num(a), items)),
{
    let t = a + chain_text(items);
    let la = a.len() as int;
    assert(t.subrange(0, la) =~= a);
    assert(t.subrange(la, t.len() as int) =~= chain_text(items));
    if items.len() > 0 {
        assert(chain_text(items)[0] == items[0].0);
        assert(is_binary_op(items[0].0));
        assert(t[la] == items[0].0);
        lemma_scan_symbol(t, la);
    } else {
        lemma_scan_end(t);
    }
    lemma_scan_literal(t, 0, a);
    assert(t[0] == a[0]);
    assert(skip_spaces(t, 0) == 0);
    let st0 = PState { cur: Tok::Num(a), cursor: Cursor { pos: la as nat, done: false } };
    let cs = chain_state(t, la, items);
    assert(first_state(t) == Ok::<PState, Fault>(st0));
    assert(advance(t, st0) == Ok::<PState, Fault>(cs));
    assert(prim_spec(t, st0) == Ok::<(Expr, PState), Fault>((Expr::Num(a), cs)));
    lemma_prim_progress(t, st0);
    lemma_chain_loop(t, la, items, q, Expr::Num(a));
    assert(gen_spec(t, st0, OperPrec::DefaultZero) == Ok::<(Expr, PState), Fault>(
        (fold_chain(Expr::Num(a), items), chain_state(t, t.len() as int, Seq::empty())),
    ));
}

/// A binary operator alone on its line is an invalid operator. A lone `-`
/// is not one: it reads as unary minus, which then lacks its operand.
pub proof fn lemma_lone_operator_fails(o: char)
    requires
        is_binary_op(o),
        o != '-',
    ensures
        parse_text(seq![o]) == Err::<Expr, Fault>(operator_without_operand(symbol_tok(o)->0)),
{
    let t = seq![o];
    assert(t[0] == o);
    lemma_scan_symbol(t, 0);
    assert(skip_spaces(t, 0) == 0);
    let st0 = PState { cur: symbol_tok(o)->0, cursor: Cursor { pos: 1, done: false } };
    assert(first_state(t) == Ok::<PState, Fault>(st0));
    assert(prim_spec(t, st0) == Err::<(Expr, PState), Fault>(operator_without_operand(st0.cur)));
    assert(gen_spec(t, st0, OperPrec::DefaultZero) == Err::<(Expr, PState), Fault>(
        operator_without_operand(st0.cur),
    ));
}

} // verus!
