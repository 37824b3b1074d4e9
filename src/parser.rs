//! Precedence-climbing recursive descent from tokens to a syntax tree.
use vstd::prelude::*;
use vstd::string::StrSliceExecFns;
use vstd::string::StringExecFns;
use crate::ast::{Expr, Node};
use crate::token::{prec_of, tok_text, OperPrec, Tok, Token};
use crate::tokenizer::{
    cursor_ok, is_space, is_space_char, lemma_pull_progress, measure, pull, start, Cursor, Tokenizer,
};

verus! {

/// Why an expression could not be parsed, with a human-readable detail.
#[derive(Debug, PartialEq)]
pub enum ParseError {
    /// An operator or parenthesis out of place: a binary operator where an
    /// operand is expected, a missing `)`, or no token where one was needed.
    InvalidOperator(String),
    /// A `)` or the end of the text where an operand is expected.
    UnableToParse(String),
}

/// The mathematical value of a `ParseError`.
pub enum Fault {
    InvalidOperator(Seq<char>),
    UnableToParse(Seq<char>),
}

impl View for ParseError {
    type V = Fault;

    open spec fn view(&self) -> Fault {
        match self {
            ParseError::InvalidOperator(d) => Fault::InvalidOperator(d@),
            ParseError::UnableToParse(d) => Fault::UnableToParse(d@),
        }
    }
}

impl ParseError {
    /// The message shown for the error.
    pub fn message(&self) -> (r: String)
        ensures
            r@ == match self@ {
                Fault::UnableToParse(d) => "Error in evaluating: "@ + d,
                Fault::InvalidOperator(d) => "Invalid operator: "@ + d,
            },
    {
        match self {
            ParseError::UnableToParse(d) => String::from_str("Error in evaluating: ").concat(d.as_str()),
            ParseError::InvalidOperator(d) => String::from_str("Invalid operator: ").concat(d.as_str()),
        }
    }
}

/// The parser's state: the lookahead token and the tokenizer's cursor.
pub struct PState {
    pub cur: Tok,
    pub cursor: Cursor,
}

/// How far the parser is from the end of its token sequence.
pub open spec fn pm(s: Seq<char>, st: PState) -> nat {
    measure(s, st.cursor)
}

/// The error for a token sequence that ended where a token was needed.
pub open spec fn no_more_tokens() -> Fault {
    Fault::InvalidOperator(Seq::empty())
}

/// The error for a token that cannot start an operand.
pub open spec fn cannot_start() -> Fault {
    Fault::UnableToParse("Unable to parse"@)
}

/// The error for a binary operator that stands where an operand is expected,
/// as in a lone `+`: an operator out of place is an invalid operator. A `)`
/// or the end of the text there is a token that cannot start an operand.
pub open spec fn operator_without_operand(t: Tok) -> Fault {
    Fault::InvalidOperator("Expected an operand, got "@ + tok_text(t))
}

/// Consumes the lookahead token and pulls the next one.
pub open spec fn advance(s: Seq<char>, st: PState) -> Result<PState, Fault> {
    match pull(s, st.cursor) {
        (Some(t), c) => Ok(PState { cur: t, cursor: c }),
        (None, _) => Err(no_more_tokens()),
    }
}

/// The binary node that the operator token `op` builds.
pub open spec fn combine(op: Tok, l: Expr, r: Expr) -> Expr {
    match op {
        Tok::Add => Expr::Add(Box::new(l), Box::new(r)),
        Tok::Subtract => Expr::Subtract(Box::new(l), Box::new(r)),
        Tok::Multiply => Expr::Multiply(Box::new(l), Box::new(r)),
        Tok::Divide => Expr::Divide(Box::new(l), Box::new(r)),
        _ => Expr::Caret(Box::new(l), Box::new(r)),
    }
}

// Parsing never moves the cursor back (`lemmas::lemma_gen_progress` proves it);
// the guards on the measure below only make that visible to the termination
// check, and their `else` branches are never taken.

/// An expression whose binary operators all bind tighter than `min`:
/// one operand, then as many operators as bind tighter than `min`.
pub open spec fn gen_spec(s: Seq<char>, st: PState, min: OperPrec) -> Result<(Expr, PState), Fault>
    decreases pm(s, st), 3nat,
{
    match prim_spec(s, st) {
        Err(f) => Err(f),
        Ok((left, st1)) => if pm(s, st1) <= pm(s, st) {
            loop_spec(s, st1, min, left)
        } else {
            Err(cannot_start())
        },
    }
}

/// One operand: a number, a negated operand, or a parenthesised expression,
/// which an adjacent parenthesised group multiplies.
pub open spec fn prim_spec(s: Seq<char>, st: PState) -> Result<(Expr, PState), Fault>
    decreases pm(s, st), 2nat,
{
    match st.cur {
        Tok::Subtract => match advance(s, st) {
            Err(f) => Err(f),
            Ok(st1) => if pm(s, st1) < pm(s, st) {
                match gen_spec(s, st1, OperPrec::Negative) {
                    Err(f) => Err(f),
                    Ok((e, st2)) => Ok((Expr::Negative(Box::new(e)), st2)),
                }
            } else {
                Err(cannot_start())
            },
        },
        Tok::Num(v) => match advance(s, st) {
            Err(f) => Err(f),
            Ok(st1) => Ok((Expr::Num(v), st1)),
        },
        Tok::LeftParen => match advance(s, st) {
            Err(f) => Err(f),
            Ok(st1) => if pm(s, st1) < pm(s, st) {
                match gen_spec(s, st1, OperPrec::DefaultZero) {
                    Err(f) => Err(f),
                    Ok((inner, st2)) => if st2.cur is RightParen {
                        match advance(s, st2) {
                            Err(f) => Err(f),
                            Ok(st3) => if !(st3.cur is LeftParen) {
                                Ok((inner, st3))
                            } else if pm(s, st3) < pm(s, st) {
                                match gen_spec(s, st3, OperPrec::MulDiv) {
                                    Err(f) => Err(f),
                                    Ok((right, st4)) => Ok(
                                        (Expr::Multiply(Box::new(inner), Box::new(right)), st4),
                                    ),
                                }
                            } else {
                                Err(cannot_start())
                            },
                        }
                    } else {
                        Err(
                            Fault::InvalidOperator(
                                "Expected "@ + tok_text(Tok::RightParen) + ", got "@ + tok_text(st2.cur),
                            ),
                        )
                    },
                }
            } else {
                Err(cannot_start())
            },
        },
        _ => if prec_of(st.cur) != OperPrec::DefaultZero {
            Err(operator_without_operand(st.cur))
        } else {
            Err(cannot_start())
        },
    }
}

/// Folds into `left` each following operator that binds tighter than `min`.
pub open spec fn loop_spec(s: Seq<char>, st: PState, min: OperPrec, left: Expr) -> Result<(Expr, PState), Fault>
    decreases pm(s, st), 1nat,
{
    if min.rank() < prec_of(st.cur).rank() && !(st.cur is EOF) {
        match convert_spec(s, st, left) {
            Err(f) => Err(f),
            Ok((e, st1)) => if pm(s, st1) < pm(s, st) {
                loop_spec(s, st1, min, e)
            } else {
                Err(cannot_start())
            },
        }
    } else {
        Ok((left, st))
    }
}

/// The lookahead operator applied to `left` and to the operand that follows
/// it, which takes the operators that bind tighter than this one.
pub open spec fn convert_spec(s: Seq<char>, st: PState, left: Expr) -> Result<(Expr, PState), Fault>
    decreases pm(s, st), 0nat,
{
    if prec_of(st.cur) != OperPrec::DefaultZero {
        match advance(s, st) {
            Err(f) => Err(f),
            Ok(st1) => if pm(s, st1) < pm(s, st) {
                match gen_spec(s, st1, prec_of(st.cur)) {
                    Err(f) => Err(f),
                    Ok((right, st2)) => Ok((combine(st.cur, left, right), st2)),
                }
            } else {
                Err(cannot_start())
            },
        }
    } else {
        Err(Fault::InvalidOperator("Please enter valid operator "@ + tok_text(st.cur)))
    }
}

/// The state of a parser just made over `s`, or the error if `s` has no token.
pub open spec fn first_state(s: Seq<char>) -> Result<PState, Fault> {
    match pull(s, start(s)) {
        (Some(t), c) => Ok(PState { cur: t, cursor: c }),
        (None, _) => Err(no_more_tokens()),
    }
}

/// What parsing the whole text `s` gives.
pub open spec fn parse_text(s: Seq<char>) -> Result<Expr, Fault> {
    match first_state(s) {
        Err(f) => Err(f),
        Ok(st) => match gen_spec(s, st, OperPrec::DefaultZero) {
            Err(f) => Err(f),
            Ok((e, _)) => Ok(e),
        },
    }
}

/// `r` is the tree that `spec` gives, or its error.
pub open spec fn tree_matches(r: Result<Node, ParseError>, spec: Result<Expr, Fault>) -> bool {
    match spec {
        Ok(e) => r is Ok && r->Ok_0@ == e,
        Err(f) => r is Err && r->Err_0@ == f,
    }
}

pub struct Parser<'a> {
    tokenizer: Tokenizer<'a>,
    current_token: Token,
}

impl<'a> Parser<'a> {
    pub closed spec fn text(&self) -> Seq<char> {
        self.tokenizer.text()
    }

    pub closed spec fn state(&self) -> PState {
        PState { cur: self.current_token@, cursor: self.tokenizer.cursor() }
    }

    pub closed spec fn wf(&self) -> bool {
        &&& self.tokenizer.wf()
        &&& cursor_ok(self.tokenizer.text(), self.tokenizer.cursor())
    }

    /// `r` and the parser's new state are what `spec` gives.
    pub open spec fn outcome(&self, r: Result<Node, ParseError>, spec: Result<(Expr, PState), Fault>) -> bool {
        match spec {
            Ok((e, st)) => r is Ok && r->Ok_0@ == e && self.state() == st,
            Err(f) => r is Err && r->Err_0@ == f,
        }
    }

    /// A parser over `input`, holding its first token.
    pub fn new(input: &'a str) -> (r: Result<Self, ParseError>)
        ensures
            match first_state(input@) {
                Ok(st) => r is Ok && r->Ok_0.wf() && r->Ok_0.text() == input@ && r->Ok_0.state() == st,
                Err(f) => r is Err && r->Err_0@ == f,
            },
    {
        let mut tokenizer = Tokenizer::new(input);
        let current_token = match tokenizer.next() {
            Some(token) => token,
            None => return Err(ParseError::InvalidOperator(String::new())),
        };
        Ok(Parser { tokenizer, current_token })
    }

    /// The whole expression: operators of every binding strength are folded in.
    pub fn parse(&mut self) -> (r: Result<Node, ParseError>)
        requires
            old(self).wf(),
        ensures
            final(self).wf(),
            final(self).text() == old(self).text(),
            final(self).outcome(r, gen_spec(old(self).text(), old(self).state(), OperPrec::DefaultZero)),
    {
        self.generate_ast(OperPrec::DefaultZero)
    }

    fn get_next_token(&mut self) -> (r: Result<(), ParseError>)
        requires
            old(self).wf(),
        ensures
            final(self).wf(),
            final(self).text() == old(self).text(),
            pm(final(self).text(), final(self).state()) <= pm(old(self).text(), old(self).state()),
            match advance(old(self).text(), old(self).state()) {
                Ok(st) => r is Ok && final(self).state() == st,
                Err(f) => r is Err && r->Err_0@ == f && final(self).state().cur == old(self).state().cur,
            },
    {
        proof {
            lemma_pull_progress(self.tokenizer.text(), self.tokenizer.cursor());
        }
        let next_token = match self.tokenizer.next() {
            Some(token) => token,
            None => return Err(ParseError::InvalidOperator(String::new())),
        };
        self.current_token = next_token;
        Ok(())
    }

    fn check_paren(&mut self) -> (r: Result<(), ParseError>)
        requires
            old(self).wf(),
        ensures
            final(self).wf(),
            final(self).text() == old(self).text(),
            pm(final(self).text(), final(self).state()) <= pm(old(self).text(), old(self).state()),
            old(self).state().cur is RightParen ==> match advance(old(self).text(), old(self).state()) {
                Ok(st) => r is Ok && final(self).state() == st,
                Err(f) => r is Err && r->Err_0@ == f,
            },
            !(old(self).state().cur is RightParen) ==> r is Err && r->Err_0@ == Fault::InvalidOperator(
                "Expected "@ + tok_text(Tok::RightParen) + ", got "@ + tok_text(old(self).state().cur),
            ) && *final(self) == *old(self),
    {
        if matches!(self.current_token, Token::RightParen) {
            self.get_next_token()
        } else {
            let msg = String::from_str("Expected ").concat(Token::RightParen.describe().as_str()).concat(
                ", got ",
            ).concat(self.current_token.describe().as_str());
            Err(ParseError::InvalidOperator(msg))
        }
    }

    fn parse_number(&mut self) -> (r: Result<Node, ParseError>)
        requires
            old(self).wf(),
        ensures
            final(self).wf(),
            final(self).text() == old(self).text(),
            pm(final(self).text(), final(self).state()) <= pm(old(self).text(), old(self).state()),
            r is Ok ==> pm(final(self).text(), final(self).state()) < pm(old(self).text(), old(self).state()),
            final(self).outcome(r, prim_spec(old(self).text(), old(self).state())),
            !(old(self).state().cur is Subtract || old(self).state().cur is Num
                || old(self).state().cur is LeftParen) ==> *final(self) == *old(self),
        decreases pm(old(self).text(), old(self).state()), 2nat,
    {
        let ghost s = self.text();
        let ghost st0 = self.state();
        proof {
            lemma_pull_progress(s, st0.cursor);
        }
        let lit: Option<String> = match &self.current_token {
            Token::Num(v) => Some(v.clone()),
            _ => None,
        };
        match lit {
            Some(v) => {
                match self.get_next_token() {
                    Ok(()) => {},
                    Err(e) => return Err(e),
                }
                return Ok(Node::Num(v));
            },
            None => {},
        }
        if matches!(self.current_token, Token::Subtract) {
            match self.get_next_token() {
                Ok(()) => {},
                Err(e) => return Err(e),
            }
            let expr = match self.generate_ast(OperPrec::Negative) {
                Ok(x) => x,
                Err(e) => return Err(e),
            };
            Ok(Node::Negative(Box::new(expr)))
        } else if matches!(self.current_token, Token::LeftParen) {
            match self.get_next_token() {
                Ok(()) => {},
                Err(e) => return Err(e),
            }
            let expr = match self.generate_ast(OperPrec::DefaultZero) {
                Ok(x) => x,
                Err(e) => return Err(e),
            };
            match self.check_paren() {
                Ok(()) => {},
                Err(e) => return Err(e),
            }
            if matches!(self.current_token, Token::LeftParen) {
                let right = match self.generate_ast(OperPrec::MulDiv) {
                    Ok(x) => x,
                    Err(e) => return Err(e),
                };
                return Ok(Node::Multiply(Box::new(expr), Box::new(right)));
            }
            Ok(expr)
        } else if !matches!(self.current_token.get_oper_prec(), OperPrec::DefaultZero) {
            let msg = String::from_str("Expected an operand, got ").concat(
                self.current_token.describe().as_str(),
            );
            Err(ParseError::InvalidOperator(msg))
        } else {
            Err(ParseError::UnableToParse(String::from_str("Unable to parse")))
        }
    }

    fn generate_ast(&mut self, oper_prec: OperPrec) -> (r: Result<Node, ParseError>)
        requires
            old(self).wf(),
        ensures
            final(self).wf(),
            final(self).text() == old(self).text(),
            pm(final(self).text(), final(self).state()) <= pm(old(self).text(), old(self).state()),
            r is Ok ==> pm(final(self).text(), final(self).state()) < pm(old(self).text(), old(self).state()),
            final(self).outcome(r, gen_spec(old(self).text(), old(self).state(), oper_prec)),
            !(old(self).state().cur is Subtract || old(self).state().cur is Num
                || old(self).state().cur is LeftParen) ==> *final(self) == *old(self),
        decreases pm(old(self).text(), old(self).state()), 3nat,
    {
        let ghost s = self.text();
        let ghost st0 = self.state();
        let mut left_expr = match self.parse_number() {
            Ok(x) => x,
            Err(e) => return Err(e),
        };
        assert(st0.cur is Subtract || st0.cur is Num || st0.cur is LeftParen);
        while oper_prec < self.current_token.get_oper_prec() && !matches!(self.current_token, Token::EOF)
            invariant
                self.wf(),
                self.text() == s,
                s == old(self).text(),
                st0 == old(self).state(),
                st0.cur is Subtract || st0.cur is Num || st0.cur is LeftParen,
                pm(s, self.state()) < pm(s, st0),
                gen_spec(s, st0, oper_prec) == loop_spec(s, self.state(), oper_prec, left_expr@),
            decreases pm(s, self.state()),
        {
            left_expr = match self.convert_token_to_node(left_expr) {
                Ok(x) => x,
                Err(e) => return Err(e),
            };
        }
        Ok(left_expr)
    }

    fn convert_token_to_node(&mut self, left_expr: Node) -> (r: Result<Node, ParseError>)
        requires
            old(self).wf(),
        ensures
            final(self).wf(),
            final(self).text() == old(self).text(),
            pm(final(self).text(), final(self).state()) <= pm(old(self).text(), old(self).state()),
            r is Ok ==> pm(final(self).text(), final(self).state()) < pm(old(self).text(), old(self).state()),
            final(self).outcome(r, convert_spec(old(self).text(), old(self).state(), left_expr@)),
            prec_of(old(self).state().cur) == OperPrec::DefaultZero ==> *final(self) == *old(self),
        decreases pm(old(self).text(), old(self).state()), 0nat,
    {
        let ghost s = self.text();
        let ghost st0 = self.state();
        proof {
            lemma_pull_progress(s, st0.cursor);
        }
        let prec = self.current_token.get_oper_prec();
        if matches!(prec, OperPrec::DefaultZero) {
            let msg = String::from_str("Please enter valid operator ").concat(
                self.current_token.describe().as_str(),
            );
            return Err(ParseError::InvalidOperator(msg));
        }
        let op = if matches!(self.current_token, Token::Add) {
            0u8
        } else if matches!(self.current_token, Token::Subtract) {
            1u8
        } else if matches!(self.current_token, Token::Multiply) {
            2u8
        } else if matches!(self.current_token, Token::Divide) {
            3u8
        } else {
            4u8
        };
        match self.get_next_token() {
            Ok(()) => {},
            Err(e) => return Err(e),
        }
        let right_expr = match self.generate_ast(prec) {
            Ok(x) => x,
            Err(e) => return Err(e),
        };
        let (l, r) = (Box::new(left_expr), Box::new(right_expr));
        if op == 0 {
            Ok(Node::Add(l, r))
        } else if op == 1 {
            Ok(Node::Subtract(l, r))
        } else if op == 2 {
            Ok(Node::Multiply(l, r))
        } else if op == 3 {
            Ok(Node::Divide(l, r))
        } else {
            Ok(Node::Caret(l, r))
        }
    }
}

/// `s` with every whitespace character taken out.
pub open spec fn strip(s: Seq<char>) -> Seq<char>
    decreases s.len(),
{
    if s.len() == 0 {
        Seq::empty()
    } else if is_space(s.last()) {
        strip(s.drop_last())
    } else {
        strip(s.drop_last()).push(s.last())
    }
}

/// `line` with every whitespace character taken out.
pub fn strip_whitespace(line: &str) -> (r: String)
    ensures
        r@ == strip(line@),
{
    let len = line.unicode_len();
    let mut r = String::new();
    let mut i: usize = 0;
    while i < len
        invariant
            len == line@.len(),
            i <= len,
            r@ == strip(line@.subrange(0, i as int)),
        decreases len - i,
    {
        proof {
            assert(line@.subrange(0, i as int + 1).drop_last() == line@.subrange(0, i as int));
        }
        if !is_space_char(line.get_char(i)) {
            r.append(line.substring_char(i, i + 1));
        }
        i = i + 1;
    }
    proof {
        assert(line@.subrange(0, len as int) == line@);
    }
    r
}

/// Parses the whole of `input`.
pub fn parse_expression(input: &str) -> (r: Result<Node, ParseError>)
    ensures
        tree_matches(r, parse_text(input@)),
{
    let mut parser = match Parser::new(input) {
        Ok(p) => p,
        Err(e) => return Err(e),
    };
    parser.parse()
}

/// Parses a line of input once its whitespace is taken out.
pub fn parse_line(line: &str) -> (r: Result<Node, ParseError>)
    ensures
        tree_matches(r, parse_text(strip(line@))),
{
    let expr = strip_whitespace(line);
    parse_expression(expr.as_str())
}

} // verus!
