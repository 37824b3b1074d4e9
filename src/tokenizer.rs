//! A lazy tokenizer: each call of `next` scans one token from a cursor.
use vstd::prelude::*;
use vstd::string::StrSliceExecFns;
use vstd::string::StringExecFns;
use crate::token::{opt_view, Tok, Token};

verus! {

/// Unicode `White_Space`, which the tokenizer passes over between tokens.
pub open spec fn is_space(c: char) -> bool {
    let u = c as u32;
    (0x09 <= u && u <= 0x0D) || u == 0x20 || u == 0x85 || u == 0xA0 || u == 0x1680
        || (0x2000 <= u && u <= 0x200A) || u == 0x2028 || u == 0x2029 || u == 0x202F
        || u == 0x205F || u == 0x3000
}

pub open spec fn is_digit(c: char) -> bool {
    '0' <= c && c <= '9'
}

/// A character that may stand in a number literal.
pub open spec fn is_num_char(c: char) -> bool {
    is_digit(c) || c == '.'
}

/// The first position at or after `pos` that does not hold whitespace.
pub open spec fn skip_spaces(s: Seq<char>, pos: int) -> int
    decreases s.len() - pos,
{
    if 0 <= pos < s.len() && is_space(s[pos]) {
        skip_spaces(s, pos + 1)
    } else {
        pos
    }
}

/// The end of the run of digits and points that starts at `pos`.
pub open spec fn run_end(s: Seq<char>, pos: int) -> int
    decreases s.len() - pos,
{
    if 0 <= pos < s.len() && is_num_char(s[pos]) {
        run_end(s, pos + 1)
    } else {
        pos
    }
}

/// No two decimal points in `t`.
pub open spec fn at_most_one_point(t: Seq<char>) -> bool {
    forall|i: int, j: int| 0 <= i < j < t.len() ==> !(t[i] == '.' && t[j] == '.')
}

/// Where the tokenizer stands: the next position to scan, and whether the
/// sequence of tokens has ended.
pub struct Cursor {
    pub pos: nat,
    pub done: bool,
}

/// The token that a single-character operator or parenthesis stands for.
pub open spec fn symbol_tok(c: char) -> Option<Tok> {
    if c == '+' {
        Some(Tok::Add)
    } else if c == '-' {
        Some(Tok::Subtract)
    } else if c == '*' {
        Some(Tok::Multiply)
    } else if c == '/' {
        Some(Tok::Divide)
    } else if c == '^' {
        Some(Tok::Caret)
    } else if c == '(' {
        Some(Tok::LeftParen)
    } else if c == ')' {
        Some(Tok::RightParen)
    } else {
        None
    }
}

/// One scan from `pos`: the token found there and the position after it, or
/// `None` for a character that starts no token or a literal with two points.
/// At the end of the text the token is `EOF`.
pub open spec fn scan(s: Seq<char>, pos: int) -> Option<(Tok, int)> {
    let p = skip_spaces(s, pos);
    if p >= s.len() {
        Some((Tok::EOF, p))
    } else if symbol_tok(s[p]) is Some {
        Some((symbol_tok(s[p])->0, p + 1))
    } else if is_digit(s[p]) {
        let e = run_end(s, p);
        if at_most_one_point(s.subrange(p, e)) {
            Some((Tok::Num(s.subrange(p, e)), e))
        } else {
            None
        }
    } else {
        None
    }
}

/// The cursor of a fresh tokenizer: a text of whitespace alone yields no token.
pub open spec fn start(s: Seq<char>) -> Cursor {
    Cursor { pos: 0, done: skip_spaces(s, 0) >= s.len() }
}

/// What one request for a token yields, and the cursor after it. An ended
/// sequence yields nothing; `EOF` and a scan failure end it.
pub open spec fn pull(s: Seq<char>, c: Cursor) -> (Option<Tok>, Cursor) {
    if c.done {
        (None, c)
    } else {
        match scan(s, c.pos as int) {
            Some((t, p)) => (Some(t), Cursor { pos: p as nat, done: t is EOF }),
            None => (None, Cursor { pos: c.pos, done: true }),
        }
    }
}

pub open spec fn cursor_ok(s: Seq<char>, c: Cursor) -> bool {
    c.pos <= s.len()
}

/// Decreases with every token pulled.
pub open spec fn measure(s: Seq<char>, c: Cursor) -> nat {
    if c.done {
        0
    } else {
        (s.len() - c.pos + 1) as nat
    }
}

proof fn lemma_skip_spaces(s: Seq<char>, pos: int)
    requires
        0 <= pos <= s.len(),
    ensures
        pos <= skip_spaces(s, pos) <= s.len(),
    decreases s.len() - pos,
{
    if pos < s.len() && is_space(s[pos]) {
        lemma_skip_spaces(s, pos + 1);
    }
}

proof fn lemma_run_end(s: Seq<char>, pos: int)
    requires
        0 <= pos <= s.len(),
    ensures
        pos <= run_end(s, pos) <= s.len(),
        forall|k: int| pos <= k < run_end(s, pos) ==> is_num_char(#[trigger] s[k]),
        run_end(s, pos) < s.len() ==> !is_num_char(s[run_end(s, pos)]),
    decreases s.len() - pos,
{
    if pos < s.len() && is_num_char(s[pos]) {
        lemma_run_end(s, pos + 1);
    }
}

/// Every token pulled moves the cursor forward and keeps it within the text.
pub proof fn lemma_pull_progress(s: Seq<char>, c: Cursor)
    requires
        cursor_ok(s, c),
    ensures
        cursor_ok(s, pull(s, c).1),
        pull(s, c).0 is Some ==> measure(s, pull(s, c).1) < measure(s, c),
        measure(s, pull(s, c).1) <= measure(s, c),
{
    if !c.done {
        let p = skip_spaces(s, c.pos as int);
        lemma_skip_spaces(s, c.pos as int);
        if p < s.len() && symbol_tok(s[p]) is None && is_digit(s[p]) {
            lemma_run_end(s, p);
        }
    }
}

/// Yields the tokens of a text one at a time, until the text ends or a
/// character that starts no token is met.
pub struct Tokenizer<'a> {
    input: &'a str,
    len: usize,
    pos: usize,
    done: bool,
}

impl<'a> Tokenizer<'a> {
    pub closed spec fn text(&self) -> Seq<char> {
        self.input@
    }

    pub closed spec fn cursor(&self) -> Cursor {
        Cursor { pos: self.pos as nat, done: self.done }
    }

    pub closed spec fn wf(&self) -> bool {
        &&& self.len == self.input@.len()
        &&& self.pos <= self.len
    }

    pub fn new(input: &'a str) -> (r: Self)
        ensures
            r.wf(),
            r.text() == input@,
            r.cursor() == start(input@),
            cursor_ok(input@, r.cursor()),
    {
        let len = input.unicode_len();
        let first = skip_from(input, len, 0);
        Tokenizer { input, len, pos: 0, done: first == len }
    }

    pub fn next(&mut self) -> (r: Option<Token>)
        requires
            old(self).wf(),
        ensures
            final(self).wf(),
            final(self).text() == old(self).text(),
            cursor_ok(final(self).text(), final(self).cursor()),
            (opt_view(r), final(self).cursor()) == pull(old(self).text(), old(self).cursor()),
    {
        if self.done {
            return None;
        }
        let ghost s = self.input@;
        let p = skip_from(self.input, self.len, self.pos);
        proof {
            lemma_skip_spaces(s, self.pos as int);
        }
        if p == self.len {
            self.pos = p;
            self.done = true;
            return Some(Token::EOF);
        }
        let c = self.input.get_char(p);
        let sym = symbol(c);
        match sym {
            Some(t) => {
                self.pos = p + 1;
                return Some(t);
            },
            None => {},
        }
        if !('0' <= c && c <= '9') {
            self.done = true;
            return None;
        }
        let input = self.input;
        let len = self.len;
        let mut e: usize = p + 1;
        let mut seen_point = false;
        while e < len && is_num_char_exec(input.get_char(e))
            invariant
                self.wf(),
                self.input == input,
                self.pos == old(self).pos,
                !self.done,
                old(self).input@ == s,
                !old(self).done,
                p as int == skip_spaces(s, old(self).pos as int),
                symbol_tok(s[p as int]) is None,
                len == s.len(),
                input@ == s,
                p < e <= len,
                is_digit(s[p as int]),
                run_end(s, p as int) == run_end(s, e as int),
                at_most_one_point(s.subrange(p as int, e as int)),
                seen_point <==> exists|k: int| p <= k < e && s[k] == '.',
            decreases len - e,
        {
            let d = input.get_char(e);
            if d == '.' {
                if seen_point {
                    proof {
                        let k = choose|k: int| p <= k < e && s[k] == '.';
                        lemma_run_end(s, e as int + 1);
                        let t = s.subrange(p as int, run_end(s, p as int));
                        assert(t[k - p] == '.' && t[e - p] == '.');
                    }
                    self.done = true;
                    return None;
                }
                seen_point = true;
            }
            proof {
                let t0 = s.subrange(p as int, e as int);
                let t1 = s.subrange(p as int, e as int + 1);
                assert forall|i: int, j: int| 0 <= i < j < t1.len() implies !(t1[i] == '.' && t1[j] == '.') by {
                    if j < t0.len() {
                        assert(t1[i] == t0[i] && t1[j] == t0[j]);
                    } else if t1[i] == '.' && t1[j] == '.' {
                        assert(s[p + i] == '.');
                    }
                }
            }
            e = e + 1;
        }
        proof {
            lemma_run_end(s, e as int);
            assert(run_end(s, e as int) == e);
        }
        let lit = String::from_str(self.input.substring_char(p, e));
        self.pos = e;
        Some(Token::Num(lit))
    }
}

/// The operator or parenthesis token written as `c`.
fn symbol(c: char) -> (r: Option<Token>)
    ensures
        opt_view(r) == symbol_tok(c),
{
    if c == '+' {
        Some(Token::Add)
    } else if c == '-' {
        Some(Token::Subtract)
    } else if c == '*' {
        Some(Token::Multiply)
    } else if c == '/' {
        Some(Token::Divide)
    } else if c == '^' {
        Some(Token::Caret)
    } else if c == '(' {
        Some(Token::LeftParen)
    } else if c == ')' {
        Some(Token::RightParen)
    } else {
        None
    }
}

pub fn is_space_char(c: char) -> (r: bool)
    ensures
        r == is_space(c),
{
    let u = c as u32;
    (0x09 <= u && u <= 0x0D) || u == 0x20 || u == 0x85 || u == 0xA0 || u == 0x1680
        || (0x2000 <= u && u <= 0x200A) || u == 0x2028 || u == 0x2029 || u == 0x202F
        || u == 0x205F || u == 0x3000
}

fn is_num_char_exec(c: char) -> (r: bool)
    ensures
        r == is_num_char(c),
{
    ('0' <= c && c <= '9') || c == '.'
}

/// The first position at or after `pos` that does not hold whitespace.
fn skip_from(input: &str, len: usize, pos: usize) -> (r: usize)
    requires
        len == input@.len(),
        pos <= len,
    ensures
        r as int == skip_spaces(input@, pos as int),
        pos <= r <= len,
{
    let mut i = pos;
    while i < len && is_space_char(input.get_char(i))
        invariant
            len == input@.len(),
            pos <= i <= len,
            skip_spaces(input@, i as int) == skip_spaces(input@, pos as int),
        decreases len - i,
    {
        i = i + 1;
    }
    i
}

} // verus!
