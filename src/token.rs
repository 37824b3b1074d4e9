//! The token vocabulary and the operator-precedence ordering.
use vstd::prelude::*;
use vstd::string::StringExecFns;

verus! {

/// One lexical unit of an expression. A number keeps the text of its literal:
/// digits with at most one decimal point.
#[derive(Debug, Clone, PartialEq, PartialOrd)]
pub enum Token {
    Add,
    Subtract,
    Multiply,
    Divide,
    Caret,
    LeftParen,
    RightParen,
    Num(String),
    EOF,
}

/// The mathematical value of a `Token`.
pub enum Tok {
    Add,
    Subtract,
    Multiply,
    Divide,
    Caret,
    LeftParen,
    RightParen,
    Num(Seq<char>),
    EOF,
}

impl View for Token {
    type V = Tok;

    open spec fn view(&self) -> Tok {
        match self {
            Token::Add => Tok::Add,
            Token::Subtract => Tok::Subtract,
            Token::Multiply => Tok::Multiply,
            Token::Divide => Tok::Divide,
            Token::Caret => Tok::Caret,
            Token::LeftParen => Tok::LeftParen,
            Token::RightParen => Tok::RightParen,
            Token::Num(s) => Tok::Num(s@),
            Token::EOF => Tok::EOF,
        }
    }
}

/// The view of a token that may be absent.
pub open spec fn opt_view(o: Option<Token>) -> Option<Tok> {
    match o {
        Some(t) => Some(t@),
        None => None,
    }
}

/// Binding strength of an operator, from loosest to tightest.
#[derive(Debug, Clone, Copy, PartialEq, Eq, Structural)]
pub enum OperPrec {
    DefaultZero,
    AddSub,
    MulDiv,
    Power,
    Negative,
}

impl OperPrec {
    /// The position of a level in the strict order
    /// `DefaultZero < AddSub < MulDiv < Power < Negative`.
    pub open spec fn rank(self) -> nat {
        match self {
            OperPrec::DefaultZero => 0,
            OperPrec::AddSub => 1,
            OperPrec::MulDiv => 2,
            OperPrec::Power => 3,
            OperPrec::Negative => 4,
        }
    }

    pub fn level(&self) -> (r: u8)
        ensures
            r as nat == self.rank(),
    {
        match self {
            OperPrec::DefaultZero => 0,
            OperPrec::AddSub => 1,
            OperPrec::MulDiv => 2,
            OperPrec::Power => 3,
            OperPrec::Negative => 4,
        }
    }
}

impl PartialOrd for OperPrec {
    fn partial_cmp(&self, other: &OperPrec) -> (r: Option<core::cmp::Ordering>) {
        let a = self.level();
        let b = other.level();
        if a < b {
            Some(core::cmp::Ordering::Less)
        } else if a == b {
            Some(core::cmp::Ordering::Equal)
        } else {
            Some(core::cmp::Ordering::Greater)
        }
    }
}

impl vstd::std_specs::cmp::PartialOrdSpecImpl for OperPrec {
    open spec fn obeys_partial_cmp_spec() -> bool {
        true
    }

    open spec fn partial_cmp_spec(&self, other: &OperPrec) -> Option<core::cmp::Ordering> {
        if self.rank() < other.rank() {
            Some(core::cmp::Ordering::Less)
        } else if self.rank() == other.rank() {
            Some(core::cmp::Ordering::Equal)
        } else {
            Some(core::cmp::Ordering::Greater)
        }
    }
}

/// The level at which a token binds as a binary operator; every token that
/// is not a binary operator stands at `DefaultZero`.
pub open spec fn prec_of(t: Tok) -> OperPrec {
    match t {
        Tok::Add | Tok::Subtract => OperPrec::AddSub,
        Tok::Multiply | Tok::Divide => OperPrec::MulDiv,
        Tok::Caret => OperPrec::Power,
        _ => OperPrec::DefaultZero,
    }
}

/// How a token is written in a diagnostic message.
pub open spec fn tok_text(t: Tok) -> Seq<char> {
    match t {
        Tok::Add => "Add"@,
        Tok::Subtract => "Subtract"@,
        Tok::Multiply => "Multiply"@,
        Tok::Divide => "Divide"@,
        Tok::Caret => "Caret"@,
        Tok::LeftParen => "LeftParen"@,
        Tok::RightParen => "RightParen"@,
        Tok::Num(s) => "Num("@ + s + ")"@,
        Tok::EOF => "EOF"@,
    }
}

impl Token {
    pub fn get_oper_prec(&self) -> (r: OperPrec)
        ensures
            r == prec_of(self@),
    {
        match self {
            Token::Add | Token::Subtract => OperPrec::AddSub,
            Token::Multiply | Token::Divide => OperPrec::MulDiv,
            Token::Caret => OperPrec::Power,
            _ => OperPrec::DefaultZero,
        }
    }

    /// The token as a diagnostic message writes it.
    pub fn describe(&self) -> (r: String)
        ensures
            r@ == tok_text(self@),
    {
        match self {
            Token::Add => String::from_str("Add"),
            Token::Subtract => String::from_str("Subtract"),
            Token::Multiply => String::from_str("Multiply"),
            Token::Divide => String::from_str("Divide"),
            Token::Caret => String::from_str("Caret"),
            Token::LeftParen => String::from_str("LeftParen"),
            Token::RightParen => String::from_str("RightParen"),
            Token::Num(s) => String::from_str("Num(").concat(s.as_str()).concat(")"),
            Token::EOF => String::from_str("EOF"),
        }
    }
}

} // verus!
