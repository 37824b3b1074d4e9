//! The abstract syntax tree that the parser builds.
use vstd::prelude::*;

verus! {

/// An expression tree. A number leaf keeps the text of its literal.
#[derive(Debug, PartialEq)]
pub enum Node {
    Add(Box<Node>, Box<Node>),
    Subtract(Box<Node>, Box<Node>),
    Multiply(Box<Node>, Box<Node>),
    Divide(Box<Node>, Box<Node>),
    Caret(Box<Node>, Box<Node>),
    Negative(Box<Node>),
    Num(String),
}

/// The mathematical value of a `Node`.
pub enum Expr {
    Add(Box<Expr>, Box<Expr>),
    Subtract(Box<Expr>, Box<Expr>),
    Multiply(Box<Expr>, Box<Expr>),
    Divide(Box<Expr>, Box<Expr>),
    Caret(Box<Expr>, Box<Expr>),
    Negative(Box<Expr>),
    Num(Seq<char>),
}

/// The tree that `n` stands for.
pub open spec fn expr_of(n: &Node) -> Expr
    decreases n,
{
    match n {
        Node::Add(l, r) => Expr::Add(Box::new(expr_of(l)), Box::new(expr_of(r))),
        Node::Subtract(l, r) => Expr::Subtract(Box::new(expr_of(l)), Box::new(expr_of(r))),
        Node::Multiply(l, r) => Expr::Multiply(Box::new(expr_of(l)), Box::new(expr_of(r))),
        Node::Divide(l, r) => Expr::Divide(Box::new(expr_of(l)), Box::new(expr_of(r))),
        Node::Caret(l, r) => Expr::Caret(Box::new(expr_of(l)), Box::new(expr_of(r))),
        Node::Negative(x) => Expr::Negative(Box::new(expr_of(x))),
        Node::Num(s) => Expr::Num(s@),
    }
}

impl View for Node {
    type V = Expr;

    open spec fn view(&self) -> Expr {
        expr_of(self)
    }
}

/// A copy of the tree `n`, node for node.
pub fn clone_node(n: &Node) -> (r: Node)
    ensures
        r == *n,
    decreases n,
{
    match n {
        Node::Add(l, r) => Node::Add(Box::new(clone_node(l)), Box::new(clone_node(r))),
        Node::Subtract(l, r) => Node::Subtract(Box::new(clone_node(l)), Box::new(clone_node(r))),
        Node::Multiply(l, r) => Node::Multiply(Box::new(clone_node(l)), Box::new(clone_node(r))),
        Node::Divide(l, r) => Node::Divide(Box::new(clone_node(l)), Box::new(clone_node(r))),
        Node::Caret(l, r) => Node::Caret(Box::new(clone_node(l)), Box::new(clone_node(r))),
        Node::Negative(x) => Node::Negative(Box::new(clone_node(x))),
        Node::Num(s) => Node::Num(s.clone()),
    }
}

impl Clone for Node {
    fn clone(&self) -> Self {
        clone_node(self)
    }
}

} // verus!
