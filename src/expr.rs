//! Expressions of the language.

use crate::literal::Literal;
use crate::token::Token;
use vstd::prelude::*;

verus! {

/// An expression tree; every subexpression is owned by its parent.
#[derive(Debug)]
pub enum Expr {
    /// `name = value`.
    Assign(Token, Box<Expr>),
    /// An arithmetic, comparison or equality operator.
    Binary(Box<Expr>, Token, Box<Expr>),
    /// A parenthesized expression.
    Grouping(Box<Expr>),
    /// A constant.
    Literal(Literal),
    /// A short-circuiting `and` or `or`.
    Logical(Box<Expr>, Token, Box<Expr>),
    /// `!` or unary `-`.
    Unary(Token, Box<Expr>),
    /// A reference to a variable.
    Var(Token),
}

} // verus!
