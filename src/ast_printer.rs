//! A parenthesized prefix rendering of expressions, for inspecting parses.

use crate::expr::Expr;
use crate::literal::Literal;
use crate::number::{double_text, number_text};
use vstd::prelude::*;

verus! {

/// The text of a constant; numbers in the notation of `rustc_apfloat`.
pub open spec fn literal_text(l: Literal) -> Seq<char> {
    match l {
        Literal::Nil => "nil"@,
        Literal::Boolean(b) => if b {
            "true"@
        } else {
            "false"@
        },
        Literal::Number(n) => double_text(n),
        Literal::Str(s) => s@,
    }
}

/// The rendering of an expression: operators before their operands, every
/// compound expression in parentheses.
pub open spec fn ast_text(e: Expr) -> Seq<char>
    decreases e,
{
    match e {
        Expr::Literal(l) => literal_text(l),
        Expr::Binary(l, op, r) => "("@ + op.lexeme@ + " "@ + ast_text(*l) + " "@ + ast_text(*r) + ")"@,
        Expr::Logical(l, op, r) => "("@ + op.lexeme@ + " "@ + ast_text(*l) + " "@ + ast_text(*r) + ")"@,
        Expr::Grouping(inner) => "(group "@ + ast_text(*inner) + ")"@,
        Expr::Unary(op, r) => "("@ + op.lexeme@ + " "@ + ast_text(*r) + ")"@,
        Expr::Var(name) => "var "@ + name.lexeme@,
        Expr::Assign(name, value) => "("@ + name.lexeme@ + " = "@ + ast_text(*value) + ")"@,
    }
}

/// Renders expressions as text.
pub struct AstPrinter;

impl AstPrinter {
    /// The rendering of `e`.
    pub fn pretty_print(e: &Expr) -> (r: String)
        ensures
            r@ == ast_text(*e),
        decreases e,
    {
        match e {
            Expr::Literal(l) => match l {
                Literal::Nil => String::from_str("nil"),
                Literal::Boolean(b) => if *b {
                    String::from_str("true")
                } else {
                    String::from_str("false")
                },
                Literal::Number(n) => number_text(*n),
                Literal::Str(s) => s.clone(),
            },
            Expr::Binary(l, op, r) | Expr::Logical(l, op, r) => {
                let mut s = String::from_str("(");
                s.append(op.lexeme.as_str());
                s.append(" ");
                s.append(AstPrinter::pretty_print(l).as_str());
                s.append(" ");
                s.append(AstPrinter::pretty_print(r).as_str());
                s.append(")");
                s
            },
            Expr::Grouping(inner) => {
                let mut s = String::from_str("(group ");
                s.append(AstPrinter::pretty_print(inner).as_str());
                s.append(")");
                s
            },
            Expr::Unary(op, r) => {
                let mut s = String::from_str("(");
                s.append(op.lexeme.as_str());
                s.append(" ");
                s.append(AstPrinter::pretty_print(r).as_str());
                s.append(")");
                s
            },
            Expr::Var(name) => {
                let mut s = String::from_str("var ");
                s.append(name.lexeme.as_str());
                s
            },
            Expr::Assign(name, value) => {
                let mut s = String::from_str("(");
                s.append(name.lexeme.as_str());
                s.append(" = ");
                s.append(AstPrinter::pretty_print(value).as_str());
                s.append(")");
                s
            },
        }
    }
}

} // verus!
