//! Statements of the language.

use crate::expr::Expr;
use crate::token::Token;
use vstd::prelude::*;

verus! {

/// A statement tree; a program is a sequence of them.
#[derive(Debug)]
pub enum Stmt {
    /// An expression evaluated for its effect.
    Expr(Expr),
    /// A condition, the branch taken when it holds, and an optional other branch.
    If(Expr, Box<Stmt>, Option<Box<Stmt>>),
    /// `print value;`.
    Print(Expr),
    /// `var name;` or `var name = value;`.
    Var(Token, Option<Expr>),
    /// Statements run in a scope of their own.
    Block(Vec<Stmt>),
    /// A condition and the body repeated while it holds.
    While(Expr, Box<Stmt>),
}

/// The mathematical model of a statement: a block holds a sequence.
pub enum StmtView {
    Expr(Expr),
    If(Expr, Box<StmtView>, Option<Box<StmtView>>),
    Print(Expr),
    Var(Token, Option<Expr>),
    Block(Seq<StmtView>),
    While(Expr, Box<StmtView>),
}

pub open spec fn stmt_view(s: Stmt) -> StmtView
    decreases s, 0nat,
{
    match s {
        Stmt::Expr(e) => StmtView::Expr(e),
        Stmt::If(c, t, e) => StmtView::If(
            c,
            Box::new(stmt_view(*t)),
            match e {
                Some(b) => Some(Box::new(stmt_view(*b))),
                None => None,
            },
        ),
        Stmt::Print(e) => StmtView::Print(e),
        Stmt::Var(n, i) => StmtView::Var(n, i),
        Stmt::Block(v) => StmtView::Block(stmts_view(v@, v@.len() as nat)),
        Stmt::While(c, b) => StmtView::While(c, Box::new(stmt_view(*b))),
    }
}

/// The models of the first `n` statements of `v`.
pub open spec fn stmts_view(v: Seq<Stmt>, n: nat) -> Seq<StmtView>
    decreases v, n + 1,
{
    if n == 0 || n > v.len() {
        Seq::empty()
    } else {
        stmts_view(v, (n - 1) as nat).push(stmt_view(v[n - 1]))
    }
}

/// The models of a sequence of statements.
pub open spec fn views_of(v: Seq<Stmt>) -> Seq<StmtView> {
    stmts_view(v, v.len())
}

/// The model of `v` with `s` appended is the model of `v` with the model of
/// `s` appended.
pub proof fn lemma_views_push(v: Seq<Stmt>, s: Stmt)
    ensures
        views_of(v.push(s)) == views_of(v).push(stmt_view(s)),
{
    assert(v.push(s).subrange(0, v.len() as int) =~= v.subrange(0, v.len() as int));
    lemma_views_prefix(v.push(s), v, v.len());
}

proof fn lemma_views_prefix(a: Seq<Stmt>, b: Seq<Stmt>, n: nat)
    requires
        n <= a.len(),
        n <= b.len(),
        a.subrange(0, n as int) == b.subrange(0, n as int),
    ensures
        stmts_view(a, n) == stmts_view(b, n),
    decreases n,
{
    if n > 0 {
        assert(a.subrange(0, n - 1) =~= a.subrange(0, n as int).subrange(0, n - 1));
        assert(b.subrange(0, n - 1) =~= b.subrange(0, n as int).subrange(0, n - 1));
        assert(a[n - 1] == a.subrange(0, n as int)[n - 1]);
        assert(b[n - 1] == b.subrange(0, n as int)[n - 1]);
        lemma_views_prefix(a, b, (n - 1) as nat);
    }
}

impl View for Stmt {
    type V = StmtView;

    open spec fn view(&self) -> StmtView {
        stmt_view(*self)
    }
}

} // verus!
