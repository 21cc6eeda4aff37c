//! The parser: recursive descent over the token sequence, one function per
//! grammar rule, with recovery at statement boundaries after a syntax error.

use crate::error::{ParseError, ParseFault};
use crate::expr::Expr;
use crate::literal::Literal;
use crate::stmt::{lemma_views_push, views_of, Stmt, StmtView};
use crate::token::{Token, TokenType};
use vstd::prelude::*;

verus! {

pub open spec fn pfault(msg: Seq<char>, token: Token) -> ParseFault {
    ParseFault { msg, token }
}

/// Whether position `p` is at the end of input: on an end-of-file token,
/// or on the last token or beyond.
pub open spec fn at_end(toks: Seq<Token>, p: int) -> bool {
    !(0 <= p < toks.len() - 1) || toks[p].ttype == TokenType::Eof
}

/// Whether the token at `p` is of kind `k` and not at the end of input.
pub open spec fn check(toks: Seq<Token>, p: int, k: TokenType) -> bool {
    !at_end(toks, p) && toks[p].ttype == k
}

/// `p` lies at or after `from`, on a token.
pub open spec fn kept(toks: Seq<Token>, p: int, from: int) -> bool {
    from <= p < toks.len()
}

/// Takes a token of kind `k` at `p`, or fails with `msg` there.
pub open spec fn consume(toks: Seq<Token>, p: int, k: TokenType, msg: Seq<char>) -> (int, Result<Token, ParseFault>) {
    if check(toks, p, k) {
        (p + 1, Ok(toks[p]))
    } else {
        (p, Err(pfault(msg, toks[p])))
    }
}

/// The operators of each binary level, from the tightest: factor, term,
/// comparison, equality, `and`, `or`.
pub open spec fn level_matches(lvl: int, k: TokenType) -> bool {
    if lvl == 1 {
        k == TokenType::Slash || k == TokenType::Star
    } else if lvl == 2 {
        k == TokenType::Minus || k == TokenType::Plus
    } else if lvl == 3 {
        k == TokenType::Greater || k == TokenType::GreaterEqual || k == TokenType::Less || k
            == TokenType::LessEqual
    } else if lvl == 4 {
        k == TokenType::BangEqual || k == TokenType::EqualEqual
    } else if lvl == 5 {
        k == TokenType::And
    } else {
        k == TokenType::Or
    }
}

/// The node of a binary level: `and` and `or` short-circuit.
pub open spec fn combine(lvl: int, left: Expr, op: Token, right: Expr) -> Expr {
    if lvl >= 5 {
        Expr::Logical(Box::new(left), op, Box::new(right))
    } else {
        Expr::Binary(Box::new(left), op, Box::new(right))
    }
}

/// `expression → assignment`
pub open spec fn p_expression(toks: Seq<Token>, p: int) -> (int, Result<Expr, ParseFault>)
    decreases toks.len() - p, 17int,
{
    p_assignment(toks, p)
}

/// `assignment → or ("=" assignment)?`, whose left side must be a variable.
pub open spec fn p_assignment(toks: Seq<Token>, p: int) -> (int, Result<Expr, ParseFault>)
    decreases toks.len() - p, 16int,
{
    let (pos1, r) = p_level(toks, p, 6);
    match r {
        Err(x) => (pos1, Err(x)),
        Ok(e) => if kept(toks, pos1, p) && check(toks, pos1, TokenType::Equal) {
            let (pos2, v) = p_assignment(toks, pos1 + 1);
            match v {
                Err(x) => (pos2, Err(x)),
                Ok(val) => match e {
                    Expr::Var(name) => (pos2, Ok(Expr::Assign(name, Box::new(val)))),
                    _ => (pos2, Err(pfault("Invalid assignment target"@, toks[pos1]))),
                },
            }
        } else {
            (pos1, Ok(e))
        },
    }
}

/// A binary level: `operand (op operand)*`, left-associative.
pub open spec fn p_level(toks: Seq<Token>, p: int, lvl: int) -> (int, Result<Expr, ParseFault>)
    decreases toks.len() - p, 2 * lvl + 3,
{
    if lvl < 1 {
        (p, Err(pfault(Seq::empty(), toks[p])))
    } else {
        let (pos1, r) = p_operand(toks, p, lvl);
        match r {
            Err(x) => (pos1, Err(x)),
            Ok(e) => if kept(toks, pos1, p) {
                p_level_rest(toks, pos1, lvl, e)
            } else {
                (pos1, Ok(e))
            },
        }
    }
}

/// The operands of a binary level: the next tighter level, or `unary`.
pub open spec fn p_operand(toks: Seq<Token>, p: int, lvl: int) -> (int, Result<Expr, ParseFault>)
    decreases toks.len() - p, 2 * lvl + 2,
{
    if lvl < 1 {
        (p, Err(pfault(Seq::empty(), toks[p])))
    } else if lvl == 1 {
        p_unary(toks, p)
    } else {
        p_level(toks, p, lvl - 1)
    }
}

/// The `(op operand)*` part of a binary level, after `left`.
pub open spec fn p_level_rest(toks: Seq<Token>, p: int, lvl: int, left: Expr) -> (int, Result<Expr, ParseFault>)
    decreases toks.len() - p, 2 * lvl + 2,
{
    if lvl >= 1 && !at_end(toks, p) && level_matches(lvl, toks[p].ttype) {
        let (pos1, r) = p_operand(toks, p + 1, lvl);
        match r {
            Err(x) => (pos1, Err(x)),
            Ok(right) => {
                let e = combine(lvl, left, toks[p], right);
                if kept(toks, pos1, p + 1) {
                    p_level_rest(toks, pos1, lvl, e)
                } else {
                    (pos1, Ok(e))
                }
            },
        }
    } else {
        (p, Ok(left))
    }
}

/// `unary → ("!" | "-") unary | primary`
pub open spec fn p_unary(toks: Seq<Token>, p: int) -> (int, Result<Expr, ParseFault>)
    decreases toks.len() - p, 3int,
{
    if check(toks, p, TokenType::Bang) || check(toks, p, TokenType::Minus) {
        let (pos1, r) = p_unary(toks, p + 1);
        match r {
            Err(x) => (pos1, Err(x)),
            Ok(e) => (pos1, Ok(Expr::Unary(toks[p], Box::new(e)))),
        }
    } else {
        p_primary(toks, p)
    }
}

/// `primary → NUMBER | STRING | "true" | "false" | "nil" | IDENTIFIER | "(" expression ")"`
pub open spec fn p_primary(toks: Seq<Token>, p: int) -> (int, Result<Expr, ParseFault>)
    decreases toks.len() - p, 2int,
{
    if check(toks, p, TokenType::False) {
        (p + 1, Ok(Expr::Literal(Literal::Boolean(false))))
    } else if check(toks, p, TokenType::True) {
        (p + 1, Ok(Expr::Literal(Literal::Boolean(true))))
    } else if check(toks, p, TokenType::Nil) {
        (p + 1, Ok(Expr::Literal(Literal::Nil)))
    } else if check(toks, p, TokenType::Number) {
        match toks[p].literal {
            Some(Literal::Number(n)) => (p + 1, Ok(Expr::Literal(Literal::Number(n)))),
            _ => (p + 1, Err(pfault("Expect number"@, toks[p + 1]))),
        }
    } else if check(toks, p, TokenType::String) {
        match toks[p].literal {
            Some(Literal::Str(s)) => (p + 1, Ok(Expr::Literal(Literal::Str(s)))),
            _ => (p + 1, Err(pfault("Expect string"@, toks[p + 1]))),
        }
    } else if check(toks, p, TokenType::Identifier) {
        (p + 1, Ok(Expr::Var(toks[p])))
    } else if check(toks, p, TokenType::LeftParen) {
        let (pos1, r) = p_expression(toks, p + 1);
        match r {
            Err(x) => (pos1, Err(x)),
            Ok(e) => {
                let (pos2, c) = consume(toks, pos1, TokenType::RightParen, "Expect ')' after expression"@);
                match c {
                    Err(x) => (pos2, Err(x)),
                    Ok(_) => (pos2, Ok(Expr::Grouping(Box::new(e)))),
                }
            },
        }
    } else {
        (p, Err(pfault("Expect expression"@, toks[p])))
    }
}

/// `exprStmt → expression ";"`
pub open spec fn p_expr_stmt(toks: Seq<Token>, p: int) -> (int, Result<StmtView, ParseFault>)
    decreases toks.len() - p, 18int,
{
    let (pos1, r) = p_expression(toks, p);
    match r {
        Err(x) => (pos1, Err(x)),
        Ok(e) => {
            let (pos2, c) = consume(toks, pos1, TokenType::Semicolon, "Expect ';' after expression"@);
            match c {
                Err(x) => (pos2, Err(x)),
                Ok(_) => (pos2, Ok(StmtView::Expr(e))),
            }
        },
    }
}

/// `printStmt → "print" expression ";"`, from after `print`.
pub open spec fn p_print(toks: Seq<Token>, p: int) -> (int, Result<StmtView, ParseFault>)
    decreases toks.len() - p, 18int,
{
    let (pos1, r) = p_expression(toks, p);
    match r {
        Err(x) => (pos1, Err(x)),
        Ok(e) => {
            let (pos2, c) = consume(toks, pos1, TokenType::Semicolon, "Expect ';' after value"@);
            match c {
                Err(x) => (pos2, Err(x)),
                Ok(_) => (pos2, Ok(StmtView::Print(e))),
            }
        },
    }
}

/// The `;` that closes a variable declaration.
pub open spec fn finish_var(toks: Seq<Token>, p: int, name: Token, init: Option<Expr>) -> (int, Result<StmtView, ParseFault>) {
    let (pos1, c) = consume(toks, p, TokenType::Semicolon, "Expect ';' after var declaration"@);
    match c {
        Err(x) => (pos1, Err(x)),
        Ok(_) => (pos1, Ok(StmtView::Var(name, init))),
    }
}

/// `varDecl → IDENTIFIER ("=" expression)? ";"`, from after `var`.
pub open spec fn p_var_decl(toks: Seq<Token>, p: int) -> (int, Result<StmtView, ParseFault>)
    decreases toks.len() - p, 18int,
{
    let (pos1, n) = consume(toks, p, TokenType::Identifier, "Expect variable name"@);
    match n {
        Err(x) => (pos1, Err(x)),
        Ok(name) => if check(toks, pos1, TokenType::Equal) {
            let (pos2, r) = p_expression(toks, pos1 + 1);
            match r {
                Err(x) => (pos2, Err(x)),
                Ok(e) => finish_var(toks, pos2, name, Some(e)),
            }
        } else {
            finish_var(toks, pos1, name, None)
        },
    }
}

/// The kinds of token that a statement or declaration can begin with.
pub open spec fn starts_statement(k: TokenType) -> bool {
    ||| k == TokenType::Class
    ||| k == TokenType::Fun
    ||| k == TokenType::Var
    ||| k == TokenType::For
    ||| k == TokenType::If
    ||| k == TokenType::While
    ||| k == TokenType::Print
    ||| k == TokenType::Return
}

/// Skips tokens from `q` on until just after a `;`, or to a token that
/// begins a statement, or to the end of input.
pub open spec fn sync_from(toks: Seq<Token>, q: int) -> int
    decreases toks.len() - q,
{
    if q < 1 || at_end(toks, q) {
        q
    } else if toks[q - 1].ttype == TokenType::Semicolon {
        q
    } else if starts_statement(toks[q].ttype) {
        q
    } else {
        sync_from(toks, q + 1)
    }
}

/// Recovery after a syntax error at `p`: the offending token is skipped,
/// then tokens up to the next statement boundary.
pub open spec fn p_sync(toks: Seq<Token>, p: int) -> int {
    sync_from(toks, if at_end(toks, p) { p } else { p + 1 })
}

/// `declaration → "var" varDecl | statement`; a declaration with a syntax
/// error is reported, skipped, and gives no statement.
pub open spec fn p_declaration(toks: Seq<Token>, p: int, log: Seq<ParseFault>) -> (int, Option<StmtView>, Seq<ParseFault>)
    decreases toks.len() - p, 30int,
{
    let (pos1, r, l1) = if check(toks, p, TokenType::Var) {
        let (q, r) = p_var_decl(toks, p + 1);
        (q, r, log)
    } else {
        p_statement(toks, p, log)
    };
    match r {
        Ok(s) => (pos1, Some(s), l1),
        Err(x) => (p_sync(toks, pos1), None, l1.push(x)),
    }
}

/// `statement → forStmt | ifStmt | printStmt | whileStmt | block | exprStmt`
pub open spec fn p_statement(toks: Seq<Token>, p: int, log: Seq<ParseFault>) -> (int, Result<StmtView, ParseFault>, Seq<ParseFault>)
    decreases toks.len() - p, 25int,
{
    if check(toks, p, TokenType::For) {
        p_for(toks, p + 1, log)
    } else if check(toks, p, TokenType::If) {
        p_if(toks, p + 1, log)
    } else if check(toks, p, TokenType::Print) {
        let (q, r) = p_print(toks, p + 1);
        (q, r, log)
    } else if check(toks, p, TokenType::While) {
        p_while(toks, p + 1, log)
    } else if check(toks, p, TokenType::LeftBrace) {
        let (q, r, l) = p_block_items(toks, p + 1, Seq::empty(), log);
        (
            q,
            match r {
                Ok(items) => Ok(StmtView::Block(items)),
                Err(x) => Err(x),
            },
            l,
        )
    } else {
        let (q, r) = p_expr_stmt(toks, p);
        (q, r, log)
    }
}

/// `block → "{" declaration* "}"`, from after `{`, with `acc` parsed so far.
pub open spec fn p_block_items(toks: Seq<Token>, p: int, acc: Seq<StmtView>, log: Seq<ParseFault>) -> (
    int,
    Result<Seq<StmtView>, ParseFault>,
    Seq<ParseFault>,
)
    decreases toks.len() - p, 40int,
{
    if !check(toks, p, TokenType::RightBrace) && !at_end(toks, p) {
        let (pos1, s, l1) = p_declaration(toks, p, log);
        if kept(toks, pos1, p + 1) {
            p_block_items(
                toks,
                pos1,
                match s {
                    Some(x) => acc.push(x),
                    None => acc,
                },
                l1,
            )
        } else {
            (pos1, Err(pfault(Seq::empty(), toks[p])), l1)
        }
    } else {
        let (pos1, c) = consume(toks, p, TokenType::RightBrace, "Expect '}' after block"@);
        match c {
            Err(x) => (pos1, Err(x), log),
            Ok(_) => (pos1, Ok(acc), log),
        }
    }
}

/// `whileStmt → "while" "(" expression ")" statement`, from after `while`.
pub open spec fn p_while(toks: Seq<Token>, p: int, log: Seq<ParseFault>) -> (int, Result<StmtView, ParseFault>, Seq<ParseFault>)
    decreases toks.len() - p, 22int,
{
    let (pos1, a) = consume(toks, p, TokenType::LeftParen, "Expect '(' after 'while'"@);
    if a is Err {
        (pos1, Err(a->Err_0), log)
    } else {
        let (pos2, c) = p_expression(toks, pos1);
        match c {
            Err(x) => (pos2, Err(x), log),
            Ok(cond) => {
                let (pos3, b) = consume(toks, pos2, TokenType::RightParen, "Expect ')' after condition"@);
                if b is Err {
                    (pos3, Err(b->Err_0), log)
                } else if !kept(toks, pos2, pos1) {
                    (pos3, Err(pfault(Seq::empty(), toks[p])), log)
                } else {
                    let (pos4, body, l4) = p_statement(toks, pos3, log);
                    match body {
                        Err(x) => (pos4, Err(x), l4),
                        Ok(s) => (pos4, Ok(StmtView::While(cond, Box::new(s))), l4),
                    }
                }
            },
        }
    }
}

/// `ifStmt → "if" "(" expression ")" statement ("else" statement)?`, from after `if`.
pub open spec fn p_if(toks: Seq<Token>, p: int, log: Seq<ParseFault>) -> (int, Result<StmtView, ParseFault>, Seq<ParseFault>)
    decreases toks.len() - p, 22int,
{
    let (pos1, a) = consume(toks, p, TokenType::LeftParen, "Expect '(' after 'if'"@);
    if a is Err {
        (pos1, Err(a->Err_0), log)
    } else {
        let (pos2, c) = p_expression(toks, pos1);
        match c {
            Err(x) => (pos2, Err(x), log),
            Ok(cond) => {
                let (pos3, b) = consume(toks, pos2, TokenType::RightParen, "Expect ')' after if condition"@);
                if b is Err {
                    (pos3, Err(b->Err_0), log)
                } else if !kept(toks, pos2, pos1) {
                    (pos3, Err(pfault(Seq::empty(), toks[p])), log)
                } else {
                    let (pos4, t, l4) = p_statement(toks, pos3, log);
                    match t {
                        Err(x) => (pos4, Err(x), l4),
                        Ok(then_branch) => if kept(toks, pos4, pos3) && check(toks, pos4, TokenType::Else) {
                            let (pos5, e, l5) = p_statement(toks, pos4 + 1, l4);
                            match e {
                                Err(x) => (pos5, Err(x), l5),
                                Ok(else_branch) => (
                                    pos5,
                                    Ok(StmtView::If(cond, Box::new(then_branch), Some(Box::new(else_branch)))),
                                    l5,
                                ),
                            }
                        } else {
                            (pos4, Ok(StmtView::If(cond, Box::new(then_branch), None)), l4)
                        },
                    }
                }
            },
        }
    }
}

/// The initializer clause of a `for`: none, a declaration or an expression statement.
pub open spec fn p_for_init(toks: Seq<Token>, p: int) -> (int, Result<Option<StmtView>, ParseFault>)
    decreases toks.len() - p, 19int,
{
    if check(toks, p, TokenType::Semicolon) {
        (p + 1, Ok(None))
    } else if check(toks, p, TokenType::Var) {
        let (q, r) = p_var_decl(toks, p + 1);
        (q, match r { Ok(s) => Ok(Some(s)), Err(x) => Err(x) })
    } else {
        let (q, r) = p_expr_stmt(toks, p);
        (q, match r { Ok(s) => Ok(Some(s)), Err(x) => Err(x) })
    }
}

/// An optional expression, absent where the token at `p` is `stop`.
pub open spec fn p_for_clause(toks: Seq<Token>, p: int, stop: TokenType) -> (int, Result<Option<Expr>, ParseFault>)
    decreases toks.len() - p, 19int,
{
    if !check(toks, p, stop) {
        let (q, r) = p_expression(toks, p);
        (q, match r { Ok(e) => Ok(Some(e)), Err(x) => Err(x) })
    } else {
        (p, Ok(None))
    }
}

/// The statement a `for` stands for: its body followed by the increment,
/// repeated while the condition (`true` when absent) holds, after the initializer.
pub open spec fn desugar_for(init: Option<StmtView>, cond: Option<Expr>, inc: Option<Expr>, body: StmtView) -> StmtView {
    let b = match inc {
        Some(i) => StmtView::Block(seq![body, StmtView::Expr(i)]),
        None => body,
    };
    let c = match cond {
        Some(c) => c,
        None => Expr::Literal(Literal::Boolean(true)),
    };
    let w = StmtView::While(c, Box::new(b));
    match init {
        Some(s) => StmtView::Block(seq![s, w]),
        None => w,
    }
}

/// `forStmt → "for" "(" (varDecl | exprStmt | ";") expression? ";" expression? ")" statement`,
/// from after `for`.
pub open spec fn p_for(toks: Seq<Token>, p: int, log: Seq<ParseFault>) -> (int, Result<StmtView, ParseFault>, Seq<ParseFault>)
    decreases toks.len() - p, 22int,
{
    let (pos1, a) = consume(toks, p, TokenType::LeftParen, "Expect '(' after 'for'"@);
    if a is Err {
        (pos1, Err(a->Err_0), log)
    } else {
        let (pos2, init) = p_for_init(toks, pos1);
        if init is Err {
            (pos2, Err(init->Err_0), log)
        } else {
            let (pos3, cond) = p_for_clause(toks, pos2, TokenType::Semicolon);
            if cond is Err {
                (pos3, Err(cond->Err_0), log)
            } else {
                let (pos4, s1) = consume(toks, pos3, TokenType::Semicolon, "Expect ';' after loop condition"@);
                if s1 is Err {
                    (pos4, Err(s1->Err_0), log)
                } else {
                    let (pos5, inc) = p_for_clause(toks, pos4, TokenType::RightParen);
                    if inc is Err {
                        (pos5, Err(inc->Err_0), log)
                    } else {
                        let (pos6, s2) = consume(toks, pos5, TokenType::RightParen, "Expect ')' after for clauses"@);
                        if s2 is Err {
                            (pos6, Err(s2->Err_0), log)
                        } else if !(kept(toks, pos2, pos1) && kept(toks, pos3, pos2) && kept(toks, pos5, pos4)) {
                            (pos6, Err(pfault(Seq::empty(), toks[p])), log)
                        } else {
                            let (pos7, body, l7) = p_statement(toks, pos6, log);
                            match body {
                                Err(x) => (pos7, Err(x), l7),
                                Ok(b) => (pos7, Ok(desugar_for(init->Ok_0, cond->Ok_0, inc->Ok_0, b)), l7),
                            }
                        }
                    }
                }
            }
        }
    }
}

/// `program → declaration* EOF`, from `p`: the statements, and the syntax
/// errors reported on the way.
pub open spec fn p_program(toks: Seq<Token>, p: int, acc: Seq<StmtView>, log: Seq<ParseFault>) -> (Seq<StmtView>, Seq<ParseFault>)
    decreases toks.len() - p,
{
    if at_end(toks, p) {
        (acc, log)
    } else {
        let (pos1, s, l1) = p_declaration(toks, p, log);
        if kept(toks, pos1, p + 1) {
            p_program(
                toks,
                pos1,
                match s {
                    Some(x) => acc.push(x),
                    None => acc,
                },
                l1,
            )
        } else {
            (acc, l1)
        }
    }
}

/// The tokens end with an end-of-file token.
pub open spec fn tokens_wf(toks: Seq<Token>) -> bool {
    toks.len() > 0 && toks.last().ttype == TokenType::Eof
}

/// The parse of an expression from `p` stops on a token at or after `p`,
/// and after it where it succeeds.
pub open spec fn advances_expr(toks: Seq<Token>, p: int, r: (int, Result<Expr, ParseFault>)) -> bool {
    p <= r.0 < toks.len() && (r.1 is Ok ==> p < r.0)
}

/// The parse of a statement from `p` stops on a token at or after `p`,
/// and after it where it succeeds.
pub open spec fn advances_stmt(
    toks: Seq<Token>,
    p: int,
    r: (int, Result<StmtView, ParseFault>, Seq<ParseFault>),
) -> bool {
    p <= r.0 < toks.len() && (r.1 is Ok ==> p < r.0)
}

proof fn lemma_sync_in_bounds(toks: Seq<Token>, q: int)
    requires
        0 <= q < toks.len(),
    ensures
        sync_from(toks, q) < toks.len(),
    decreases toks.len() - q,
{
    if !(q < 1 || at_end(toks, q)) && toks[q - 1].ttype != TokenType::Semicolon && !starts_statement(toks[q].ttype) {
        lemma_sync_in_bounds(toks, q + 1);
    }
}

proof fn lemma_p_expression(toks: Seq<Token>, p: int)
    requires
        tokens_wf(toks),
        0 <= p < toks.len(),
    ensures
        advances_expr(toks, p, p_expression(toks, p)),
    decreases toks.len() - p, 17int,
{
    lemma_p_assignment(toks, p);
}

proof fn lemma_p_assignment(toks: Seq<Token>, p: int)
    requires
        tokens_wf(toks),
        0 <= p < toks.len(),
    ensures
        advances_expr(toks, p, p_assignment(toks, p)),
    decreases toks.len() - p, 16int,
{
    lemma_p_level(toks, p, 6);
    let (pos1, r) = p_level(toks, p, 6);
    if r is Ok && kept(toks, pos1, p) && check(toks, pos1, TokenType::Equal) {
        lemma_p_assignment(toks, pos1 + 1);
    }
}

proof fn lemma_p_level(toks: Seq<Token>, p: int, lvl: int)
    requires
        tokens_wf(toks),
        0 <= p < toks.len(),
    ensures
        advances_expr(toks, p, p_level(toks, p, lvl)),
    decreases toks.len() - p, 2 * lvl + 3,
{
    if lvl >= 1 {
        lemma_p_operand(toks, p, lvl);
        let (pos1, r) = p_operand(toks, p, lvl);
        if r is Ok && kept(toks, pos1, p) {
            lemma_p_level_rest(toks, pos1, lvl, r->Ok_0);
        }
    }
}

proof fn lemma_p_operand(toks: Seq<Token>, p: int, lvl: int)
    requires
        tokens_wf(toks),
        0 <= p < toks.len(),
    ensures
        advances_expr(toks, p, p_operand(toks, p, lvl)),
    decreases toks.len() - p, 2 * lvl + 2,
{
    if lvl == 1 {
        lemma_p_unary(toks, p);
    } else if lvl > 1 {
        lemma_p_level(toks, p, lvl - 1);
    }
}

proof fn lemma_p_level_rest(toks: Seq<Token>, p: int, lvl: int, left: Expr)
    requires
        tokens_wf(toks),
        0 <= p < toks.len(),
    ensures
        p <= p_level_rest(toks, p, lvl, left).0 < toks.len(),
    decreases toks.len() - p, 2 * lvl + 2,
{
    if lvl >= 1 && !at_end(toks, p) && level_matches(lvl, toks[p].ttype) {
        lemma_p_operand(toks, p + 1, lvl);
        let (pos1, r) = p_operand(toks, p + 1, lvl);
        if r is Ok && kept(toks, pos1, p + 1) {
            lemma_p_level_rest(toks, pos1, lvl, combine(lvl, left, toks[p], r->Ok_0));
        }
    }
}

proof fn lemma_p_unary(toks: Seq<Token>, p: int)
    requires
        tokens_wf(toks),
        0 <= p < toks.len(),
    ensures
        advances_expr(toks, p, p_unary(toks, p)),
    decreases toks.len() - p, 3int,
{
    if check(toks, p, TokenType::Bang) || check(toks, p, TokenType::Minus) {
        lemma_p_unary(toks, p + 1);
    } else {
        lemma_p_primary(toks, p);
    }
}

proof fn lemma_p_primary(toks: Seq<Token>, p: int)
    requires
        tokens_wf(toks),
        0 <= p < toks.len(),
    ensures
        advances_expr(toks, p, p_primary(toks, p)),
    decreases toks.len() - p, 2int,
{
    if !check(toks, p, TokenType::False) && !check(toks, p, TokenType::True) && !check(toks, p, TokenType::Nil)
        && !check(toks, p, TokenType::Number) && !check(toks, p, TokenType::String) && !check(
        toks,
        p,
        TokenType::Identifier,
    ) && check(toks, p, TokenType::LeftParen) {
        lemma_p_expression(toks, p + 1);
    }
}

proof fn lemma_p_expr_stmt(toks: Seq<Token>, p: int)
    requires
        tokens_wf(toks),
        0 <= p < toks.len(),
    ensures
        ({
            let (q, r) = p_expr_stmt(toks, p);
            p <= q < toks.len() && (r is Ok ==> p < q)
        }),
    decreases toks.len() - p, 18int,
{
    lemma_p_expression(toks, p);
}

proof fn lemma_p_print(toks: Seq<Token>, p: int)
    requires
        tokens_wf(toks),
        0 <= p < toks.len(),
    ensures
        ({
            let (q, r) = p_print(toks, p);
            p <= q < toks.len() && (r is Ok ==> p < q)
        }),
    decreases toks.len() - p, 18int,
{
    lemma_p_expression(toks, p);
}

proof fn lemma_p_var_decl(toks: Seq<Token>, p: int)
    requires
        tokens_wf(toks),
        0 <= p < toks.len(),
    ensures
        ({
            let (q, r) = p_var_decl(toks, p);
            p <= q < toks.len() && (r is Ok ==> p < q)
        }),
    decreases toks.len() - p, 18int,
{
    if check(toks, p, TokenType::Identifier) && check(toks, p + 1, TokenType::Equal) {
        lemma_p_expression(toks, p + 2);
    }
}

proof fn lemma_p_declaration(toks: Seq<Token>, p: int, log: Seq<ParseFault>)
    requires
        tokens_wf(toks),
        0 <= p < toks.len(),
    ensures
        ({
            let (q, s, l) = p_declaration(toks, p, log);
            &&& p <= q < toks.len()
            &&& !at_end(toks, p) ==> p < q
        }),
    decreases toks.len() - p, 30int,
{
    let q1 = if check(toks, p, TokenType::Var) {
        lemma_p_var_decl(toks, p + 1);
        p_var_decl(toks, p + 1).0
    } else {
        lemma_p_statement(toks, p, log);
        p_statement(toks, p, log).0
    };
    lemma_sync_progress(toks, q1);
    if !at_end(toks, q1) {
        lemma_sync_in_bounds(toks, q1 + 1);
    } else {
        lemma_sync_in_bounds(toks, q1);
    }
}

proof fn lemma_p_statement(toks: Seq<Token>, p: int, log: Seq<ParseFault>)
    requires
        tokens_wf(toks),
        0 <= p < toks.len(),
    ensures
        advances_stmt(toks, p, p_statement(toks, p, log)),
    decreases toks.len() - p, 25int,
{
    if check(toks, p, TokenType::For) {
        lemma_p_for(toks, p + 1, log);
    } else if check(toks, p, TokenType::If) {
        lemma_p_if(toks, p + 1, log);
    } else if check(toks, p, TokenType::Print) {
        lemma_p_print(toks, p + 1);
    } else if check(toks, p, TokenType::While) {
        lemma_p_while(toks, p + 1, log);
    } else if check(toks, p, TokenType::LeftBrace) {
        lemma_p_block_items(toks, p + 1, Seq::empty(), log);
    } else {
        lemma_p_expr_stmt(toks, p);
    }
}

proof fn lemma_p_block_items(toks: Seq<Token>, p: int, acc: Seq<StmtView>, log: Seq<ParseFault>)
    requires
        tokens_wf(toks),
        0 <= p < toks.len(),
    ensures
        ({
            let (q, r, l) = p_block_items(toks, p, acc, log);
            p <= q < toks.len() && (r is Ok ==> p < q)
        }),
    decreases toks.len() - p, 40int,
{
    if !check(toks, p, TokenType::RightBrace) && !at_end(toks, p) {
        lemma_p_declaration(toks, p, log);
        let (pos1, s, l1) = p_declaration(toks, p, log);
        if kept(toks, pos1, p + 1) {
            lemma_p_block_items(
                toks,
                pos1,
                match s {
                    Some(x) => acc.push(x),
                    None => acc,
                },
                l1,
            );
        }
    }
}

proof fn lemma_p_while(toks: Seq<Token>, p: int, log: Seq<ParseFault>)
    requires
        tokens_wf(toks),
        0 <= p < toks.len(),
    ensures
        advances_stmt(toks, p, p_while(toks, p, log)),
    decreases toks.len() - p, 22int,
{
    if check(toks, p, TokenType::LeftParen) {
        lemma_p_expression(toks, p + 1);
        let (pos2, c) = p_expression(toks, p + 1);
        if c is Ok && check(toks, pos2, TokenType::RightParen) && kept(toks, pos2, p + 1) {
            lemma_p_statement(toks, pos2 + 1, log);
        }
    }
}

proof fn lemma_p_if(toks: Seq<Token>, p: int, log: Seq<ParseFault>)
    requires
        tokens_wf(toks),
        0 <= p < toks.len(),
    ensures
        advances_stmt(toks, p, p_if(toks, p, log)),
    decreases toks.len() - p, 22int,
{
    if check(toks, p, TokenType::LeftParen) {
        lemma_p_expression(toks, p + 1);
        let (pos2, c) = p_expression(toks, p + 1);
        if c is Ok && check(toks, pos2, TokenType::RightParen) && kept(toks, pos2, p + 1) {
            let pos3 = pos2 + 1;
            lemma_p_statement(toks, pos3, log);
            let (pos4, t, l4) = p_statement(toks, pos3, log);
            if t is Ok && kept(toks, pos4, pos3) && check(toks, pos4, TokenType::Else) {
                lemma_p_statement(toks, pos4 + 1, l4);
            }
        }
    }
}

proof fn lemma_p_for_init(toks: Seq<Token>, p: int)
    requires
        tokens_wf(toks),
        0 <= p < toks.len(),
    ensures
        p <= p_for_init(toks, p).0 < toks.len(),
    decreases toks.len() - p, 19int,
{
    if !check(toks, p, TokenType::Semicolon) {
        if check(toks, p, TokenType::Var) {
            lemma_p_var_decl(toks, p + 1);
        } else {
            lemma_p_expr_stmt(toks, p);
        }
    }
}

proof fn lemma_p_for_clause(toks: Seq<Token>, p: int, stop: TokenType)
    requires
        tokens_wf(toks),
        0 <= p < toks.len(),
    ensures
        p <= p_for_clause(toks, p, stop).0 < toks.len(),
    decreases toks.len() - p, 19int,
{
    if !check(toks, p, stop) {
        lemma_p_expression(toks, p);
    }
}

proof fn lemma_p_for(toks: Seq<Token>, p: int, log: Seq<ParseFault>)
    requires
        tokens_wf(toks),
        0 <= p < toks.len(),
    ensures
        advances_stmt(toks, p, p_for(toks, p, log)),
    decreases toks.len() - p, 22int,
{
    if check(toks, p, TokenType::LeftParen) {
        let pos1 = p + 1;
        lemma_p_for_init(toks, pos1);
        let (pos2, init) = p_for_init(toks, pos1);
        if init is Ok {
            lemma_p_for_clause(toks, pos2, TokenType::Semicolon);
            let (pos3, cond) = p_for_clause(toks, pos2, TokenType::Semicolon);
            if cond is Ok && check(toks, pos3, TokenType::Semicolon) {
                let pos4 = pos3 + 1;
                lemma_p_for_clause(toks, pos4, TokenType::RightParen);
                let (pos5, inc) = p_for_clause(toks, pos4, TokenType::RightParen);
                if inc is Ok && check(toks, pos5, TokenType::RightParen) {
                    lemma_p_statement(toks, pos5 + 1, log);
                }
            }
        }
    }
}

/// A declaration with a syntax error gives no statement, and parsing
/// resumes past it: the program's statements are exactly those parsed from
/// the resumption point, so the error does not suppress what follows.
pub proof fn lemma_error_isolation(toks: Seq<Token>, p: int, log: Seq<ParseFault>)
    requires
        tokens_wf(toks),
        0 <= p < toks.len(),
        !at_end(toks, p),
        p_declaration(toks, p, log).1 is None,
    ensures
        ({
            let (q, s, l) = p_declaration(toks, p, log);
            &&& p < q
            &&& p_program(toks, p, Seq::empty(), log) == p_program(toks, q, Seq::empty(), l)
        }),
{
    lemma_p_declaration(toks, p, log);
}

pub open spec fn expr_result(r: Result<Expr, ParseError>) -> Result<Expr, ParseFault> {
    match r {
        Ok(e) => Ok(e),
        Err(x) => Err(x@),
    }
}

pub open spec fn stmt_result(r: Result<Stmt, ParseError>) -> Result<StmtView, ParseFault> {
    match r {
        Ok(s) => Ok(s@),
        Err(x) => Err(x@),
    }
}

pub open spec fn option_view(s: Option<Stmt>) -> Option<StmtView> {
    match s {
        Some(x) => Some(x@),
        None => None,
    }
}

/// Builds the statement that a `for` loop stands for.
fn desugar(init: Option<Stmt>, cond: Option<Expr>, inc: Option<Expr>, body: Stmt) -> (r: Stmt)
    ensures
        r@ == desugar_for(option_view(init), cond, inc, body@),
{
    let ghost b0 = body@;
    let mut body = body;
    match inc {
        Some(inc) => {
            let mut stmts: Vec<Stmt> = Vec::new();
            proof {
                assert(views_of(stmts@) =~= Seq::<StmtView>::empty());
                lemma_views_push(stmts@, body);
            }
            stmts.push(body);
            let last = Stmt::Expr(inc);
            proof {
                lemma_views_push(stmts@, last);
            }
            stmts.push(last);
            proof {
                assert(views_of(stmts@) =~= seq![b0, StmtView::Expr(inc)]);
            }
            body = Stmt::Block(stmts);
        },
        None => {},
    }
    let ghost looped = body@;
    let c = match cond {
        Some(c) => c,
        None => Expr::Literal(Literal::Boolean(true)),
    };
    body = Stmt::While(c, Box::new(body));
    assert(body@ == StmtView::While(c, Box::new(looped)));
    match init {
        Some(first) => {
            let mut stmts: Vec<Stmt> = Vec::new();
            proof {
                assert(views_of(stmts@) =~= Seq::<StmtView>::empty());
                lemma_views_push(stmts@, first);
            }
            stmts.push(first);
            proof {
                lemma_views_push(stmts@, body);
            }
            let ghost w = body@;
            stmts.push(body);
            proof {
                assert(views_of(stmts@) =~= seq![first@, w]);
            }
            body = Stmt::Block(stmts);
        },
        None => {},
    }
    body
}

/// Recovery never moves back.
pub proof fn lemma_sync_progress(toks: Seq<Token>, p: int)
    ensures
        p_sync(toks, p) >= p,
        !at_end(toks, p) ==> p_sync(toks, p) > p,
{
    lemma_sync_from_progress(toks, if at_end(toks, p) { p } else { p + 1 });
}

proof fn lemma_sync_from_progress(toks: Seq<Token>, q: int)
    ensures
        sync_from(toks, q) >= q,
    decreases toks.len() - q,
{
    if !(q < 1 || at_end(toks, q)) && toks[q - 1].ttype != TokenType::Semicolon && !starts_statement(toks[q].ttype) {
        lemma_sync_from_progress(toks, q + 1);
    }
}

/// `new` is `old` after parsing an expression that `spec` describes; the
/// cursor never moves back, and moves forward on success.
pub open spec fn parsed_expr(old: Parser, new: Parser, r: Result<Expr, ParseError>, spec: (int, Result<Expr, ParseFault>)) -> bool {
    &&& new.wf()
    &&& new.tokens() == old.tokens()
    &&& new.reported() == old.reported()
    &&& old.pos() <= new.pos()
    &&& r is Ok ==> old.pos() < new.pos()
    &&& (new.pos(), expr_result(r)) == spec
}

/// `new` is `old` after parsing a statement that `spec` describes.
pub open spec fn parsed_stmt(
    old: Parser,
    new: Parser,
    r: Result<Stmt, ParseError>,
    spec: (int, Result<StmtView, ParseFault>, Seq<ParseFault>),
) -> bool {
    &&& new.wf()
    &&& new.tokens() == old.tokens()
    &&& old.pos() <= new.pos()
    &&& r is Ok ==> old.pos() < new.pos()
    &&& (new.pos(), stmt_result(r), new.reported()) == spec
}

/// The parser's state: the tokens, the cursor, and the syntax errors
/// reported so far.
pub struct Parser {
    current: usize,
    tokens: Vec<Token>,
    errors: Vec<ParseError>,
}

impl Parser {
    /// The tokens end with an end-of-file token, and the cursor is on a token.
    pub closed spec fn wf(&self) -> bool {
        &&& 0 < self.tokens@.len() <= usize::MAX
        &&& self.tokens@.last().ttype == TokenType::Eof
        &&& self.current < self.tokens@.len()
    }

    pub closed spec fn tokens(&self) -> Seq<Token> {
        self.tokens@
    }

    pub closed spec fn pos(&self) -> int {
        self.current as int
    }

    /// The syntax errors reported so far.
    pub closed spec fn reported(&self) -> Seq<ParseFault> {
        self.errors@.map_values(|e: ParseError| e@)
    }

    /// A parser at the first of `tokens`, which end with an end-of-file token.
    pub fn new(tokens: &[Token]) -> (r: Parser)
        requires
            tokens@.len() > 0,
            tokens@.last().ttype == TokenType::Eof,
        ensures
            r.wf(),
            r.tokens() == tokens@,
            r.pos() == 0,
            r.reported() == Seq::<ParseFault>::empty(),
    {
        let mut v: Vec<Token> = Vec::new();
        let mut i: usize = 0;
        while i < tokens.len()
            invariant
                i <= tokens@.len(),
                v@ == tokens@.subrange(0, i as int),
            decreases tokens@.len() - i,
        {
            v.push(tokens[i].duplicate());
            i = i + 1;
            assert(v@ =~= tokens@.subrange(0, i as int));
        }
        assert(v@ =~= tokens@);
        let _n = v.len();
        let r = Parser { current: 0, tokens: v, errors: Vec::new() };
        assert(r.reported() =~= Seq::<ParseFault>::empty());
        r
    }

    /// The syntax errors reported so far.
    pub fn errors(&self) -> (r: &Vec<ParseError>)
        ensures
            r@.map_values(|e: ParseError| e@) == self.reported(),
    {
        &self.errors
    }

    /// Parses declarations up to the end of input; one with a syntax error
    /// is reported and left out, and parsing goes on after it.
    pub fn parse(&mut self) -> (r: Vec<Stmt>)
        requires
            old(self).wf(),
        ensures
            final(self).wf(),
            final(self).tokens() == old(self).tokens(),
            (views_of(r@), final(self).reported()) == p_program(
                old(self).tokens(),
                old(self).pos(),
                Seq::empty(),
                old(self).reported(),
            ),
    {
        let mut statements: Vec<Stmt> = Vec::new();
        let ghost goal = p_program(self.tokens@, self.current as int, Seq::empty(), self.reported());
        while !self.is_at_end()
            invariant
                self.wf(),
                self.tokens() == old(self).tokens(),
                goal == p_program(old(self).tokens(), old(self).pos(), Seq::empty(), old(self).reported()),
                goal == p_program(self.tokens@, self.current as int, views_of(statements@), self.reported()),
            decreases self.tokens@.len() - self.current,
        {
            let ghost before = *self;
            let ghost acc = statements@;
            let s = self.declaration();
            match s {
                Some(s) => {
                    proof {
                        lemma_views_push(acc, s);
                    }
                    statements.push(s);
                },
                None => {},
            }
        }
        statements
    }

    fn previous(&self) -> (r: Token)
        requires
            self.wf(),
            self.current >= 1,
        ensures
            r == self.tokens@[self.current - 1],
    {
        self.tokens[self.current - 1].duplicate()
    }

    fn peek(&self) -> (r: Token)
        requires
            self.wf(),
        ensures
            r == self.tokens@[self.current as int],
    {
        self.tokens[self.current].duplicate()
    }

    fn is_at_end(&self) -> (r: bool)
        requires
            self.wf(),
        ensures
            r == at_end(self.tokens@, self.current as int),
    {
        self.tokens[self.current].ttype == TokenType::Eof
    }

    /// Moves past the current token, unless it ends the input; returns it.
    fn advance(&mut self) -> (r: Token)
        requires
            old(self).wf(),
            !at_end(old(self).tokens@, old(self).current as int),
        ensures
            final(self).wf(),
            final(self).tokens == old(self).tokens,
            final(self).errors == old(self).errors,
            final(self).current == old(self).current + 1,
            r == old(self).tokens@[old(self).current as int],
    {
        if !self.is_at_end() {
            self.current = self.current + 1;
        }
        self.previous()
    }

    fn check(&self, ttype: TokenType) -> (r: bool)
        requires
            self.wf(),
        ensures
            r == check(self.tokens@, self.current as int, ttype),
    {
        if self.is_at_end() {
            return false;
        }
        self.tokens[self.current].ttype == ttype
    }

    /// Takes the current token if it is of one of the kinds given.
    fn match_token(&mut self, ttypes: &[TokenType]) -> (r: bool)
        requires
            old(self).wf(),
        ensures
            final(self).wf(),
            final(self).tokens == old(self).tokens,
            final(self).errors == old(self).errors,
            r == (!at_end(old(self).tokens@, old(self).current as int) && ttypes@.contains(
                old(self).tokens@[old(self).current as int].ttype,
            )),
            ttypes@.len() == 1 ==> r == check(old(self).tokens@, old(self).current as int, ttypes@[0]),
            ttypes@.len() == 2 ==> r == (check(old(self).tokens@, old(self).current as int, ttypes@[0])
                || check(old(self).tokens@, old(self).current as int, ttypes@[1])),
            ttypes@.len() == 4 ==> r == (check(old(self).tokens@, old(self).current as int, ttypes@[0])
                || check(old(self).tokens@, old(self).current as int, ttypes@[1]) || check(
                old(self).tokens@,
                old(self).current as int,
                ttypes@[2],
            ) || check(old(self).tokens@, old(self).current as int, ttypes@[3])),
            final(self).current == old(self).current + if r {
                1int
            } else {
                0int
            },
    {
        let mut i: usize = 0;
        while i < ttypes.len()
            invariant
                self.wf(),
                self == old(self),
                i <= ttypes@.len(),
                forall|j: int| 0 <= j < i ==> !check(self.tokens@, self.current as int, #[trigger] ttypes@[j]),
            decreases ttypes@.len() - i,
        {
            if self.check(ttypes[i]) {
                self.advance();
                return true;
            }
            i = i + 1;
        }
        proof {
            if !at_end(self.tokens@, self.current as int) && ttypes@.contains(self.tokens@[self.current as int].ttype) {
                let j = choose|j: int| 0 <= j < ttypes@.len() && ttypes@[j] == self.tokens@[self.current as int].ttype;
                assert(!check(self.tokens@, self.current as int, ttypes@[j]));
            }
        }
        false
    }

    /// Takes a token of the kind given, or fails with `msg` at the current token.
    fn consume(&mut self, ttype: TokenType, msg: &str) -> (r: Result<Token, ParseError>)
        requires
            old(self).wf(),
        ensures
            final(self).wf(),
            final(self).tokens == old(self).tokens,
            final(self).errors == old(self).errors,
            ({
                let (p, c) = consume(old(self).tokens@, old(self).current as int, ttype, msg@);
                &&& final(self).current == p
                &&& match (r, c) {
                    (Ok(t), Ok(u)) => t == u,
                    (Err(x), Err(y)) => x@ == y,
                    _ => false,
                }
            }),
    {
        if self.check(ttype) {
            return Ok(self.advance());
        }
        Err(ParseError::new(String::from_str(msg), self.peek()))
    }
    /// `declaration → "var" varDecl | statement`; on a syntax error the
    /// error is reported, tokens are skipped to the next statement boundary,
    /// and no statement is returned.
    fn declaration(&mut self) -> (r: Option<Stmt>)
        requires
            old(self).wf(),
        ensures
            final(self).wf(),
            final(self).tokens() == old(self).tokens(),
            old(self).pos() <= final(self).pos(),
            !at_end(old(self).tokens(), old(self).pos()) ==> old(self).pos() < final(self).pos(),
            ({
                let (p, s, l) = p_declaration(old(self).tokens(), old(self).pos(), old(self).reported());
                &&& final(self).pos() == p
                &&& final(self).reported() == l
                &&& match r {
                    Some(x) => s == Some(x@),
                    None => s is None,
                }
            }),
        decreases old(self).tokens@.len() - old(self).current, 30int,
    {
        let r = if self.match_token(&[TokenType::Var]) {
            self.var_declaration()
        } else {
            self.statement()
        };
        match r {
            Ok(s) => Some(s),
            Err(e) => {
                let ghost before = self.errors@;
                self.errors.push(e);
                proof {
                    assert(self.reported() =~= before.map_values(|x: ParseError| x@).push(e@));
                    lemma_sync_progress(self.tokens@, self.current as int);
                }
                self.sync();
                None
            },
        }
    }

    /// `varDecl → IDENTIFIER ("=" expression)? ";"`, after `var`.
    fn var_declaration(&mut self) -> (r: Result<Stmt, ParseError>)
        requires
            old(self).wf(),
        ensures
            parsed_stmt(*old(self), *final(self), r, {
                let (q, x) = p_var_decl(old(self).tokens(), old(self).pos());
                (q, x, old(self).reported())
            }),
        decreases old(self).tokens@.len() - old(self).current, 18int,
    {
        let name = self.consume(TokenType::Identifier, "Expect variable name")?;
        let init = if self.match_token(&[TokenType::Equal]) {
            Some(self.expression()?)
        } else {
            None
        };
        self.consume(TokenType::Semicolon, "Expect ';' after var declaration")?;
        Ok(Stmt::Var(name, init))
    }

    /// `statement → forStmt | ifStmt | printStmt | whileStmt | block | exprStmt`
    fn statement(&mut self) -> (r: Result<Stmt, ParseError>)
        requires
            old(self).wf(),
        ensures
            parsed_stmt(*old(self), *final(self), r, p_statement(old(self).tokens(), old(self).pos(), old(self).reported())),
        decreases old(self).tokens@.len() - old(self).current, 25int,
    {
        if self.match_token(&[TokenType::For]) {
            self.for_statement()
        } else if self.match_token(&[TokenType::If]) {
            self.if_statement()
        } else if self.match_token(&[TokenType::Print]) {
            self.print_statement()
        } else if self.match_token(&[TokenType::While]) {
            self.while_statement()
        } else if self.match_token(&[TokenType::LeftBrace]) {
            let b = self.block()?;
            Ok(Stmt::Block(b))
        } else {
            self.expression_statement()
        }
    }

    /// `ifStmt → "if" "(" expression ")" statement ("else" statement)?`, after `if`.
    fn if_statement(&mut self) -> (r: Result<Stmt, ParseError>)
        requires
            old(self).wf(),
        ensures
            parsed_stmt(*old(self), *final(self), r, p_if(old(self).tokens(), old(self).pos(), old(self).reported())),
        decreases old(self).tokens@.len() - old(self).current, 22int,
    {
        self.consume(TokenType::LeftParen, "Expect '(' after 'if'")?;
        let condition = self.expression()?;
        self.consume(TokenType::RightParen, "Expect ')' after if condition")?;
        let then_stmt = self.statement()?;
        let else_stmt = if self.match_token(&[TokenType::Else]) {
            Some(Box::new(self.statement()?))
        } else {
            None
        };
        Ok(Stmt::If(condition, Box::new(then_stmt), else_stmt))
    }

    /// `block → "{" declaration* "}"`, after `{`.
    fn block(&mut self) -> (r: Result<Vec<Stmt>, ParseError>)
        requires
            old(self).wf(),
        ensures
            final(self).wf(),
            final(self).tokens() == old(self).tokens(),
            old(self).pos() <= final(self).pos(),
            r is Ok ==> old(self).pos() < final(self).pos(),
            ({
                let (p, res, l) = p_block_items(old(self).tokens(), old(self).pos(), Seq::empty(), old(self).reported());
                &&& final(self).pos() == p
                &&& final(self).reported() == l
                &&& match (r, res) {
                    (Ok(v), Ok(items)) => views_of(v@) == items,
                    (Err(x), Err(y)) => x@ == y,
                    _ => false,
                }
            }),
        decreases old(self).tokens@.len() - old(self).current, 40int,
    {
        let mut statements: Vec<Stmt> = Vec::new();
        let ghost goal = p_block_items(self.tokens@, self.current as int, Seq::empty(), self.reported());
        proof {
            assert(views_of(statements@) =~= Seq::<StmtView>::empty());
        }
        while !self.check(TokenType::RightBrace) && !self.is_at_end()
            invariant
                self.wf(),
                self.tokens() == old(self).tokens(),
                old(self).pos() <= self.pos(),
                goal == p_block_items(old(self).tokens(), old(self).pos(), Seq::empty(), old(self).reported()),
                goal == p_block_items(self.tokens@, self.current as int, views_of(statements@), self.reported()),
            decreases self.tokens@.len() - self.current,
        {
            let ghost acc = statements@;
            let s = self.declaration();
            match s {
                Some(s) => {
                    proof {
                        lemma_views_push(acc, s);
                    }
                    statements.push(s);
                },
                None => {},
            }
        }
        self.consume(TokenType::RightBrace, "Expect '}' after block")?;
        Ok(statements)
    }

    /// `printStmt → "print" expression ";"`, after `print`.
    fn print_statement(&mut self) -> (r: Result<Stmt, ParseError>)
        requires
            old(self).wf(),
        ensures
            parsed_stmt(*old(self), *final(self), r, {
                let (q, x) = p_print(old(self).tokens(), old(self).pos());
                (q, x, old(self).reported())
            }),
        decreases old(self).tokens@.len() - old(self).current, 18int,
    {
        let expr = self.expression()?;
        self.consume(TokenType::Semicolon, "Expect ';' after value")?;
        Ok(Stmt::Print(expr))
    }

    /// `whileStmt → "while" "(" expression ")" statement`, after `while`.
    fn while_statement(&mut self) -> (r: Result<Stmt, ParseError>)
        requires
            old(self).wf(),
        ensures
            parsed_stmt(*old(self), *final(self), r, p_while(old(self).tokens(), old(self).pos(), old(self).reported())),
        decreases old(self).tokens@.len() - old(self).current, 22int,
    {
        self.consume(TokenType::LeftParen, "Expect '(' after 'while'")?;
        let condition = self.expression()?;
        self.consume(TokenType::RightParen, "Expect ')' after condition")?;
        let body = self.statement()?;
        Ok(Stmt::While(condition, Box::new(body)))
    }

    /// The initializer clause of a `for`.
    fn for_initializer(&mut self) -> (r: Result<Option<Stmt>, ParseError>)
        requires
            old(self).wf(),
        ensures
            final(self).wf(),
            final(self).tokens() == old(self).tokens(),
            final(self).reported() == old(self).reported(),
            old(self).pos() <= final(self).pos(),
            ({
                let (p, x) = p_for_init(old(self).tokens(), old(self).pos());
                &&& final(self).pos() == p
                &&& match (r, x) {
                    (Ok(Some(s)), Ok(Some(v))) => s@ == v,
                    (Ok(None), Ok(None)) => true,
                    (Err(e), Err(f)) => e@ == f,
                    _ => false,
                }
            }),
        decreases old(self).tokens@.len() - old(self).current, 19int,
    {
        if self.match_token(&[TokenType::Semicolon]) {
            Ok(None)
        } else if self.match_token(&[TokenType::Var]) {
            Ok(Some(self.var_declaration()?))
        } else {
            Ok(Some(self.expression_statement()?))
        }
    }

    /// An optional expression of a `for`, absent where the current token is `stop`.
    fn for_clause(&mut self, stop: TokenType) -> (r: Result<Option<Expr>, ParseError>)
        requires
            old(self).wf(),
        ensures
            final(self).wf(),
            final(self).tokens() == old(self).tokens(),
            final(self).reported() == old(self).reported(),
            old(self).pos() <= final(self).pos(),
            ({
                let (p, x) = p_for_clause(old(self).tokens(), old(self).pos(), stop);
                &&& final(self).pos() == p
                &&& match (r, x) {
                    (Ok(a), Ok(b)) => a == b,
                    (Err(e), Err(f)) => e@ == f,
                    _ => false,
                }
            }),
        decreases old(self).tokens@.len() - old(self).current, 19int,
    {
        if !self.check(stop) {
            Ok(Some(self.expression()?))
        } else {
            Ok(None)
        }
    }

    /// `forStmt`, after `for`, turned into the `while` loop it stands for.
    fn for_statement(&mut self) -> (r: Result<Stmt, ParseError>)
        requires
            old(self).wf(),
        ensures
            parsed_stmt(*old(self), *final(self), r, p_for(old(self).tokens(), old(self).pos(), old(self).reported())),
        decreases old(self).tokens@.len() - old(self).current, 22int,
    {
        self.consume(TokenType::LeftParen, "Expect '(' after 'for'")?;
        let initializer = self.for_initializer()?;
        let condition = self.for_clause(TokenType::Semicolon)?;
        self.consume(TokenType::Semicolon, "Expect ';' after loop condition")?;
        let increment = self.for_clause(TokenType::RightParen)?;
        self.consume(TokenType::RightParen, "Expect ')' after for clauses")?;
        let body = self.statement()?;
        Ok(desugar(initializer, condition, increment, body))
    }

    /// `exprStmt → expression ";"`
    fn expression_statement(&mut self) -> (r: Result<Stmt, ParseError>)
        requires
            old(self).wf(),
        ensures
            parsed_stmt(*old(self), *final(self), r, {
                let (q, x) = p_expr_stmt(old(self).tokens(), old(self).pos());
                (q, x, old(self).reported())
            }),
        decreases old(self).tokens@.len() - old(self).current, 18int,
    {
        let expr = self.expression()?;
        self.consume(TokenType::Semicolon, "Expect ';' after expression")?;
        Ok(Stmt::Expr(expr))
    }

    /// `expression → assignment`
    fn expression(&mut self) -> (r: Result<Expr, ParseError>)
        requires
            old(self).wf(),
        ensures
            parsed_expr(*old(self), *final(self), r, p_expression(old(self).tokens(), old(self).pos())),
        decreases old(self).tokens@.len() - old(self).current, 17int,
    {
        self.assignment()
    }

    /// `assignment → or ("=" assignment)?`, right-associative.
    fn assignment(&mut self) -> (r: Result<Expr, ParseError>)
        requires
            old(self).wf(),
        ensures
            parsed_expr(*old(self), *final(self), r, p_assignment(old(self).tokens(), old(self).pos())),
        decreases old(self).tokens@.len() - old(self).current, 16int,
    {
        let expr = self.or()?;
        if self.match_token(&[TokenType::Equal]) {
            let equals = self.previous();
            let value = self.assignment()?;
            match expr {
                Expr::Var(name) => Ok(Expr::Assign(name, Box::new(value))),
                _ => Err(ParseError::new(String::from_str("Invalid assignment target"), equals)),
            }
        } else {
            Ok(expr)
        }
    }
    /// `or → and ("or" and)*`
    fn or(&mut self) -> (r: Result<Expr, ParseError>)
        requires
            old(self).wf(),
        ensures
            parsed_expr(*old(self), *final(self), r, p_level(old(self).tokens(), old(self).pos(), 6)),
        decreases old(self).tokens@.len() - old(self).current, 15int,
    {
        let mut expr = self.and()?;
        while self.match_token(&[TokenType::Or])
            invariant
                self.wf(),
                self.tokens() == old(self).tokens(),
                self.reported() == old(self).reported(),
                old(self).pos() < self.pos(),
                p_level(old(self).tokens(), old(self).pos(), 6) == p_level_rest(
                    self.tokens(),
                    self.pos(),
                    6,
                    expr,
                ),
            decreases self.tokens@.len() - self.current,
        {
            let ghost c = self.current - 1;
            proof {
                assert(level_matches(6, self.tokens@[c].ttype));
                assert(p_operand(self.tokens@, c + 1, 6) == p_level(self.tokens@, c + 1, 5));
            }
            let operator = self.previous();
            let right = self.and()?;
            expr = Expr::Logical(Box::new(expr), operator, Box::new(right));
        }
        Ok(expr)
    }

    /// `and → equality ("and" equality)*`
    fn and(&mut self) -> (r: Result<Expr, ParseError>)
        requires
            old(self).wf(),
        ensures
            parsed_expr(*old(self), *final(self), r, p_level(old(self).tokens(), old(self).pos(), 5)),
        decreases old(self).tokens@.len() - old(self).current, 13int,
    {
        let mut expr = self.equality()?;
        while self.match_token(&[TokenType::And])
            invariant
                self.wf(),
                self.tokens() == old(self).tokens(),
                self.reported() == old(self).reported(),
                old(self).pos() < self.pos(),
                p_level(old(self).tokens(), old(self).pos(), 5) == p_level_rest(
                    self.tokens(),
                    self.pos(),
                    5,
                    expr,
                ),
            decreases self.tokens@.len() - self.current,
        {
            let ghost c = self.current - 1;
            proof {
                assert(level_matches(5, self.tokens@[c].ttype));
                assert(p_operand(self.tokens@, c + 1, 5) == p_level(self.tokens@, c + 1, 4));
            }
            let operator = self.previous();
            let right = self.equality()?;
            expr = Expr::Logical(Box::new(expr), operator, Box::new(right));
        }
        Ok(expr)
    }

    /// `equality → comparison (("!=" | "==") comparison)*`
    fn equality(&mut self) -> (r: Result<Expr, ParseError>)
        requires
            old(self).wf(),
        ensures
            parsed_expr(*old(self), *final(self), r, p_level(old(self).tokens(), old(self).pos(), 4)),
        decreases old(self).tokens@.len() - old(self).current, 11int,
    {
        let mut expr = self.comparison()?;
        while self.match_token(&[TokenType::BangEqual, TokenType::EqualEqual])
            invariant
                self.wf(),
                self.tokens() == old(self).tokens(),
                self.reported() == old(self).reported(),
                old(self).pos() < self.pos(),
                p_level(old(self).tokens(), old(self).pos(), 4) == p_level_rest(
                    self.tokens(),
                    self.pos(),
                    4,
                    expr,
                ),
            decreases self.tokens@.len() - self.current,
        {
            let ghost c = self.current - 1;
            proof {
                assert(level_matches(4, self.tokens@[c].ttype));
                assert(p_operand(self.tokens@, c + 1, 4) == p_level(self.tokens@, c + 1, 3));
            }
            let operator = self.previous();
            let right = self.comparison()?;
            expr = Expr::Binary(Box::new(expr), operator, Box::new(right));
        }
        Ok(expr)
    }

    /// `comparison → term ((">" | ">=" | "<" | "<=") term)*`
    fn comparison(&mut self) -> (r: Result<Expr, ParseError>)
        requires
            old(self).wf(),
        ensures
            parsed_expr(*old(self), *final(self), r, p_level(old(self).tokens(), old(self).pos(), 3)),
        decreases old(self).tokens@.len() - old(self).current, 9int,
    {
        let mut expr = self.term()?;
        while self.match_token(&[TokenType::Greater, TokenType::GreaterEqual, TokenType::Less, TokenType::LessEqual])
            invariant
                self.wf(),
                self.tokens() == old(self).tokens(),
                self.reported() == old(self).reported(),
                old(self).pos() < self.pos(),
                p_level(old(self).tokens(), old(self).pos(), 3) == p_level_rest(
                    self.tokens(),
                    self.pos(),
                    3,
                    expr,
                ),
            decreases self.tokens@.len() - self.current,
        {
            let ghost c = self.current - 1;
            proof {
                assert(level_matches(3, self.tokens@[c].ttype));
                assert(p_operand(self.tokens@, c + 1, 3) == p_level(self.tokens@, c + 1, 2));
            }
            let operator = self.previous();
            let right = self.term()?;
            expr = Expr::Binary(Box::new(expr), operator, Box::new(right));
        }
        Ok(expr)
    }

    /// `term → factor (("-" | "+") factor)*`
    fn term(&mut self) -> (r: Result<Expr, ParseError>)
        requires
            old(self).wf(),
        ensures
            parsed_expr(*old(self), *final(self), r, p_level(old(self).tokens(), old(self).pos(), 2)),
        decreases old(self).tokens@.len() - old(self).current, 7int,
    {
        let mut expr = self.factor()?;
        while self.match_token(&[TokenType::Minus, TokenType::Plus])
            invariant
                self.wf(),
                self.tokens() == old(self).tokens(),
                self.reported() == old(self).reported(),
                old(self).pos() < self.pos(),
                p_level(old(self).tokens(), old(self).pos(), 2) == p_level_rest(
                    self.tokens(),
                    self.pos(),
                    2,
                    expr,
                ),
            decreases self.tokens@.len() - self.current,
        {
            let ghost c = self.current - 1;
            proof {
                assert(level_matches(2, self.tokens@[c].ttype));
                assert(p_operand(self.tokens@, c + 1, 2) == p_level(self.tokens@, c + 1, 1));
            }
            let operator = self.previous();
            let right = self.factor()?;
            expr = Expr::Binary(Box::new(expr), operator, Box::new(right));
        }
        Ok(expr)
    }

    /// `factor → unary (("/" | "*") unary)*`
    fn factor(&mut self) -> (r: Result<Expr, ParseError>)
        requires
            old(self).wf(),
        ensures
            parsed_expr(*old(self), *final(self), r, p_level(old(self).tokens(), old(self).pos(), 1)),
        decreases old(self).tokens@.len() - old(self).current, 5int,
    {
        let mut expr = self.unary()?;
        while self.match_token(&[TokenType::Slash, TokenType::Star])
            invariant
                self.wf(),
                self.tokens() == old(self).tokens(),
                self.reported() == old(self).reported(),
                old(self).pos() < self.pos(),
                p_level(old(self).tokens(), old(self).pos(), 1) == p_level_rest(
                    self.tokens(),
                    self.pos(),
                    1,
                    expr,
                ),
            decreases self.tokens@.len() - self.current,
        {
            let ghost c = self.current - 1;
            proof {
                assert(level_matches(1, self.tokens@[c].ttype));
                assert(p_operand(self.tokens@, c + 1, 1) == p_unary(self.tokens@, c + 1));
            }
            let operator = self.previous();
            let right = self.unary()?;
            expr = Expr::Binary(Box::new(expr), operator, Box::new(right));
        }
        Ok(expr)
    }

    /// `unary → ("!" | "-") unary | primary`
    fn unary(&mut self) -> (r: Result<Expr, ParseError>)
        requires
            old(self).wf(),
        ensures
            parsed_expr(*old(self), *final(self), r, p_unary(old(self).tokens(), old(self).pos())),
        decreases old(self).tokens@.len() - old(self).current, 3int,
    {
        if self.match_token(&[TokenType::Bang, TokenType::Minus]) {
            let operator = self.previous();
            let right = self.unary()?;
            return Ok(Expr::Unary(operator, Box::new(right)));
        }
        self.primary()
    }

    /// `primary → NUMBER | STRING | "true" | "false" | "nil" | IDENTIFIER | "(" expression ")"`
    fn primary(&mut self) -> (r: Result<Expr, ParseError>)
        requires
            old(self).wf(),
        ensures
            parsed_expr(*old(self), *final(self), r, p_primary(old(self).tokens(), old(self).pos())),
        decreases old(self).tokens@.len() - old(self).current, 2int,
    {
        if self.match_token(&[TokenType::False]) {
            return Ok(Expr::Literal(Literal::Boolean(false)));
        }
        if self.match_token(&[TokenType::True]) {
            return Ok(Expr::Literal(Literal::Boolean(true)));
        }
        if self.match_token(&[TokenType::Nil]) {
            return Ok(Expr::Literal(Literal::Nil));
        }
        if self.match_token(&[TokenType::Number]) {
            return match self.previous().literal {
                Some(Literal::Number(n)) => Ok(Expr::Literal(Literal::Number(n))),
                _ => Err(ParseError::new(String::from_str("Expect number"), self.peek())),
            };
        }
        if self.match_token(&[TokenType::String]) {
            return match self.previous().literal {
                Some(Literal::Str(s)) => Ok(Expr::Literal(Literal::Str(s))),
                _ => Err(ParseError::new(String::from_str("Expect string"), self.peek())),
            };
        }
        if self.match_token(&[TokenType::Identifier]) {
            return Ok(Expr::Var(self.previous()));
        }
        if self.match_token(&[TokenType::LeftParen]) {
            let expr = self.expression()?;
            self.consume(TokenType::RightParen, "Expect ')' after expression")?;
            return Ok(Expr::Grouping(Box::new(expr)));
        }
        Err(ParseError::new(String::from_str("Expect expression"), self.peek()))
    }

    /// Skips the current token, then tokens up to just after a `;` or up to
    /// a token that begins a statement.
    fn sync(&mut self)
        requires
            old(self).wf(),
        ensures
            final(self).wf(),
            final(self).tokens == old(self).tokens,
            final(self).errors == old(self).errors,
            final(self).current == p_sync(old(self).tokens@, old(self).current as int),
    {
        if !self.is_at_end() {
            self.current = self.current + 1;
        }
        while !self.is_at_end()
            invariant
                self.wf(),
                self.tokens == old(self).tokens,
                self.errors == old(self).errors,
                self.current >= 1 || at_end(self.tokens@, self.current as int),
                sync_from(self.tokens@, self.current as int) == p_sync(old(self).tokens@, old(self).current as int),
            decreases self.tokens@.len() - self.current,
        {
            if self.tokens[self.current - 1].ttype == TokenType::Semicolon {
                return;
            }
            match self.tokens[self.current].ttype {
                TokenType::Class | TokenType::Fun | TokenType::Var | TokenType::For | TokenType::If
                | TokenType::While | TokenType::Print | TokenType::Return => {
                    return;
                },
                _ => {
                    self.current = self.current + 1;
                },
            }
        }
    }
}

} // verus!
