//! Properties of the language that relate several of its functions, proved
//! from their specifications.

use crate::environment::Frame;
use crate::error::{ParseFault, RuntimeFault};
use crate::expr::Expr;
use crate::interpreter::{binary_result, eval_expr};
use crate::literal::{truthy, values_equal, Literal, Value};
use crate::number::{decimal_double, is_decimal_digit};
use crate::parser::{check, p_primary};
use crate::scanner::{number_end, number_step};
use crate::scope::{assign_in, define_in, lookup};
use crate::token::{Token, TokenType};
use vstd::prelude::*;

verus! {

/// Whether two values are of the same kind (both booleans, both numbers, ...).
pub open spec fn same_kind(a: Value, b: Value) -> bool {
    match (a, b) {
        (Value::Nil, Value::Nil) => true,
        (Value::Boolean(_), Value::Boolean(_)) => true,
        (Value::Number(_), Value::Number(_)) => true,
        (Value::Str(_), Value::Str(_)) => true,
        _ => false,
    }
}

/// A number literal evaluates to the binary64 that its numeral denotes: the
/// scanner puts that value in the token, the parser puts it in the literal
/// expression, and evaluation returns it, whatever the scopes hold.
pub proof fn lemma_numeral_round_trip(
    src: Seq<char>,
    s: int,
    line: nat,
    toks: Seq<Token>,
    p: int,
    frames: Seq<Frame>,
)
    requires
        0 <= s < src.len(),
        is_decimal_digit(src[s]),
        0 <= p < toks.len() - 1,
        toks[p]@ == number_step(src, s, line).token->Some_0,
    ensures
        ({
            let n = decimal_double(src.subrange(s, number_end(src, s)));
            &&& p_primary(toks, p) == (p + 1, Ok::<Expr, ParseFault>(Expr::Literal(Literal::Number(n))))
            &&& eval_expr(Expr::Literal(Literal::Number(n)), frames) == (frames, Ok::<Value, RuntimeFault>(Value::Number(n)))
        }),
{
    let n = decimal_double(src.subrange(s, number_end(src, s)));
    assert(toks[p].ttype == TokenType::Number);
    assert(check(toks, p, TokenType::Number));
    match toks[p].literal {
        Some(l) => {
            assert(l@ == Value::Number(n));
            assert(l == Literal::Number(n));
        },
        None => {},
    }
}

/// `nil` equals `nil`; values of two different kinds are never equal, so
/// `nil` does not equal `false`.
pub proof fn lemma_equality_within_kinds(a: Value, b: Value)
    ensures
        values_equal(Value::Nil, Value::Nil),
        !values_equal(Value::Nil, Value::Boolean(false)),
        !same_kind(a, b) ==> !values_equal(a, b),
{
}

/// Only `nil` and `false` are falsy: the number zero and the empty string
/// are truthy.
pub proof fn lemma_truthiness(v: Value)
    ensures
        truthy(v) <==> !(v == Value::Nil || v == Value::Boolean(false)),
        truthy(Value::Number(0)),
        truthy(Value::Str(Seq::empty())),
{
}

/// A declaration in a block shadows an outer binding of the same name:
/// inside the block the name has the new value, and leaving the block
/// restores the outer scopes unchanged.
pub proof fn lemma_shadowing(frames: Seq<Frame>, name: Seq<char>, inner: Value)
    ensures
        lookup(define_in(frames.push(Map::empty()), name, inner), name) == Some(inner),
        define_in(frames.push(Map::empty()), name, inner).drop_last() == frames,
{
    let f = define_in(frames.push(Map::empty()), name, inner);
    assert(f.last().contains_key(name));
    assert(f.drop_last() =~= frames);
}

/// Assigning a name inside a block that does not declare it changes the
/// binding of the enclosing scopes: leaving the block shows the outer
/// scopes as assigning there would have left them.
pub proof fn lemma_assignment_through_block(frames: Seq<Frame>, name: Seq<char>, v: Value)
    ensures
        match assign_in(frames.push(Map::empty()), name, v) {
            Some(f) => assign_in(frames, name, v) == Some(f.drop_last()),
            None => assign_in(frames, name, v) is None,
        },
{
    let g = frames.push(Map::<Seq<char>, Value>::empty());
    assert(g.drop_last() =~= frames);
    assert(!g.last().contains_key(name));
    match assign_in(frames, name, v) {
        Some(f) => {
            assert(f.push(Map::empty()).drop_last() =~= f);
        },
        None => {},
    }
}

/// `and` does not evaluate its right operand when its left one is falsy,
/// nor `or` when its left one is truthy: the result is then the left value,
/// whatever the right operand is (even one that would fail).
pub proof fn lemma_short_circuit(lhs: Expr, op: Token, rhs: Expr, frames: Seq<Frame>)
    ensures
        ({
            let (f1, a) = eval_expr(lhs, frames);
            a is Ok && ((op.ttype == TokenType::Or && truthy(a->Ok_0)) || (op.ttype
                == TokenType::And && !truthy(a->Ok_0))) ==> eval_expr(
                Expr::Logical(Box::new(lhs), op, Box::new(rhs)),
                frames,
            ) == (f1, a)
        }),
{
}

/// `+` needs two numbers or two strings: with operands of two different
/// kinds, in either order, or with a left operand that is neither, it is a
/// runtime error.
pub proof fn lemma_plus_operands(op: Token, a: Value, b: Value)
    requires
        op.ttype == TokenType::Plus,
    ensures
        !same_kind(a, b) ==> binary_result(op, a, b) is Err,
        !(a is Number || a is Str) ==> binary_result(op, a, b) is Err,
{
}

proof fn lemma_lookup_after_assign(frames: Seq<Frame>, name: Seq<char>, v: Value)
    ensures
        assign_in(frames, name, v) matches Some(f) ==> lookup(f, name) == Some(v),
    decreases frames.len(),
{
    if frames.len() > 0 {
        if frames.last().contains_key(name) {
            let f = frames.update(frames.len() - 1, frames.last().insert(name, v));
            assert(f.last() == frames.last().insert(name, v));
        } else {
            lemma_lookup_after_assign(frames.drop_last(), name, v);
            match assign_in(frames.drop_last(), name, v) {
                Some(g) => {
                    let f = g.push(frames.last());
                    assert(f.drop_last() =~= g);
                },
                None => {},
            }
        }
    }
}

/// Assignment is an expression: where the name is bound, `name = value`
/// evaluates to the value assigned, and the name is bound to it afterwards.
pub proof fn lemma_assignment_value(name: Token, rhs: Expr, frames: Seq<Frame>)
    ensures
        ({
            let (f1, r) = eval_expr(rhs, frames);
            let (f2, s) = eval_expr(Expr::Assign(name, Box::new(rhs)), frames);
            r is Ok && lookup(f1, name.lexeme@) is Some ==> s == Ok::<Value, RuntimeFault>(r->Ok_0)
                && lookup(f2, name.lexeme@) == Some(r->Ok_0)
        }),
{
    let (f1, r) = eval_expr(rhs, frames);
    if let Ok(v) = r {
        lemma_lookup_after_assign(f1, name.lexeme@, v);
        lemma_assign_in_defined(f1, name.lexeme@, v);
    }
}

proof fn lemma_assign_in_defined(frames: Seq<Frame>, name: Seq<char>, v: Value)
    ensures
        lookup(frames, name) is Some ==> assign_in(frames, name, v) is Some,
    decreases frames.len(),
{
    if frames.len() > 0 && !frames.last().contains_key(name) {
        lemma_assign_in_defined(frames.drop_last(), name, v);
    }
}

} // verus!
