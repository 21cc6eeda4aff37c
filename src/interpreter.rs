//! The evaluator: runs statements and evaluates expressions against the
//! chain of scopes, recording what the program prints and the runtime
//! errors that stop its statements.

use crate::environment::Frame;
use crate::error::{RuntimeError, RuntimeFault};
use crate::expr::Expr;
use crate::literal::{truthy, values_equal, Literal, Value};
use crate::number::{
    difference, double_difference, double_le, double_lt, double_neg, double_product,
    double_quotient, double_sum, less, less_equal, negate, product, quotient, sum,
};
use crate::scope::{assign_in, define_in, lookup, undefined_message, Scope};
use crate::stmt::Stmt;
use crate::token::{Token, TokenType};
use vstd::prelude::*;

verus! {

/// The message of the error for an operand that must be a number.
pub open spec fn number_expected() -> Seq<char> {
    "Expect number"@
}

/// The message of the error for a right operand of `+` that must be a string.
pub open spec fn string_expected() -> Seq<char> {
    "Expect String"@
}

/// The message of the error for a left operand of `+` that is neither a number nor a string.
pub open spec fn addend_expected() -> Seq<char> {
    "Expect number or String"@
}

/// The message of the error for a token that names no operator.
pub open spec fn unknown_operator() -> Seq<char> {
    "Unknown operator"@
}

/// The model of the runtime error `msg` at `token`.
pub open spec fn fault(msg: Seq<char>, token: Token) -> RuntimeFault {
    RuntimeFault { msg, token }
}

/// The model of what a statement outputs: a printed value, a runtime
/// error that stopped a statement, or a loop stopped at its iteration limit.
pub enum Event {
    Printed(Value),
    Failed(RuntimeFault),
    LoopLimit,
}

/// What the interpreter outputs, in order.
#[derive(Debug)]
pub enum Output {
    /// A value printed by a `print` statement.
    Printed(Literal),
    /// A runtime error that stopped a top-level statement.
    Failed(RuntimeError),
    /// A `while` loop that reached the iteration limit, which stopped its top-level statement.
    LoopLimit,
}

impl View for Output {
    type V = Event;

    open spec fn view(&self) -> Event {
        match self {
            Output::Printed(v) => Event::Printed(v@),
            Output::Failed(e) => Event::Failed(e@),
            Output::LoopLimit => Event::LoopLimit,
        }
    }
}

pub open spec fn result_view(r: Result<Literal, RuntimeError>) -> Result<Value, RuntimeFault> {
    match r {
        Ok(v) => Ok(v@),
        Err(e) => Err(e@),
    }
}

pub open spec fn halt_view(r: Result<(), Output>) -> Option<Event> {
    match r {
        Ok(_) => None,
        Err(o) => Some(o@),
    }
}

/// The operators whose operands must both be numbers.
pub open spec fn is_numeric_operator(k: TokenType) -> bool {
    ||| k == TokenType::Minus
    ||| k == TokenType::Slash
    ||| k == TokenType::Star
    ||| k == TokenType::Greater
    ||| k == TokenType::GreaterEqual
    ||| k == TokenType::Less
    ||| k == TokenType::LessEqual
}

/// The value of a numeric operator on two numbers.
pub open spec fn arithmetic(k: TokenType, a: u64, b: u64) -> Value {
    match k {
        TokenType::Minus => Value::Number(double_difference(a, b)),
        TokenType::Slash => Value::Number(double_quotient(a, b)),
        TokenType::Star => Value::Number(double_product(a, b)),
        TokenType::Greater => Value::Boolean(double_lt(b, a)),
        TokenType::GreaterEqual => Value::Boolean(double_le(b, a)),
        TokenType::Less => Value::Boolean(double_lt(a, b)),
        _ => Value::Boolean(double_le(a, b)),
    }
}

/// The value of a unary operator applied to `v`.
pub open spec fn unary_result(op: Token, v: Value) -> Result<Value, RuntimeFault> {
    match op.ttype {
        TokenType::Minus => match v {
            Value::Number(n) => Ok(Value::Number(double_neg(n))),
            _ => Err(fault(number_expected(), op)),
        },
        TokenType::Bang => Ok(Value::Boolean(!truthy(v))),
        _ => Err(fault(unknown_operator(), op)),
    }
}

/// The value of a binary operator applied to `a` and `b`. `+` adds numbers
/// and joins strings, by the kind of its left operand.
pub open spec fn binary_result(op: Token, a: Value, b: Value) -> Result<Value, RuntimeFault> {
    let k = op.ttype;
    if is_numeric_operator(k) {
        match (a, b) {
            (Value::Number(x), Value::Number(y)) => Ok(arithmetic(k, x, y)),
            _ => Err(fault(number_expected(), op)),
        }
    } else if k == TokenType::Plus {
        match (a, b) {
            (Value::Number(x), Value::Number(y)) => Ok(Value::Number(double_sum(x, y))),
            (Value::Number(_), _) => Err(fault(number_expected(), op)),
            (Value::Str(x), Value::Str(y)) => Ok(Value::Str(x + y)),
            (Value::Str(_), _) => Err(fault(string_expected(), op)),
            _ => Err(fault(addend_expected(), op)),
        }
    } else if k == TokenType::EqualEqual {
        Ok(Value::Boolean(values_equal(a, b)))
    } else if k == TokenType::BangEqual {
        Ok(Value::Boolean(!values_equal(a, b)))
    } else {
        Err(fault(unknown_operator(), op))
    }
}

/// Evaluates `e` in the chain `frames`: the chain afterwards (assignments
/// change it) and the value, or the first runtime error.
pub open spec fn eval_expr(e: Expr, frames: Seq<Frame>) -> (Seq<Frame>, Result<Value, RuntimeFault>)
    decreases e,
{
    match e {
        Expr::Literal(l) => (frames, Ok(l@)),
        Expr::Grouping(inner) => eval_expr(*inner, frames),
        Expr::Var(name) => match lookup(frames, name.lexeme@) {
            Some(v) => (frames, Ok(v)),
            None => (frames, Err(fault(undefined_message(name.lexeme@), name))),
        },
        Expr::Assign(name, rhs) => {
            let (f1, r) = eval_expr(*rhs, frames);
            match r {
                Err(x) => (f1, Err(x)),
                Ok(v) => match assign_in(f1, name.lexeme@, v) {
                    Some(f2) => (f2, Ok(v)),
                    None => (f1, Err(fault(undefined_message(name.lexeme@), name))),
                },
            }
        },
        Expr::Unary(op, rhs) => {
            let (f1, r) = eval_expr(*rhs, frames);
            match r {
                Err(x) => (f1, Err(x)),
                Ok(v) => (f1, unary_result(op, v)),
            }
        },
        Expr::Binary(lhs, op, rhs) => {
            let (f1, a) = eval_expr(*lhs, frames);
            match a {
                Err(x) => (f1, Err(x)),
                Ok(va) => {
                    let (f2, b) = eval_expr(*rhs, f1);
                    match b {
                        Err(x) => (f2, Err(x)),
                        Ok(vb) => (f2, binary_result(op, va, vb)),
                    }
                },
            }
        },
        Expr::Logical(lhs, op, rhs) => {
            let (f1, a) = eval_expr(*lhs, frames);
            match a {
                Err(x) => (f1, Err(x)),
                Ok(va) => if (op.ttype == TokenType::Or && truthy(va)) || (op.ttype != TokenType::Or
                    && !truthy(va)) {
                    (f1, Ok(va))
                } else {
                    eval_expr(*rhs, f1)
                },
            }
        },
    }
}

/// Runs `s` from the chain `frames` with the output `log` so far, each loop
/// allowed `limit` runs of its body: the chain and the output afterwards,
/// and what stopped the statement, if anything did.
pub open spec fn exec_stmt(s: Stmt, frames: Seq<Frame>, log: Seq<Event>, limit: nat) -> (
    Seq<Frame>,
    Seq<Event>,
    Option<Event>,
)
    decreases s, 0nat,
{
    match s {
        Stmt::Expr(e) => {
            let (f1, r) = eval_expr(e, frames);
            match r {
                Err(x) => (f1, log, Some(Event::Failed(x))),
                Ok(_) => (f1, log, None),
            }
        },
        Stmt::Print(e) => {
            let (f1, r) = eval_expr(e, frames);
            match r {
                Err(x) => (f1, log, Some(Event::Failed(x))),
                Ok(v) => (f1, log.push(Event::Printed(v)), None),
            }
        },
        Stmt::Var(name, init) => match init {
            None => (define_in(frames, name.lexeme@, Value::Nil), log, None),
            Some(e) => {
                let (f1, r) = eval_expr(e, frames);
                match r {
                    Err(x) => (f1, log, Some(Event::Failed(x))),
                    Ok(v) => (define_in(f1, name.lexeme@, v), log, None),
                }
            },
        },
        Stmt::Block(stmts) => {
            let (f1, l1, h) = exec_block(stmts@, 0, frames.push(Map::empty()), log, limit);
            (f1.drop_last(), l1, h)
        },
        Stmt::If(cond, then_branch, else_branch) => {
            let (f1, r) = eval_expr(cond, frames);
            match r {
                Err(x) => (f1, log, Some(Event::Failed(x))),
                Ok(v) => if truthy(v) {
                    exec_stmt(*then_branch, f1, log, limit)
                } else {
                    match else_branch {
                        Some(b) => exec_stmt(*b, f1, log, limit),
                        None => (f1, log, None),
                    }
                },
            }
        },
        Stmt::While(cond, body) => exec_loop(cond, *body, frames, log, limit, limit),
    }
}

/// Runs `stmts[i..]` in order, stopping at the first that is stopped.
pub open spec fn exec_block(stmts: Seq<Stmt>, i: int, frames: Seq<Frame>, log: Seq<Event>, limit: nat) -> (
    Seq<Frame>,
    Seq<Event>,
    Option<Event>,
)
    decreases stmts, stmts.len() - i,
{
    if i < 0 || i >= stmts.len() {
        (frames, log, None)
    } else {
        let (f1, l1, h) = exec_stmt(stmts[i], frames, log, limit);
        if h is Some {
            (f1, l1, h)
        } else {
            exec_block(stmts, i + 1, f1, l1, limit)
        }
    }
}

/// Runs a `while` loop that may run its body `fuel` more times.
pub open spec fn exec_loop(
    cond: Expr,
    body: Stmt,
    frames: Seq<Frame>,
    log: Seq<Event>,
    limit: nat,
    fuel: nat,
) -> (Seq<Frame>, Seq<Event>, Option<Event>)
    decreases body, fuel + 1,
{
    let (f1, r) = eval_expr(cond, frames);
    match r {
        Err(x) => (f1, log, Some(Event::Failed(x))),
        Ok(v) => if !truthy(v) {
            (f1, log, None)
        } else if fuel == 0 {
            (f1, log, Some(Event::LoopLimit))
        } else {
            let (f2, l2, h) = exec_stmt(body, f1, log, limit);
            if h is Some {
                (f2, l2, h)
            } else {
                exec_loop(cond, body, f2, l2, limit, (fuel - 1) as nat)
            }
        },
    }
}

/// Runs a program from statement `i` on: a statement that is stopped has
/// what stopped it output, and the next statement runs.
pub open spec fn run_program(stmts: Seq<Stmt>, i: int, frames: Seq<Frame>, log: Seq<Event>, limit: nat) -> (
    Seq<Frame>,
    Seq<Event>,
)
    decreases stmts.len() - i,
{
    if i < 0 || i >= stmts.len() {
        (frames, log)
    } else {
        let (f1, l1, h) = exec_stmt(stmts[i], frames, log, limit);
        let l2 = match h {
            Some(ev) => l1.push(ev),
            None => l1,
        };
        run_program(stmts, i + 1, f1, l2, limit)
    }
}

proof fn lemma_assign_in_len(frames: Seq<Frame>, name: Seq<char>, value: Value)
    ensures
        assign_in(frames, name, value) matches Some(f) ==> f.len() == frames.len(),
    decreases frames.len(),
{
    if frames.len() > 0 && !frames.last().contains_key(name) {
        lemma_assign_in_len(frames.drop_last(), name, value);
    }
}

/// Evaluation keeps the number of scopes.
pub proof fn lemma_eval_keeps_depth(e: Expr, frames: Seq<Frame>)
    ensures
        eval_expr(e, frames).0.len() == frames.len(),
    decreases e,
{
    match e {
        Expr::Grouping(inner) => lemma_eval_keeps_depth(*inner, frames),
        Expr::Assign(name, rhs) => {
            lemma_eval_keeps_depth(*rhs, frames);
            let (f1, r) = eval_expr(*rhs, frames);
            if let Ok(v) = r {
                lemma_assign_in_len(f1, name.lexeme@, v);
            }
        },
        Expr::Unary(_, rhs) => lemma_eval_keeps_depth(*rhs, frames),
        Expr::Binary(lhs, _, rhs) => {
            lemma_eval_keeps_depth(*lhs, frames);
            lemma_eval_keeps_depth(*rhs, eval_expr(*lhs, frames).0);
        },
        Expr::Logical(lhs, _, rhs) => {
            lemma_eval_keeps_depth(*lhs, frames);
            lemma_eval_keeps_depth(*rhs, eval_expr(*lhs, frames).0);
        },
        _ => {},
    }
}

fn message(text: &str) -> (r: String)
    ensures
        r@ == text@,
{
    String::from_str(text)
}

/// Applies a unary operator.
fn unary(op: &Token, v: Literal) -> (r: Result<Literal, RuntimeError>)
    ensures
        result_view(r) == unary_result(*op, v@),
{
    match op.ttype {
        TokenType::Minus => match v {
            Literal::Number(n) => Ok(Literal::Number(negate(n))),
            _ => Err(RuntimeError::new(message("Expect number"), op.duplicate())),
        },
        TokenType::Bang => Ok(Literal::Boolean(!v.is_truthy())),
        _ => Err(RuntimeError::new(message("Unknown operator"), op.duplicate())),
    }
}

/// Applies a binary operator.
fn binary(op: &Token, a: Literal, b: Literal) -> (r: Result<Literal, RuntimeError>)
    ensures
        result_view(r) == binary_result(*op, a@, b@),
{
    let k = op.ttype;
    if k == TokenType::Minus || k == TokenType::Slash || k == TokenType::Star || k
        == TokenType::Greater || k == TokenType::GreaterEqual || k == TokenType::Less || k
        == TokenType::LessEqual {
        match (a, b) {
            (Literal::Number(x), Literal::Number(y)) => {
                let v = match k {
                    TokenType::Minus => Literal::Number(difference(x, y)),
                    TokenType::Slash => Literal::Number(quotient(x, y)),
                    TokenType::Star => Literal::Number(product(x, y)),
                    TokenType::Greater => Literal::Boolean(less(y, x)),
                    TokenType::GreaterEqual => Literal::Boolean(less_equal(y, x)),
                    TokenType::Less => Literal::Boolean(less(x, y)),
                    _ => Literal::Boolean(less_equal(x, y)),
                };
                Ok(v)
            },
            _ => Err(RuntimeError::new(message("Expect number"), op.duplicate())),
        }
    } else if k == TokenType::Plus {
        match (a, b) {
            (Literal::Number(x), Literal::Number(y)) => Ok(Literal::Number(sum(x, y))),
            (Literal::Number(_), _) => Err(RuntimeError::new(message("Expect number"), op.duplicate())),
            (Literal::Str(x), Literal::Str(y)) => Ok(Literal::Str(x.concat(y.as_str()))),
            (Literal::Str(_), _) => Err(RuntimeError::new(message("Expect String"), op.duplicate())),
            _ => Err(RuntimeError::new(message("Expect number or String"), op.duplicate())),
        }
    } else if k == TokenType::EqualEqual {
        Ok(Literal::Boolean(a.is_equal(&b)))
    } else if k == TokenType::BangEqual {
        Ok(Literal::Boolean(!a.is_equal(&b)))
    } else {
        Err(RuntimeError::new(message("Unknown operator"), op.duplicate()))
    }
}

/// The interpreter: the chain of scopes, whose global scope lasts across
/// programs run one after another, and the output recorded so far.
pub struct Interpreter {
    scope: Scope,
    output: Vec<Output>,
    loop_limit: u64,
}

impl Interpreter {
    pub closed spec fn wf(&self) -> bool {
        self.scope.wf() && self.scope@.len() >= 1
    }

    /// The chain of scopes, the global scope first.
    pub closed spec fn frames(&self) -> Seq<Frame> {
        self.scope@
    }

    /// Everything output so far, in order.
    pub closed spec fn log(&self) -> Seq<Event> {
        self.output@.map_values(|o: Output| o@)
    }

    /// How many times one `while` loop may run its body.
    pub closed spec fn limit(&self) -> nat {
        self.loop_limit as nat
    }

    /// An interpreter with an empty global scope and nothing output; loops
    /// may run as long as a `u64` can count.
    pub fn new() -> (r: Interpreter)
        ensures
            r.wf(),
            r.frames() == seq![Map::<Seq<char>, Value>::empty()],
            r.log() == Seq::<Event>::empty(),
            r.limit() == u64::MAX,
    {
        Interpreter::with_loop_limit(u64::MAX)
    }

    /// An interpreter whose `while` loops may run their body at most `limit` times.
    pub fn with_loop_limit(limit: u64) -> (r: Interpreter)
        ensures
            r.wf(),
            r.frames() == seq![Map::<Seq<char>, Value>::empty()],
            r.log() == Seq::<Event>::empty(),
            r.limit() == limit,
    {
        let r = Interpreter { scope: Scope::new(), output: Vec::new(), loop_limit: limit };
        assert(r.log() =~= Seq::<Event>::empty());
        r
    }

    /// Runs a program: each statement in order; a statement stopped by a
    /// runtime error (or by the loop limit) has that output, and the next
    /// statement runs. Global variables remain for the next program.
    pub fn interpret(&mut self, statements: Vec<Stmt>)
        requires
            old(self).wf(),
        ensures
            final(self).wf(),
            final(self).limit() == old(self).limit(),
            (final(self).frames(), final(self).log()) == run_program(
                statements@,
                0,
                old(self).frames(),
                old(self).log(),
                old(self).limit(),
            ),
    {
        let mut i: usize = 0;
        while i < statements.len()
            invariant
                self.wf(),
                self.limit() == old(self).limit(),
                i <= statements@.len(),
                run_program(statements@, 0, old(self).frames(), old(self).log(), old(self).limit())
                    == run_program(statements@, i as int, self.frames(), self.log(), self.limit()),
            decreases statements@.len() - i,
        {
            match self.execute(&statements[i]) {
                Ok(()) => {},
                Err(h) => {
                    let ghost before = self.output@;
                    self.output.push(h);
                    proof {
                        assert(self.log() =~= before.map_values(|o: Output| o@).push(h@));
                    }
                },
            }
            i = i + 1;
        }
    }

    /// Hands over everything output so far, in order, and forgets it.
    pub fn take_output(&mut self) -> (r: Vec<Output>)
        requires
            old(self).wf(),
        ensures
            final(self).wf(),
            final(self).limit() == old(self).limit(),
            final(self).frames() == old(self).frames(),
            final(self).log() == Seq::<Event>::empty(),
            r@.map_values(|o: Output| o@) == old(self).log(),
    {
        let mut out: Vec<Output> = Vec::new();
        std::mem::swap(&mut out, &mut self.output);
        assert(self.log() =~= Seq::<Event>::empty());
        out
    }

    /// Evaluates an expression.
    fn eval(&mut self, e: &Expr) -> (r: Result<Literal, RuntimeError>)
        requires
            old(self).wf(),
        ensures
            final(self).wf(),
            final(self).log() == old(self).log(),
            final(self).limit() == old(self).limit(),
            (final(self).frames(), result_view(r)) == eval_expr(*e, old(self).frames()),
        decreases e,
    {
        proof {
            lemma_eval_keeps_depth(*e, self.frames());
        }
        match e {
            Expr::Literal(l) => Ok(l.duplicate()),
            Expr::Grouping(inner) => self.eval(inner),
            Expr::Var(name) => match self.scope.get(name.duplicate()) {
                Ok(v) => Ok(v.duplicate()),
                Err(x) => Err(x),
            },
            Expr::Assign(name, rhs) => {
                let v = self.eval(rhs)?;
                match self.scope.assign(name.duplicate(), v.duplicate()) {
                    Ok(()) => Ok(v),
                    Err(x) => Err(x),
                }
            },
            Expr::Unary(op, rhs) => {
                let v = self.eval(rhs)?;
                unary(op, v)
            },
            Expr::Binary(lhs, op, rhs) => {
                let a = self.eval(lhs)?;
                let b = self.eval(rhs)?;
                binary(op, a, b)
            },
            Expr::Logical(lhs, op, rhs) => {
                let a = self.eval(lhs)?;
                let t = a.is_truthy();
                if (op.ttype == TokenType::Or && t) || (op.ttype != TokenType::Or && !t) {
                    Ok(a)
                } else {
                    self.eval(rhs)
                }
            },
        }
    }
    /// Runs one statement.
    fn execute(&mut self, s: &Stmt) -> (r: Result<(), Output>)
        requires
            old(self).wf(),
        ensures
            final(self).wf(),
            final(self).limit() == old(self).limit(),
            final(self).frames().len() == old(self).frames().len(),
            (final(self).frames(), final(self).log(), halt_view(r)) == exec_stmt(
                *s,
                old(self).frames(),
                old(self).log(),
                old(self).limit(),
            ),
        decreases s, 0nat,
    {
        match s {
            Stmt::Expr(e) => {
                proof {
                    lemma_eval_keeps_depth(*e, self.frames());
                }
                match self.eval(e) {
                    Ok(_) => Ok(()),
                    Err(x) => Err(Output::Failed(x)),
                }
            },
            Stmt::Print(e) => {
                proof {
                    lemma_eval_keeps_depth(*e, self.frames());
                }
                match self.eval(e) {
                    Ok(v) => {
                        let ghost before = self.output@;
                        self.output.push(Output::Printed(v));
                        proof {
                            assert(self.log() =~= before.map_values(|o: Output| o@).push(
                                Event::Printed(v@),
                            ));
                        }
                        Ok(())
                    },
                    Err(x) => Err(Output::Failed(x)),
                }
            },
            Stmt::Var(name, init) => {
                let v = match init {
                    None => Literal::Nil,
                    Some(e) => {
                        proof {
                            lemma_eval_keeps_depth(*e, self.frames());
                        }
                        match self.eval(e) {
                            Ok(v) => v,
                            Err(x) => {
                                return Err(Output::Failed(x));
                            },
                        }
                    },
                };
                self.scope.define(name.lexeme.clone(), v);
                Ok(())
            },
            Stmt::Block(stmts) => {
                let ghost f0 = self.frames();
                let ghost l0 = self.log();
                let ghost lim = self.limit();
                self.scope.wrap();
                let mut i: usize = 0;
                while i < stmts.len()
                    invariant
                        self.wf(),
                        self.limit() == lim,
                        lim == old(self).limit(),
                        *s == Stmt::Block(*stmts),
                        f0 == old(self).frames(),
                        l0 == old(self).log(),
                        f0.len() >= 1,
                        i <= stmts@.len(),
                        self.frames().len() == f0.len() + 1,
                        exec_block(stmts@, 0, f0.push(Map::empty()), l0, lim) == exec_block(
                            stmts@,
                            i as int,
                            self.frames(),
                            self.log(),
                            lim,
                        ),
                    decreases stmts@.len() - i,
                {
                    proof {
                        assert(decreases_to!(*s => s->Block_0));
                        assert(decreases_to!(*stmts => stmts@));
                        assert(decreases_to!(stmts@ => stmts@[i as int]));
                    }
                    match self.execute(&stmts[i]) {
                        Ok(()) => {},
                        Err(h) => {
                            self.scope.unwrap();
                            return Err(h);
                        },
                    }
                    i = i + 1;
                }
                self.scope.unwrap();
                Ok(())
            },
            Stmt::If(cond, then_branch, else_branch) => {
                proof {
                    lemma_eval_keeps_depth(*cond, self.frames());
                }
                let c = match self.eval(cond) {
                    Ok(v) => v,
                    Err(x) => {
                        return Err(Output::Failed(x));
                    },
                };
                if c.is_truthy() {
                    self.execute(then_branch)
                } else {
                    match else_branch {
                        Some(b) => self.execute(b),
                        None => Ok(()),
                    }
                }
            },
            Stmt::While(cond, body) => self.run_loop(cond, body),
        }
    }

    /// Runs a `while` loop, at most `limit` runs of its body.
    fn run_loop(&mut self, cond: &Expr, body: &Stmt) -> (r: Result<(), Output>)
        requires
            old(self).wf(),
        ensures
            final(self).wf(),
            final(self).limit() == old(self).limit(),
            final(self).frames().len() == old(self).frames().len(),
            (final(self).frames(), final(self).log(), halt_view(r)) == exec_loop(
                *cond,
                *body,
                old(self).frames(),
                old(self).log(),
                old(self).limit(),
                old(self).limit(),
            ),
        decreases body, 1nat,
    {
        let ghost goal = exec_loop(
            *cond,
            *body,
            self.frames(),
            self.log(),
            self.limit(),
            self.limit(),
        );
        let ghost depth = self.frames().len();
        let ghost lim = self.limit();
        let mut fuel: u64 = self.loop_limit;
        loop
            invariant
                self.wf(),
                self.limit() == lim,
                lim == old(self).limit(),
                depth == old(self).frames().len(),
                goal == exec_loop(
                    *cond,
                    *body,
                    old(self).frames(),
                    old(self).log(),
                    old(self).limit(),
                    old(self).limit(),
                ),
                self.frames().len() == depth,
                fuel <= self.limit(),
                exec_loop(*cond, *body, self.frames(), self.log(), self.limit(), fuel as nat)
                    == goal,
            decreases fuel,
        {
            proof {
                lemma_eval_keeps_depth(*cond, self.frames());
            }
            let c = match self.eval(cond) {
                Ok(v) => v,
                Err(x) => {
                    return Err(Output::Failed(x));
                },
            };
            if !c.is_truthy() {
                return Ok(());
            }
            if fuel == 0 {
                return Err(Output::LoopLimit);
            }
            match self.execute(body) {
                Ok(()) => {},
                Err(h) => {
                    return Err(h);
                },
            }
            fuel = fuel - 1;
        }
    }
}


} // verus!
