//! The chain of scopes, held as a stack: the global scope first, the
//! innermost last.

use crate::environment::{Environment, Frame};
use crate::error::RuntimeError;
use crate::literal::{Literal, Value};
use crate::token::Token;
use vstd::prelude::*;

verus! {

/// The value a name has in a chain of scopes: the binding of the innermost
/// scope that binds it, or `None` where no scope does.
pub open spec fn lookup(frames: Seq<Frame>, name: Seq<char>) -> Option<Value>
    decreases frames.len(),
{
    if frames.len() == 0 {
        None
    } else if frames.last().contains_key(name) {
        Some(frames.last()[name])
    } else {
        lookup(frames.drop_last(), name)
    }
}

/// The chain after assigning `value` to `name`: the innermost scope that
/// binds the name has its binding overwritten; `None` where no scope binds it.
pub open spec fn assign_in(frames: Seq<Frame>, name: Seq<char>, value: Value) -> Option<Seq<Frame>>
    decreases frames.len(),
{
    if frames.len() == 0 {
        None
    } else if frames.last().contains_key(name) {
        Some(frames.update(frames.len() - 1, frames.last().insert(name, value)))
    } else {
        match assign_in(frames.drop_last(), name, value) {
            Some(f) => Some(f.push(frames.last())),
            None => None,
        }
    }
}

/// The chain after binding `name` to `value` in the innermost scope.
pub open spec fn define_in(frames: Seq<Frame>, name: Seq<char>, value: Value) -> Seq<Frame> {
    frames.update(frames.len() - 1, frames.last().insert(name, value))
}

/// The message of the error for a name that no scope binds.
pub open spec fn undefined_message(name: Seq<char>) -> Seq<char> {
    "Undefined var '"@ + name + "'"@
}

/// Scopes above `n` that do not bind `name` change neither its value nor
/// what assigning it does.
proof fn lemma_unbound_above(frames: Seq<Frame>, n: int, name: Seq<char>, value: Value)
    requires
        0 <= n <= frames.len(),
        forall|j: int| n <= j < frames.len() ==> !(#[trigger] frames[j]).contains_key(name),
    ensures
        lookup(frames, name) == lookup(frames.subrange(0, n), name),
        assign_in(frames, name, value) == (match assign_in(frames.subrange(0, n), name, value) {
            Some(f) => Some(f + frames.subrange(n, frames.len() as int)),
            None => None,
        }),
    decreases frames.len(),
{
    if n < frames.len() {
        let d = frames.drop_last();
        assert forall|j: int| n <= j < d.len() implies !(#[trigger] d[j]).contains_key(name) by {
            assert(d[j] == frames[j]);
        }
        lemma_unbound_above(d, n, name, value);
        assert(d.subrange(0, n) =~= frames.subrange(0, n));
        match assign_in(frames.subrange(0, n), name, value) {
            Some(f) => {
                assert(f + d.subrange(n, d.len() as int) + seq![frames.last()] =~= f + frames.subrange(
                    n,
                    frames.len() as int,
                ));
            },
            None => {},
        }
    } else {
        assert(frames.subrange(0, n) =~= frames);
        match assign_in(frames, name, value) {
            Some(f) => {
                assert(f + frames.subrange(n, frames.len() as int) =~= f);
            },
            None => {},
        }
    }
}

/// A stack of scopes; the first is the global scope.
pub struct Scope {
    envs: Vec<Environment>,
}

impl View for Scope {
    type V = Seq<Frame>;

    closed spec fn view(&self) -> Seq<Frame> {
        self.envs@.map_values(|e: Environment| e@)
    }
}

impl Scope {
    /// There is a global scope, and every scope is well formed.
    pub closed spec fn wf(&self) -> bool {
        &&& self.envs@.len() >= 1
        &&& forall|i: int| 0 <= i < self.envs@.len() ==> (#[trigger] self.envs@[i]).wf()
    }

    /// A chain holding only an empty global scope.
    pub fn new() -> (r: Scope)
        ensures
            r.wf(),
            r@ == seq![Map::<Seq<char>, Value>::empty()],
    {
        let mut envs: Vec<Environment> = Vec::new();
        envs.push(Environment::new());
        let r = Scope { envs };
        assert(r@ =~= seq![Map::<Seq<char>, Value>::empty()]);
        r
    }

    /// Enters a new, empty innermost scope.
    pub fn wrap(&mut self)
        requires
            old(self).wf(),
        ensures
            final(self).wf(),
            final(self)@ == old(self)@.push(Map::empty()),
    {
        self.envs.push(Environment::new());
        assert(self@ =~= old(self)@.push(Map::empty()));
    }

    /// Leaves the innermost scope, discarding its bindings.
    pub fn unwrap(&mut self)
        requires
            old(self).wf(),
            old(self)@.len() > 1,
        ensures
            final(self).wf(),
            final(self)@ == old(self)@.drop_last(),
    {
        self.envs.pop();
        assert(self@ =~= old(self)@.drop_last());
    }

    /// Binds `name` in the innermost scope, shadowing any outer binding.
    pub fn define(&mut self, name: String, value: Literal)
        requires
            old(self).wf(),
        ensures
            final(self).wf(),
            final(self)@ == define_in(old(self)@, name@, value@),
    {
        let last = self.envs.len() - 1;
        self.envs[last].define(name, value);
        assert(self@ =~= define_in(old(self)@, name@, value@));
    }

    /// The value of the token's name in the innermost scope that binds it.
    pub fn get(&self, name: Token) -> (r: Result<&Literal, RuntimeError>)
        requires
            self.wf(),
        ensures
            r is Ok == lookup(self@, name.lexeme@) is Some,
            r matches Ok(v) ==> Some(v@) == lookup(self@, name.lexeme@),
            r matches Err(e) ==> e.token == name && e.msg@ == undefined_message(name.lexeme@),
    {
        let mut i: usize = self.envs.len();
        while i > 0
            invariant
                self.wf(),
                i <= self.envs@.len(),
                forall|j: int| i <= j < self.envs@.len() ==> !(#[trigger] self@[j]).contains_key(
                    name.lexeme@,
                ),
            decreases i,
        {
            let found = self.envs[i - 1].get(name.duplicate());
            match found {
                Some(v) => {
                    proof {
                        lemma_unbound_above(self@, i as int, name.lexeme@, Value::Nil);
                        assert(self@.subrange(0, i as int).last() == self@[i - 1]);
                    }
                    return Ok(v);
                },
                None => {},
            }
            i = i - 1;
        }
        proof {
            lemma_unbound_above(self@, 0, name.lexeme@, Value::Nil);
        }
        let mut msg = String::from_str("Undefined var '");
        msg.append(name.lexeme.as_str());
        msg.append("'");
        Err(RuntimeError::new(msg, name))
    }

    /// Overwrites the binding of the token's name in the innermost scope that
    /// binds it; never creates a binding.
    pub fn assign(&mut self, name: Token, value: Literal) -> (r: Result<(), RuntimeError>)
        requires
            old(self).wf(),
        ensures
            final(self).wf(),
            r is Ok == assign_in(old(self)@, name.lexeme@, value@) is Some,
            r is Ok ==> Some(final(self)@) == assign_in(old(self)@, name.lexeme@, value@),
            r is Err ==> final(self)@ == old(self)@,
            r matches Err(e) ==> e.token == name && e.msg@ == undefined_message(name.lexeme@),
    {
        let ghost v = value@;
        let mut i: usize = self.envs.len();
        while i > 0
            invariant
                self.wf(),
                self@ == old(self)@,
                v == value@,
                i <= self.envs@.len(),
                forall|j: int| i <= j < self.envs@.len() ==> !(#[trigger] self@[j]).contains_key(
                    name.lexeme@,
                ),
            decreases i,
        {
            let bound = self.envs[i - 1].get(name.duplicate()).is_some();
            if bound {
                proof {
                    lemma_unbound_above(old(self)@, i as int, name.lexeme@, v);
                    let p = old(self)@.subrange(0, i as int);
                    assert(p.last() == old(self)@[i - 1]);
                }
                let ghost before = self.envs@;
                let ghost k = name.lexeme@;
                assert(before[i - 1]@.contains_key(k));
                let mut env = self.envs.remove(i - 1);
                let done = env.assign(name, value);
                self.envs.insert(i - 1, env);
                proof {
                    let p = old(self)@.subrange(0, i as int);
                    let rest = old(self)@.subrange(i as int, old(self)@.len() as int);
                    assert(self.envs@ == before.update(i - 1, self.envs@[i - 1]));
                    assert forall|j: int| 0 <= j < self.envs@.len() implies (
                    #[trigger] self.envs@[j]).wf() by {
                        if j != i - 1 {
                            assert(self.envs@[j] == before[j]);
                        }
                    }
                    assert(self@ =~= p.update(p.len() - 1, p.last().insert(k, v)) + rest);
                }
                return Ok(());
            }
            i = i - 1;
        }
        proof {
            lemma_unbound_above(old(self)@, 0, name.lexeme@, v);
        }
        let mut msg = String::from_str("Undefined var '");
        msg.append(name.lexeme.as_str());
        msg.append("'");
        Err(RuntimeError::new(msg, name))
    }
}

} // verus!
