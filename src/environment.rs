//! One scope: a mapping from variable names to values.

use crate::literal::{Literal, Value};
use crate::token::Token;
use vstd::prelude::*;

verus! {

/// The bindings of one scope, as a map from names to values.
pub type Frame = Map<Seq<char>, Value>;

/// The map that a list of bindings denotes; a later binding of a name
/// hides an earlier one.
pub open spec fn frame_of(entries: Seq<(String, Literal)>) -> Frame
    decreases entries.len(),
{
    if entries.len() == 0 {
        Map::empty()
    } else {
        frame_of(entries.drop_last()).insert(entries.last().0@, entries.last().1@)
    }
}

/// No name is bound twice.
pub open spec fn names_unique(entries: Seq<(String, Literal)>) -> bool {
    forall|i: int, j: int|
        0 <= i < j < entries.len() ==> (#[trigger] entries[i]).0@ != (#[trigger] entries[j]).0@
}

proof fn lemma_frame_absent(entries: Seq<(String, Literal)>, k: Seq<char>)
    requires
        forall|i: int| 0 <= i < entries.len() ==> (#[trigger] entries[i]).0@ != k,
    ensures
        !frame_of(entries).contains_key(k),
    decreases entries.len(),
{
    if entries.len() > 0 {
        let d = entries.drop_last();
        assert forall|i: int| 0 <= i < d.len() implies (#[trigger] d[i]).0@ != k by {
            assert(d[i] == entries[i]);
        }
        lemma_frame_absent(d, k);
    }
}

proof fn lemma_frame_index(entries: Seq<(String, Literal)>, i: int)
    requires
        names_unique(entries),
        0 <= i < entries.len(),
    ensures
        frame_of(entries).contains_key(entries[i].0@),
        frame_of(entries)[entries[i].0@] == entries[i].1@,
    decreases entries.len(),
{
    if i < entries.len() - 1 {
        let d = entries.drop_last();
        assert(d[i] == entries[i]);
        assert(names_unique(d)) by {
            assert forall|a: int, b: int| 0 <= a < b < d.len() implies (#[trigger] d[a]).0@
                != (#[trigger] d[b]).0@ by {
                assert(d[a] == entries[a] && d[b] == entries[b]);
            }
        }
        lemma_frame_index(d, i);
        assert(entries[i].0@ != entries.last().0@);
    }
}

proof fn lemma_frame_update(entries: Seq<(String, Literal)>, i: int, e: (String, Literal))
    requires
        names_unique(entries),
        0 <= i < entries.len(),
        entries[i].0@ == e.0@,
    ensures
        frame_of(entries.update(i, e)) == frame_of(entries).insert(e.0@, e.1@),
        names_unique(entries.update(i, e)),
    decreases entries.len(),
{
    let u = entries.update(i, e);
    let d = entries.drop_last();
    assert(names_unique(d)) by {
        assert forall|a: int, b: int| 0 <= a < b < d.len() implies (#[trigger] d[a]).0@
            != (#[trigger] d[b]).0@ by {
            assert(d[a] == entries[a] && d[b] == entries[b]);
        }
    }
    assert(names_unique(u)) by {
        assert forall|a: int, b: int| 0 <= a < b < u.len() implies (#[trigger] u[a]).0@
            != (#[trigger] u[b]).0@ by {
            assert(entries[a].0@ != entries[b].0@);
        }
    }
    if i == entries.len() - 1 {
        assert(u.drop_last() =~= d);
        assert(frame_of(u) =~= frame_of(entries).insert(e.0@, e.1@));
    } else {
        assert(u.drop_last() =~= d.update(i, e));
        lemma_frame_update(d, i, e);
        assert(entries.last().0@ != e.0@);
        assert(frame_of(u) =~= frame_of(entries).insert(e.0@, e.1@));
    }
}

/// One scope of variable bindings.
pub struct Environment {
    entries: Vec<(String, Literal)>,
}

impl View for Environment {
    type V = Frame;

    closed spec fn view(&self) -> Frame {
        frame_of(self.entries@)
    }
}

impl Environment {
    /// The bindings are well formed: no name is bound twice.
    pub closed spec fn wf(&self) -> bool {
        names_unique(self.entries@)
    }

    /// An empty scope.
    pub fn new() -> (r: Environment)
        ensures
            r.wf(),
            r@ == Map::<Seq<char>, Value>::empty(),
    {
        Environment { entries: Vec::new() }
    }

    /// Where `name` is bound, if it is.
    fn position(&self, name: &String) -> (r: Option<usize>)
        requires
            self.wf(),
        ensures
            r matches Some(i) ==> i < self.entries@.len() && self.entries@[i as int].0@ == name@,
            r is None ==> forall|i: int|
                0 <= i < self.entries@.len() ==> (#[trigger] self.entries@[i]).0@ != name@,
    {
        let mut i: usize = 0;
        while i < self.entries.len()
            invariant
                i <= self.entries@.len(),
                forall|j: int| 0 <= j < i ==> (#[trigger] self.entries@[j]).0@ != name@,
            decreases self.entries@.len() - i,
        {
            if self.entries[i].0.eq(name) {
                return Some(i);
            }
            i = i + 1;
        }
        None
    }

    /// Binds `name` to `value` in this scope, replacing a binding it already has.
    pub fn define(&mut self, name: String, value: Literal)
        requires
            old(self).wf(),
        ensures
            final(self).wf(),
            final(self)@ == old(self)@.insert(name@, value@),
    {
        match self.position(&name) {
            Some(i) => {
                proof {
                    lemma_frame_update(self.entries@, i as int, (name, value));
                }
                self.entries.set(i, (name, value));
            },
            None => {
                proof {
                    let e = self.entries@.push((name, value));
                    assert(e.drop_last() =~= self.entries@);
                    assert(names_unique(e)) by {
                        assert forall|a: int, b: int| 0 <= a < b < e.len() implies (#[trigger] e[a]).0@
                            != (#[trigger] e[b]).0@ by {
                            if b == e.len() - 1 {
                                assert(e[a] == self.entries@[a]);
                            } else {
                                assert(e[a] == self.entries@[a] && e[b] == self.entries@[b]);
                            }
                        }
                    }
                }
                self.entries.push((name, value));
            },
        }
    }

    /// The value bound to the token's name in this scope, if any.
    pub fn get(&self, name: Token) -> (r: Option<&Literal>)
        requires
            self.wf(),
        ensures
            r is Some == self@.contains_key(name.lexeme@),
            r matches Some(v) ==> v@ == self@[name.lexeme@],
    {
        match self.position(&name.lexeme) {
            Some(i) => {
                proof {
                    lemma_frame_index(self.entries@, i as int);
                }
                Some(&self.entries[i].1)
            },
            None => {
                proof {
                    lemma_frame_absent(self.entries@, name.lexeme@);
                }
                None
            },
        }
    }

    /// Overwrites the binding of the token's name, if this scope has one.
    pub fn assign(&mut self, name: Token, value: Literal) -> (r: Option<()>)
        requires
            old(self).wf(),
        ensures
            final(self).wf(),
            r is Some == old(self)@.contains_key(name.lexeme@),
            r is Some ==> final(self)@ == old(self)@.insert(name.lexeme@, value@),
            r is None ==> final(self)@ == old(self)@,
    {
        match self.position(&name.lexeme) {
            Some(i) => {
                proof {
                    lemma_frame_index(self.entries@, i as int);
                    lemma_frame_update(self.entries@, i as int, (name.lexeme, value));
                }
                self.entries.set(i, (name.lexeme, value));
                Some(())
            },
            None => {
                proof {
                    lemma_frame_absent(self.entries@, name.lexeme@);
                }
                None
            },
        }
    }
}

} // verus!
