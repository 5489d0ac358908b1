//! The scope chain: name-to-value bindings with an optional enclosing scope.
//!
//! The view of an environment is the sequence of its scopes, innermost
//! first, each a map from names to values.

use vstd::prelude::*;
use crate::lox_type::LoxType;
use crate::model::Value;

verus! {

/// A scope.
pub type Scope = Map<Seq<char>, Value>;

/// One binding of a scope.
#[derive(Debug)]
pub struct Binding {
    pub name: std::string::String,
    pub value: LoxType,
}

/// The scope that a list of bindings stands for.
pub open spec fn as_map(s: Seq<Binding>) -> Scope
    decreases s.len(),
{
    if s.len() == 0 {
        Map::empty()
    } else {
        as_map(s.drop_last()).insert(s.last().name@, s.last().value@)
    }
}

/// No name is bound twice.
pub open spec fn distinct(s: Seq<Binding>) -> bool {
    forall|i: int, j: int| 0 <= i < j < s.len() ==> s[i].name@ != s[j].name@
}

/// The value of `name` in the innermost scope that binds it.
pub open spec fn lookup(chain: Seq<Scope>, name: Seq<char>) -> Option<Value>
    decreases chain.len(),
{
    if chain.len() == 0 {
        None
    } else if chain[0].contains_key(name) {
        Some(chain[0][name])
    } else {
        lookup(chain.drop_first(), name)
    }
}

/// The chain after an assignment: the innermost scope that binds `name`
/// binds it to `value`; a chain that does not bind it is unchanged.
pub open spec fn assigned(chain: Seq<Scope>, name: Seq<char>, value: Value) -> Seq<Scope>
    decreases chain.len(),
{
    if chain.len() == 0 {
        chain
    } else if chain[0].contains_key(name) {
        chain.update(0, chain[0].insert(name, value))
    } else {
        seq![chain[0]] + assigned(chain.drop_first(), name, value)
    }
}

/// The chain after a definition: the innermost scope binds `name` to
/// `value`, whatever it or the outer scopes bound before.
pub open spec fn defined(chain: Seq<Scope>, name: Seq<char>, value: Value) -> Seq<Scope> {
    chain.update(0, chain[0].insert(name, value))
}

/// The chain after `other` was merged into its innermost scope: on a
/// collision the binding of `other` wins.
pub open spec fn extended(chain: Seq<Scope>, other: Scope) -> Seq<Scope> {
    chain.update(0, chain[0].union_prefer_right(other))
}

proof fn lemma_bound(s: Seq<Binding>, i: int)
    requires
        distinct(s),
        0 <= i < s.len(),
    ensures
        as_map(s).contains_key(s[i].name@),
        as_map(s)[s[i].name@] == s[i].value@,
    decreases s.len(),
{
    if i < s.len() - 1 {
        lemma_bound(s.drop_last(), i);
    }
}

proof fn lemma_unbound(s: Seq<Binding>, name: Seq<char>)
    requires
        forall|i: int| 0 <= i < s.len() ==> s[i].name@ != name,
    ensures
        !as_map(s).contains_key(name),
    decreases s.len(),
{
    if s.len() > 0 {
        lemma_unbound(s.drop_last(), name);
    }
}

proof fn lemma_replaced(s: Seq<Binding>, i: int, b: Binding)
    requires
        distinct(s),
        0 <= i < s.len(),
        b.name@ == s[i].name@,
    ensures
        as_map(s.update(i, b)) == as_map(s).insert(b.name@, b.value@),
        distinct(s.update(i, b)),
    decreases s.len(),
{
    let t = s.update(i, b);
    if i == s.len() - 1 {
        assert(t.drop_last() == s.drop_last());
        assert(as_map(t) =~= as_map(s).insert(b.name@, b.value@));
    } else {
        lemma_replaced(s.drop_last(), i, b);
        assert(t.drop_last() == s.drop_last().update(i, b));
        assert(t.last() == s.last());
        assert(as_map(t) =~= as_map(s).insert(b.name@, b.value@));
    }
}

proof fn lemma_added(s: Seq<Binding>, b: Binding)
    requires
        distinct(s),
        forall|i: int| 0 <= i < s.len() ==> s[i].name@ != b.name@,
    ensures
        as_map(s.push(b)) == as_map(s).insert(b.name@, b.value@),
        distinct(s.push(b)),
{
    assert(s.push(b).drop_last() == s);
}

/// A scope with a reference to the scope that encloses it, if any.
#[derive(Debug)]
pub struct Environment {
    values: Vec<Binding>,
    pub enclosing: Option<Box<Environment>>,
}

impl Environment {
    /// The bindings of the innermost scope.
    pub closed spec fn local(&self) -> Scope {
        as_map(self.values@)
    }

    /// The enclosing environment, if any.
    pub closed spec fn outer(&self) -> Option<Environment> {
        match self.enclosing {
            Some(b) => Some(*b),
            None => None,
        }
    }

    /// No scope of the chain binds a name twice in its list.
    pub closed spec fn wf(&self) -> bool
        decreases self,
    {
        &&& distinct(self.values@)
        &&& match self.enclosing {
            Some(b) => b.wf(),
            None => true,
        }
    }

    /// The scopes, innermost first.
    pub closed spec fn chain(&self) -> Seq<Scope>
        decreases self,
    {
        seq![as_map(self.values@)] + match self.enclosing {
            Some(b) => b.chain(),
            None => Seq::empty(),
        }
    }

    /// A chain starts with the innermost scope and goes on with the chain
    /// of the enclosing environment.
    pub proof fn lemma_chain(&self)
        ensures
            self.chain().len() >= 1,
            self.chain()[0] == self.local(),
            self.outer() matches Some(e) ==> self.chain().drop_first() == e.chain() && (self.wf()
                ==> e.wf()),
            self.outer() is None ==> self.chain().len() == 1,
    {
        match self.enclosing {
            Some(b) => {
                assert(self.chain().drop_first() =~= b.chain());
            },
            None => {},
        }
    }

    /// An environment of one empty scope.
    pub fn new() -> (r: Environment)
        ensures
            r.wf(),
            r.chain() == seq![Scope::empty()],
    {
        Environment { values: Vec::new(), enclosing: None }
    }

    /// An empty scope enclosed by `r`.
    pub fn with_enclosing(r: Box<Environment>) -> (e: Environment)
        requires
            r.wf(),
        ensures
            e.wf(),
            e.chain() == seq![Scope::empty()] + r.chain(),
            e.outer() == Some(*r),
    {
        Environment { values: Vec::new(), enclosing: Some(r) }
    }

    /// Gives up the innermost scope: what is left is the enclosing
    /// environment, if there is one.
    pub fn into_enclosing(self) -> (r: Option<Box<Environment>>)
        ensures
            match r {
                Some(e) => self.outer() == Some(*e) && e.chain() == self.chain().drop_first() && (
                self.wf() ==> e.wf()),
                None => self.outer() is None && self.chain().len() == 1,
            },
    {
        proof {
            self.lemma_chain();
        }
        self.enclosing
    }

    /// The environment without its innermost scope. The outermost scope
    /// stays.
    pub fn leave(self) -> (r: Environment)
        ensures
            self.wf() ==> r.wf(),
            r.chain() == if self.chain().len() > 1 {
                self.chain().drop_first()
            } else {
                self.chain()
            },
    {
        proof {
            self.lemma_chain();
        }
        match self.enclosing {
            Some(e) => *e,
            None => Environment { values: self.values, enclosing: None },
        }
    }

    /// Where the innermost scope binds `name`.
    fn position(&self, name: &str) -> (r: Option<usize>)
        ensures
            match r {
                Some(i) => i < self.values@.len() && self.values@[i as int].name@ == name@,
                None => forall|i: int| 0 <= i < self.values@.len() ==> self.values@[i].name@ != name@,
            },
    {
        let wanted = name.to_owned();
        let mut i: usize = 0;
        while i < self.values.len()
            invariant
                i <= self.values@.len(),
                wanted@ == name@,
                forall|j: int| 0 <= j < i ==> self.values@[j].name@ != name@,
            decreases self.values@.len() - i,
        {
            if self.values[i].name == wanted {
                return Some(i);
            }
            i += 1;
        }
        None
    }

    /// Merges the innermost scope of `other` into the innermost scope of
    /// `self`. On a collision the binding of `other` wins.
    pub fn extend(&mut self, other: Box<Environment>)
        requires
            old(self).wf(),
        ensures
            final(self).wf(),
            final(self).chain() == extended(old(self).chain(), other.local()),
            final(self).outer() == old(self).outer(),
    {
        proof {
            self.lemma_chain();
            assert(self.local().union_prefer_right(as_map(other.values@.take(0))) =~= self.local());
            assert(self.chain().update(0, self.local()) =~= self.chain());
        }
        let mut i: usize = 0;
        while i < other.values.len()
            invariant
                i <= other.values@.len(),
                self.wf(),
                self.outer() == old(self).outer(),
                self.chain() == old(self).chain().update(
                    0,
                    old(self).local().union_prefer_right(as_map(other.values@.take(i as int))),
                ),
                old(self).chain().len() >= 1,
                old(self).chain()[0] == old(self).local(),
            decreases other.values@.len() - i,
        {
            let ghost before = self.chain();
            let ghost merged = as_map(other.values@.take(i as int));
            let binding = &other.values[i];
            self.define(binding.name.as_str(), binding.value.clone());
            i += 1;
            proof {
                let next = other.values@.take(i as int);
                assert(next.drop_last() == other.values@.take(i - 1));
                assert(next.last() == other.values@[i - 1]);
                assert(old(self).local().union_prefer_right(as_map(next)) =~= old(
                    self,
                ).local().union_prefer_right(merged).insert(binding.name@, binding.value@));
                assert(self.chain() =~= old(self).chain().update(
                    0,
                    old(self).local().union_prefer_right(as_map(next)),
                ));
            }
        }
        proof {
            assert(other.values@.take(other.values@.len() as int) == other.values@);
        }
    }

    /// Binds `name` to `value` in the innermost scope.
    pub fn define(&mut self, name: &str, value: LoxType)
        requires
            old(self).wf(),
        ensures
            final(self).wf(),
            final(self).chain() == defined(old(self).chain(), name@, value@),
            final(self).outer() == old(self).outer(),
    {
        let ghost before = self.values@;
        let binding = Binding { name: name.to_owned(), value };
        match self.position(name) {
            Some(i) => {
                proof {
                    lemma_replaced(before, i as int, binding);
                }
                self.values.set(i, binding);
            },
            None => {
                proof {
                    lemma_added(before, binding);
                }
                self.values.push(binding);
            },
        }
        proof {
            assert(self.chain() =~= defined(old(self).chain(), name@, value@));
        }
    }

    /// Rebinds `name` to `value` in the innermost scope that binds it. A
    /// chain that does not bind `name` is left as it is.
    pub fn assign(&mut self, name: &str, value: LoxType)
        requires
            old(self).wf(),
        ensures
            final(self).wf(),
            final(self).chain() == assigned(old(self).chain(), name@, value@),
        decreases *old(self),
    {
        proof {
            self.lemma_chain();
        }
        match self.position(name) {
            Some(i) => {
                proof {
                    lemma_bound(self.values@, i as int);
                }
                self.define(name, value);
            },
            None => {
                proof {
                    lemma_unbound(self.values@, name@);
                }
                let ghost rest = old(self).chain().drop_first();
                match &mut self.enclosing {
                    Some(enclosing) => {
                        assert(enclosing.chain() == rest);
                        enclosing.assign(name, value);
                        assert(enclosing.chain() == assigned(rest, name@, value@));
                    },
                    None => {
                        assert(rest.len() == 0);
                    },
                }
                proof {
                    assert(self.values@ == old(self).values@);
                    assert(self.chain()[0] == old(self).chain()[0]);
                    assert(self.chain().drop_first() =~= assigned(rest, name@, value@)) by {
                        self.lemma_chain();
                    }
                    assert(self.chain() =~= assigned(old(self).chain(), name@, value@));
                }
            },
        }
    }

    /// The value of `name` in the innermost scope that binds it.
    pub fn get(&self, name: &str) -> (r: Option<LoxType>)
        requires
            self.wf(),
        ensures
            match r {
                Some(v) => lookup(self.chain(), name@) == Some(v@),
                None => lookup(self.chain(), name@) is None,
            },
        decreases self,
    {
        proof {
            self.lemma_chain();
        }
        match self.position(name) {
            Some(i) => {
                proof {
                    lemma_bound(self.values@, i as int);
                }
                let found = self.values[i].value.clone();
                Some(found)
            },
            None => {
                proof {
                    lemma_unbound(self.values@, name@);
                }
                match &self.enclosing {
                    Some(enclosing) => {
                        assert(self.chain().drop_first() == enclosing.chain());
                        enclosing.get(name)
                    },
                    None => {
                        assert(lookup(self.chain().drop_first(), name@) is None);
                        None
                    },
                }
            },
        }
    }

    /// Whether some scope binds `name`.
    pub fn contains(&self, name: &str) -> (r: bool)
        requires
            self.wf(),
        ensures
            r == lookup(self.chain(), name@) is Some,
        decreases self,
    {
        proof {
            self.lemma_chain();
        }
        match self.position(name) {
            Some(i) => {
                proof {
                    lemma_bound(self.values@, i as int);
                }
                true
            },
            None => {
                proof {
                    lemma_unbound(self.values@, name@);
                }
                match &self.enclosing {
                    Some(enclosing) => {
                        assert(self.chain().drop_first() == enclosing.chain());
                        enclosing.contains(name)
                    },
                    None => {
                        assert(lookup(self.chain().drop_first(), name@) is None);
                        false
                    },
                }
            },
        }
    }
}

} // verus!
