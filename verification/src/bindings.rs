//! Variable bindings: a map from names to terms. The knowledge base uses
//! one to hold registered constants.

use vstd::prelude::*;

use crate::assoc::{sym_assoc, sym_get, sym_has, sym_put};
use crate::terms::{Symbol, Term};

verus! {

/// A map of bindings: variable name to value.
pub struct Bindings {
    pub entries: Vec<(Symbol, Term)>,
}

impl Bindings {
    pub fn new() -> (r: Bindings)
        ensures
            r.entries@ == Seq::<(Symbol, Term)>::empty(),
    {
        Bindings { entries: Vec::new() }
    }

    /// The term bound to `name`, if any.
    pub open spec fn spec_get(&self, name: Seq<char>) -> Option<Term> {
        sym_assoc(self.entries@, name)
    }

    /// Whether `name` is bound.
    pub open spec fn spec_contains(&self, name: Seq<char>) -> bool {
        sym_has(self.entries@, name)
    }

    pub fn get(&self, name: &Symbol) -> (r: Option<&Term>)
        ensures
            match r {
                Option::Some(t) => self.spec_get(name.0@) == Option::Some(*t),
                Option::None => self.spec_get(name.0@) is None,
            },
    {
        sym_get(&self.entries, name)
    }

    pub fn contains_key(&self, name: &Symbol) -> (r: bool)
        ensures
            r == self.spec_contains(name.0@),
    {
        self.get(name).is_some()
    }

    /// Bind `name` to `value`, shadowing any earlier binding.
    pub fn insert(&mut self, name: Symbol, value: Term)
        ensures
            forall|k: Seq<char>|
                #[trigger] final(self).spec_get(k) == if k == name.0@ {
                    Option::Some(value)
                } else {
                    old(self).spec_get(k)
                },
    {
        sym_put(&mut self.entries, name, value);
    }
}

} // verus!
