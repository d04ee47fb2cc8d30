//! Association lists keyed by names. Lookup takes the first occurrence, so
//! inserting at the front replaces an existing binding observationally.

use vstd::prelude::*;

use crate::terms::Symbol;

verus! {

/// The value bound to `key` in a `Symbol`-keyed association list.
pub open spec fn sym_assoc<V>(entries: Seq<(Symbol, V)>, key: Seq<char>) -> Option<V>
    decreases entries.len(),
{
    if entries.len() == 0 {
        Option::None
    } else if entries[0].0.0@ == key {
        Option::Some(entries[0].1)
    } else {
        sym_assoc(entries.drop_first(), key)
    }
}

/// Whether a `Symbol`-keyed association list binds `key`.
pub open spec fn sym_has<V>(entries: Seq<(Symbol, V)>, key: Seq<char>) -> bool {
    sym_assoc(entries, key) is Some
}

/// The value bound to `key` in a `String`-keyed association list.
pub open spec fn str_assoc<V>(entries: Seq<(String, V)>, key: Seq<char>) -> Option<V>
    decreases entries.len(),
{
    if entries.len() == 0 {
        Option::None
    } else if entries[0].0@ == key {
        Option::Some(entries[0].1)
    } else {
        str_assoc(entries.drop_first(), key)
    }
}

/// Whether a `String`-keyed association list binds `key`.
pub open spec fn str_has<V>(entries: Seq<(String, V)>, key: Seq<char>) -> bool {
    str_assoc(entries, key) is Some
}

/// Find the binding of `key`, first occurrence.
pub fn sym_get<'a, V>(entries: &'a Vec<(Symbol, V)>, key: &Symbol) -> (r: Option<&'a V>)
    ensures
        match r {
            Option::Some(v) => sym_assoc(entries@, key.0@) == Option::Some(*v),
            Option::None => sym_assoc(entries@, key.0@) is None,
        },
{
    let n = entries.len();
    let mut i: usize = 0;
    proof {
        assert(entries@.skip(0) =~= entries@);
    }
    while i < n
        invariant
            i <= n,
            n == entries@.len(),
            sym_assoc(entries@, key.0@) == sym_assoc(entries@.skip(i as int), key.0@),
        decreases n - i,
    {
        proof {
            assert(entries@.skip(i as int).drop_first() =~= entries@.skip(i + 1 as int));
            assert(entries@.skip(i as int)[0] == entries@[i as int]);
        }
        if entries[i].0.eq_sym(key) {
            return Option::Some(&entries[i].1);
        }
        i += 1;
    }
    proof {
        assert(entries@.skip(n as int) =~= Seq::<(Symbol, V)>::empty());
    }
    Option::None
}

/// Bind `key` to `value`, shadowing any earlier binding.
pub fn sym_put<V>(entries: &mut Vec<(Symbol, V)>, key: Symbol, value: V)
    ensures
        final(entries)@.len() == old(entries)@.len() + 1,
        forall|k: Seq<char>|
            #[trigger] sym_assoc(final(entries)@, k) == if k == key.0@ {
                Option::Some(value)
            } else {
                sym_assoc(old(entries)@, k)
            },
{
    let ghost orig = entries@;
    let ghost pair = (key, value);
    entries.insert(0, (key, value));
    proof {
        assert(entries@.drop_first() =~= orig);
        assert(entries@[0] == pair);
    }
}

/// Find the binding of `key`, first occurrence.
pub fn str_get<'a, V>(entries: &'a Vec<(String, V)>, key: &str) -> (r: Option<&'a V>)
    ensures
        match r {
            Option::Some(v) => str_assoc(entries@, key@) == Option::Some(*v),
            Option::None => str_assoc(entries@, key@) is None,
        },
{
    let n = entries.len();
    let mut i: usize = 0;
    proof {
        assert(entries@.skip(0) =~= entries@);
    }
    while i < n
        invariant
            i <= n,
            n == entries@.len(),
            str_assoc(entries@, key@) == str_assoc(entries@.skip(i as int), key@),
        decreases n - i,
    {
        proof {
            assert(entries@.skip(i as int).drop_first() =~= entries@.skip(i + 1 as int));
            assert(entries@.skip(i as int)[0] == entries@[i as int]);
        }
        if entries[i].0 == key.to_owned() {
            return Option::Some(&entries[i].1);
        }
        i += 1;
    }
    proof {
        assert(entries@.skip(n as int) =~= Seq::<(String, V)>::empty());
    }
    Option::None
}

/// Bind `key` to `value`, shadowing any earlier binding.
pub fn str_put<V>(entries: &mut Vec<(String, V)>, key: String, value: V)
    ensures
        final(entries)@.len() == old(entries)@.len() + 1,
        forall|k: Seq<char>|
            #[trigger] str_assoc(final(entries)@, k) == if k == key@ {
                Option::Some(value)
            } else {
                str_assoc(old(entries)@, k)
            },
{
    let ghost orig = entries@;
    let ghost pair = (key, value);
    entries.insert(0, (key, value));
    proof {
        assert(entries@.drop_first() =~= orig);
        assert(entries@[0] == pair);
    }
}

} // verus!
