//! The knowledge base: owns the registered constants, the class hierarchy,
//! the rules and rule prototypes, the loaded sources, and the accumulated
//! resource blocks, and sequences the compilation pipeline over them.

use vstd::prelude::*;

use crate::assoc::{str_assoc, str_get, str_has, str_put, sym_assoc, sym_put};
use crate::bindings::Bindings;
use crate::counter::Counter;
use crate::errors::{ErrorContext, ErrorKind, ParameterError, PolarError, PolarResult, RuntimeError};
use crate::fmt::{dec_digits, u64_to_string};
use crate::rules::{rule_keep, GenericRule, Rule};
use crate::sources::{lookup_source, source_keep, Source, Sources};
use crate::sugar::ResourceBlocks;
use crate::terms::{Symbol, Term};

verus! {

/// The generic rule with the given name, first occurrence.
pub open spec fn lookup_generic_rule(rules: Seq<GenericRule>, name: Seq<char>) -> Option<
    GenericRule,
>
    decreases rules.len(),
{
    if rules.len() == 0 {
        Option::None
    } else if rules[0].name.0@ == name {
        Option::Some(rules[0])
    } else {
        lookup_generic_rule(rules.drop_first(), name)
    }
}

/// The prefix for temporary variable names derived from `name`.
pub open spec fn temp_prefix_s(name: Seq<char>) -> Seq<char> {
    if name == "_"@ {
        name
    } else {
        "_"@ + name + "_"@
    }
}

/// `new` holds exactly `old` with `rule` appended under the next index.
pub open spec fn gr_with_added(new_gr: GenericRule, old_gr: GenericRule, rule: Rule) -> bool {
    &&& new_gr.name == old_gr.name
    &&& new_gr.rules@ == old_gr.rules@.push((old_gr.next_idx, rule))
}

/// `gr` holds exactly `rule`, under index zero.
pub open spec fn gr_singleton(gr: GenericRule, rule: Rule) -> bool {
    &&& gr.name.0@ == rule.name.0@
    &&& gr.rules@ =~= seq![(0u64, rule)]
    &&& gr.next_idx == 1
}

/// `new` is `old` with `rule` merged in: appended to the generic rule of
/// its name when one exists, else as a fresh generic rule at the end.
pub open spec fn rules_with_added(
    old_rules: Seq<GenericRule>,
    new_rules: Seq<GenericRule>,
    rule: Rule,
) -> bool {
    if exists|i: int|
        0 <= i < old_rules.len() && (#[trigger] old_rules[i]).name.0@ == rule.name.0@ {
        &&& new_rules.len() == old_rules.len()
        &&& exists|i: int|
            {
                &&& 0 <= i < old_rules.len()
                &&& (#[trigger] old_rules[i]).name.0@ == rule.name.0@
                &&& gr_with_added(new_rules[i], old_rules[i], rule)
                &&& forall|j: int|
                    0 <= j < old_rules.len() && j != i ==> new_rules[j] == old_rules[j]
            }
    } else {
        &&& new_rules.len() == old_rules.len() + 1
        &&& gr_singleton(new_rules.last(), rule)
        &&& forall|j: int| 0 <= j < old_rules.len() ==> new_rules[j] == old_rules[j]
    }
}

/// The knowledge base.
pub struct KnowledgeBase {
    /// Registered constants: name to value.
    pub constants: Bindings,
    /// Class name to MRO: the ordered ancestor instance ids, self first.
    pub mro: Vec<(Symbol, Vec<u64>)>,
    /// Loaded filename to its source id.
    pub loaded_files: Vec<(String, u64)>,
    /// Loaded source text to the filename it was loaded as.
    pub loaded_content: Vec<(String, String)>,
    /// All rules, grouped by name.
    pub rules: Vec<GenericRule>,
    /// Registered rule prototypes, grouped by name.
    pub rule_prototypes: Vec<(Symbol, Vec<Rule>)>,
    /// The loaded sources.
    pub sources: Sources,
    /// Counter for symbols returned from `gensym`.
    pub gensym_counter: Counter,
    /// Counter for source ids, instance ids, and other identifiers.
    pub id_counter: Counter,
    /// Inline queries gathered while loading.
    pub inline_queries: Vec<Term>,
    /// Resource-block bookkeeping for the current load batch.
    pub resource_blocks: ResourceBlocks,
}

impl KnowledgeBase {
    pub fn new() -> (r: KnowledgeBase)
        ensures
            r.constants.entries@.len() == 0,
            r.mro@.len() == 0,
            r.loaded_files@.len() == 0,
            r.loaded_content@.len() == 0,
            r.rules@.len() == 0,
            r.rule_prototypes@.len() == 0,
            r.sources.sources@.len() == 0,
            r.gensym_counter.count == 1,
            r.id_counter.count == 1,
            r.inline_queries@.len() == 0,
            r.resource_blocks.is_cleared(),
    {
        KnowledgeBase {
            constants: Bindings::new(),
            mro: Vec::new(),
            loaded_files: Vec::new(),
            loaded_content: Vec::new(),
            rules: Vec::new(),
            rule_prototypes: Vec::new(),
            sources: Sources::new(),
            gensym_counter: Counter::new(),
            id_counter: Counter::new(),
            inline_queries: Vec::new(),
            resource_blocks: ResourceBlocks::new(),
        }
    }

    /// Return a monotonically increasing integer id. Wraps around at 52 bits
    /// of precision so that it can be coerced losslessly to an IEEE-754
    /// double.
    pub fn new_id(&mut self) -> (r: u64)
        ensures
            r == old(self).id_counter.count,
            final(self).id_counter.count == (if old(self).id_counter.count
                >= crate::counter::MAX_ID {
                1u64
            } else {
                (old(self).id_counter.count + 1) as u64
            }),
            *final(self) == (KnowledgeBase { id_counter: final(self).id_counter, ..*old(self) }),
    {
        self.id_counter.next()
    }

    pub fn id_counter(&self) -> (r: Counter)
        ensures
            r == self.id_counter,
    {
        self.id_counter
    }

    /// Generate a temporary variable prefix from a variable name.
    pub fn temp_prefix(name: &str) -> (r: String)
        ensures
            r@ == temp_prefix_s(name@),
    {
        if name.to_owned() == "_".to_owned() {
            name.to_owned()
        } else {
            let mut out: String = "_".to_owned();
            out.append(name);
            out.append("_");
            out
        }
    }

    /// Generate a new symbol from `prefix` and the gensym counter.
    pub fn gensym(&mut self, prefix: &str) -> (r: Symbol)
        ensures
            r.0@ == temp_prefix_s(prefix@) + dec_digits(old(self).gensym_counter.count as int),
            final(self).gensym_counter.count == (if old(self).gensym_counter.count
                >= crate::counter::MAX_ID {
                1u64
            } else {
                (old(self).gensym_counter.count + 1) as u64
            }),
            *final(self) == (KnowledgeBase {
                gensym_counter: final(self).gensym_counter,
                ..*old(self)
            }),
    {
        let next = self.gensym_counter.next();
        let mut name = Self::temp_prefix(prefix);
        name.append(u64_to_string(next).as_str());
        Symbol(name)
    }

    /// Add a generic rule wholesale, replacing the generic rule of the same
    /// name in place when one exists, else appending it.
    pub fn add_generic_rule(&mut self, rule: GenericRule)
        ensures
            *final(self) == (KnowledgeBase { rules: final(self).rules, ..*old(self) }),
            if exists|i: int|
                0 <= i < old(self).rules@.len() && (#[trigger] old(self).rules@[i]).name.0@
                    == rule.name.0@ {
                exists|i: int|
                    {
                        &&& 0 <= i < old(self).rules@.len()
                        &&& (#[trigger] old(self).rules@[i]).name.0@ == rule.name.0@
                        &&& forall|j: int|
                            0 <= j < i ==> old(self).rules@[j].name.0@ != rule.name.0@
                        &&& final(self).rules@ == old(self).rules@.update(i, rule)
                    }
            } else {
                final(self).rules@ == old(self).rules@.push(rule)
            },
    {
        let ghost okb = *self;
        let ghost orig = self.rules@;
        let n = self.rules.len();
        let mut i: usize = 0;
        while i < n
            invariant
                i <= n,
                n == self.rules@.len(),
                self.rules@ == orig,
                okb == *old(self),
                orig == okb.rules@,
                *self == (KnowledgeBase { rules: self.rules, ..okb }),
                forall|j: int| 0 <= j < i ==> (#[trigger] orig[j]).name.0@ != rule.name.0@,
            decreases n - i,
        {
            if self.rules[i].name.eq_sym(&rule.name) {
                let _replaced = self.rules.remove(i);
                self.rules.insert(i, rule);
                proof {
                    assert(self.rules@ =~= orig.update(i as int, self.rules@[i as int]));
                }
                return ;
            }
            i += 1;
        }
        self.rules.push(rule);
    }

    /// Add a rule to the knowledge base, under the generic rule of its name.
    pub fn add_rule(&mut self, rule: Rule)
        ensures
            *final(self) == (KnowledgeBase { rules: final(self).rules, ..*old(self) }),
            rules_with_added(old(self).rules@, final(self).rules@, rule),
    {
        let ghost okb = *self;
        let ghost orig = self.rules@;
        let n = self.rules.len();
        let mut i: usize = 0;
        while i < n
            invariant
                i <= n,
                n == self.rules@.len(),
                self.rules@ == orig,
                okb == *old(self),
                orig == okb.rules@,
                *self == (KnowledgeBase { rules: self.rules, ..okb }),
                forall|j: int| 0 <= j < i ==> (#[trigger] orig[j]).name.0@ != rule.name.0@,
            decreases n - i,
        {
            if self.rules[i].name.eq_sym(&rule.name) {
                let mut gr = self.rules.remove(i);
                proof {
                    assert(gr == orig[i as int]);
                }
                gr.add_rule(rule);
                self.rules.insert(i, gr);
                proof {
                    assert(self.rules@[i as int] == gr);
                    assert(self.rules@ =~= orig.update(i as int, gr));
                    assert(gr_with_added(gr, orig[i as int], rule));
                    assert(exists|k: int|
                        {
                            &&& 0 <= k < orig.len()
                            &&& (#[trigger] orig[k]).name.0@ == rule.name.0@
                            &&& gr_with_added(self.rules@[k], orig[k], rule)
                            &&& forall|j: int|
                                0 <= j < orig.len() && j != k ==> self.rules@[j] == orig[j]
                        }) by {
                        assert(0 <= (i as int) < orig.len() && orig[i as int].name.0@ == rule.name.0@
                            && gr_with_added(self.rules@[i as int], orig[i as int], rule)
                            && forall|j: int|
                            0 <= j < orig.len() && j != i as int ==> self.rules@[j] == orig[j]);
                    }
                }
                return ;
            }
            i += 1;
        }
        let mut gr = GenericRule::new(rule.name.clone(), Vec::new());
        gr.add_rule(rule);
        self.rules.push(gr);
        proof {
            assert(gr.rules@ =~= seq![(0u64, rule)]);
        }
    }

    pub fn get_rules(&self) -> (r: &Vec<GenericRule>)
        ensures
            r == &self.rules,
    {
        &self.rules
    }

    /// The generic rule registered under `name`, if any.
    pub fn get_generic_rule(&self, name: &Symbol) -> (r: Option<&GenericRule>)
        ensures
            match r {
                Option::Some(gr) => lookup_generic_rule(self.rules@, name.0@) == Option::Some(*gr),
                Option::None => lookup_generic_rule(self.rules@, name.0@) is None,
            },
    {
        let n = self.rules.len();
        let mut i: usize = 0;
        proof {
            assert(self.rules@.skip(0) =~= self.rules@);
        }
        while i < n
            invariant
                i <= n,
                n == self.rules@.len(),
                lookup_generic_rule(self.rules@, name.0@) == lookup_generic_rule(
                    self.rules@.skip(i as int),
                    name.0@,
                ),
            decreases n - i,
        {
            proof {
                assert(self.rules@.skip(i as int).drop_first() =~= self.rules@.skip(i + 1 as int));
                assert(self.rules@.skip(i as int)[0] == self.rules@[i as int]);
            }
            if self.rules[i].name.eq_sym(name) {
                return Option::Some(&self.rules[i]);
            }
            i += 1;
        }
        proof {
            assert(self.rules@.skip(n as int) =~= Seq::<GenericRule>::empty());
        }
        Option::None
    }

    /// Register a rule prototype; later-loaded rules of the same name must
    /// match one of its name's prototypes.
    pub fn add_rule_prototype(&mut self, prototype: Rule)
        ensures
            *final(self) == (KnowledgeBase {
                rule_prototypes: final(self).rule_prototypes,
                ..*old(self)
            }),
            protos_with_added(old(self).rule_prototypes@, final(self).rule_prototypes@, prototype),
    {
        let ghost okb = *self;
        let ghost orig = self.rule_prototypes@;
        let n = self.rule_prototypes.len();
        let mut i: usize = 0;
        while i < n
            invariant
                i <= n,
                n == self.rule_prototypes@.len(),
                self.rule_prototypes@ == orig,
                okb == *old(self),
                orig == okb.rule_prototypes@,
                *self == (KnowledgeBase { rule_prototypes: self.rule_prototypes, ..okb }),
                forall|j: int| 0 <= j < i ==> (#[trigger] orig[j]).0.0@ != prototype.name.0@,
            decreases n - i,
        {
            if self.rule_prototypes[i].0.eq_sym(&prototype.name) {
                let mut entry = self.rule_prototypes.remove(i);
                proof {
                    assert(entry == orig[i as int]);
                }
                entry.1.push(prototype);
                self.rule_prototypes.insert(i, entry);
                proof {
                    assert(self.rule_prototypes@[i as int] == entry);
                    assert(self.rule_prototypes@ =~= orig.update(i as int, entry));
                    assert(exists|k: int|
                        {
                            &&& 0 <= k < orig.len()
                            &&& (#[trigger] orig[k]).0.0@ == prototype.name.0@
                            &&& self.rule_prototypes@[k].0 == orig[k].0
                            &&& self.rule_prototypes@[k].1@ == orig[k].1@.push(prototype)
                            &&& forall|j: int|
                                0 <= j < orig.len() && j != k ==> self.rule_prototypes@[j]
                                    == orig[j]
                        }) by {
                        assert(0 <= (i as int) < orig.len() && orig[i as int].0.0@
                            == prototype.name.0@ && self.rule_prototypes@[i as int].0
                            == orig[i as int].0 && self.rule_prototypes@[i as int].1@
                            == orig[i as int].1@.push(prototype) && forall|j: int|
                            0 <= j < orig.len() && j != i as int ==> self.rule_prototypes@[j]
                                == orig[j]);
                    }
                }
                return ;
            }
            i += 1;
        }
        let name = prototype.name.clone();
        let mut protos: Vec<Rule> = Vec::new();
        protos.push(prototype);
        self.rule_prototypes.push((name, protos));
    }

    /// Define a constant variable.
    pub fn constant(&mut self, name: Symbol, value: Term)
        ensures
            *final(self) == (KnowledgeBase { constants: final(self).constants, ..*old(self) }),
            forall|k: Seq<char>|
                #[trigger] final(self).constants.spec_get(k) == if k == name.0@ {
                    Option::Some(value)
                } else {
                    old(self).constants.spec_get(k)
                },
    {
        self.constants.insert(name, value);
    }

    /// Add the method resolution order for a registered class; fails with a
    /// parameter error when the class is not a registered constant.
    pub fn add_mro(&mut self, name: Symbol, mro: Vec<u64>) -> (r: PolarResult<()>)
        ensures
            match r {
                Result::Ok(_) => {
                    &&& old(self).constants.spec_contains(name.0@)
                    &&& *final(self) == (KnowledgeBase { mro: final(self).mro, ..*old(self) })
                    &&& forall|k: Seq<char>|
                        #[trigger] sym_assoc(final(self).mro@, k) == if k == name.0@ {
                            Option::Some(mro)
                        } else {
                            sym_assoc(old(self).mro@, k)
                        }
                },
                Result::Err(e) => {
                    &&& !old(self).constants.spec_contains(name.0@)
                    &&& *final(self) == *old(self)
                    &&& e.context is None
                    &&& e.kind matches ErrorKind::Parameter(ParameterError(m)) && m@
                        == "Cannot add MRO for unregistered class "@ + name.0@
                },
            },
    {
        if !self.constants.contains_key(&name) {
            let mut msg: String = "Cannot add MRO for unregistered class ".to_owned();
            msg.append(name.0.as_str());
            return Result::Err(PolarError::new(ErrorKind::Parameter(ParameterError(msg))));
        }
        sym_put(&mut self.mro, name, mro);
        Result::Ok(())
    }

    /// Return true if a constant with the given name has been defined.
    pub fn is_constant(&self, name: &Symbol) -> (r: bool)
        ensures
            r == self.constants.spec_contains(name.0@),
    {
        self.constants.contains_key(name)
    }
}

// ---------------------------------------------------------------------------
// Source loading and removal
// ---------------------------------------------------------------------------

/// No source with this text or filename is loaded yet.
pub open spec fn file_check_ok(kb: KnowledgeBase, src: Seq<char>, filename: Seq<char>) -> bool {
    str_assoc(kb.loaded_content@, src) is None && !str_has(kb.loaded_files@, filename)
}

/// The diagnostic for a conflicting load: same file again, same name with
/// different contents, or same contents under another name.
pub open spec fn file_check_msg(kb: KnowledgeBase, src: Seq<char>, filename: Seq<char>) -> Seq<
    char,
> {
    let content = str_assoc(kb.loaded_content@, src);
    let has_file = str_has(kb.loaded_files@, filename);
    if has_file && (content matches Option::Some(f) && f@ == filename) {
        "File "@ + filename + " has already been loaded."@
    } else if has_file {
        "A file with the name "@ + filename
            + ", but different contents has already been loaded."@
    } else {
        match content {
            Option::Some(other) => "A file with the same contents as "@ + filename + " named "@
                + other@ + " has already been loaded."@,
            Option::None => Seq::empty(),
        }
    }
}

/// Keep the inline queries not parsed from source `sid`.
pub open spec fn query_keep(sid: u64) -> spec_fn(Term) -> bool {
    |t: Term| t.spec_source_id() != Option::Some(sid)
}

/// Keep the file entries whose filename is not `f`.
pub open spec fn file_keep(f: Seq<char>) -> spec_fn((String, u64)) -> bool {
    |p: (String, u64)| p.0@ != f
}

/// Keep the content entries whose filename value is not `f`.
pub open spec fn content_keep(f: Seq<char>) -> spec_fn((String, String)) -> bool {
    |p: (String, String)| p.1@ != f
}

/// `new` is `old` with every rule parsed from source `sid` removed.
pub open spec fn gr_pruned(new_gr: GenericRule, old_gr: GenericRule, sid: u64) -> bool {
    &&& new_gr.name == old_gr.name
    &&& new_gr.next_idx == old_gr.next_idx
    &&& new_gr.rules@ == old_gr.rules@.filter(rule_keep(sid))
}

/// A generic rule survives the removal when some rule of it stays.
pub open spec fn gr_survives(gr: GenericRule, sid: u64) -> bool {
    gr.rules@.filter(rule_keep(sid)).len() > 0
}

/// The indices of the generic rules that survive the removal of source
/// `sid`, in order.
pub open spec fn surviving(rules: Seq<GenericRule>, sid: u64) -> Seq<int>
    decreases rules.len(),
{
    if rules.len() == 0 {
        Seq::empty()
    } else {
        let prefix = surviving(rules.drop_last(), sid);
        if gr_survives(rules.last(), sid) {
            prefix.push(rules.len() - 1)
        } else {
            prefix
        }
    }
}

/// Everything the removal of source `sid` does to the knowledge base:
/// rules parsed from it are dropped (empty generic rules pruned), the
/// source and its inline queries are dropped, the file bookkeeping for its
/// filename is dropped, and `text` is the removed source's text.
pub open spec fn source_removed(
    oldk: KnowledgeBase,
    newk: KnowledgeBase,
    sid: u64,
    text: Seq<char>,
) -> bool {
    &&& match lookup_source(oldk.sources.sources@, sid) {
        Option::Some(s) => text == s.src@ && file_entries_removed(oldk, newk, s),
        Option::None => false,
    }
    &&& newk.sources.sources@ == oldk.sources.sources@.filter(source_keep(sid))
    &&& newk.rules@.len() == surviving(oldk.rules@, sid).len()
    &&& forall|j: int|
        0 <= j < newk.rules@.len() ==> gr_pruned(
            #[trigger] newk.rules@[j],
            oldk.rules@[surviving(oldk.rules@, sid)[j]],
            sid,
        )
    &&& newk.inline_queries@ == oldk.inline_queries@.filter(query_keep(sid))
    &&& newk.constants == oldk.constants
    &&& newk.mro == oldk.mro
    &&& newk.rule_prototypes == oldk.rule_prototypes
    &&& newk.gensym_counter == oldk.gensym_counter
    &&& newk.id_counter == oldk.id_counter
    &&& newk.resource_blocks == oldk.resource_blocks
}

/// The file bookkeeping after removing a source: gone for the source's
/// filename, untouched when it had none.
pub open spec fn file_entries_removed(
    oldk: KnowledgeBase,
    newk: KnowledgeBase,
    s: Source,
) -> bool {
    match s.filename {
        Option::Some(f) => {
            &&& newk.loaded_files@ == oldk.loaded_files@.filter(file_keep(f@))
            &&& newk.loaded_content@ == oldk.loaded_content@.filter(content_keep(f@))
        },
        Option::None => {
            &&& newk.loaded_files@ == oldk.loaded_files@
            &&& newk.loaded_content@ == oldk.loaded_content@
        },
    }
}

/// Drop the generic rules' rules parsed from source `sid`, pruning any
/// generic rule left empty.
fn prune_rules(v: &mut Vec<GenericRule>, sid: u64)
    ensures
        final(v)@.len() == surviving(old(v)@, sid).len(),
        forall|j: int|
            0 <= j < final(v)@.len() ==> gr_pruned(
                #[trigger] final(v)@[j],
                old(v)@[surviving(old(v)@, sid)[j]],
                sid,
            ),
{
    let ghost orig = v@;
    let n = v.len();
    let mut kept: Vec<GenericRule> = Vec::new();
    let mut i: usize = 0;
    proof {
        assert(surviving(orig.take(0), sid) =~= Seq::<int>::empty());
    }
    while i < n
        invariant
            i <= n,
            n == orig.len(),
            v@ =~= orig.skip(i as int),
            kept@.len() == surviving(orig.take(i as int), sid).len(),
            forall|j: int|
                0 <= j < kept@.len() ==> gr_pruned(
                    #[trigger] kept@[j],
                    orig[surviving(orig.take(i as int), sid)[j]],
                    sid,
                ),
        decreases n - i,
    {
        proof {
            assert(orig.skip(i as int)[0] == orig[i as int]);
            assert(orig.skip(i as int).remove(0) =~= orig.skip(i + 1 as int));
            assert(orig.take(i + 1 as int).drop_last() =~= orig.take(i as int));
            assert(orig.take(i + 1 as int).last() == orig[i as int]);
        }
        let mut gr = v.remove(0);
        gr.remove_source_rules(sid);
        if !gr.is_empty() {
            kept.push(gr);
        }
        i += 1;
    }
    proof {
        assert(orig.take(n as int) =~= orig);
    }
    *v = kept;
}

/// Drop the inline queries parsed from source `sid`.
fn retain_queries(v: &mut Vec<Term>, sid: u64)
    ensures
        final(v)@ == old(v)@.filter(query_keep(sid)),
{
    broadcast use vstd::seq_lib::group_filter_ensures;

    let ghost orig = v@;
    let n = v.len();
    let mut kept: Vec<Term> = Vec::new();
    let mut i: usize = 0;
    proof {
        assert(orig.take(0).filter(query_keep(sid)) =~= Seq::<Term>::empty());
    }
    while i < n
        invariant
            i <= n,
            n == orig.len(),
            v@ =~= orig.skip(i as int),
            kept@ == orig.take(i as int).filter(query_keep(sid)),
        decreases n - i,
    {
        proof {
            assert(orig.skip(i as int)[0] == orig[i as int]);
            assert(orig.skip(i as int).remove(0) =~= orig.skip(i + 1 as int));
            assert(orig.take(i + 1 as int) =~= orig.take(i as int).push(orig[i as int]));
            orig.take(i as int).lemma_filter_push(orig[i as int], query_keep(sid));
        }
        let t = v.remove(0);
        let keep = match t.get_source_id() {
            Option::Some(id) => id != sid,
            Option::None => true,
        };
        if keep {
            kept.push(t);
        }
        i += 1;
    }
    proof {
        assert(orig.take(n as int) =~= orig);
    }
    *v = kept;
}

/// Drop the file entries whose filename is `f`.
fn retain_files(v: &mut Vec<(String, u64)>, f: &String)
    ensures
        final(v)@ == old(v)@.filter(file_keep(f@)),
{
    broadcast use vstd::seq_lib::group_filter_ensures;

    let ghost orig = v@;
    let n = v.len();
    let mut kept: Vec<(String, u64)> = Vec::new();
    let mut i: usize = 0;
    proof {
        assert(orig.take(0).filter(file_keep(f@)) =~= Seq::<(String, u64)>::empty());
    }
    while i < n
        invariant
            i <= n,
            n == orig.len(),
            v@ =~= orig.skip(i as int),
            kept@ == orig.take(i as int).filter(file_keep(f@)),
        decreases n - i,
    {
        proof {
            assert(orig.skip(i as int)[0] == orig[i as int]);
            assert(orig.skip(i as int).remove(0) =~= orig.skip(i + 1 as int));
            assert(orig.take(i + 1 as int) =~= orig.take(i as int).push(orig[i as int]));
            orig.take(i as int).lemma_filter_push(orig[i as int], file_keep(f@));
        }
        let entry = v.remove(0);
        if !(entry.0 == *f) {
            kept.push(entry);
        }
        i += 1;
    }
    proof {
        assert(orig.take(n as int) =~= orig);
    }
    *v = kept;
}

/// Drop the content entries whose filename value is `f`.
fn retain_content(v: &mut Vec<(String, String)>, f: &String)
    ensures
        final(v)@ == old(v)@.filter(content_keep(f@)),
{
    broadcast use vstd::seq_lib::group_filter_ensures;

    let ghost orig = v@;
    let n = v.len();
    let mut kept: Vec<(String, String)> = Vec::new();
    let mut i: usize = 0;
    proof {
        assert(orig.take(0).filter(content_keep(f@)) =~= Seq::<(String, String)>::empty());
    }
    while i < n
        invariant
            i <= n,
            n == orig.len(),
            v@ =~= orig.skip(i as int),
            kept@ == orig.take(i as int).filter(content_keep(f@)),
        decreases n - i,
    {
        proof {
            assert(orig.skip(i as int)[0] == orig[i as int]);
            assert(orig.skip(i as int).remove(0) =~= orig.skip(i + 1 as int));
            assert(orig.take(i + 1 as int) =~= orig.take(i as int).push(orig[i as int]));
            orig.take(i as int).lemma_filter_push(orig[i as int], content_keep(f@));
        }
        let entry = v.remove(0);
        if !(entry.1 == *f) {
            kept.push(entry);
        }
        i += 1;
    }
    proof {
        assert(orig.take(n as int) =~= orig);
    }
    *v = kept;
}

impl KnowledgeBase {
    /// Reject a load that conflicts with what is already loaded: the same
    /// file again, the same filename with different contents, or the same
    /// contents under a different filename.
    fn check_file(&self, src: &String, filename: &String) -> (r: PolarResult<()>)
        ensures
            match r {
                Result::Ok(_) => file_check_ok(*self, src@, filename@),
                Result::Err(e) => {
                    &&& !file_check_ok(*self, src@, filename@)
                    &&& e.context is None
                    &&& e.kind matches ErrorKind::Runtime(RuntimeError::FileLoading { msg }) && msg@
                        == file_check_msg(*self, src@, filename@)
                },
            },
    {
        let content = str_get(&self.loaded_content, src.as_str());
        let has_file = str_get(&self.loaded_files, filename.as_str()).is_some();
        match (content, has_file) {
            (Option::Some(other), true) => {
                if *other == *filename {
                    let mut msg: String = "File ".to_owned();
                    msg.append(filename.as_str());
                    msg.append(" has already been loaded.");
                    Result::Err(
                        PolarError::new(
                            ErrorKind::Runtime(RuntimeError::FileLoading { msg }),
                        ),
                    )
                } else {
                    let mut msg: String = "A file with the name ".to_owned();
                    msg.append(filename.as_str());
                    msg.append(", but different contents has already been loaded.");
                    Result::Err(
                        PolarError::new(
                            ErrorKind::Runtime(RuntimeError::FileLoading { msg }),
                        ),
                    )
                }
            },
            (Option::None, true) => {
                let mut msg: String = "A file with the name ".to_owned();
                msg.append(filename.as_str());
                msg.append(", but different contents has already been loaded.");
                Result::Err(
                    PolarError::new(ErrorKind::Runtime(RuntimeError::FileLoading { msg })),
                )
            },
            (Option::Some(other), false) => {
                let mut msg: String = "A file with the same contents as ".to_owned();
                msg.append(filename.as_str());
                msg.append(" named ");
                msg.append(other.as_str());
                msg.append(" has already been loaded.");
                Result::Err(
                    PolarError::new(ErrorKind::Runtime(RuntimeError::FileLoading { msg })),
                )
            },
            (Option::None, false) => Result::Ok(()),
        }
    }

    /// Load a source, handing back its fresh source id; a source with a
    /// filename is rejected when it conflicts with an earlier load. The id
    /// counter advances even on a rejected load.
    pub fn add_source(&mut self, source: Source) -> (r: PolarResult<u64>)
        ensures
            final(self).id_counter.count == (if old(self).id_counter.count
                >= crate::counter::MAX_ID {
                1u64
            } else {
                (old(self).id_counter.count + 1) as u64
            }),
            match r {
                Result::Ok(id) => {
                    &&& id == old(self).id_counter.count
                    &&& final(self).sources.sources@ == old(self).sources.sources@.push(
                        (id, source),
                    )
                    &&& *final(self) == (KnowledgeBase {
                        id_counter: final(self).id_counter,
                        sources: final(self).sources,
                        loaded_files: final(self).loaded_files,
                        loaded_content: final(self).loaded_content,
                        ..*old(self)
                    })
                    &&& match source.filename {
                        Option::Some(f) => {
                            &&& file_check_ok(*old(self), source.src@, f@)
                            &&& forall|k: Seq<char>|
                                #[trigger] str_assoc(final(self).loaded_files@, k) == if k == f@ {
                                    Option::Some(id)
                                } else {
                                    str_assoc(old(self).loaded_files@, k)
                                }
                            &&& forall|k: Seq<char>|
                                #[trigger] str_assoc(final(self).loaded_content@, k) == if k
                                    == source.src@ {
                                    Option::Some(f)
                                } else {
                                    str_assoc(old(self).loaded_content@, k)
                                }
                        },
                        Option::None => {
                            &&& final(self).loaded_files@ == old(self).loaded_files@
                            &&& final(self).loaded_content@ == old(self).loaded_content@
                        },
                    }
                },
                Result::Err(e) => {
                    &&& *final(self) == (KnowledgeBase {
                        id_counter: final(self).id_counter,
                        ..*old(self)
                    })
                    &&& source.filename matches Option::Some(f) && (!file_check_ok(
                        *old(self),
                        source.src@,
                        f@,
                    ) && (e.kind matches ErrorKind::Runtime(RuntimeError::FileLoading { msg })
                        && msg@ == file_check_msg(*old(self), source.src@, f@)))
                    &&& e.context is None
                },
            },
    {
        let src_id = self.id_counter.next();
        let has_filename = self.source_has_filename(&source);
        if has_filename {
            let filename = match &source.filename {
                Option::Some(f) => f.clone(),
                Option::None => String::new(),
            };
            match self.check_file(&source.src, &filename) {
                Result::Err(e) => {
                    return Result::Err(e);
                },
                Result::Ok(_) => {},
            }
            str_put(&mut self.loaded_content, source.src.clone(), filename.clone());
            str_put(&mut self.loaded_files, filename, src_id);
        }
        self.sources.add_source(source, src_id);
        Result::Ok(src_id)
    }

    fn source_has_filename(&self, source: &Source) -> (r: bool)
        ensures
            r == (source.filename is Some),
    {
        source.filename.is_some()
    }

    /// Clear all rules, prototypes, sources, inline queries and file
    /// bookkeeping; constants, the class hierarchy and the counters stay.
    pub fn clear_rules(&mut self)
        ensures
            final(self).rules@.len() == 0,
            final(self).rule_prototypes@.len() == 0,
            final(self).sources.sources@.len() == 0,
            final(self).inline_queries@.len() == 0,
            final(self).loaded_content@.len() == 0,
            final(self).loaded_files@.len() == 0,
            *final(self) == (KnowledgeBase {
                rules: final(self).rules,
                rule_prototypes: final(self).rule_prototypes,
                sources: final(self).sources,
                inline_queries: final(self).inline_queries,
                loaded_content: final(self).loaded_content,
                loaded_files: final(self).loaded_files,
                ..*old(self)
            }),
    {
        self.rules.clear();
        self.rule_prototypes.clear();
        self.sources = Sources::new();
        self.inline_queries.clear();
        self.loaded_content.clear();
        self.loaded_files.clear();
    }

    /// Remove a source: drop every rule and inline query parsed from it and
    /// its file bookkeeping, and return its text.
    pub fn remove_source(&mut self, source_id: u64) -> (r: String)
        requires
            lookup_source(old(self).sources.sources@, source_id) is Some,
        ensures
            source_removed(*old(self), *final(self), source_id, r@),
    {
        prune_rules(&mut self.rules, source_id);
        let source = match self.sources.remove_source(source_id) {
            Option::Some(s) => s,
            Option::None => {
                proof {
                    assert(false);
                }
                Source::new(Option::None, String::new())
            },
        };
        retain_queries(&mut self.inline_queries, source_id);
        match &source.filename {
            Option::Some(f) => {
                retain_files(&mut self.loaded_files, f);
                retain_content(&mut self.loaded_content, f);
            },
            Option::None => {},
        }
        source.src
    }

    /// Remove a loaded file: find its source id and remove that source,
    /// returning the original source text; `None` when the file is not
    /// loaded.
    pub fn remove_file(&mut self, filename: &str) -> (r: Option<String>)
        requires
            match str_assoc(old(self).loaded_files@, filename@) {
                Option::Some(id) => lookup_source(old(self).sources.sources@, id) is Some,
                Option::None => true,
            },
        ensures
            match str_assoc(old(self).loaded_files@, filename@) {
                Option::Some(id) => r matches Option::Some(s) && source_removed(
                    *old(self),
                    *final(self),
                    id,
                    s@,
                ),
                Option::None => r is None && *final(self) == *old(self),
            },
    {
        let id_opt = match str_get(&self.loaded_files, filename) {
            Option::Some(id) => Option::Some(*id),
            Option::None => Option::None,
        };
        match id_opt {
            Option::Some(id) => Option::Some(self.remove_source(id)),
            Option::None => Option::None,
        }
    }

    /// Attach source context to an error, from the source the offending
    /// term came from.
    pub fn set_error_context(&self, term: &Term, kind: ErrorKind) -> (r: PolarError)
        ensures
            r.kind == kind,
            match term.spec_source_id() {
                Option::Some(id) => match lookup_source(self.sources.sources@, id) {
                    Option::Some(s) => r.context matches Option::Some(c) && c.source == s && c.loc
                        == term.spec_offset(),
                    Option::None => r.context is None,
                },
                Option::None => r.context is None,
            },
    {
        let ctx = match term.get_source_id() {
            Option::Some(id) => match self.sources.get_source(id) {
                Option::Some(s) => Option::Some(
                    ErrorContext { source: s.clone(), loc: term.offset() },
                ),
                Option::None => Option::None,
            },
            Option::None => Option::None,
        };
        PolarError { kind, context: ctx }
    }
}

/// `new` is `old` with `proto` merged in under its name.
pub open spec fn protos_with_added(
    old_protos: Seq<(Symbol, Vec<Rule>)>,
    new_protos: Seq<(Symbol, Vec<Rule>)>,
    proto: Rule,
) -> bool {
    if exists|i: int|
        0 <= i < old_protos.len() && (#[trigger] old_protos[i]).0.0@ == proto.name.0@ {
        &&& new_protos.len() == old_protos.len()
        &&& exists|i: int|
            {
                &&& 0 <= i < old_protos.len()
                &&& (#[trigger] old_protos[i]).0.0@ == proto.name.0@
                &&& new_protos[i].0 == old_protos[i].0
                &&& new_protos[i].1@ == old_protos[i].1@.push(proto)
                &&& forall|j: int|
                    0 <= j < old_protos.len() && j != i ==> new_protos[j] == old_protos[j]
            }
    } else {
        &&& new_protos.len() == old_protos.len() + 1
        &&& new_protos.last().0.0@ == proto.name.0@
        &&& new_protos.last().1@ =~= seq![proto]
        &&& forall|j: int| 0 <= j < old_protos.len() ==> new_protos[j] == old_protos[j]
    }
}

} // verus!
