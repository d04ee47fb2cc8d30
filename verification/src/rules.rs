//! Rules and generic rules. A rule is a named, parameterized clause with a
//! body; a generic rule collects all rules sharing one name, keyed by a
//! stable insertion index so that individual rules can be removed later.

use vstd::prelude::*;

use crate::fmt::{params_join, params_join_s, term_to_polar_s};
use crate::terms::{Operator, Parameter, SourceInfo, Symbol, Term, Value};

verus! {

/// A rule: a name, ordered parameters, a body term, and provenance.
pub struct Rule {
    pub name: Symbol,
    pub params: Vec<Parameter>,
    pub body: Term,
    pub source_info: SourceInfo,
}

/// Whether a term is an empty conjunction (the body of a fact).
pub open spec fn is_empty_and(t: Term) -> bool {
    match t.value {
        Value::Expression(o) => o.operator == Operator::And && o.args@.len() == 0,
        _ => false,
    }
}

/// Rendering of a rule: `name(params);` for a fact, otherwise
/// `name(params) if body;`.
pub open spec fn rule_to_polar_s(r: Rule) -> Seq<char> {
    let head = r.name.0@ + "("@ + params_join_s(r.params@, 0) + ")"@;
    if is_empty_and(r.body) {
        head + ";"@
    } else {
        head + " if "@ + term_to_polar_s(r.body) + ";"@
    }
}

impl Rule {
    /// A rule built in memory, with no provenance.
    pub fn new(name: Symbol, params: Vec<Parameter>, body: Term) -> (r: Rule)
        ensures
            r.name == name,
            r.params == params,
            r.body == body,
            r.source_info == SourceInfo::Anonymous,
    {
        Rule { name, params, body, source_info: SourceInfo::Anonymous }
    }

    /// A rule produced by the parser, with its source id and byte span.
    pub fn new_from_parser(
        src_id: u64,
        start: usize,
        end: usize,
        name: Symbol,
        params: Vec<Parameter>,
        body: Term,
    ) -> (r: Rule)
        ensures
            r.name == name,
            r.params == params,
            r.body == body,
            r.source_info == (SourceInfo::Parser { src_id, left: start, right: end }),
    {
        Rule { name, params, body, source_info: SourceInfo::Parser { src_id, left: start, right: end } }
    }

    /// The id of the source this rule was parsed from, if any.
    pub open spec fn spec_source_id(&self) -> Option<u64> {
        match self.source_info {
            SourceInfo::Parser { src_id, .. } => Option::Some(src_id),
            SourceInfo::Anonymous => Option::None,
        }
    }

    /// Render this rule in policy syntax.
    pub fn to_polar(&self) -> (r: String)
        ensures
            r@ == rule_to_polar_s(*self),
    {
        let mut out = self.name.0.clone();
        out.append("(");
        out.append(params_join(&self.params, 0).as_str());
        out.append(")");
        let empty_body = match &self.body.value {
            Value::Expression(o) => matches!(o.operator, Operator::And) && o.args.len() == 0,
            _ => false,
        };
        if empty_body {
            out.append(";");
        } else {
            out.append(" if ");
            out.append(self.body.to_polar().as_str());
            out.append(";");
        }
        out
    }
}

/// Keep the indexed rules whose index is not `idx`.
pub open spec fn index_keep(idx: u64) -> spec_fn((u64, Rule)) -> bool {
    |p: (u64, Rule)| p.0 != idx
}

/// Keep the indexed rules not parsed from source `sid`.
pub open spec fn rule_keep(sid: u64) -> spec_fn((u64, Rule)) -> bool {
    |p: (u64, Rule)| p.1.spec_source_id() != Option::Some(sid)
}

/// All rules sharing one name, each under a stable insertion index.
pub struct GenericRule {
    pub name: Symbol,
    /// Pairs of insertion index and rule, in insertion order.
    pub rules: Vec<(u64, Rule)>,
    /// The next insertion index to hand out.
    pub next_idx: u64,
}

impl GenericRule {
    /// Indices are strictly increasing and below `next_idx`, so every index
    /// identifies at most one rule.
    pub open spec fn wf(&self) -> bool {
        &&& forall|i: int, j: int|
            0 <= i < j < self.rules@.len() ==> (#[trigger] self.rules@[i]).0 < (
            #[trigger] self.rules@[j]).0
        &&& forall|i: int| 0 <= i < self.rules@.len() ==> (#[trigger] self.rules@[i]).0 < self.next_idx
    }

    pub fn new(name: Symbol, rules: Vec<Rule>) -> (r: GenericRule)
        ensures
            r.name == name,
            r.rules@.len() == rules@.len(),
            forall|i: int|
                0 <= i < rules@.len() ==> (#[trigger] r.rules@[i]) == (i as u64, rules@[i]),
            r.next_idx == rules@.len(),
            r.wf(),
    {
        let ghost orig = rules@;
        let mut rest = rules;
        let mut indexed: Vec<(u64, Rule)> = Vec::new();
        let n = rest.len();
        let mut i: usize = 0;
        while i < n
            invariant
                i <= n,
                n == orig.len(),
                rest@ =~= orig.skip(i as int),
                indexed@.len() == i,
                forall|j: int| 0 <= j < i ==> (#[trigger] indexed@[j]) == (j as u64, orig[j]),
            decreases n - i,
        {
            proof {
                assert(orig.skip(i as int)[0] == orig[i as int]);
                assert(orig.skip(i as int).remove(0) =~= orig.skip(i + 1 as int));
            }
            let rule = rest.remove(0);
            indexed.push((i as u64, rule));
            i += 1;
        }
        GenericRule { name, rules: indexed, next_idx: n as u64 }
    }

    /// Append `rule` under the next index. The index counter wraps at the
    /// same 52-bit boundary as every id in this engine.
    pub fn add_rule(&mut self, rule: Rule)
        ensures
            final(self).name == old(self).name,
            final(self).rules@ == old(self).rules@.push((old(self).next_idx, rule)),
            final(self).next_idx == (if old(self).next_idx >= crate::counter::MAX_ID {
                0u64
            } else {
                (old(self).next_idx + 1) as u64
            }),
    {
        let idx = self.next_idx;
        self.next_idx = if idx >= crate::counter::MAX_ID {
            0
        } else {
            idx + 1
        };
        self.rules.push((idx, rule));
    }

    /// Remove the rule under `idx`, if any; other rules keep their order.
    pub fn remove_rule(&mut self, idx: u64)
        ensures
            final(self).name == old(self).name,
            final(self).next_idx == old(self).next_idx,
            final(self).rules@ == old(self).rules@.filter(index_keep(idx)),
    {
        broadcast use vstd::seq_lib::group_filter_ensures;

        let ghost orig = self.rules@;
        let ghost oname = self.name;
        let ghost onext = self.next_idx;
        let n = self.rules.len();
        let mut kept: Vec<(u64, Rule)> = Vec::new();
        let mut i: usize = 0;
        proof {
            assert(orig.take(0).filter(index_keep(idx)) =~= Seq::<(u64, Rule)>::empty());
        }
        while i < n
            invariant
                i <= n,
                n == orig.len(),
                self.name == oname,
                self.next_idx == onext,
                self.rules@ =~= orig.skip(i as int),
                kept@ == orig.take(i as int).filter(index_keep(idx)),
            decreases n - i,
        {
            proof {
                assert(orig.skip(i as int)[0] == orig[i as int]);
                assert(orig.skip(i as int).remove(0) =~= orig.skip(i + 1 as int));
                assert(orig.take(i + 1 as int) =~= orig.take(i as int).push(orig[i as int]));
                orig.take(i as int).lemma_filter_push(orig[i as int], index_keep(idx));
            }
            let entry = self.rules.remove(0);
            if entry.0 != idx {
                kept.push(entry);
            }
            i += 1;
        }
        proof {
            assert(orig.take(n as int) =~= orig);
        }
        self.rules = kept;
    }

    /// Remove every rule whose provenance is the source with id `sid`;
    /// the others keep their order and indices.
    pub fn remove_source_rules(&mut self, sid: u64)
        ensures
            final(self).name == old(self).name,
            final(self).next_idx == old(self).next_idx,
            final(self).rules@ == old(self).rules@.filter(rule_keep(sid)),
    {
        broadcast use vstd::seq_lib::group_filter_ensures;

        let ghost orig = self.rules@;
        let ghost oname = self.name;
        let ghost onext = self.next_idx;
        let n = self.rules.len();
        let mut kept: Vec<(u64, Rule)> = Vec::new();
        let mut i: usize = 0;
        proof {
            assert(orig.take(0).filter(rule_keep(sid)) =~= Seq::<(u64, Rule)>::empty());
        }
        while i < n
            invariant
                i <= n,
                n == orig.len(),
                self.name == oname,
                self.next_idx == onext,
                self.rules@ =~= orig.skip(i as int),
                kept@ == orig.take(i as int).filter(rule_keep(sid)),
            decreases n - i,
        {
            proof {
                assert(orig.skip(i as int)[0] == orig[i as int]);
                assert(orig.skip(i as int).remove(0) =~= orig.skip(i + 1 as int));
                assert(orig.take(i + 1 as int) =~= orig.take(i as int).push(orig[i as int]));
                orig.take(i as int).lemma_filter_push(orig[i as int], rule_keep(sid));
            }
            let entry = self.rules.remove(0);
            let keep = match &entry.1.source_info {
                SourceInfo::Parser { src_id, .. } => *src_id != sid,
                SourceInfo::Anonymous => true,
            };
            if keep {
                kept.push(entry);
            }
            i += 1;
        }
        proof {
            assert(orig.take(n as int) =~= orig);
        }
        self.rules = kept;
    }

    /// Whether this generic rule holds no rules at all.
    pub fn is_empty(&self) -> (r: bool)
        ensures
            r == (self.rules@.len() == 0),
    {
        self.rules.len() == 0
    }
}

} // verus!
