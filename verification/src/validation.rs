//! The specializer matcher and the rule prototype validator: whether a
//! rule's parameter shapes satisfy a prototype's, using nominal subtyping
//! over the registered class hierarchy and structural superset matching
//! over values and dictionaries.

use vstd::prelude::*;

use crate::assoc::{sym_assoc, sym_get};
use crate::errors::{ErrorKind, OperationalError, PolarError, PolarResult, ValidationError};
use crate::fmt::u64_to_string;
use crate::kb::KnowledgeBase;
use crate::rules::{rule_to_polar_s, GenericRule, Rule};
use crate::terms::{lookup_field, lookup_in, term_eq, veq, value_eq, Dictionary, InstanceLiteral,
    Numeric, Parameter, Pattern, Term, Value};

verus! {

/// The outcome of matching one rule parameter against one prototype
/// parameter: a match, or no match with a human-readable reason.
pub enum RuleParamMatch {
    True,
    False(String),
}

impl RuleParamMatch {
    pub fn is_true(&self) -> (r: bool)
        ensures
            r == (*self is True),
    {
        matches!(self, RuleParamMatch::True)
    }
}

// ---------------------------------------------------------------------------
// The decision table, as spec functions
// ---------------------------------------------------------------------------

/// Superset-with-equal-values: every prototype field occurs in the rule's
/// fields with an equal value. Deliberately not symmetric — a rule can be
/// more specific than a prototype but never less.
pub open spec fn fields_match(proto: Dictionary, rule: Dictionary) -> bool {
    forall|i: int|
        0 <= i < proto.fields@.len() ==> match lookup_field(
            rule.fields@,
            (#[trigger] proto.fields@[i]).0.0@,
        ) {
            Option::Some(v) => veq(v, proto.fields@[i].1),
            Option::None => false,
        }
}

/// Nominal subclassing: the prototype tag is registered as a constant whose
/// value is an external instance, and that instance id appears in the rule
/// tag's MRO.
pub open spec fn is_subclass(kb: KnowledgeBase, rule_tag: Seq<char>, proto_tag: Seq<char>) -> bool {
    match kb.constants.spec_get(proto_tag) {
        Option::Some(t) => match t.value {
            Value::ExternalInstance(id) => match sym_assoc(kb.mro@, rule_tag) {
                Option::Some(m) => m@.contains(id),
                Option::None => false,
            },
            _ => false,
        },
        Option::None => false,
    }
}

/// Whether the prototype tag names a registered external instance — the
/// precondition for the cross-tag subclass check.
pub open spec fn proto_tag_registered(kb: KnowledgeBase, proto_tag: Seq<char>) -> bool {
    match kb.constants.spec_get(proto_tag) {
        Option::Some(t) => t.value is ExternalInstance,
        Option::None => false,
    }
}

/// The decision for a rule pattern specializer against a prototype pattern
/// specializer.
pub open spec fn pattern_param_matches(kb: KnowledgeBase, rule_p: Pattern, proto_p: Pattern) -> bool {
    match (proto_p, rule_p) {
        (Pattern::Instance(pi), Pattern::Instance(ri)) => if pi.tag.0@ == ri.tag.0@ {
            fields_match(pi.fields, ri.fields)
        } else {
            is_subclass(kb, ri.tag.0@, pi.tag.0@) && fields_match(pi.fields, ri.fields)
        },
        (Pattern::Dictionary(pf), Pattern::Dictionary(rf)) => fields_match(pf, rf),
        (Pattern::Dictionary(pf), Pattern::Instance(ri)) => fields_match(pf, ri.fields),
        (Pattern::Instance(pi), Pattern::Dictionary(rf)) => pi.tag.0@ == "Dictionary"@
            && fields_match(pi.fields, rf),
    }
}

/// The cross-tag check hits a class with no registered MRO: an internal
/// invariant violation, reported as an operational error.
pub open spec fn pattern_param_missing_mro(
    kb: KnowledgeBase,
    rule_p: Pattern,
    proto_p: Pattern,
) -> bool {
    match (proto_p, rule_p) {
        (Pattern::Instance(pi), Pattern::Instance(ri)) => pi.tag.0@ != ri.tag.0@
            && proto_tag_registered(kb, pi.tag.0@) && sym_assoc(kb.mro@, ri.tag.0@) is None,
        _ => false,
    }
}

/// Two instance patterns with different tags where the prototype tag is not
/// a registered external instance: unregistered specializer classes are
/// caught before this point, so the matcher does not accept such input.
pub open spec fn pattern_param_excluded(
    kb: KnowledgeBase,
    rule_p: Pattern,
    proto_p: Pattern,
) -> bool {
    match (proto_p, rule_p) {
        (Pattern::Instance(pi), Pattern::Instance(ri)) => pi.tag.0@ != ri.tag.0@
            && !proto_tag_registered(kb, pi.tag.0@),
        _ => false,
    }
}

/// Whether a bare value can act as a specializer at all.
pub open spec fn specializable(v: Value) -> bool {
    match v {
        Value::Str(_) => true,
        Value::Number(_) => true,
        Value::Boolean(_) => true,
        Value::List(_) => true,
        Value::Dictionary(_) => true,
        _ => false,
    }
}

/// Classification of a bare literal value against a named pattern
/// specializer: the literal's primitive kind must agree with the tag, and a
/// dictionary must additionally superset-match the prototype fields.
pub open spec fn literal_tag_matches(rule_value: Value, tag: Seq<char>, proto_fields: Dictionary) -> bool {
    match rule_value {
        Value::Str(_) => tag == "String"@,
        Value::Number(Numeric::Integer(_)) => tag == "Integer"@,
        Value::Number(Numeric::Float(_)) => tag == "Float"@,
        Value::Boolean(_) => tag == "Boolean"@,
        Value::List(_) => tag == "List"@,
        Value::Dictionary(rf) => tag == "Dictionary"@ && fields_match(proto_fields, rf),
        _ => false,
    }
}

/// The rule list holds every prototype element, in any order.
pub open spec fn list_contains(l: Seq<Term>, t: Term) -> bool {
    exists|j: int| 0 <= j < l.len() && veq(#[trigger] l[j], t)
}

/// The decision for two value specializers: lists match by containment,
/// dictionaries by superset, everything else by structural equality.
pub open spec fn value_param_matches(proto_v: Value, rule_v: Value) -> bool {
    match (proto_v, rule_v) {
        (Value::List(pl), Value::List(rl)) => forall|i: int|
            0 <= i < pl@.len() ==> list_contains(rl@, #[trigger] pl@[i]),
        (Value::Dictionary(pf), Value::Dictionary(rf)) => fields_match(pf, rf),
        _ => value_eq(proto_v, rule_v),
    }
}

/// The specializer value of a parameter, if any.
pub open spec fn spec_of(p: Parameter) -> Option<Value> {
    match p.specializer {
        Option::Some(t) => Option::Some(t.value),
        Option::None => Option::None,
    }
}

// ---------------------------------------------------------------------------
// The no-match reasons, as spec functions
// ---------------------------------------------------------------------------

/// Rendering of an instance literal in a diagnostic.
pub open spec fn instance_to_polar_s(il: InstanceLiteral) -> Seq<char> {
    il.tag.0@ + crate::fmt::dict_to_polar_s(il.fields)
}

/// The reason when two instance specializers' fields fail the superset
/// check.
pub open spec fn inst_fields_mismatch_msg(index: int, ri: InstanceLiteral, pi: InstanceLiteral) -> Seq<char> {
    "Rule specializer "@ + instance_to_polar_s(ri) + " on parameter "@ + crate::fmt::dec_digits(
        index,
    ) + " did not match prototype specializer "@ + instance_to_polar_s(pi)
        + " because the specializer fields did not match."@
}

/// The reason when the rule class is not a subclass of the prototype class.
pub open spec fn subclass_msg(index: int, ri_tag: Seq<char>, pi_tag: Seq<char>) -> Seq<char> {
    "Rule specializer "@ + ri_tag + " on parameter "@ + crate::fmt::dec_digits(index)
        + " must be a subclass of prototype specializer "@ + pi_tag
}

/// The reason when two dictionary-shaped specializers' fields fail the
/// superset check.
pub open spec fn dict_mismatch_msg(index: int, rf: Dictionary, pf: Dictionary) -> Seq<char> {
    "Specializer mismatch on parameter "@ + crate::fmt::dec_digits(index)
        + ". Rule specializer fields "@ + crate::fmt::dict_to_polar_s(rf)
        + " do not match prototype specializer fields "@ + crate::fmt::dict_to_polar_s(pf) + "."@
}

/// The reason when two pattern shapes cannot match at all.
pub open spec fn pattern_shape_msg(index: int) -> Seq<char> {
    "Mismatch on parameter "@ + crate::fmt::dec_digits(index)
        + ". Rule parameter does not match prototype parameter."@
}

/// The reason for a pattern-vs-pattern no-match.
pub open spec fn pattern_failure_msg(
    kb: KnowledgeBase,
    index: int,
    rp: Pattern,
    pp: Pattern,
) -> Seq<char> {
    match (pp, rp) {
        (Pattern::Instance(pi), Pattern::Instance(ri)) => if pi.tag.0@ == ri.tag.0@ {
            inst_fields_mismatch_msg(index, ri, pi)
        } else if !is_subclass(kb, ri.tag.0@, pi.tag.0@) {
            subclass_msg(index, ri.tag.0@, pi.tag.0@)
        } else {
            inst_fields_mismatch_msg(index, ri, pi)
        },
        (Pattern::Dictionary(pf), Pattern::Dictionary(rf)) => dict_mismatch_msg(index, rf, pf),
        (Pattern::Dictionary(pf), Pattern::Instance(ri)) => dict_mismatch_msg(
            index,
            ri.fields,
            pf,
        ),
        (Pattern::Instance(pi), Pattern::Dictionary(rf)) => if pi.tag.0@ == "Dictionary"@ {
            dict_mismatch_msg(index, rf, pi.fields)
        } else {
            pattern_shape_msg(index)
        },
    }
}

/// The reason when a literal's primitive kind disagrees with a named tag.
pub open spec fn tag_mismatch_msg(index: int, tag: Seq<char>, rv: Value) -> Seq<char> {
    "Invalid parameter "@ + crate::fmt::dec_digits(index) + ". Rule prototype expected "@ + tag
        + ", got "@ + crate::fmt::value_to_polar_s(rv) + ". "@
}

/// The reason for a literal-vs-pattern no-match.
pub open spec fn literal_failure_msg(index: int, rv: Value, pp: Pattern) -> Seq<char> {
    match pp {
        Pattern::Instance(pi) => tag_mismatch_msg(index, pi.tag.0@, rv),
        Pattern::Dictionary(pf) => match rv {
            Value::Dictionary(rf) => "Invalid parameter "@ + crate::fmt::dec_digits(index)
                + ". Rule prototype expected Dictionary with fields "@
                + crate::fmt::dict_to_polar_s(pf) + ", got dictionary with fields "@
                + crate::fmt::dict_to_polar_s(rf) + "."@,
            _ => "Invalid parameter "@ + crate::fmt::dec_digits(index)
                + ". Rule prototype expected Dictionary, got "@ + crate::fmt::value_to_polar_s(rv)
                + "."@,
        },
    }
}

/// The reason for a value-vs-value no-match.
pub open spec fn value_failure_msg(index: int, pv: Value, rv: Value) -> Seq<char> {
    match (pv, rv) {
        (Value::List(_), Value::List(_)) => "Invalid parameter "@ + crate::fmt::dec_digits(index)
            + ". Rule prototype expected list "@ + crate::fmt::value_to_polar_s(pv)
            + ", got list "@ + crate::fmt::value_to_polar_s(rv) + "."@,
        (Value::Dictionary(pf), Value::Dictionary(rf)) => "Invalid parameter "@
            + crate::fmt::dec_digits(index) + ". Rule prototype expected Dictionary with fields "@
            + crate::fmt::dict_to_polar_s(pf) + ", got Dictionary with fields "@
            + crate::fmt::dict_to_polar_s(rf),
        _ => "Invalid parameter "@ + crate::fmt::dec_digits(index) + ". Rule value "@
            + crate::fmt::value_to_polar_s(rv) + " != prototype value "@
            + crate::fmt::value_to_polar_s(pv),
    }
}

/// The reason when an unspecialized rule variable meets a specialized
/// prototype parameter.
pub open spec fn unspecialized_msg(index: int, pv: Value) -> Seq<char> {
    "Invalid rule parameter "@ + crate::fmt::dec_digits(index) + ". Rule prototype expected "@
        + crate::fmt::value_to_polar_s(pv)
}

/// The reason when the two parameter shapes fit no row of the table.
pub open spec fn param_shape_msg(index: int, rule_p: Parameter, proto_p: Parameter) -> Seq<char> {
    "Invalid parameter "@ + crate::fmt::dec_digits(index) + ". Rule parameter "@
        + crate::fmt::param_to_polar_s(rule_p) + " does not match prototype parameter "@
        + crate::fmt::param_to_polar_s(proto_p)
}

/// The reason for a parameter-pair no-match, per the full shape table.
pub open spec fn param_failure_msg(
    kb: KnowledgeBase,
    index: int,
    rule_p: Parameter,
    proto_p: Parameter,
) -> Seq<char> {
    match (proto_p.parameter.value, spec_of(proto_p), rule_p.parameter.value, spec_of(rule_p)) {
        (
            Value::Variable(_),
            Option::Some(Value::Pattern(pp)),
            Value::Variable(_),
            Option::Some(Value::Pattern(rp)),
        ) => pattern_failure_msg(kb, index, rp, pp),
        (Value::Variable(_), Option::Some(pv), Value::Variable(_), Option::None) => unspecialized_msg(
            index,
            pv,
        ),
        (
            Value::Variable(_),
            Option::Some(Value::Pattern(pp)),
            Value::Variable(_),
            Option::Some(rv),
        ) => literal_failure_msg(index, rv, pp),
        (Value::Variable(_), Option::Some(Value::Pattern(pp)), rv, Option::None) => literal_failure_msg(
            index,
            rv,
            pp,
        ),
        (Value::Variable(_), Option::None, _, _) => Seq::empty(),
        (Value::Variable(_), Option::Some(pv), Value::Variable(_), Option::Some(rv)) => value_failure_msg(
            index,
            pv,
            rv,
        ),
        (Value::Variable(_), Option::Some(pv), rv, Option::None) => value_failure_msg(
            index,
            pv,
            rv,
        ),
        (pv, Option::None, rv, Option::None) => value_failure_msg(index, pv, rv),
        _ => param_shape_msg(index, rule_p, proto_p),
    }
}

/// The decision for one rule parameter against one prototype parameter:
/// the full shape table of the matcher.
pub open spec fn param_matches(kb: KnowledgeBase, rule_p: Parameter, proto_p: Parameter) -> bool {
    match (proto_p.parameter.value, spec_of(proto_p), rule_p.parameter.value, spec_of(rule_p)) {
        // Rule and prototype both have pattern specializers.
        (
            Value::Variable(_),
            Option::Some(Value::Pattern(pp)),
            Value::Variable(_),
            Option::Some(Value::Pattern(rp)),
        ) => pattern_param_matches(kb, rp, pp),
        // Prototype has a specializer but the rule variable has none.
        (Value::Variable(_), Option::Some(_), Value::Variable(_), Option::None) => false,
        // Rule has a value or a value specializer, prototype has a pattern.
        (
            Value::Variable(_),
            Option::Some(Value::Pattern(pp)),
            Value::Variable(_),
            Option::Some(rv),
        ) => match pp {
            Pattern::Instance(pi) => literal_tag_matches(rv, pi.tag.0@, pi.fields),
            Pattern::Dictionary(pf) => rv matches Value::Dictionary(rf) && fields_match(pf, rf),
        },
        (Value::Variable(_), Option::Some(Value::Pattern(pp)), rv, Option::None) => match pp {
            Pattern::Instance(pi) => literal_tag_matches(rv, pi.tag.0@, pi.fields),
            Pattern::Dictionary(pf) => rv matches Value::Dictionary(rf) && fields_match(pf, rf),
        },
        // Prototype has no specializer: a wildcard.
        (Value::Variable(_), Option::None, _, _) => true,
        // Value against value, in each spelling.
        (Value::Variable(_), Option::Some(pv), Value::Variable(_), Option::Some(rv)) =>
            value_param_matches(pv, rv),
        (Value::Variable(_), Option::Some(pv), rv, Option::None) => value_param_matches(pv, rv),
        (pv, Option::None, rv, Option::None) => value_param_matches(pv, rv),
        // Any other shape combination.
        _ => false,
    }
}

/// The parameter pair reaches the cross-tag check on a class with no
/// registered MRO.
pub open spec fn param_err(kb: KnowledgeBase, rule_p: Parameter, proto_p: Parameter) -> bool {
    match (proto_p.parameter.value, spec_of(proto_p), rule_p.parameter.value, spec_of(rule_p)) {
        (
            Value::Variable(_),
            Option::Some(Value::Pattern(pp)),
            Value::Variable(_),
            Option::Some(Value::Pattern(rp)),
        ) => pattern_param_missing_mro(kb, rp, pp),
        _ => false,
    }
}

/// The inputs the matcher does not accept: an unregistered prototype class
/// in a cross-tag instance check, or a non-literal where a literal is
/// classified against a named pattern. Earlier validation catches both.
pub open spec fn param_excluded(kb: KnowledgeBase, rule_p: Parameter, proto_p: Parameter) -> bool {
    match (proto_p.parameter.value, spec_of(proto_p), rule_p.parameter.value, spec_of(rule_p)) {
        (
            Value::Variable(_),
            Option::Some(Value::Pattern(pp)),
            Value::Variable(_),
            Option::Some(Value::Pattern(rp)),
        ) => pattern_param_excluded(kb, rp, pp),
        // An unspecialized rule variable against any prototype specializer is
        // an ordinary no-match, never an excluded input.
        (Value::Variable(_), Option::Some(_), Value::Variable(_), Option::None) => false,
        (
            Value::Variable(_),
            Option::Some(Value::Pattern(pp)),
            Value::Variable(_),
            Option::Some(rv),
        ) => pp is Instance && !specializable(rv),
        (Value::Variable(_), Option::Some(Value::Pattern(pp)), rv, Option::None) => pp is Instance
            && !specializable(rv),
        _ => false,
    }
}

/// Whole-rule matching: equal arity and every parameter pair matches.
pub open spec fn rule_matches_proto(kb: KnowledgeBase, rule: Rule, proto: Rule) -> bool {
    &&& rule.params@.len() == proto.params@.len()
    &&& forall|i: int|
        0 <= i < rule.params@.len() ==> param_matches(
            kb,
            #[trigger] rule.params@[i],
            proto.params@[i],
        )
}

/// Some parameter pair of the two rules hits the missing-MRO error.
pub open spec fn rule_proto_err(kb: KnowledgeBase, rule: Rule, proto: Rule) -> bool {
    rule.params@.len() == proto.params@.len() && exists|i: int|
        0 <= i < rule.params@.len() && param_err(kb, #[trigger] rule.params@[i], proto.params@[i])
}

/// Some parameter pair of the two rules is input the matcher does not
/// accept.
pub open spec fn rule_proto_excluded(kb: KnowledgeBase, rule: Rule, proto: Rule) -> bool {
    rule.params@.len() == proto.params@.len() && exists|i: int|
        0 <= i < rule.params@.len() && param_excluded(
            kb,
            #[trigger] rule.params@[i],
            proto.params@[i],
        )
}

// ---------------------------------------------------------------------------
// Executable helpers
// ---------------------------------------------------------------------------

/// Whether `v` holds `x`.
fn contains_u64(v: &Vec<u64>, x: u64) -> (r: bool)
    ensures
        r == v@.contains(x),
{
    let n = v.len();
    let mut i: usize = 0;
    while i < n
        invariant
            i <= n,
            n == v@.len(),
            forall|j: int| 0 <= j < i ==> v@[j] != x,
        decreases n - i,
    {
        if v[i] == x {
            return true;
        }
        i += 1;
    }
    false
}

/// Whether the rule list holds `t` by value equality.
fn list_contains_exec(l: &Vec<Term>, t: &Term) -> (r: bool)
    ensures
        r == list_contains(l@, *t),
{
    let n = l.len();
    let mut i: usize = 0;
    while i < n
        invariant
            i <= n,
            n == l@.len(),
            forall|j: int| 0 <= j < i ==> !veq(#[trigger] l@[j], *t),
        decreases n - i,
    {
        if term_eq(&l[i], t) {
            return true;
        }
        i += 1;
    }
    false
}

impl KnowledgeBase {
    /// Whether the fields of a rule parameter specializer match the fields
    /// of a prototype parameter specializer: the rule fields must be a
    /// superset of the prototype fields with equal values.
    pub fn param_fields_match(&self, prototype_fields: &Dictionary, rule_fields: &Dictionary) -> (r:
        bool)
        ensures
            r == fields_match(*prototype_fields, *rule_fields),
    {
        let n = prototype_fields.fields.len();
        let mut i: usize = 0;
        while i < n
            invariant
                i <= n,
                n == prototype_fields.fields@.len(),
                forall|k: int|
                    0 <= k < i ==> match lookup_field(
                        rule_fields.fields@,
                        (#[trigger] prototype_fields.fields@[k]).0.0@,
                    ) {
                        Option::Some(v) => veq(v, prototype_fields.fields@[k].1),
                        Option::None => false,
                    },
            decreases n - i,
        {
            match lookup_in(&rule_fields.fields, &prototype_fields.fields[i].0) {
                Option::Some(v) => {
                    if !term_eq(v, &prototype_fields.fields[i].1) {
                        return false;
                    }
                },
                Option::None => {
                    return false;
                },
            }
            i += 1;
        }
        true
    }

    /// Check a rule pattern specializer against a prototype pattern
    /// specializer, per the decision table.
    pub fn check_pattern_param(
        &self,
        index: usize,
        rule_pattern: &Pattern,
        prototype_pattern: &Pattern,
    ) -> (r: PolarResult<RuleParamMatch>)
        requires
            !pattern_param_excluded(*self, *rule_pattern, *prototype_pattern),
        ensures
            match r {
                Result::Ok(m) => !pattern_param_missing_mro(
                    *self,
                    *rule_pattern,
                    *prototype_pattern,
                ) && (m is True <==> pattern_param_matches(
                    *self,
                    *rule_pattern,
                    *prototype_pattern,
                )),
                Result::Err(e) => {
                    &&& pattern_param_missing_mro(*self, *rule_pattern, *prototype_pattern)
                    &&& e.context is None
                    &&& e.kind matches ErrorKind::Operational(OperationalError::InvalidState(m))
                        && m@ == missing_mro_msg(rule_tag_of(*rule_pattern))
                },
            },
            r matches Result::Ok(RuleParamMatch::False(m)) ==> m@ == pattern_failure_msg(
                *self,
                index as int,
                *rule_pattern,
                *prototype_pattern,
            ),
    {
        match (prototype_pattern, rule_pattern) {
            (Pattern::Instance(pi), Pattern::Instance(ri)) => {
                if pi.tag.eq_sym(&ri.tag) {
                    if self.param_fields_match(&pi.fields, &ri.fields) {
                        Result::Ok(RuleParamMatch::True)
                    } else {
                        let mut msg: String = "Rule specializer ".to_owned();
                        msg.append(ri.to_polar_literal().as_str());
                        msg.append(" on parameter ");
                        msg.append(u64_to_string(index as u64).as_str());
                        msg.append(" did not match prototype specializer ");
                        msg.append(pi.to_polar_literal().as_str());
                        msg.append(" because the specializer fields did not match.");
                        proof {
                            assert(msg@ =~= inst_fields_mismatch_msg(index as int, *ri, *pi));
                        }
                        Result::Ok(RuleParamMatch::False(msg))
                    }
                } else {
                    let instance_id = match self.constants.get(&pi.tag) {
                        Option::Some(t) => match t.value() {
                            Value::ExternalInstance(id) => *id,
                            _ => {
                                proof {
                                    assert(false);
                                }
                                0
                            },
                        },
                        Option::None => {
                            proof {
                                assert(false);
                            }
                            0
                        },
                    };
                    match sym_get(&self.mro, &ri.tag) {
                        Option::Some(rule_mro) => {
                            if !contains_u64(rule_mro, instance_id) {
                                let mut msg: String = "Rule specializer ".to_owned();
                                msg.append(ri.tag.0.as_str());
                                msg.append(" on parameter ");
                                msg.append(u64_to_string(index as u64).as_str());
                                msg.append(" must be a subclass of prototype specializer ");
                                msg.append(pi.tag.0.as_str());
                                proof {
                                    assert(msg@ =~= subclass_msg(
                                        index as int,
                                        ri.tag.0@,
                                        pi.tag.0@,
                                    ));
                                }
                                Result::Ok(RuleParamMatch::False(msg))
                            } else if !self.param_fields_match(&pi.fields, &ri.fields) {
                                let mut msg: String = "Rule specializer ".to_owned();
                                msg.append(ri.to_polar_literal().as_str());
                                msg.append(" on parameter ");
                                msg.append(u64_to_string(index as u64).as_str());
                                msg.append(" did not match prototype specializer ");
                                msg.append(pi.to_polar_literal().as_str());
                                msg.append(" because the specializer fields did not match.");
                                proof {
                                    assert(msg@ =~= inst_fields_mismatch_msg(
                                        index as int,
                                        *ri,
                                        *pi,
                                    ));
                                }
                                Result::Ok(RuleParamMatch::False(msg))
                            } else {
                                Result::Ok(RuleParamMatch::True)
                            }
                        },
                        Option::None => {
                            let mut msg: String =
                                "All registered classes must have a registered MRO. Class ".to_owned();
                            msg.append(ri.tag.0.as_str());
                            msg.append(" does not have a registered MRO.");
                            Result::Err(
                                PolarError::new(
                                    ErrorKind::Operational(OperationalError::InvalidState(msg)),
                                ),
                            )
                        },
                    }
                }
            },
            (Pattern::Dictionary(pf), Pattern::Dictionary(rf)) => {
                if self.param_fields_match(pf, rf) {
                    Result::Ok(RuleParamMatch::True)
                } else {
                    Result::Ok(RuleParamMatch::False(self.fields_mismatch_msg(index, rf, pf)))
                }
            },
            (Pattern::Dictionary(pf), Pattern::Instance(ri)) => {
                if self.param_fields_match(pf, &ri.fields) {
                    Result::Ok(RuleParamMatch::True)
                } else {
                    Result::Ok(
                        RuleParamMatch::False(self.fields_mismatch_msg(index, &ri.fields, pf)),
                    )
                }
            },
            (Pattern::Instance(pi), Pattern::Dictionary(rf)) => {
                if pi.tag.0 == "Dictionary".to_owned() {
                    if self.param_fields_match(&pi.fields, rf) {
                        Result::Ok(RuleParamMatch::True)
                    } else {
                        Result::Ok(
                            RuleParamMatch::False(self.fields_mismatch_msg(index, rf, &pi.fields)),
                        )
                    }
                } else {
                    let mut msg: String = "Mismatch on parameter ".to_owned();
                    msg.append(u64_to_string(index as u64).as_str());
                    msg.append(". Rule parameter does not match prototype parameter.");
                    proof {
                        assert(msg@ =~= pattern_shape_msg(index as int));
                    }
                    Result::Ok(RuleParamMatch::False(msg))
                }
            },
        }
    }

    fn fields_mismatch_msg(&self, index: usize, rule_fields: &Dictionary, proto_fields: &Dictionary) -> (r:
        String)
        ensures
            r@ == dict_mismatch_msg(index as int, *rule_fields, *proto_fields),
    {
        let mut msg: String = "Specializer mismatch on parameter ".to_owned();
        msg.append(u64_to_string(index as u64).as_str());
        msg.append(". Rule specializer fields ");
        msg.append(rule_fields.to_polar().as_str());
        msg.append(" do not match prototype specializer fields ");
        msg.append(proto_fields.to_polar().as_str());
        msg.append(".");
        proof {
            assert(msg@ =~= dict_mismatch_msg(index as int, *rule_fields, *proto_fields));
        }
        msg
    }

    /// Check a rule value specializer against a prototype value
    /// specializer.
    pub fn check_value_param(
        &self,
        index: usize,
        rule_value: &Value,
        prototype_value: &Value,
    ) -> (r: PolarResult<RuleParamMatch>)
        ensures
            r matches Result::Ok(m) && (m is True <==> value_param_matches(
                *prototype_value,
                *rule_value,
            )),
            r matches Result::Ok(RuleParamMatch::False(m)) ==> m@ == value_failure_msg(
                index as int,
                *prototype_value,
                *rule_value,
            ),
    {
        match (prototype_value, rule_value) {
            (Value::List(pl), Value::List(rl)) => {
                let n = pl.len();
                let mut i: usize = 0;
                while i < n
                    invariant
                        i <= n,
                        n == pl@.len(),
                        *prototype_value == Value::List(*pl),
                        *rule_value == Value::List(*rl),
                        forall|k: int| 0 <= k < i ==> list_contains(rl@, #[trigger] pl@[k]),
                    decreases n - i,
                {
                    if !list_contains_exec(rl, &pl[i]) {
                        let mut msg: String = "Invalid parameter ".to_owned();
                        msg.append(u64_to_string(index as u64).as_str());
                        msg.append(". Rule prototype expected list ");
                        msg.append(prototype_value.to_polar().as_str());
                        msg.append(", got list ");
                        msg.append(rule_value.to_polar().as_str());
                        msg.append(".");
                        proof {
                            assert(msg@ =~= value_failure_msg(
                                index as int,
                                *prototype_value,
                                *rule_value,
                            ));
                        }
                        return Result::Ok(RuleParamMatch::False(msg));
                    }
                    i += 1;
                }
                Result::Ok(RuleParamMatch::True)
            },
            (Value::Dictionary(pf), Value::Dictionary(rf)) => {
                if self.param_fields_match(pf, rf) {
                    Result::Ok(RuleParamMatch::True)
                } else {
                    let mut msg: String = "Invalid parameter ".to_owned();
                    msg.append(u64_to_string(index as u64).as_str());
                    msg.append(". Rule prototype expected Dictionary with fields ");
                    msg.append(pf.to_polar().as_str());
                    msg.append(", got Dictionary with fields ");
                    msg.append(rf.to_polar().as_str());
                    proof {
                        assert(msg@ =~= value_failure_msg(
                            index as int,
                            *prototype_value,
                            *rule_value,
                        ));
                    }
                    Result::Ok(RuleParamMatch::False(msg))
                }
            },
            _ => {
                if crate::terms::value_eq_exec(prototype_value, rule_value) {
                    Result::Ok(RuleParamMatch::True)
                } else {
                    let mut msg: String = "Invalid parameter ".to_owned();
                    msg.append(u64_to_string(index as u64).as_str());
                    msg.append(". Rule value ");
                    msg.append(rule_value.to_polar().as_str());
                    msg.append(" != prototype value ");
                    msg.append(prototype_value.to_polar().as_str());
                    proof {
                        assert(msg@ =~= value_failure_msg(
                            index as int,
                            *prototype_value,
                            *rule_value,
                        ));
                    }
                    Result::Ok(RuleParamMatch::False(msg))
                }
            },
        }
    }
}

/// The tag of an instance pattern, for diagnostics; empty for a dictionary
/// pattern.
pub open spec fn rule_tag_of(p: Pattern) -> Seq<char> {
    match p {
        Pattern::Instance(i) => i.tag.0@,
        Pattern::Dictionary(_) => Seq::empty(),
    }
}

/// The operational-error message for a class with no registered MRO.
pub open spec fn missing_mro_msg(tag: Seq<char>) -> Seq<char> {
    "All registered classes must have a registered MRO. Class "@ + tag
        + " does not have a registered MRO."@
}

// ---------------------------------------------------------------------------
// Parameter pairs and whole rules
// ---------------------------------------------------------------------------

/// The decision for a bare literal or value specializer against a pattern
/// specializer.
pub open spec fn literal_vs_pattern(rv: Value, pp: Pattern) -> bool {
    match pp {
        Pattern::Instance(pi) => literal_tag_matches(rv, pi.tag.0@, pi.fields),
        Pattern::Dictionary(pf) => rv matches Value::Dictionary(rf) && fields_match(pf, rf),
    }
}

impl KnowledgeBase {
    /// Check a bare literal or value specializer against a prototype
    /// pattern specializer, by primitive kind.
    fn check_literal_against_pattern(
        &self,
        index: usize,
        rule_value: &Value,
        proto_pattern: &Pattern,
    ) -> (r: PolarResult<RuleParamMatch>)
        requires
            proto_pattern is Instance ==> specializable(*rule_value),
        ensures
            r matches Result::Ok(m) && (m is True <==> literal_vs_pattern(
                *rule_value,
                *proto_pattern,
            )),
            r matches Result::Ok(RuleParamMatch::False(m)) ==> m@ == literal_failure_msg(
                index as int,
                *rule_value,
                *proto_pattern,
            ),
    {
        match proto_pattern {
            Pattern::Instance(pi) => {
                let matched = match rule_value {
                    Value::Str(_) => pi.tag.0 == "String".to_owned(),
                    Value::Number(Numeric::Integer(_)) => pi.tag.0 == "Integer".to_owned(),
                    Value::Number(Numeric::Float(_)) => pi.tag.0 == "Float".to_owned(),
                    Value::Boolean(_) => pi.tag.0 == "Boolean".to_owned(),
                    Value::List(_) => pi.tag.0 == "List".to_owned(),
                    Value::Dictionary(rf) => pi.tag.0 == "Dictionary".to_owned()
                        && self.param_fields_match(&pi.fields, rf),
                    _ => {
                        proof {
                            assert(false);
                        }
                        false
                    },
                };
                if matched {
                    Result::Ok(RuleParamMatch::True)
                } else {
                    let mut msg: String = "Invalid parameter ".to_owned();
                    msg.append(u64_to_string(index as u64).as_str());
                    msg.append(". Rule prototype expected ");
                    msg.append(pi.tag.0.as_str());
                    msg.append(", got ");
                    msg.append(rule_value.to_polar().as_str());
                    msg.append(". ");
                    proof {
                        assert(msg@ =~= tag_mismatch_msg(index as int, pi.tag.0@, *rule_value));
                    }
                    Result::Ok(RuleParamMatch::False(msg))
                }
            },
            Pattern::Dictionary(pf) => match rule_value {
                Value::Dictionary(rf) => {
                    if self.param_fields_match(pf, rf) {
                        Result::Ok(RuleParamMatch::True)
                    } else {
                        let mut msg: String = "Invalid parameter ".to_owned();
                        msg.append(u64_to_string(index as u64).as_str());
                        msg.append(". Rule prototype expected Dictionary with fields ");
                        msg.append(pf.to_polar().as_str());
                        msg.append(", got dictionary with fields ");
                        msg.append(rf.to_polar().as_str());
                        msg.append(".");
                        proof {
                            assert(msg@ =~= literal_failure_msg(
                                index as int,
                                *rule_value,
                                *proto_pattern,
                            ));
                        }
                        Result::Ok(RuleParamMatch::False(msg))
                    }
                },
                _ => {
                    let mut msg: String = "Invalid parameter ".to_owned();
                    msg.append(u64_to_string(index as u64).as_str());
                    msg.append(". Rule prototype expected Dictionary, got ");
                    msg.append(rule_value.to_polar().as_str());
                    msg.append(".");
                    proof {
                        assert(msg@ =~= literal_failure_msg(
                            index as int,
                            *rule_value,
                            *proto_pattern,
                        ));
                    }
                    Result::Ok(RuleParamMatch::False(msg))
                },
            },
        }
    }

    /// Check a single rule parameter against a prototype parameter, per the
    /// full shape table.
    pub fn check_param(
        &self,
        index: usize,
        rule_param: &Parameter,
        prototype_param: &Parameter,
    ) -> (r: PolarResult<RuleParamMatch>)
        requires
            !param_excluded(*self, *rule_param, *prototype_param),
        ensures
            match r {
                Result::Ok(m) => !param_err(*self, *rule_param, *prototype_param) && (m is True
                    <==> param_matches(*self, *rule_param, *prototype_param)),
                Result::Err(e) => {
                    &&& param_err(*self, *rule_param, *prototype_param)
                    &&& e.context is None
                    &&& e.kind matches ErrorKind::Operational(OperationalError::InvalidState(_))
                },
            },
            (prototype_param.parameter.value is Variable && prototype_param.specializer is Some
                && rule_param.parameter.value is Variable && rule_param.specializer is None)
                ==> (r matches Result::Ok(RuleParamMatch::False(m)) && m@
                == "Invalid rule parameter "@ + crate::fmt::dec_digits(index as int)
                + ". Rule prototype expected "@ + crate::fmt::value_to_polar_s(
                spec_of(*prototype_param)->0,
            )),
            r matches Result::Ok(RuleParamMatch::False(m)) ==> m@ == param_failure_msg(
                *self,
                index as int,
                *rule_param,
                *prototype_param,
            ),
    {
        let pspec: Option<&Value> = match &prototype_param.specializer {
            Option::Some(t) => Option::Some(&t.value),
            Option::None => Option::None,
        };
        let rspec: Option<&Value> = match &rule_param.specializer {
            Option::Some(t) => Option::Some(&t.value),
            Option::None => Option::None,
        };
        match (&prototype_param.parameter.value, pspec, &rule_param.parameter.value, rspec) {
            (
                Value::Variable(_),
                Option::Some(Value::Pattern(pp)),
                Value::Variable(_),
                Option::Some(Value::Pattern(rp)),
            ) => self.check_pattern_param(index, rp, pp),
            (Value::Variable(_), Option::Some(ps), Value::Variable(_), Option::None) => {
                let mut msg: String = "Invalid rule parameter ".to_owned();
                msg.append(u64_to_string(index as u64).as_str());
                msg.append(". Rule prototype expected ");
                msg.append(ps.to_polar().as_str());
                proof {
                    assert(msg@ =~= "Invalid rule parameter "@ + crate::fmt::dec_digits(
                        index as int,
                    ) + ". Rule prototype expected "@ + crate::fmt::value_to_polar_s(*ps));
                }
                Result::Ok(RuleParamMatch::False(msg))
            },
            (
                Value::Variable(_),
                Option::Some(Value::Pattern(pp)),
                Value::Variable(_),
                Option::Some(rv),
            ) => self.check_literal_against_pattern(index, rv, pp),
            (Value::Variable(_), Option::Some(Value::Pattern(pp)), rv, Option::None) => self
                .check_literal_against_pattern(index, rv, pp),
            (Value::Variable(_), Option::None, _, _) => Result::Ok(RuleParamMatch::True),
            (Value::Variable(_), Option::Some(pv), Value::Variable(_), Option::Some(rv)) => self
                .check_value_param(index, rv, pv),
            (Value::Variable(_), Option::Some(pv), rv, Option::None) => self.check_value_param(
                index,
                rv,
                pv,
            ),
            (pv, Option::None, rv, Option::None) => self.check_value_param(index, rv, pv),
            _ => {
                let mut msg: String = "Invalid parameter ".to_owned();
                msg.append(u64_to_string(index as u64).as_str());
                msg.append(". Rule parameter ");
                msg.append(rule_param.to_polar().as_str());
                msg.append(" does not match prototype parameter ");
                msg.append(prototype_param.to_polar().as_str());
                proof {
                    assert(msg@ =~= param_shape_msg(index as int, *rule_param, *prototype_param));
                }
                Result::Ok(RuleParamMatch::False(msg))
            },
        }
    }

    /// Determine whether a rule matches a rule prototype based on its
    /// parameters: equal arity and a positional match of every pair. The
    /// first failing parameter's reason becomes the rule-level reason.
    pub fn rule_params_match(&self, rule: &Rule, prototype: &Rule) -> (r: PolarResult<
        RuleParamMatch,
    >)
        requires
            !rule_proto_excluded(*self, *rule, *prototype),
        ensures
            match r {
                Result::Ok(m) => !rule_proto_err(*self, *rule, *prototype) && (m is True
                    <==> rule_matches_proto(*self, *rule, *prototype)),
                Result::Err(e) => {
                    &&& rule_proto_err(*self, *rule, *prototype)
                    &&& e.context is None
                    &&& e.kind matches ErrorKind::Operational(OperationalError::InvalidState(_))
                },
            },
            rule.params@.len() != prototype.params@.len() ==> (r matches Result::Ok(
                RuleParamMatch::False(m),
            ) && m@ == "Different number of parameters. Rule has "@ + crate::fmt::dec_digits(
                rule.params@.len() as int,
            ) + " parameter(s) but prototype has "@ + crate::fmt::dec_digits(
                prototype.params@.len() as int,
            ) + "."@),
            r matches Result::Ok(RuleParamMatch::False(m)) ==> (rule.params@.len()
                == prototype.params@.len() ==> exists|i: int|
                {
                    &&& 0 <= i < rule.params@.len()
                    &&& !param_matches(*self, #[trigger] rule.params@[i], prototype.params@[i])
                    &&& forall|j: int|
                        0 <= j < i ==> param_matches(*self, rule.params@[j], prototype.params@[j])
                    &&& m@ == param_failure_msg(
                        *self,
                        i + 1,
                        rule.params@[i],
                        prototype.params@[i],
                    )
                }),
    {
        if rule.params.len() != prototype.params.len() {
            let mut msg: String = "Different number of parameters. Rule has ".to_owned();
            msg.append(u64_to_string(rule.params.len() as u64).as_str());
            msg.append(" parameter(s) but prototype has ");
            msg.append(u64_to_string(prototype.params.len() as u64).as_str());
            msg.append(".");
            proof {
                assert(msg@ =~= "Different number of parameters. Rule has "@
                    + crate::fmt::dec_digits(rule.params@.len() as int)
                    + " parameter(s) but prototype has "@ + crate::fmt::dec_digits(
                    prototype.params@.len() as int,
                ) + "."@);
            }
            return Result::Ok(RuleParamMatch::False(msg));
        }
        let n = rule.params.len();
        let mut failure: Option<String> = Option::None;
        let mut i: usize = 0;
        while i < n
            invariant
                i <= n,
                n == rule.params@.len(),
                n == prototype.params@.len(),
                !rule_proto_excluded(*self, *rule, *prototype),
                forall|j: int|
                    0 <= j < i ==> !param_err(
                        *self,
                        #[trigger] rule.params@[j],
                        prototype.params@[j],
                    ),
                match failure {
                    Option::Some(m) => exists|fi: int|
                        {
                            &&& 0 <= fi < i
                            &&& !param_matches(
                                *self,
                                #[trigger] rule.params@[fi],
                                prototype.params@[fi],
                            )
                            &&& forall|j: int|
                                0 <= j < fi ==> param_matches(
                                    *self,
                                    rule.params@[j],
                                    prototype.params@[j],
                                )
                            &&& m@ == param_failure_msg(
                                *self,
                                fi + 1,
                                rule.params@[fi],
                                prototype.params@[fi],
                            )
                        },
                    Option::None => forall|j: int|
                        0 <= j < i ==> param_matches(
                            *self,
                            #[trigger] rule.params@[j],
                            prototype.params@[j],
                        ),
                },
            decreases n - i,
        {
            match self.check_param(i + 1, &rule.params[i], &prototype.params[i]) {
                Result::Err(e) => {
                    return Result::Err(e);
                },
                Result::Ok(m) => match m {
                    RuleParamMatch::True => {},
                    RuleParamMatch::False(msg) => {
                        if failure.is_none() {
                            failure = Option::Some(msg);
                        }
                    },
                },
            }
            i += 1;
        }
        match failure {
            Option::Some(msg) => Result::Ok(RuleParamMatch::False(msg)),
            Option::None => Result::Ok(RuleParamMatch::True),
        }
    }
}

// ---------------------------------------------------------------------------
// Validating every rule against its name's prototypes
// ---------------------------------------------------------------------------

/// The rule matches at least one of the prototypes.
pub open spec fn rule_has_match(kb: KnowledgeBase, rule: Rule, protos: Seq<Rule>) -> bool {
    exists|p: int| 0 <= p < protos.len() && rule_matches_proto(kb, rule, #[trigger] protos[p])
}

/// Every rule of the generic rule matches one of its name's prototypes;
/// names with no prototype are exempt.
pub open spec fn gr_valid(kb: KnowledgeBase, gr: GenericRule) -> bool {
    match sym_assoc(kb.rule_prototypes@, gr.name.0@) {
        Option::Some(protos) => forall|k: int|
            0 <= k < gr.rules@.len() ==> rule_has_match(kb, (#[trigger] gr.rules@[k]).1, protos@),
        Option::None => true,
    }
}

/// Every rule of the knowledge base matches one prototype of its name,
/// where any are registered.
pub open spec fn kb_rules_valid(kb: KnowledgeBase) -> bool {
    forall|g: int| 0 <= g < kb.rules@.len() ==> gr_valid(kb, #[trigger] kb.rules@[g])
}

/// Checking this rule against some prototype hits the missing-MRO error.
pub open spec fn rule_checks_err(kb: KnowledgeBase, rule: Rule, protos: Seq<Rule>) -> bool {
    exists|p: int| 0 <= p < protos.len() && rule_proto_err(kb, rule, #[trigger] protos[p])
}

/// Some rule/prototype pair of this generic rule hits the missing-MRO
/// error.
pub open spec fn gr_checks_err(kb: KnowledgeBase, gr: GenericRule) -> bool {
    match sym_assoc(kb.rule_prototypes@, gr.name.0@) {
        Option::Some(protos) => exists|k: int|
            0 <= k < gr.rules@.len() && rule_checks_err(kb, (#[trigger] gr.rules@[k]).1, protos@),
        Option::None => false,
    }
}

/// Some rule/prototype pair of the knowledge base hits the missing-MRO
/// error.
pub open spec fn kb_checks_err(kb: KnowledgeBase) -> bool {
    exists|g: int| 0 <= g < kb.rules@.len() && gr_checks_err(kb, #[trigger] kb.rules@[g])
}

/// Checking this rule against some prototype is input the matcher does
/// not accept.
pub open spec fn rule_checks_excluded(kb: KnowledgeBase, rule: Rule, protos: Seq<Rule>) -> bool {
    exists|p: int| 0 <= p < protos.len() && rule_proto_excluded(kb, rule, #[trigger] protos[p])
}

/// Some rule/prototype pair of this generic rule is input the matcher does
/// not accept.
pub open spec fn gr_checks_excluded(kb: KnowledgeBase, gr: GenericRule) -> bool {
    match sym_assoc(kb.rule_prototypes@, gr.name.0@) {
        Option::Some(protos) => exists|k: int|
            0 <= k < gr.rules@.len() && rule_checks_excluded(
                kb,
                (#[trigger] gr.rules@[k]).1,
                protos@,
            ),
        Option::None => false,
    }
}

/// Some rule/prototype pair of the knowledge base is input the matcher
/// does not accept.
pub open spec fn kb_checks_excluded(kb: KnowledgeBase) -> bool {
    exists|g: int| 0 <= g < kb.rules@.len() && gr_checks_excluded(kb, #[trigger] kb.rules@[g])
}

/// Some rule fails to match every prototype of its name, and `rendered` is
/// that rule's rendering.
pub open spec fn invalid_rule_witness(kb: KnowledgeBase, rendered: Seq<char>) -> bool {
    exists|g: int, k: int|
        #![trigger kb.rules@[g].rules@[k]]
        {
            &&& 0 <= g < kb.rules@.len()
            &&& match sym_assoc(kb.rule_prototypes@, kb.rules@[g].name.0@) {
                Option::Some(protos) => 0 <= k < kb.rules@[g].rules@.len() && !rule_has_match(
                    kb,
                    kb.rules@[g].rules@[k].1,
                    protos@,
                ) && rendered == rule_to_polar_s(kb.rules@[g].rules@[k].1),
                Option::None => false,
            }
        }
}

impl KnowledgeBase {
    /// Validate that every rule loaded into the knowledge base matches at
    /// least one rule prototype of its name, where any are registered.
    pub fn validate_rules(&self) -> (r: PolarResult<()>)
        requires
            !kb_checks_excluded(*self),
        ensures
            match r {
                Result::Ok(_) => kb_rules_valid(*self) && !kb_checks_err(*self),
                Result::Err(e) => {
                    &&& !kb_rules_valid(*self) || kb_checks_err(*self)
                    &&& match e.kind {
                        ErrorKind::Operational(_) => kb_checks_err(*self),
                        ErrorKind::Validation(ValidationError::InvalidRule { rule, msg }) =>
                            invalid_rule_witness(*self, rule@),
                        _ => false,
                    }
                },
            },
    {
        let ng = self.rules.len();
        let mut g: usize = 0;
        while g < ng
            invariant
                g <= ng,
                ng == self.rules@.len(),
                !kb_checks_excluded(*self),
                forall|h: int|
                    0 <= h < g ==> gr_valid(*self, #[trigger] self.rules@[h]) && !gr_checks_err(
                        *self,
                        self.rules@[h],
                    ),
            decreases ng - g,
        {
            let protos_opt = sym_get(&self.rule_prototypes, &self.rules[g].name);
            match protos_opt {
                Option::None => {},
                Option::Some(protos) => {
                    let nk = self.rules[g].rules.len();
                    let mut k: usize = 0;
                    while k < nk
                        invariant
                            k <= nk,
                            g < ng,
                            ng == self.rules@.len(),
                            nk == self.rules@[g as int].rules@.len(),
                            !kb_checks_excluded(*self),
                            sym_assoc(self.rule_prototypes@, self.rules@[g as int].name.0@)
                                == Option::Some(*protos),
                            forall|h: int|
                                0 <= h < g ==> gr_valid(*self, #[trigger] self.rules@[h])
                                    && !gr_checks_err(*self, self.rules@[h]),
                            forall|k2: int|
                                0 <= k2 < k ==> rule_has_match(
                                    *self,
                                    (#[trigger] self.rules@[g as int].rules@[k2]).1,
                                    protos@,
                                ),
                            forall|k2: int|
                                0 <= k2 < k ==> !rule_checks_err(
                                    *self,
                                    (#[trigger] self.rules@[g as int].rules@[k2]).1,
                                    protos@,
                                ),
                        decreases nk - k,
                    {
                        let np = protos.len();
                        let mut p: usize = 0;
                        let mut found = false;
                        let mut msg: String =
                            "Must match one of the following rule prototypes:\n".to_owned();
                        while p < np
                            invariant
                                p <= np,
                                g < ng,
                                k < nk,
                                ng == self.rules@.len(),
                                nk == self.rules@[g as int].rules@.len(),
                                np == protos@.len(),
                                !kb_checks_excluded(*self),
                                sym_assoc(self.rule_prototypes@, self.rules@[g as int].name.0@)
                                    == Option::Some(*protos),
                                found <==> exists|q: int|
                                    0 <= q < p && rule_matches_proto(
                                        *self,
                                        self.rules@[g as int].rules@[k as int].1,
                                        #[trigger] protos@[q],
                                    ),
                                forall|q: int|
                                    0 <= q < p ==> !rule_proto_err(
                                        *self,
                                        self.rules@[g as int].rules@[k as int].1,
                                        #[trigger] protos@[q],
                                    ),
                            decreases np - p,
                        {
                            proof {
                                assert(!rule_proto_excluded(
                                    *self,
                                    self.rules@[g as int].rules@[k as int].1,
                                    protos@[p as int],
                                )) by {
                                    assert(!gr_checks_excluded(*self, self.rules@[g as int]));
                                    assert(!rule_checks_excluded(
                                        *self,
                                        self.rules@[g as int].rules@[k as int].1,
                                        protos@,
                                    ));
                                }
                            }
                            match self.rule_params_match(
                                &self.rules[g].rules[k].1,
                                &protos[p],
                            ) {
                                Result::Err(e) => {
                                    proof {
                                        assert(rule_checks_err(
                                            *self,
                                            self.rules@[g as int].rules@[k as int].1,
                                            protos@,
                                        ));
                                        assert(gr_checks_err(*self, self.rules@[g as int]));
                                        assert(kb_checks_err(*self));
                                    }
                                    return Result::Err(e);
                                },
                                Result::Ok(m) => match m {
                                    RuleParamMatch::True => {
                                        found = true;
                                    },
                                    RuleParamMatch::False(reason) => {
                                        msg.append("\n");
                                        msg.append(protos[p].to_polar().as_str());
                                        msg.append("\n\tFailed to match because: ");
                                        msg.append(reason.as_str());
                                        msg.append("\n");
                                    },
                                },
                            }
                            p += 1;
                        }
                        if !found {
                            let rendered = self.rules[g].rules[k].1.to_polar();
                            let e = self.set_error_context(
                                &self.rules[g].rules[k].1.body,
                                ErrorKind::Validation(
                                    ValidationError::InvalidRule { rule: rendered, msg },
                                ),
                            );
                            proof {
                                assert(invalid_rule_witness(
                                    *self,
                                    rule_to_polar_s(self.rules@[g as int].rules@[k as int].1),
                                ));
                            }
                            return Result::Err(e);
                        }
                        k += 1;
                    }
                },
            }
            g += 1;
        }
        Result::Ok(())
    }
}

impl InstanceLiteral {
    /// Render this instance literal for a diagnostic.
    fn to_polar_literal(&self) -> (r: String)
        ensures
            r@ == instance_to_polar_s(*self),
    {
        let mut out = self.tag.0.clone();
        out.append(self.fields.to_polar().as_str());
        out
    }
}

} // verus!
