//! Laws of the specializer matcher and the prototype validator, stated and
//! proved against the same specifications the executable contracts use.

use vstd::prelude::*;

use crate::assoc::sym_assoc;
use crate::kb::KnowledgeBase;
use crate::rules::Rule;
use crate::terms::{has_field, Dictionary, Numeric, Parameter, Pattern, Value};
use crate::validation::{fields_match, gr_valid, is_subclass, kb_checks_err, kb_checks_excluded,
    kb_rules_valid, literal_tag_matches, param_matches, pattern_param_matches, rule_has_match,
    rule_matches_proto, specializable};

verus! {

/// With distinct instance tags, a rule specialized on class B matches a
/// prototype specialized on class A exactly when A's registered instance id
/// appears in B's MRO and the fields superset-match. In particular the
/// converse direction does not hold unless B's id appears in A's MRO in
/// turn.
pub proof fn lemma_subclass_specialization(kb: KnowledgeBase, rule_p: Pattern, proto_p: Pattern)
    requires
        rule_p is Instance,
        proto_p is Instance,
        rule_p->Instance_0.tag.0@ != proto_p->Instance_0.tag.0@,
    ensures
        pattern_param_matches(kb, rule_p, proto_p) <==> (is_subclass(
            kb,
            rule_p->Instance_0.tag.0@,
            proto_p->Instance_0.tag.0@,
        ) && fields_match(proto_p->Instance_0.fields, rule_p->Instance_0.fields)),
{
}

/// A prototype parameter with no specializer matches any rule parameter,
/// regardless of that rule parameter's specializer.
pub proof fn lemma_wildcard_prototype(kb: KnowledgeBase, rule_p: Parameter, proto_p: Parameter)
    requires
        proto_p.parameter.value is Variable,
        proto_p.specializer is None,
    ensures
        param_matches(kb, rule_p, proto_p),
{
}

/// A rule parameter that is an unspecialized variable never matches a
/// prototype parameter that has a specializer. (A bare literal parameter is
/// different: it acts as its own specializer.)
pub proof fn lemma_unspecialized_rule_param(kb: KnowledgeBase, rule_p: Parameter, proto_p: Parameter)
    requires
        rule_p.parameter.value is Variable,
        rule_p.specializer is None,
        proto_p.parameter.value is Variable,
        proto_p.specializer is Some,
    ensures
        !param_matches(kb, rule_p, proto_p),
{
}

/// Field matching is superset-with-equal-values, and it is not symmetric: a
/// rule dictionary that matches the prototype while holding a key the
/// prototype lacks does not match in the other direction.
pub proof fn lemma_fields_match_asymmetric(proto: Dictionary, rule: Dictionary)
    requires
        fields_match(proto, rule),
        exists|i: int|
            0 <= i < rule.fields@.len() && !has_field(
                proto.fields@,
                (#[trigger] rule.fields@[i]).0.0@,
            ),
    ensures
        !fields_match(rule, proto),
{
    let i = choose|i: int|
        0 <= i < rule.fields@.len() && !has_field(
            proto.fields@,
            (#[trigger] rule.fields@[i]).0.0@,
        );
    if fields_match(rule, proto) {
        assert(match crate::terms::lookup_field(proto.fields@, rule.fields@[i].0.0@) {
            Option::Some(v) => crate::terms::veq(v, rule.fields@[i].1),
            Option::None => false,
        });
    }
}

/// The primitive kind tag a bare literal value classifies under.
pub open spec fn kind_tag(v: Value) -> Seq<char> {
    match v {
        Value::Str(_) => "String"@,
        Value::Number(Numeric::Integer(_)) => "Integer"@,
        Value::Number(Numeric::Float(_)) => "Float"@,
        Value::Boolean(_) => "Boolean"@,
        Value::List(_) => "List"@,
        Value::Dictionary(_) => "Dictionary"@,
        _ => Seq::empty(),
    }
}

/// A bare literal matched against a named pattern specializer with no
/// required fields succeeds exactly for the tag of the literal's own
/// primitive kind, and fails for every other named tag.
pub proof fn lemma_literal_tag_classification(rv: Value, tag: Seq<char>, proto_fields: Dictionary)
    requires
        specializable(rv),
        proto_fields.fields@.len() == 0,
    ensures
        literal_tag_matches(rv, tag, proto_fields) <==> tag == kind_tag(rv),
{
}

/// When no registered prototype shares any rule's name, validation holds of
/// the whole knowledge base: every rule is vacuously valid and no check can
/// fail.
pub proof fn lemma_validate_no_prototypes(kb: KnowledgeBase)
    requires
        forall|g: int|
            0 <= g < kb.rules@.len() ==> sym_assoc(
                kb.rule_prototypes@,
                (#[trigger] kb.rules@[g]).name.0@,
            ) is None,
    ensures
        kb_rules_valid(kb),
        !kb_checks_err(kb),
        !kb_checks_excluded(kb),
{
    assert forall|g: int| 0 <= g < kb.rules@.len() implies gr_valid(kb, #[trigger] kb.rules@[g]) by {
        assert(sym_assoc(kb.rule_prototypes@, kb.rules@[g].name.0@) is None);
    }
}

/// A rule whose parameter count differs from every same-named prototype's
/// matches none of them.
pub proof fn lemma_arity_mismatch(kb: KnowledgeBase, rule: Rule, protos: Seq<Rule>)
    requires
        forall|p: int|
            0 <= p < protos.len() ==> (#[trigger] protos[p]).params@.len() != rule.params@.len(),
    ensures
        !rule_has_match(kb, rule, protos),
{
}

/// A rule that matches at least one of several same-named prototypes is
/// valid, however many others it fails.
pub proof fn lemma_one_prototype_suffices(kb: KnowledgeBase, rule: Rule, protos: Seq<Rule>, p: int)
    requires
        0 <= p < protos.len(),
        rule_matches_proto(kb, rule, protos[p]),
    ensures
        rule_has_match(kb, rule, protos),
{
}

} // verus!
