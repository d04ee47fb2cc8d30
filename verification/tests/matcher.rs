//! Tests of the specializer matcher and the rule prototype validator.

use polar_core::errors::{ErrorKind, OperationalError, ValidationError};
use polar_core::kb::KnowledgeBase;
use polar_core::rules::Rule;
use polar_core::terms::{Dictionary, InstanceLiteral, Numeric, Operation, Operator, Parameter,
    Pattern, Symbol, Term, Value};

fn sym(s: &str) -> Symbol {
    Symbol::new(s)
}

fn term(v: Value) -> Term {
    Term::new(v)
}

fn var_term(name: &str) -> Term {
    term(Value::Variable(sym(name)))
}

fn int_term(i: i64) -> Term {
    term(Value::Number(Numeric::Integer(i)))
}

fn float_term(f: f64) -> Term {
    term(Value::Number(Numeric::Float(f.to_bits())))
}

fn str_term(s: &str) -> Term {
    term(Value::Str(s.to_string()))
}

fn bool_term(b: bool) -> Term {
    term(Value::Boolean(b))
}

fn int_list(items: &[i64]) -> Term {
    term(Value::List(items.iter().map(|i| int_term(*i)).collect()))
}

fn dict(fields: Vec<(&str, Term)>) -> Dictionary {
    Dictionary { fields: fields.into_iter().map(|(k, v)| (sym(k), v)).collect() }
}

fn instance_spec(tag: &str, fields: Dictionary) -> Term {
    term(Value::Pattern(Pattern::Instance(InstanceLiteral { tag: sym(tag), fields })))
}

fn dict_spec(fields: Dictionary) -> Term {
    term(Value::Pattern(Pattern::Dictionary(fields)))
}

fn empty_body() -> Term {
    term(Value::Expression(Operation { operator: Operator::And, args: vec![] }))
}

fn spec_param(spec: Term) -> Parameter {
    Parameter { parameter: var_term("x"), specializer: Some(spec) }
}

fn bare_param(t: Term) -> Parameter {
    Parameter { parameter: t, specializer: None }
}

fn rule1(name: &str, param: Parameter) -> Rule {
    Rule::new(sym(name), vec![param], empty_body())
}

fn rule2(name: &str, p0: Parameter, p1: Parameter) -> Rule {
    Rule::new(sym(name), vec![p0, p1], empty_body())
}

fn external_instance(id: u64) -> Term {
    term(Value::ExternalInstance(id))
}

fn fruity_kb() -> KnowledgeBase {
    let mut kb = KnowledgeBase::new();
    kb.constant(sym("Fruit"), external_instance(1));
    kb.constant(sym("Citrus"), external_instance(2));
    kb.constant(sym("Orange"), external_instance(3));
    kb.add_mro(sym("Fruit"), vec![1]).unwrap();
    // Citrus is a subclass of Fruit.
    kb.add_mro(sym("Citrus"), vec![2, 1]).unwrap();
    // Orange is a subclass of Citrus.
    kb.add_mro(sym("Orange"), vec![3, 2, 1]).unwrap();
    kb
}

fn matches_proto(kb: &KnowledgeBase, rule: &Rule, proto: &Rule) -> bool {
    kb.rule_params_match(rule, proto).unwrap().is_true()
}

#[test]
fn test_rule_params_match() {
    let kb = fruity_kb();

    // BOTH PATTERN SPEC
    // rule: f(x: Foo), prototype: f(x: Foo) => PASS
    assert!(matches_proto(
        &kb,
        &rule1("f", spec_param(instance_spec("Fruit", dict(vec![])))),
        &rule1("f", spec_param(instance_spec("Fruit", dict(vec![])))),
    ));

    // rule: f(x: Foo), prototype: f(x: Bar) => FAIL if Foo is not subclass of Bar
    assert!(!matches_proto(
        &kb,
        &rule1("f", spec_param(instance_spec("Fruit", dict(vec![])))),
        &rule1("f", spec_param(instance_spec("Citrus", dict(vec![])))),
    ));

    // rule: f(x: Foo), prototype: f(x: Bar) => PASS if Foo is subclass of Bar
    assert!(matches_proto(
        &kb,
        &rule1("f", spec_param(instance_spec("Citrus", dict(vec![])))),
        &rule1("f", spec_param(instance_spec("Fruit", dict(vec![])))),
    ));
    assert!(matches_proto(
        &kb,
        &rule1("f", spec_param(instance_spec("Orange", dict(vec![])))),
        &rule1("f", spec_param(instance_spec("Fruit", dict(vec![])))),
    ));

    // rule: f(x: Foo), prototype: f(x: {id: 1}) => FAIL
    assert!(!matches_proto(
        &kb,
        &rule1("f", spec_param(instance_spec("Foo", dict(vec![])))),
        &rule1("f", spec_param(dict_spec(dict(vec![("id", int_term(1))])))),
    ));
    // rule: f(x: Foo{id: 1}), prototype: f(x: {id: 1}) => PASS
    assert!(matches_proto(
        &kb,
        &rule1("f", spec_param(instance_spec("Foo", dict(vec![("id", int_term(1))])))),
        &rule1("f", spec_param(dict_spec(dict(vec![("id", int_term(1))])))),
    ));
    // rule: f(x: {id: 1}), prototype: f(x: Foo{id: 1}) => FAIL
    assert!(!matches_proto(
        &kb,
        &rule1("f", spec_param(dict_spec(dict(vec![("id", int_term(1))])))),
        &rule1("f", spec_param(instance_spec("Foo", dict(vec![("id", int_term(1))])))),
    ));
    // rule: f(x: {id: 1}), prototype: f(x: {id: 1}) => PASS
    assert!(matches_proto(
        &kb,
        &rule1("f", spec_param(dict_spec(dict(vec![("id", int_term(1))])))),
        &rule1("f", spec_param(dict_spec(dict(vec![("id", int_term(1))])))),
    ));

    // RULE VALUE SPEC, TEMPLATE PATTERN SPEC
    // rule: f(x: 6), prototype: f(x: Integer) => PASS
    assert!(matches_proto(
        &kb,
        &rule1("f", spec_param(int_term(6))),
        &rule1("f", spec_param(instance_spec("Integer", dict(vec![])))),
    ));
    // rule: f(x: 6), prototype: f(x: Foo) => FAIL
    assert!(!matches_proto(
        &kb,
        &rule1("f", spec_param(int_term(6))),
        &rule1("f", spec_param(instance_spec("Foo", dict(vec![])))),
    ));
    // rule: f(x: 6.0), prototype: f(x: Float) => PASS
    assert!(matches_proto(
        &kb,
        &rule1("f", spec_param(float_term(6.0))),
        &rule1("f", spec_param(instance_spec("Float", dict(vec![])))),
    ));
    // rule: f(x: 6.0), prototype: f(x: Foo) => FAIL
    assert!(!matches_proto(
        &kb,
        &rule1("f", spec_param(float_term(6.0))),
        &rule1("f", spec_param(instance_spec("Foo", dict(vec![])))),
    ));
    // rule: f(x: "hi"), prototype: f(x: String) => PASS
    assert!(matches_proto(
        &kb,
        &rule1("f", spec_param(str_term("hi"))),
        &rule1("f", spec_param(instance_spec("String", dict(vec![])))),
    ));
    // rule: f(x: "hi"), prototype: f(x: Foo) => FAIL
    assert!(!matches_proto(
        &kb,
        &rule1("f", spec_param(str_term("hi"))),
        &rule1("f", spec_param(instance_spec("Foo", dict(vec![])))),
    ));
    // rule: f(x: true), prototype: f(x: Boolean) => PASS
    assert!(matches_proto(
        &kb,
        &rule1("f", spec_param(bool_term(true))),
        &rule1("f", spec_param(instance_spec("Boolean", dict(vec![])))),
    ));
    // rule: f(x: true), prototype: f(x: Foo) => FAIL
    assert!(!matches_proto(
        &kb,
        &rule1("f", spec_param(bool_term(true))),
        &rule1("f", spec_param(instance_spec("Foo", dict(vec![])))),
    ));
    // rule: f(x: [1, 2]), prototype: f(x: List) => PASS
    assert!(matches_proto(
        &kb,
        &rule1("f", spec_param(int_list(&[1, 2]))),
        &rule1("f", spec_param(instance_spec("List", dict(vec![])))),
    ));
    // rule: f(x: [1, 2]), prototype: f(x: Foo) => FAIL
    assert!(!matches_proto(
        &kb,
        &rule1("f", spec_param(int_list(&[1, 2]))),
        &rule1("f", spec_param(instance_spec("Foo", dict(vec![])))),
    ));
    // rule: f(x: {id: 1}), prototype: f(x: Dictionary) => PASS
    assert!(matches_proto(
        &kb,
        &rule1("f", spec_param(dict_spec(dict(vec![("id", int_term(1))])))),
        &rule1("f", spec_param(instance_spec("Dictionary", dict(vec![])))),
    ));
    // rule: f(x: {id: 1}), prototype: f(x: Foo) => FAIL
    assert!(!matches_proto(
        &kb,
        &rule1("f", spec_param(dict_spec(dict(vec![("id", int_term(1))])))),
        &rule1("f", spec_param(instance_spec("Foo", dict(vec![])))),
    ));
    // rule: f(x: {id: 1}), prototype: f(x: Dictionary{id: 1}) => PASS
    assert!(matches_proto(
        &kb,
        &rule1("f", spec_param(dict_spec(dict(vec![("id", int_term(1))])))),
        &rule1("f", spec_param(instance_spec("Dictionary", dict(vec![("id", int_term(1))])))),
    ));

    // RULE PATTERN SPEC, TEMPLATE VALUE SPEC: always => FAIL
    assert!(!matches_proto(
        &kb,
        &rule1("f", spec_param(dict_spec(dict(vec![("1", int_term(1))])))),
        &rule1("f", spec_param(int_term(1))),
    ));

    // BOTH VALUE SPEC
    // rule: f(x: 1), prototype: f(x: 1) => PASS
    assert!(matches_proto(
        &kb,
        &rule1("f", spec_param(int_term(1))),
        &rule1("f", spec_param(int_term(1))),
    ));
    // rule: f(x: 1), prototype: f(x: 2) => FAIL
    assert!(!matches_proto(
        &kb,
        &rule1("f", spec_param(int_term(1))),
        &rule1("f", spec_param(int_term(2))),
    ));
    // rule: f(x: 1.0), prototype: f(x: 1.0) => PASS
    assert!(matches_proto(
        &kb,
        &rule1("f", spec_param(float_term(1.0))),
        &rule1("f", spec_param(float_term(1.0))),
    ));
    // rule: f(x: 1.0), prototype: f(x: 2.0) => FAIL
    assert!(!matches_proto(
        &kb,
        &rule1("f", spec_param(float_term(1.0))),
        &rule1("f", spec_param(float_term(2.0))),
    ));
    // rule: f(x: "hi"), prototype: f(x: "hi") => PASS
    assert!(matches_proto(
        &kb,
        &rule1("f", spec_param(str_term("hi"))),
        &rule1("f", spec_param(str_term("hi"))),
    ));
    // rule: f(x: "hi"), prototype: f(x: "hello") => FAIL
    assert!(!matches_proto(
        &kb,
        &rule1("f", spec_param(str_term("hi"))),
        &rule1("f", spec_param(str_term("hello"))),
    ));
    // rule: f(x: true), prototype: f(x: true) => PASS
    assert!(matches_proto(
        &kb,
        &rule1("f", spec_param(bool_term(true))),
        &rule1("f", spec_param(bool_term(true))),
    ));
    // rule: f(x: true), prototype: f(x: false) => FAIL
    assert!(!matches_proto(
        &kb,
        &rule1("f", spec_param(bool_term(true))),
        &rule1("f", spec_param(bool_term(false))),
    ));
    // List: the rule must be more specific than (a superset of) the prototype.
    // rule: f(x: [1,2,3]), prototype: f(x: [1,2]) => PASS
    assert!(matches_proto(
        &kb,
        &rule1("f", spec_param(int_list(&[1, 2, 3]))),
        &rule1("f", spec_param(int_list(&[1, 2]))),
    ));
    // rule: f(x: [1,2]), prototype: f(x: [1,2,3]) => FAIL
    assert!(!matches_proto(
        &kb,
        &rule1("f", spec_param(int_list(&[1, 2]))),
        &rule1("f", spec_param(int_list(&[1, 2, 3]))),
    ));
    // Dict: the rule must be more specific than (a superset of) the prototype.
    // rule: f(x: {id: 1, name: Dave}), prototype: f(x: {id: 1}) => PASS
    assert!(matches_proto(
        &kb,
        &rule1(
            "f",
            spec_param(dict_spec(dict(vec![("id", int_term(1)), ("name", var_term("Dave"))]))),
        ),
        &rule1("f", spec_param(dict_spec(dict(vec![("id", int_term(1))])))),
    ));
    // rule: f(x: {id: 1}), prototype: f(x: {id: 1, name: Dave}) => FAIL
    assert!(!matches_proto(
        &kb,
        &rule1("f", spec_param(dict_spec(dict(vec![("id", int_term(1))])))),
        &rule1(
            "f",
            spec_param(dict_spec(dict(vec![("id", int_term(1)), ("name", var_term("Dave"))]))),
        ),
    ));

    // RULE None SPEC, TEMPLATE Some SPEC: always => FAIL
    assert!(!matches_proto(
        &kb,
        &rule1("f", bare_param(var_term("x"))),
        &rule1("f", spec_param(instance_spec("Foo", dict(vec![])))),
    ));

    // RULE Some SPEC, TEMPLATE None SPEC: always => PASS
    assert!(matches_proto(
        &kb,
        &rule1("f", spec_param(instance_spec("Foo", dict(vec![])))),
        &rule1("f", bare_param(var_term("x"))),
    ));
}

#[test]
fn test_validate_rules() {
    let mut kb = fruity_kb();

    // A prototype applies when it has the same name as a rule.
    kb.add_rule_prototype(rule1("f", spec_param(instance_spec("Orange", dict(vec![])))));
    kb.add_rule(rule1("f", spec_param(instance_spec("Orange", dict(vec![])))));
    kb.add_rule(rule1("f", spec_param(instance_spec("Fruit", dict(vec![])))));

    assert!(matches!(
        kb.validate_rules().err().unwrap().kind,
        ErrorKind::Validation(ValidationError::InvalidRule { .. })
    ));

    // A prototype does not apply to rules of other names.
    kb.clear_rules();
    kb.add_rule_prototype(rule1("f", spec_param(instance_spec("Orange", dict(vec![])))));
    kb.add_rule(rule1("f", spec_param(instance_spec("Orange", dict(vec![])))));
    kb.add_rule(rule1("g", spec_param(instance_spec("Fruit", dict(vec![])))));

    kb.validate_rules().unwrap();

    // A prototype does apply to a same-named rule even with different arity.
    kb.clear_rules();
    kb.add_rule_prototype(rule2(
        "f",
        spec_param(instance_spec("Orange", dict(vec![]))),
        bare_param(int_term(1)),
    ));
    kb.add_rule(rule1("f", spec_param(instance_spec("Orange", dict(vec![])))));

    assert!(matches!(
        kb.validate_rules().err().unwrap().kind,
        ErrorKind::Validation(ValidationError::InvalidRule { .. })
    ));

    // Several prototypes can share a name; matching one of them suffices.
    kb.clear_rules();
    kb.add_rule_prototype(rule1("f", spec_param(instance_spec("Orange", dict(vec![])))));
    kb.add_rule_prototype(rule2(
        "f",
        spec_param(instance_spec("Orange", dict(vec![]))),
        bare_param(int_term(1)),
    ));
    kb.add_rule_prototype(rule1("f", spec_param(instance_spec("Fruit", dict(vec![])))));
    kb.add_rule(rule1("f", spec_param(instance_spec("Fruit", dict(vec![])))));
    kb.validate_rules().unwrap();
}

#[test]
fn test_missing_mro_is_an_operational_error() {
    let mut kb = KnowledgeBase::new();
    kb.constant(sym("Fruit"), external_instance(1));
    // `Bogus` has no registered MRO, so a cross-tag check hits the internal
    // invariant violation rather than a match failure.
    let r = kb.rule_params_match(
        &rule1("f", spec_param(instance_spec("Bogus", dict(vec![])))),
        &rule1("f", spec_param(instance_spec("Fruit", dict(vec![])))),
    );
    assert!(matches!(
        r.err().unwrap().kind,
        ErrorKind::Operational(OperationalError::InvalidState(_))
    ));
}

#[test]
fn test_add_mro_requires_registered_class() {
    let mut kb = KnowledgeBase::new();
    let e = kb.add_mro(sym("Ghostly"), vec![1]).err().unwrap();
    assert!(matches!(e.kind, ErrorKind::Parameter(_)));
    kb.constant(sym("Ghostly"), external_instance(7));
    kb.add_mro(sym("Ghostly"), vec![7]).unwrap();
}

#[test]
fn test_unspecialized_variable_never_matches_a_specialized_prototype() {
    // `f(x)` against prototype `f(x: Fruit)` is an ordinary no-match, and
    // validation over such a pair reports the invalid rule.
    let mut kb = fruity_kb();
    kb.add_rule_prototype(rule1("f", spec_param(instance_spec("Fruit", dict(vec![])))));
    kb.add_rule(rule1("f", bare_param(var_term("x"))));
    let e = kb.validate_rules().err().unwrap();
    match e.kind {
        ErrorKind::Validation(ValidationError::InvalidRule { msg, .. }) => {
            assert!(msg.contains("Invalid rule parameter 1. Rule prototype expected Fruit{}"));
        },
        other => panic!("unexpected error {:?}", other),
    }
}

#[test]
fn test_add_generic_rule_replaces_in_place() {
    let mut kb = KnowledgeBase::new();
    let gr1 = polar_core::rules::GenericRule::new(sym("f"), vec![rule1("f", bare_param(var_term("x")))]);
    kb.add_generic_rule(gr1);
    let gr2 = polar_core::rules::GenericRule::new(sym("f"), vec![]);
    kb.add_generic_rule(gr2);
    // The second generic rule replaced the first; no stale entry remains.
    assert_eq!(kb.get_rules().len(), 1);
    assert_eq!(kb.get_generic_rule(&sym("f")).unwrap().rules.len(), 0);
}
