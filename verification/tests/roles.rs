//! Tests of the roles-configuration validator.

use polar_core::bindings::Bindings;
use polar_core::errors::ErrorKind;
use polar_core::kb::KnowledgeBase;
use polar_core::roles_validation::{validate_actor_has_role_for_resource, validate_roles_config,
    ResultEvent};
use polar_core::rules::Rule;
use polar_core::terms::{Dictionary, InstanceLiteral, Operation, Operator, Parameter, Pattern,
    Symbol, Term, Value};

fn sym(s: &str) -> Symbol {
    Symbol::new(s)
}

fn term(v: Value) -> Term {
    Term::new(v)
}

fn var_term(name: &str) -> Term {
    term(Value::Variable(sym(name)))
}

fn str_term(s: &str) -> Term {
    term(Value::Str(s.to_string()))
}

fn str_list(items: &[&str]) -> Term {
    term(Value::List(items.iter().map(|s| str_term(s)).collect()))
}

fn and_term(args: Vec<Term>) -> Term {
    term(Value::Expression(Operation { operator: Operator::And, args }))
}

fn actor_rule_kb() -> KnowledgeBase {
    let mut kb = KnowledgeBase::new();
    let params = vec![
        Parameter { parameter: var_term("actor"), specializer: None },
        Parameter { parameter: var_term("role_name"), specializer: None },
        Parameter { parameter: var_term("resource"), specializer: None },
    ];
    kb.add_rule(Rule::new(sym("actor_has_role_for_resource"), params, and_term(vec![])));
    kb
}

/// A `resource(resource, name, actions, roles)` result with the expected
/// type-specializer shape on the `resource` binding.
fn resource_event(typ: &str, name: &str, actions: Term, roles: Term) -> ResultEvent {
    let isa = term(Value::Expression(Operation {
        operator: Operator::Isa,
        args: vec![
            var_term("_this"),
            term(Value::Pattern(Pattern::Instance(InstanceLiteral {
                tag: sym(typ),
                fields: Dictionary { fields: vec![] },
            }))),
        ],
    }));
    let mut bindings = Bindings::new();
    bindings.insert(sym("resource"), and_term(vec![isa]));
    bindings.insert(sym("name"), str_term(name));
    bindings.insert(sym("actions"), actions);
    bindings.insert(sym("roles"), roles);
    ResultEvent::new(bindings)
}

fn role_defs(defs: Vec<(&str, Vec<(&str, Term)>)>) -> Term {
    term(Value::Dictionary(Dictionary {
        fields: defs
            .into_iter()
            .map(|(role, fields)| {
                (
                    sym(role),
                    term(Value::Dictionary(Dictionary {
                        fields: fields.into_iter().map(|(k, v)| (sym(k), v)).collect(),
                    })),
                )
            })
            .collect(),
    }))
}

#[test]
fn test_actor_has_role_for_resource_must_be_defined() {
    let kb = KnowledgeBase::new();
    let e = validate_actor_has_role_for_resource(kb.get_rules()).err().unwrap();
    assert!(matches!(e.kind, ErrorKind::RolesValidation(_)));
    let kb = actor_rule_kb();
    validate_actor_has_role_for_resource(kb.get_rules()).unwrap();
}

#[test]
fn test_valid_roles_config() {
    let kb = actor_rule_kb();
    let event = resource_event(
        "Org",
        "org",
        str_list(&["read", "write"]),
        role_defs(vec![("member", vec![("permissions", str_list(&["read"]))])]),
    );
    validate_roles_config(kb.get_rules(), vec![vec![event]]).unwrap();
}

#[test]
fn test_roles_config_needs_a_resource() {
    let kb = actor_rule_kb();
    let e = validate_roles_config(kb.get_rules(), vec![]).err().unwrap();
    assert!(matches!(e.kind, ErrorKind::RolesValidation(_)));
    let e = validate_roles_config(kb.get_rules(), vec![vec![]]).err().unwrap();
    assert!(matches!(e.kind, ErrorKind::RolesValidation(_)));
}

#[test]
fn test_roles_config_rejects_duplicate_actions() {
    let kb = actor_rule_kb();
    let event = resource_event(
        "Org",
        "org",
        str_list(&["read", "read"]),
        role_defs(vec![]),
    );
    let e = validate_roles_config(kb.get_rules(), vec![vec![event]]).err().unwrap();
    assert!(matches!(e.kind, ErrorKind::RolesValidation(_)));
}

#[test]
fn test_roles_config_rejects_bad_role_key() {
    let kb = actor_rule_kb();
    let event = resource_event(
        "Org",
        "org",
        str_list(&["read"]),
        role_defs(vec![("member", vec![("permittedness", str_list(&["read"]))])]),
    );
    let e = validate_roles_config(kb.get_rules(), vec![vec![event]]).err().unwrap();
    assert!(matches!(e.kind, ErrorKind::RolesValidation(_)));
}

#[test]
fn test_roles_config_rejects_empty_role_definition() {
    let kb = actor_rule_kb();
    let event = resource_event(
        "Org",
        "org",
        str_list(&["read"]),
        role_defs(vec![("member", vec![])]),
    );
    let e = validate_roles_config(kb.get_rules(), vec![vec![event]]).err().unwrap();
    assert!(matches!(e.kind, ErrorKind::RolesValidation(_)));
}

#[test]
fn test_roles_config_rejects_duplicate_resource_names() {
    let kb = actor_rule_kb();
    let e1 = resource_event("Org", "org", str_list(&["read"]), role_defs(vec![]));
    let e2 = resource_event("Repo", "org", str_list(&["pull"]), role_defs(vec![]));
    let e = validate_roles_config(kb.get_rules(), vec![vec![e1, e2]]).err().unwrap();
    assert!(matches!(e.kind, ErrorKind::RolesValidation(_)));
}

#[test]
fn test_roles_config_requires_content() {
    let kb = actor_rule_kb();
    let event = resource_event("Org", "org", str_list(&[]), role_defs(vec![]));
    let e = validate_roles_config(kb.get_rules(), vec![vec![event]]).err().unwrap();
    assert!(matches!(e.kind, ErrorKind::RolesValidation(_)));
}

#[test]
fn test_roles_config_messages() {
    let kb = KnowledgeBase::new();
    match validate_actor_has_role_for_resource(kb.get_rules()).err().unwrap().kind {
        ErrorKind::RolesValidation(e) => assert_eq!(
            e.0,
            "Need to define `actor_has_role_for_resource(actor, role_name, resource)` predicate to use Oso Roles.\n    Make sure to load policy before calling Oso.enable_roles()."
        ),
        other => panic!("unexpected error {:?}", other),
    }
    let kb = actor_rule_kb();
    match validate_roles_config(kb.get_rules(), vec![]).err().unwrap().kind {
        ErrorKind::RolesValidation(e) => assert_eq!(
            e.0,
            "Need to define at least one `resource(type, name, actions, roles)` predicate to use Oso Roles."
        ),
        other => panic!("unexpected error {:?}", other),
    }
    // A duplicate action names the action and the resource type.
    let event = resource_event("Org", "org", str_list(&["read", "read"]), role_defs(vec![]));
    match validate_roles_config(kb.get_rules(), vec![vec![event]]).err().unwrap().kind {
        ErrorKind::RolesValidation(e) => assert_eq!(e.0, "Duplicate action read for Org."),
        other => panic!("unexpected error {:?}", other),
    }
}
