//! Tests of resource blocks: indexing, implication rewriting, the load
//! pipeline, and source bookkeeping.

use polar_core::errors::{ErrorKind, ParseError, RuntimeError};
use polar_core::kb::KnowledgeBase;
use polar_core::sources::Source;
use polar_core::sugar::{index_declarations, validate_parsed_declaration,
    validate_relation_keyword, turn_productions_into_resource_block, EntityType, Implication,
    Production, ResourceBlock, ResourceBlocks};
use polar_core::terms::{Dictionary, Numeric, Symbol, Term, Value};

fn sym(s: &str) -> Symbol {
    Symbol::new(s)
}

fn term(v: Value) -> Term {
    Term::new(v)
}

fn var_term(name: &str) -> Term {
    term(Value::Variable(sym(name)))
}

fn str_term(s: &str) -> Term {
    term(Value::Str(s.to_string()))
}

fn str_list(items: &[&str]) -> Term {
    term(Value::List(items.iter().map(|s| str_term(s)).collect()))
}

fn dict_term(fields: Vec<(&str, Term)>) -> Term {
    term(Value::Dictionary(Dictionary {
        fields: fields.into_iter().map(|(k, v)| (sym(k), v)).collect(),
    }))
}

fn sugar_msg(e: polar_core::errors::PolarError) -> String {
    match e.kind {
        ErrorKind::Parse(ParseError::ParseSugar { msg, .. }) => msg,
        other => panic!("expected a sugar error, got {:?}", other),
    }
}

#[test]
fn test_resource_block_rewrite_implications_with_lowercase_resource_specializer() {
    let repo_resource = var_term("repo");
    let repo_roles = str_list(&["reader"]);
    let repo_relations = dict_term(vec![("parent", var_term("org"))]);
    let repo_declarations =
        index_declarations(Some(repo_roles), None, Some(repo_relations), &repo_resource);

    let org_resource = var_term("org");
    let org_roles = str_list(&["member"]);
    let org_declarations = index_declarations(Some(org_roles), None, None, &org_resource);

    let mut blocks = ResourceBlocks::new();
    blocks.add(
        EntityType::Resource,
        repo_resource,
        repo_declarations.unwrap(),
        vec![],
    );
    blocks.add(
        EntityType::Resource,
        org_resource,
        org_declarations.unwrap(),
        vec![],
    );
    let implication = Implication {
        head: str_term("reader"),
        body: (str_term("member"), Some(str_term("parent"))),
    };
    let rewritten_role_role = implication.as_rule(&var_term("repo"), &blocks).unwrap();
    assert_eq!(
        rewritten_role_role.to_polar(),
        r#"has_role(actor: Actor{}, "reader", repo_instance: repo{}) if has_relation(org_instance, "parent", repo_instance) and has_role(actor, "member", org_instance);"#
    );
}

#[test]
fn test_resource_block_local_rewrite_implications() {
    let resource = var_term("Org");
    let roles = str_list(&["owner", "member"]);
    let permissions = str_list(&["invite", "create_repo"]);
    let declarations = index_declarations(Some(roles), Some(permissions), None, &resource);
    let mut blocks = ResourceBlocks::new();
    blocks.add(EntityType::Resource, resource, declarations.unwrap(), vec![]);
    let implication = Implication { head: str_term("member"), body: (str_term("owner"), None) };
    let rewritten_role_role = implication.as_rule(&var_term("Org"), &blocks).unwrap();
    assert_eq!(
        rewritten_role_role.to_polar(),
        r#"has_role(actor: Actor{}, "member", org: Org{}) if has_role(actor, "owner", org);"#
    );

    let implication = Implication { head: str_term("invite"), body: (str_term("owner"), None) };
    let rewritten_permission_role = implication.as_rule(&var_term("Org"), &blocks).unwrap();
    assert_eq!(
        rewritten_permission_role.to_polar(),
        r#"has_permission(actor: Actor{}, "invite", org: Org{}) if has_role(actor, "owner", org);"#
    );

    let implication =
        Implication { head: str_term("create_repo"), body: (str_term("invite"), None) };
    let rewritten_permission_permission =
        implication.as_rule(&var_term("Org"), &blocks).unwrap();
    assert_eq!(
        rewritten_permission_permission.to_polar(),
        r#"has_permission(actor: Actor{}, "create_repo", org: Org{}) if has_permission(actor, "invite", org);"#
    );
}

#[test]
fn test_resource_block_nonlocal_rewrite_implications() {
    let repo_resource = var_term("Repo");
    let repo_roles = str_list(&["reader"]);
    let repo_relations = dict_term(vec![("parent", var_term("Org"))]);
    let repo_declarations =
        index_declarations(Some(repo_roles), None, Some(repo_relations), &repo_resource);
    let org_resource = var_term("Org");
    let org_roles = str_list(&["member"]);
    let org_declarations = index_declarations(Some(org_roles), None, None, &org_resource);
    let mut blocks = ResourceBlocks::new();
    blocks.add(
        EntityType::Resource,
        repo_resource,
        repo_declarations.unwrap(),
        vec![],
    );
    blocks.add(
        EntityType::Resource,
        org_resource,
        org_declarations.unwrap(),
        vec![],
    );
    let implication = Implication {
        head: str_term("reader"),
        body: (str_term("member"), Some(str_term("parent"))),
    };
    let rewritten_role_role = implication.as_rule(&var_term("Repo"), &blocks).unwrap();
    assert_eq!(
        rewritten_role_role.to_polar(),
        r#"has_role(actor: Actor{}, "reader", repo: Repo{}) if has_relation(org, "parent", repo) and has_role(actor, "member", org);"#
    );
}

fn org_block(implications: Vec<Implication>) -> ResourceBlock {
    ResourceBlock {
        entity_type: EntityType::Resource,
        resource: var_term("Org"),
        roles: Some(str_list(&["owner", "member"])),
        permissions: None,
        relations: None,
        implications,
    }
}

#[test]
fn test_resource_block_duplicates() {
    let mut kb = KnowledgeBase::new();
    kb.constant(sym("Org"), str_term("unimportant"));
    org_block(vec![]).add_to_kb(&mut kb).unwrap();
    let e = org_block(vec![]).add_to_kb(&mut kb).err().unwrap();
    assert!(sugar_msg(e).contains("Duplicate declaration of 'Org' resource block."));
}

#[test]
fn test_resource_block_must_be_registered_as_a_class() {
    let mut kb = KnowledgeBase::new();
    let e = org_block(vec![]).add_to_kb(&mut kb).err().unwrap();
    assert!(sugar_msg(e).contains("Invalid resource block 'Org' -- 'Org' must be a registered class."));
}

#[test]
fn test_resource_block_with_clashing_declarations() {
    let resource = var_term("Org");
    let e = index_declarations(Some(str_list(&["egg", "egg"])), None, None, &resource)
        .err()
        .unwrap();
    assert!(sugar_msg(e).contains(r#"Org: Duplicate declaration of "egg" in the roles list."#));

    let resource = var_term("Org");
    let e = index_declarations(
        Some(str_list(&["egg", "tootsie"])),
        Some(str_list(&["spring", "egg"])),
        None,
        &resource,
    )
    .err()
    .unwrap();
    assert!(sugar_msg(e)
        .contains(r#"Org: "egg" declared as a permission but it was previously declared as a role."#));

    let resource = var_term("Org");
    let e = index_declarations(
        None,
        Some(str_list(&["egg"])),
        Some(dict_term(vec![("egg", var_term("Roll"))])),
        &resource,
    )
    .err()
    .unwrap();
    assert!(sugar_msg(e)
        .contains(r#"Org: 'egg' declared as a relation but it was previously declared as a permission."#));
}

#[test]
fn test_roles_declaration_must_be_a_list() {
    let resource = var_term("Org");
    let e = index_declarations(Some(dict_term(vec![])), None, None, &resource).err().unwrap();
    assert!(matches!(e.kind, ErrorKind::Runtime(RuntimeError::TypeError { .. })));
}

#[test]
fn test_resource_block_with_undeclared_local_implication_head() {
    let mut kb = KnowledgeBase::new();
    kb.constant(sym("Org"), str_term("unimportant"));
    let implication = Implication { head: str_term("admin"), body: (str_term("owner"), None) };
    let e = org_block(vec![implication]).add_to_kb(&mut kb).err().unwrap();
    assert!(sugar_msg(e).contains(r#"Undeclared term "admin" referenced in rule in 'Org' resource block"#));
}

#[test]
fn test_resource_block_with_undeclared_local_implication_body() {
    let mut kb = KnowledgeBase::new();
    kb.constant(sym("Org"), str_term("unimportant"));
    let implication = Implication { head: str_term("member"), body: (str_term("owner2"), None) };
    let block = ResourceBlock {
        entity_type: EntityType::Resource,
        resource: var_term("Org"),
        roles: Some(str_list(&["member"])),
        permissions: None,
        relations: None,
        implications: vec![implication],
    };
    block.add_to_kb(&mut kb).unwrap();
    let e = kb.rewrite_implications().err().unwrap();
    assert!(sugar_msg(e).contains(r#"Undeclared term "owner2" referenced in rule in the 'Org' resource block"#));
    // The failed rewrite clears the accumulated block state and adds no rule.
    assert_eq!(kb.get_rules().len(), 0);
    assert_eq!(kb.resource_blocks.blocks.len(), 0);
}

#[test]
fn test_resource_block_with_unregistered_relation_type() {
    let mut kb = KnowledgeBase::new();
    kb.constant(sym("Repo"), str_term("unimportant"));
    let block = ResourceBlock {
        entity_type: EntityType::Resource,
        resource: var_term("Repo"),
        roles: None,
        permissions: None,
        relations: Some(dict_term(vec![("parent", var_term("Org"))])),
        implications: vec![],
    };
    block.add_to_kb(&mut kb).unwrap();
    let e = kb.rewrite_implications().err().unwrap();
    assert!(sugar_msg(e)
        .contains("Type 'Org' in relation 'parent: Org' must be registered as a class."));

    // Once `Org` is registered, the same block loads and rewrites cleanly.
    kb.constant(sym("Org"), str_term("unimportant"));
    let block = ResourceBlock {
        entity_type: EntityType::Resource,
        resource: var_term("Repo"),
        roles: None,
        permissions: None,
        relations: Some(dict_term(vec![("parent", var_term("Org"))])),
        implications: vec![],
    };
    block.add_to_kb(&mut kb).unwrap();
    kb.rewrite_implications().unwrap();
}

#[test]
fn test_resource_block_with_undeclared_nonlocal_implication_body() {
    // The relation resolves to a type with no resource block.
    let mut kb = KnowledgeBase::new();
    kb.constant(sym("Repo"), str_term("unimportant"));
    kb.constant(sym("Org"), str_term("unimportant"));
    let block = ResourceBlock {
        entity_type: EntityType::Resource,
        resource: var_term("Repo"),
        roles: Some(str_list(&["writer"])),
        permissions: None,
        relations: Some(dict_term(vec![("parent", var_term("Org"))])),
        implications: vec![Implication {
            head: str_term("writer"),
            body: (str_term("owner"), Some(str_term("parent"))),
        }],
    };
    block.add_to_kb(&mut kb).unwrap();
    let e = kb.rewrite_implications().err().unwrap();
    assert!(sugar_msg(e).contains(
        r#"Repo: Relation "parent" in rule body `"owner" on "parent"` has type 'Org', but no such resource block exists. Try declaring one: `resource Org {}`"#
    ));

    // The related block exists but does not declare the implier.
    let mut kb = KnowledgeBase::new();
    kb.constant(sym("Repo"), str_term("unimportant"));
    kb.constant(sym("Org"), str_term("unimportant"));
    let repo = ResourceBlock {
        entity_type: EntityType::Resource,
        resource: var_term("Repo"),
        roles: Some(str_list(&["writer"])),
        permissions: None,
        relations: Some(dict_term(vec![("parent", var_term("Org"))])),
        implications: vec![Implication {
            head: str_term("writer"),
            body: (str_term("owner"), Some(str_term("parent"))),
        }],
    };
    repo.add_to_kb(&mut kb).unwrap();
    let org = ResourceBlock {
        entity_type: EntityType::Resource,
        resource: var_term("Org"),
        roles: None,
        permissions: None,
        relations: None,
        implications: vec![],
    };
    org.add_to_kb(&mut kb).unwrap();
    let e = kb.rewrite_implications().err().unwrap();
    assert!(sugar_msg(e).contains(
        r#"Repo: Term "owner" not declared in related resource block 'Org'. Did you mean to declare it as a role, permission, or relation in the 'Org' resource block?"#
    ));
}

#[test]
fn test_rewrite_implications_generates_rules() {
    let mut kb = KnowledgeBase::new();
    kb.constant(sym("Org"), str_term("unimportant"));
    let implication = Implication { head: str_term("member"), body: (str_term("owner"), None) };
    org_block(vec![implication]).add_to_kb(&mut kb).unwrap();
    kb.rewrite_implications().unwrap();
    assert!(kb.resource_blocks.blocks.is_empty());
    let gr = kb.get_generic_rule(&sym("has_role")).unwrap();
    assert_eq!(gr.rules.len(), 1);
    assert_eq!(
        gr.rules[0].1.to_polar(),
        r#"has_role(actor: Actor{}, "member", org: Org{}) if has_role(actor, "owner", org);"#
    );
}

#[test]
fn test_relation_keyword_accepts_on() {
    let ok = validate_relation_keyword((var_term("on"), str_term("parent"))).unwrap();
    assert_eq!(ok.to_polar(), r#""parent""#);
    let e = validate_relation_keyword((var_term("onn"), str_term("parent"))).err().unwrap();
    assert!(sugar_msg(e).contains("Unexpected relation keyword 'onn'. Did you mean 'on'?"));
}

#[test]
fn test_resource_block_declaration_keywords() {
    let parsed_list = Term::from_parser(0, 4, 9, Value::List(vec![]));
    let parsed_dict =
        Term::from_parser(0, 4, 9, Value::Dictionary(Dictionary { fields: vec![] }));
    assert!(matches!(
        validate_parsed_declaration((sym("roles"), parsed_list)).unwrap(),
        Production::Roles(_)
    ));
    let parsed_list = Term::from_parser(0, 4, 9, Value::List(vec![]));
    assert!(matches!(
        validate_parsed_declaration((sym("permissions"), parsed_list)).unwrap(),
        Production::Permissions(_)
    ));
    assert!(matches!(
        validate_parsed_declaration((sym("relations"), parsed_dict)).unwrap(),
        Production::Relations(_)
    ));
    let parsed_dict =
        Term::from_parser(0, 4, 9, Value::Dictionary(Dictionary { fields: vec![] }));
    let e = validate_parsed_declaration((sym("roles"), parsed_dict)).err().unwrap();
    assert!(sugar_msg(e)
        .contains("Expected 'roles' declaration to be a list of strings; found a dictionary:"));
    let parsed_list = Term::from_parser(0, 4, 9, Value::List(vec![]));
    let e = validate_parsed_declaration((sym("relations"), parsed_list)).err().unwrap();
    assert!(sugar_msg(e)
        .contains("Expected 'relations' declaration to be a dictionary; found a list:"));
    let parsed_list = Term::from_parser(0, 4, 9, Value::List(vec![]));
    let e = validate_parsed_declaration((sym("foo"), parsed_list)).err().unwrap();
    assert!(sugar_msg(e).contains(
        "Unexpected declaration 'foo'. Did you mean for this to be 'roles = [ ... ];' or 'permissions = [ ... ];'?"
    ));
    let parsed_dict =
        Term::from_parser(0, 4, 9, Value::Dictionary(Dictionary { fields: vec![] }));
    let e = validate_parsed_declaration((sym("foo"), parsed_dict)).err().unwrap();
    assert!(sugar_msg(e)
        .contains("Unexpected declaration 'foo'. Did you mean for this to be 'relations = { ... };'?"));
}

#[test]
fn test_resource_block_entity_type() {
    let e = turn_productions_into_resource_block(None, var_term("Org"), vec![]).err().unwrap();
    assert!(sugar_msg(e).contains("Expected 'actor' or 'resource' but found nothing."));
    let e = turn_productions_into_resource_block(Some(var_term("seahorse")), var_term("Org"), vec![])
        .err()
        .unwrap();
    assert!(sugar_msg(e).contains("Expected 'actor' or 'resource' but found 'seahorse'."));
    let b = turn_productions_into_resource_block(Some(var_term("actor")), var_term("Org"), vec![])
        .unwrap();
    assert!(matches!(b.entity_type, EntityType::Actor));
    assert!(b.roles.is_none() && b.permissions.is_none() && b.relations.is_none());
}

#[test]
fn test_duplicate_declaration_kinds_are_rejected() {
    let r1 = Production::Roles(Term::from_parser(0, 1, 2, Value::List(vec![])));
    let r2 = Production::Roles(Term::from_parser(0, 3, 4, Value::List(vec![])));
    let e = turn_productions_into_resource_block(
        Some(var_term("resource")),
        var_term("Org"),
        vec![r1, r2],
    )
    .err()
    .unwrap();
    assert!(sugar_msg(e).contains("Multiple 'roles' declarations in 'Org' resource block."));
}

#[test]
fn test_load_bookkeeping_rejects_conflicting_sources() {
    let mut kb = KnowledgeBase::new();
    let src_id = kb
        .add_source(Source::new(Some("a.polar".to_string()), "f(1);".to_string()))
        .unwrap();

    // The same filename with identical content is already loaded.
    let e = kb
        .add_source(Source::new(Some("a.polar".to_string()), "f(1);".to_string()))
        .err()
        .unwrap();
    match e.kind {
        ErrorKind::Runtime(RuntimeError::FileLoading { msg }) => {
            assert_eq!(msg, "File a.polar has already been loaded.");
        },
        other => panic!("unexpected error {:?}", other),
    }

    // The same content under a different filename.
    let e = kb
        .add_source(Source::new(Some("b.polar".to_string()), "f(1);".to_string()))
        .err()
        .unwrap();
    match e.kind {
        ErrorKind::Runtime(RuntimeError::FileLoading { msg }) => {
            assert_eq!(
                msg,
                "A file with the same contents as b.polar named a.polar has already been loaded."
            );
        },
        other => panic!("unexpected error {:?}", other),
    }

    // The same filename with different content.
    let e = kb
        .add_source(Source::new(Some("a.polar".to_string()), "g(2);".to_string()))
        .err()
        .unwrap();
    match e.kind {
        ErrorKind::Runtime(RuntimeError::FileLoading { msg }) => {
            assert_eq!(
                msg,
                "A file with the name a.polar, but different contents has already been loaded."
            );
        },
        other => panic!("unexpected error {:?}", other),
    }

    // After removing the file, the same pair loads again.
    let text = kb.remove_file("a.polar").unwrap();
    assert_eq!(text, "f(1);");
    let second_id = kb
        .add_source(Source::new(Some("a.polar".to_string()), "f(1);".to_string()))
        .unwrap();
    assert!(second_id > src_id);
}

#[test]
fn test_remove_source_drops_its_rules() {
    let mut kb = KnowledgeBase::new();
    let src_id = kb.add_source(Source::new(None, "f(1);".to_string())).unwrap();
    let rule = polar_core::rules::Rule::new_from_parser(
        src_id,
        0,
        5,
        sym("f"),
        vec![],
        term(Value::Expression(polar_core::terms::Operation {
            operator: polar_core::terms::Operator::And,
            args: vec![],
        })),
    );
    kb.add_rule(rule);
    let other = polar_core::rules::Rule::new(
        sym("g"),
        vec![],
        term(Value::Expression(polar_core::terms::Operation {
            operator: polar_core::terms::Operator::And,
            args: vec![],
        })),
    );
    kb.add_rule(other);
    assert_eq!(kb.get_rules().len(), 2);
    let text = kb.remove_source(src_id);
    assert_eq!(text, "f(1);");
    assert_eq!(kb.get_rules().len(), 1);
    assert!(kb.get_generic_rule(&sym("f")).is_none());
    assert!(kb.get_generic_rule(&sym("g")).is_some());
}

#[test]
fn test_gensym_and_ids() {
    let mut kb = KnowledgeBase::new();
    assert_eq!(KnowledgeBase::temp_prefix("_"), "_");
    assert_eq!(KnowledgeBase::temp_prefix("x"), "_x_");
    let s1 = kb.gensym("x");
    let s2 = kb.gensym("x");
    assert_eq!(s1.0, "_x_1");
    assert_eq!(s2.0, "_x_2");
    let id1 = kb.new_id();
    let id2 = kb.new_id();
    assert_eq!(id2, id1 + 1);
}

#[test]
fn test_float_values_compare_structurally() {
    let a = term(Value::Number(Numeric::Float(1.0f64.to_bits())));
    let b = term(Value::Number(Numeric::Float(1.0f64.to_bits())));
    let c = term(Value::Number(Numeric::Float(2.0f64.to_bits())));
    assert!(polar_core::terms::term_eq(&a, &b));
    assert!(!polar_core::terms::term_eq(&a, &c));
}

#[test]
fn test_remove_rule_by_stable_index() {
    let mut gr = polar_core::rules::GenericRule::new(sym("f"), vec![]);
    let body = term(Value::Expression(polar_core::terms::Operation {
        operator: polar_core::terms::Operator::And,
        args: vec![],
    }));
    gr.add_rule(polar_core::rules::Rule::new(sym("f"), vec![], body));
    let body2 = term(Value::Expression(polar_core::terms::Operation {
        operator: polar_core::terms::Operator::And,
        args: vec![],
    }));
    gr.add_rule(polar_core::rules::Rule::new(sym("f"), vec![], body2));
    assert_eq!(gr.rules.len(), 2);
    assert_eq!(gr.rules[0].0, 0);
    assert_eq!(gr.rules[1].0, 1);
    gr.remove_rule(0);
    assert_eq!(gr.rules.len(), 1);
    // The surviving rule keeps its index.
    assert_eq!(gr.rules[0].0, 1);
    assert!(!gr.is_empty());
    gr.remove_rule(1);
    assert!(gr.is_empty());
}
