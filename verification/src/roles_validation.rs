//! Structural validation of a roles configuration: the shape of query
//! results binding `resource`, `name`, `actions` and `roles`, checked
//! against the expected resource/role/action structure.

use vstd::prelude::*;

use crate::assoc::sym_assoc;
use crate::bindings::Bindings;
use crate::errors::{ErrorKind, PolarError, PolarResult, RolesValidationError};
use crate::kb::lookup_generic_rule;
use crate::rules::GenericRule;
use crate::terms::{lookup_field, Operator, Pattern, Symbol, Term, Value};

verus! {

/// One query result: a set of variable bindings.
pub struct ResultEvent {
    pub bindings: Bindings,
}

impl ResultEvent {
    pub fn new(bindings: Bindings) -> (r: ResultEvent)
        ensures
            r.bindings == bindings,
    {
        ResultEvent { bindings }
    }
}

/// The binding under `name` in an event.
pub open spec fn binding_of(e: ResultEvent, name: Seq<char>) -> Option<Term> {
    sym_assoc(e.bindings.entries@, name)
}

/// The four bindings every resource definition result must carry.
pub open spec fn event_bindings_present(e: ResultEvent) -> bool {
    &&& binding_of(e, "resource"@) is Some
    &&& binding_of(e, "name"@) is Some
    &&& binding_of(e, "actions"@) is Some
    &&& binding_of(e, "roles"@) is Some
}

/// A resource definition carries a type specializer: a one-element
/// conjunction of `_this matches SomeType{...}`.
pub open spec fn def_has_type(def: Term) -> bool {
    match def.value {
        Value::Expression(o) => if o.operator == Operator::And && o.args@.len() == 1 {
            match o.args@[0].value {
                Value::Expression(o2) => if o2.operator == Operator::Isa && o2.args@.len() == 2 {
                    (o2.args@[0].value matches Value::Variable(s) && s.0@ == "_this"@) && (
                    o2.args@[1].value matches Value::Pattern(Pattern::Instance(_)))
                } else {
                    false
                },
                _ => false,
            }
        } else {
            false
        },
        _ => false,
    }
}

/// Actions are a list of strings, or an unbound variable standing for none.
pub open spec fn actions_shape_ok(actions: Term) -> bool {
    match actions.value {
        Value::List(l) => forall|i: int| 0 <= i < l@.len() ==> (#[trigger] l@[i]).value is Str,
        Value::Variable(_) => true,
        _ => false,
    }
}

/// Some action appears twice.
pub open spec fn actions_dup(actions: Term) -> bool {
    match actions.value {
        Value::List(l) => exists|i: int, j: int|
            #![trigger l@[i], l@[j]]
            0 <= i < j < l@.len() && (l@[i].value matches Value::Str(a) && (l@[j].value matches
                Value::Str(b) && a@ == b@)),
        _ => false,
    }
}

/// A list of string terms.
pub open spec fn str_list_ok(t: Term) -> bool {
    t.value matches Value::List(l) && (forall|i: int|
        0 <= i < l@.len() ==> (#[trigger] l@[i]).value is Str)
}

/// The length of an optional list field; zero when missing.
pub open spec fn opt_field_list_len(fields: Seq<(Symbol, Term)>, key: Seq<char>) -> int {
    match lookup_field(fields, key) {
        Option::Some(t) => match t.value {
            Value::List(l) => l@.len() as int,
            _ => 0,
        },
        Option::None => 0,
    }
}

/// One role definition: a dictionary with only `permissions` and `implies`
/// keys, each a list of strings, at least one of them non-empty.
pub open spec fn role_def_ok(def: Term) -> bool {
    match def.value {
        Value::Dictionary(d) => {
            &&& forall|i: int|
                0 <= i < d.fields@.len() ==> ((#[trigger] d.fields@[i]).0.0@ == "permissions"@
                    || d.fields@[i].0.0@ == "implies"@)
            &&& match lookup_field(d.fields@, "permissions"@) {
                Option::Some(t) => str_list_ok(t),
                Option::None => true,
            }
            &&& match lookup_field(d.fields@, "implies"@) {
                Option::Some(t) => str_list_ok(t),
                Option::None => true,
            }
            &&& (opt_field_list_len(d.fields@, "permissions"@) > 0 || opt_field_list_len(
                d.fields@,
                "implies"@,
            ) > 0)
        },
        _ => false,
    }
}

/// The roles binding: when it is a dictionary, every definition is well
/// formed and no role name repeats; anything else stands for no roles.
pub open spec fn roles_defs_ok(rolesv: Term) -> bool {
    match rolesv.value {
        Value::Dictionary(d) => {
            &&& forall|i: int| 0 <= i < d.fields@.len() ==> role_def_ok((#[trigger] d.fields@[i]).1)
            &&& forall|i: int, j: int|
                #![trigger d.fields@[i], d.fields@[j]]
                0 <= i < j < d.fields@.len() ==> d.fields@[i].0.0@ != d.fields@[j].0.0@
        },
        _ => true,
    }
}

/// The event defines at least one action or at least one role.
pub open spec fn event_has_content(e: ResultEvent) -> bool {
    ||| (binding_of(e, "actions"@) matches Option::Some(t) && (t.value matches Value::List(l)
        && l@.len() > 0))
    ||| (binding_of(e, "roles"@) matches Option::Some(t) && (t.value matches Value::Dictionary(d)
        && d.fields@.len() > 0))
}

/// One valid resource definition result.
pub open spec fn event_ok(e: ResultEvent) -> bool {
    &&& (binding_of(e, "resource"@) matches Option::Some(d) && def_has_type(d))
    &&& (binding_of(e, "name"@) matches Option::Some(t) && t.value is Str)
    &&& (binding_of(e, "actions"@) matches Option::Some(t) && (actions_shape_ok(t)
        && !actions_dup(t)))
    &&& (binding_of(e, "roles"@) matches Option::Some(t) && roles_defs_ok(t))
    &&& event_has_content(e)
}

/// The resource name of an event, when it is a string.
pub open spec fn event_name(e: ResultEvent) -> Seq<char> {
    match binding_of(e, "name"@) {
        Option::Some(t) => match t.value {
            Value::Str(s) => s@,
            _ => Seq::empty(),
        },
        Option::None => Seq::empty(),
    }
}

/// Two events define the same resource name.
pub open spec fn dup_resource_names(events: Seq<ResultEvent>) -> bool {
    exists|i: int, j: int|
        #![trigger events[i], events[j]]
        0 <= i < j < events.len() && event_name(events[i]) == event_name(events[j])
}

/// The fixed predicate every roles policy must define.
pub open spec fn actor_rule_defined(rules: Seq<GenericRule>) -> bool {
    lookup_generic_rule(rules, "actor_has_role_for_resource"@) matches Option::Some(gr)
        && exists|k: int|
        0 <= k < gr.rules@.len() && (#[trigger] gr.rules@[k]).1.params@.len() == 3
}

/// A whole roles configuration is valid.
pub open spec fn config_valid(rules: Seq<GenericRule>, config: Seq<Vec<ResultEvent>>) -> bool {
    &&& actor_rule_defined(rules)
    &&& config.len() > 0
    &&& config[0]@.len() > 0
    &&& forall|i: int| 0 <= i < config[0]@.len() ==> event_ok(#[trigger] config[0]@[i])
    &&& !dup_resource_names(config[0]@)
}

fn roles_error(msg: &str) -> (r: PolarError)
    ensures
        r.context is None,
        r.kind matches ErrorKind::RolesValidation(RolesValidationError(m)) && m@ == msg@,
{
    PolarError::new(ErrorKind::RolesValidation(RolesValidationError(msg.to_owned())))
}

/// Check that the policy defines an `actor_has_role_for_resource` rule of
/// three parameters.
pub fn validate_actor_has_role_for_resource(rules: &Vec<GenericRule>) -> (r: PolarResult<()>)
    ensures
        match r {
            Result::Ok(_) => actor_rule_defined(rules@),
            Result::Err(e) => !actor_rule_defined(rules@) && e.context is None && (e.kind matches
                ErrorKind::RolesValidation(RolesValidationError(m)) && m@
                == "Need to define `actor_has_role_for_resource(actor, role_name, resource)` predicate to use Oso Roles.\n    Make sure to load policy before calling Oso.enable_roles()."@),
        },
{
    let name = Symbol::new("actor_has_role_for_resource");
    let ghost rs = rules@;
    let n = rules.len();
    let mut g: usize = 0;
    proof {
        assert(rs.skip(0) =~= rs);
    }
    while g < n
        invariant
            g <= n,
            n == rs.len(),
            rules@ == rs,
            name.0@ == "actor_has_role_for_resource"@,
            lookup_generic_rule(rs, name.0@) == lookup_generic_rule(rs.skip(g as int), name.0@),
        decreases n - g,
    {
        proof {
            assert(rs.skip(g as int).drop_first() =~= rs.skip(g + 1 as int));
            assert(rs.skip(g as int)[0] == rs[g as int]);
        }
        if rules[g].name.eq_sym(&name) {
            let nr = rules[g].rules.len();
            let mut k: usize = 0;
            while k < nr
                invariant
                    k <= nr,
                    g < n,
                    n == rs.len(),
                    rules@ == rs,
                    nr == rs[g as int].rules@.len(),
                    lookup_generic_rule(rs, "actor_has_role_for_resource"@) == Option::Some(
                        rs[g as int],
                    ),
                    forall|q: int|
                        0 <= q < k ==> (#[trigger] rs[g as int].rules@[q]).1.params@.len() != 3,
                decreases nr - k,
            {
                if rules[g].rules[k].1.params.len() == 3 {
                    return Result::Ok(());
                }
                k += 1;
            }
            return Result::Err(
                roles_error(
                    "Need to define `actor_has_role_for_resource(actor, role_name, resource)` predicate to use Oso Roles.\n    Make sure to load policy before calling Oso.enable_roles().",
                ),
            );
        }
        g += 1;
    }
    proof {
        assert(rs.skip(n as int) =~= Seq::<GenericRule>::empty());
    }
    Result::Err(
        roles_error(
            "Need to define `actor_has_role_for_resource(actor, role_name, resource)` predicate to use Oso Roles.\n    Make sure to load policy before calling Oso.enable_roles().",
        ),
    )
}

fn check_def_type(def: &Term) -> (r: bool)
    ensures
        r == def_has_type(*def),
{
    match &def.value {
        Value::Expression(o) => {
            if !matches!(o.operator, Operator::And) || o.args.len() != 1 {
                return false;
            }
            match &o.args[0].value {
                Value::Expression(o2) => {
                    if !matches!(o2.operator, Operator::Isa) || o2.args.len() != 2 {
                        return false;
                    }
                    let this_ok = match &o2.args[0].value {
                        Value::Variable(s) => s.0 == "_this".to_owned(),
                        _ => false,
                    };
                    let typ_ok = matches!(
                        &o2.args[1].value,
                        Value::Pattern(Pattern::Instance(_))
                    );
                    this_ok && typ_ok
                },
                _ => false,
            }
        },
        _ => false,
    }
}

fn check_actions_shape(actions: &Term) -> (r: bool)
    ensures
        r == actions_shape_ok(*actions),
{
    match &actions.value {
        Value::List(l) => {
            let n = l.len();
            let mut i: usize = 0;
            while i < n
                invariant
                    i <= n,
                    n == l@.len(),
                    actions.value == Value::List(*l),
                    forall|q: int| 0 <= q < i ==> (#[trigger] l@[q]).value is Str,
                decreases n - i,
            {
                if !matches!(&l[i].value, Value::Str(_)) {
                    return false;
                }
                i += 1;
            }
            true
        },
        Value::Variable(_) => true,
        _ => false,
    }
}

fn check_actions_dup(actions: &Term) -> (r: bool)
    ensures
        r == actions_dup(*actions),
{
    match &actions.value {
        Value::List(l) => {
            let n = l.len();
            let mut i: usize = 0;
            while i < n
                invariant
                    i <= n,
                    n == l@.len(),
                    actions.value == Value::List(*l),
                    forall|a: int, b: int|
                        #![trigger l@[a], l@[b]]
                        0 <= a < b < i ==> !(l@[a].value matches Value::Str(x) && (
                        l@[b].value matches Value::Str(y) && x@ == y@)),
                decreases n - i,
            {
                let mut j: usize = 0;
                while j < i
                    invariant
                        j <= i,
                        i < n,
                        n == l@.len(),
                        actions.value == Value::List(*l),
                        forall|a: int|
                            0 <= a < j ==> !((#[trigger] l@[a]).value matches Value::Str(x) && (
                            l@[i as int].value matches Value::Str(y) && x@ == y@)),
                    decreases i - j,
                {
                    let hit = match (&l[j].value, &l[i].value) {
                        (Value::Str(x), Value::Str(y)) => *x == *y,
                        _ => false,
                    };
                    if hit {
                        return true;
                    }
                    j += 1;
                }
                i += 1;
            }
            false
        },
        _ => false,
    }
}

fn check_str_list(t: &Term) -> (r: bool)
    ensures
        r == str_list_ok(*t),
{
    match &t.value {
        Value::List(l) => {
            let n = l.len();
            let mut i: usize = 0;
            while i < n
                invariant
                    i <= n,
                    n == l@.len(),
                    t.value == Value::List(*l),
                    forall|q: int| 0 <= q < i ==> (#[trigger] l@[q]).value is Str,
                decreases n - i,
            {
                if !matches!(&l[i].value, Value::Str(_)) {
                    return false;
                }
                i += 1;
            }
            true
        },
        _ => false,
    }
}

fn check_role_def(def: &Term) -> (r: bool)
    ensures
        r == role_def_ok(*def),
{
    match &def.value {
        Value::Dictionary(d) => {
            let n = d.fields.len();
            let mut i: usize = 0;
            while i < n
                invariant
                    i <= n,
                    n == d.fields@.len(),
                    def.value == Value::Dictionary(*d),
                    forall|q: int|
                        0 <= q < i ==> ((#[trigger] d.fields@[q]).0.0@ == "permissions"@
                            || d.fields@[q].0.0@ == "implies"@),
                decreases n - i,
            {
                let key_ok = d.fields[i].0.0 == "permissions".to_owned() || d.fields[i].0.0
                    == "implies".to_owned();
                if !key_ok {
                    return false;
                }
                i += 1;
            }
            let perms_key = Symbol::new("permissions");
            let implies_key = Symbol::new("implies");
            let mut perms_len: usize = 0;
            match crate::terms::lookup_in(&d.fields, &perms_key) {
                Option::Some(t) => {
                    if !check_str_list(t) {
                        return false;
                    }
                    perms_len = match &t.value {
                        Value::List(l) => l.len(),
                        _ => 0,
                    };
                },
                Option::None => {},
            }
            let mut implies_len: usize = 0;
            match crate::terms::lookup_in(&d.fields, &implies_key) {
                Option::Some(t) => {
                    if !check_str_list(t) {
                        return false;
                    }
                    implies_len = match &t.value {
                        Value::List(l) => l.len(),
                        _ => 0,
                    };
                },
                Option::None => {},
            }
            perms_len > 0 || implies_len > 0
        },
        _ => false,
    }
}

fn check_roles_defs(rolesv: &Term) -> (r: bool)
    ensures
        r == roles_defs_ok(*rolesv),
{
    match &rolesv.value {
        Value::Dictionary(d) => {
            let n = d.fields.len();
            let mut i: usize = 0;
            while i < n
                invariant
                    i <= n,
                    n == d.fields@.len(),
                    rolesv.value == Value::Dictionary(*d),
                    forall|q: int| 0 <= q < i ==> role_def_ok((#[trigger] d.fields@[q]).1),
                    forall|a: int, b: int|
                        #![trigger d.fields@[a], d.fields@[b]]
                        0 <= a < b < i ==> d.fields@[a].0.0@ != d.fields@[b].0.0@,
                decreases n - i,
            {
                let def_ok = check_role_def(&d.fields[i].1);
                if !def_ok {
                    proof {
                        assert(rolesv.value->Dictionary_0 == *d);
                        assert(roles_defs_ok(*rolesv) ==> role_def_ok((d.fields@[i as int]).1));
                    }
                    return false;
                }
                let mut j: usize = 0;
                while j < i
                    invariant
                        j <= i,
                        i < n,
                        n == d.fields@.len(),
                        rolesv.value == Value::Dictionary(*d),
                        forall|a: int|
                            0 <= a < j ==> (#[trigger] d.fields@[a]).0.0@ != d.fields@[
                                i as int
                            ].0.0@,
                    decreases i - j,
                {
                    if d.fields[j].0.eq_sym(&d.fields[i].0) {
                        proof {
                            assert(rolesv.value->Dictionary_0 == *d);
                            assert(roles_defs_ok(*rolesv) ==> (d.fields@[j as int]).0.0@ != (
                            d.fields@[i as int]).0.0@);
                        }
                        return false;
                    }
                    j += 1;
                }
                i += 1;
            }
            true
        },
        _ => true,
    }
}

/// `a` is the name of an action that appears twice.
pub open spec fn is_dup_action(actions: Term, a: Seq<char>) -> bool {
    actions.value matches Value::List(l) && exists|i: int, j: int|
        #![trigger l@[i], l@[j]]
        0 <= i < j < l@.len() && (l@[i].value matches Value::Str(x) && x@ == a) && (
        l@[j].value matches Value::Str(y) && y@ == a)
}

/// The name of a duplicated action, for the diagnostic.
fn find_dup_action(actions: &Term) -> (r: String)
    requires
        actions_dup(*actions),
    ensures
        is_dup_action(*actions, r@),
{
    match &actions.value {
        Value::List(l) => {
            let n = l.len();
            let mut i: usize = 0;
            while i < n
                invariant
                    i <= n,
                    n == l@.len(),
                    actions.value == Value::List(*l),
                    forall|a: int, b: int|
                        #![trigger l@[a], l@[b]]
                        0 <= a < b < i ==> !(l@[a].value matches Value::Str(x) && (
                        l@[b].value matches Value::Str(y) && x@ == y@)),
                decreases n - i,
            {
                let mut j: usize = 0;
                while j < i
                    invariant
                        j <= i,
                        i < n,
                        n == l@.len(),
                        actions.value == Value::List(*l),
                        forall|a: int|
                            0 <= a < j ==> !((#[trigger] l@[a]).value matches Value::Str(x) && (
                            l@[i as int].value matches Value::Str(y) && x@ == y@)),
                    decreases i - j,
                {
                    let hit = match (&l[j].value, &l[i].value) {
                        (Value::Str(x), Value::Str(y)) => *x == *y,
                        _ => false,
                    };
                    if hit {
                        let found = match &l[i].value {
                            Value::Str(y) => y.clone(),
                            _ => {
                                proof {
                                    assert(false);
                                }
                                String::new()
                            },
                        };
                        return found;
                    }
                    j += 1;
                }
                i += 1;
            }
            proof {
                assert(!actions_dup(*actions));
                assert(false);
            }
            String::new()
        },
        _ => {
            proof {
                assert(false);
            }
            String::new()
        },
    }
}

/// The tag of a resource definition's type specializer; empty when the
/// definition has none.
pub open spec fn def_type_tag(def: Term) -> Seq<char> {
    match def.value {
        Value::Expression(o) => if o.operator == Operator::And && o.args@.len() == 1 {
            match o.args@[0].value {
                Value::Expression(o2) => if o2.operator == Operator::Isa && o2.args@.len() == 2 {
                    match o2.args@[1].value {
                        Value::Pattern(Pattern::Instance(il)) => il.tag.0@,
                        _ => Seq::empty(),
                    }
                } else {
                    Seq::empty()
                },
                _ => Seq::empty(),
            }
        } else {
            Seq::empty()
        },
        _ => Seq::empty(),
    }
}

/// The type name of a resource definition, for diagnostics.
fn def_type_name(def: &Term) -> (r: String)
    requires
        def_has_type(*def),
    ensures
        r@ == def_type_tag(*def),
{
    match &def.value {
        Value::Expression(o) => {
            if o.args.len() == 1 {
                match &o.args[0].value {
                    Value::Expression(o2) => {
                        if o2.args.len() == 2 {
                            match &o2.args[1].value {
                                Value::Pattern(Pattern::Instance(il)) => {
                                    return il.tag.0.clone();
                                },
                                _ => {},
                            }
                        }
                    },
                    _ => {},
                }
            }
            proof {
                assert(false);
            }
            String::new()
        },
        _ => {
            proof {
                assert(false);
            }
            String::new()
        },
    }
}

/// Validate the whole roles configuration: the policy defines the required
/// predicate, at least one resource definition exists, every definition is
/// well shaped, and no resource name repeats.
pub fn validate_roles_config(
    rules: &Vec<GenericRule>,
    roles_config: Vec<Vec<ResultEvent>>,
) -> (r: PolarResult<()>)
    requires
        roles_config@.len() > 0 ==> forall|i: int|
            0 <= i < roles_config@[0]@.len() ==> event_bindings_present(
                #[trigger] roles_config@[0]@[i],
            ),
    ensures
        match r {
            Result::Ok(_) => config_valid(rules@, roles_config@),
            Result::Err(e) => {
                &&& !config_valid(rules@, roles_config@)
                &&& e.context is None
                &&& e.kind matches ErrorKind::RolesValidation(RolesValidationError(_))
                &&& !actor_rule_defined(rules@) ==> (e.kind matches ErrorKind::RolesValidation(
                    RolesValidationError(m),
                ) && m@
                    == "Need to define `actor_has_role_for_resource(actor, role_name, resource)` predicate to use Oso Roles.\n    Make sure to load policy before calling Oso.enable_roles()."@)
                &&& (actor_rule_defined(rules@) && (roles_config@.len() == 0 || roles_config@[0]@.len()
                    == 0)) ==> (e.kind matches ErrorKind::RolesValidation(RolesValidationError(m))
                    && m@ == "Need to define at least one `resource(type, name, actions, roles)` predicate to use Oso Roles."@)
            },
        },
{
    match validate_actor_has_role_for_resource(rules) {
        Result::Err(e) => {
            return Result::Err(e);
        },
        Result::Ok(_) => {},
    }
    if roles_config.len() == 0 {
        return Result::Err(
            roles_error(
                "Need to define at least one `resource(type, name, actions, roles)` predicate to use Oso Roles.",
            ),
        );
    }
    let role_resources = &roles_config[0];
    if role_resources.len() == 0 {
        return Result::Err(
            roles_error(
                "Need to define at least one `resource(type, name, actions, roles)` predicate to use Oso Roles.",
            ),
        );
    }
    let mut names: Vec<String> = Vec::new();
    let n = role_resources.len();
    let mut i: usize = 0;
    while i < n
        invariant
            i <= n,
            actor_rule_defined(rules@),
            roles_config@.len() > 0,
            n == roles_config@[0]@.len(),
            role_resources@ == roles_config@[0]@,
            forall|q: int|
                0 <= q < n ==> event_bindings_present(#[trigger] roles_config@[0]@[q]),
            forall|q: int| 0 <= q < i ==> event_ok(#[trigger] roles_config@[0]@[q]),
            names@.len() == i,
            forall|q: int|
                0 <= q < i ==> (#[trigger] names@[q])@ == event_name(roles_config@[0]@[q]),
            forall|q1: int, q2: int|
                #![trigger names@[q1], names@[q2]]
                0 <= q1 < q2 < i ==> names@[q1]@ != names@[q2]@,
        decreases n - i,
    {
        let e = &role_resources[i];
        let resource_def = match e.bindings.get(&Symbol::new("resource")) {
            Option::Some(t) => t,
            Option::None => {
                proof {
                    assert(false);
                }
                return Result::Err(roles_error("missing binding"));
            },
        };
        let name_t = match e.bindings.get(&Symbol::new("name")) {
            Option::Some(t) => t,
            Option::None => {
                proof {
                    assert(false);
                }
                return Result::Err(roles_error("missing binding"));
            },
        };
        let actions_t = match e.bindings.get(&Symbol::new("actions")) {
            Option::Some(t) => t,
            Option::None => {
                proof {
                    assert(false);
                }
                return Result::Err(roles_error("missing binding"));
            },
        };
        let roles_t = match e.bindings.get(&Symbol::new("roles")) {
            Option::Some(t) => t,
            Option::None => {
                proof {
                    assert(false);
                }
                return Result::Err(roles_error("missing binding"));
            },
        };
        if !check_def_type(resource_def) {
            return Result::Err(roles_error("Invalid resource, no type specializer."));
        }
        let name_s: String = match &name_t.value {
            Value::Str(sv) => sv.clone(),
            _ => {
                return Result::Err(roles_error("Invalid resource, name is not a string."));
            },
        };
        if !check_actions_shape(actions_t) {
            return Result::Err(roles_error("Invalid actions."));
        }
        if check_actions_dup(actions_t) {
            let dup_action = find_dup_action(actions_t);
            let typ = def_type_name(resource_def);
            let mut msg: String = "Duplicate action ".to_owned();
            msg.append(dup_action.as_str());
            msg.append(" for ");
            msg.append(typ.as_str());
            msg.append(".");
            return Result::Err(
                PolarError::new(ErrorKind::RolesValidation(RolesValidationError(msg))),
            );
        }
        if !check_roles_defs(roles_t) {
            return Result::Err(roles_error("Invalid role definitions."));
        }
        proof {
            assert(name_s@ == event_name(roles_config@[0]@[i as int]));
        }
        let actions_nonempty = match &actions_t.value {
            Value::List(l) => l.len() > 0,
            _ => false,
        };
        let roles_nonempty = match &roles_t.value {
            Value::Dictionary(d) => d.fields.len() > 0,
            _ => false,
        };
        if !actions_nonempty && !roles_nonempty {
            return Result::Err(roles_error("Must define actions or roles."));
        }
        let nn = names.len();
        let mut q: usize = 0;
        while q < nn
            invariant
                q <= nn,
                i < n,
                nn == names@.len(),
                nn == i,
                actor_rule_defined(rules@),
                roles_config@.len() > 0,
                n == roles_config@[0]@.len(),
                name_s@ == event_name(roles_config@[0]@[i as int]),
                forall|q2: int|
                    0 <= q2 < nn ==> (#[trigger] names@[q2])@ == event_name(
                        roles_config@[0]@[q2],
                    ),
                forall|q2: int| 0 <= q2 < q ==> (#[trigger] names@[q2])@ != name_s@,
            decreases nn - q,
        {
            if names[q] == name_s {
                let mut msg: String = "Duplicate resource name ".to_owned();
                msg.append(name_s.as_str());
                msg.append(".");
                proof {
                    assert(event_name(roles_config@[0]@[q as int]) == event_name(
                        roles_config@[0]@[i as int],
                    ));
                    assert(dup_resource_names(roles_config@[0]@));
                }
                return Result::Err(
                    PolarError::new(ErrorKind::RolesValidation(RolesValidationError(msg))),
                );
            }
            q += 1;
        }
        names.push(name_s);
        i += 1;
    }
    proof {
        assert forall|a: int, b: int|
            #![trigger roles_config@[0]@[a], roles_config@[0]@[b]]
            0 <= a < b < roles_config@[0]@.len() implies event_name(roles_config@[0]@[a])
            != event_name(roles_config@[0]@[b]) by {
            assert(names@[a]@ != names@[b]@);
            assert(names@[a]@ == event_name(roles_config@[0]@[a]));
            assert(names@[b]@ == event_name(roles_config@[0]@[b]));
        }
    }
    Result::Ok(())
}

} // verus!
