//! The declarative resource-block surface: role/permission/relation
//! declarations per resource, and the shorthand implications that compile
//! down to base `has_role`/`has_permission`/`has_relation` rules.

use vstd::prelude::*;

use crate::errors::{ErrorKind, ParseError, PolarError, PolarResult, RuntimeError};
use crate::fmt::term_to_polar_s;
use crate::kb::{gr_with_added, rules_with_added, KnowledgeBase};
use crate::rules::GenericRule;
use crate::rules::Rule;
use crate::terms::{same_term, term_eq, veq, Call, Dictionary, InstanceLiteral, Operation,
    Parameter,
    Operator, Pattern, SourceInfo, Symbol, Term, Value};

verus! {

/// A pre-validation bridge between the parser's productions and a resource
/// block.
pub enum Production {
    /// `roles = [ ... ];` — a list of strings.
    Roles(Term),
    /// `permissions = [ ... ];` — a list of strings.
    Permissions(Term),
    /// `relations = { ... };` — a dictionary of name to registered class.
    Relations(Term),
    /// `"head" if "implier" [on "relation"];`
    Implication(Term, (Term, Option<Term>)),
}

/// What a name was declared as within one resource block.
pub enum Declaration {
    Role,
    Permission,
    /// The term is the declared type of the relation: `Org` in
    /// `parent: Org`.
    Relation(Term),
}

/// A shorthand implication. The head is a string term; the body is the
/// implier string term with an optional relation string term, as in
/// `"writer" if "owner" on "parent";`.
pub struct Implication {
    pub head: Term,
    pub body: (Term, Option<Term>),
}

/// Whether a block belongs to an actor or a resource type.
#[derive(PartialEq, Eq, Structural, Clone, Copy)]
pub enum EntityType {
    Actor,
    Resource,
}

/// One parsed resource block, before indexing.
pub struct ResourceBlock {
    pub entity_type: EntityType,
    pub resource: Term,
    pub roles: Option<Term>,
    pub permissions: Option<Term>,
    pub relations: Option<Term>,
    pub implications: Vec<Implication>,
}

/// The declarations of one resource block, keyed by the declared name term.
pub type Declarations = Vec<(Term, Declaration)>;

/// The declaration under a name term, comparing keys by value equality.
pub open spec fn decl_lookup(ds: Seq<(Term, Declaration)>, key: Term) -> Option<Declaration>
    decreases ds.len(),
{
    if ds.len() == 0 {
        Option::None
    } else if veq(ds[0].0, key) {
        Option::Some(ds[0].1)
    } else {
        decl_lookup(ds.drop_first(), key)
    }
}

/// Whether a term sequence holds `key` by value equality.
pub open spec fn term_set_has(s: Seq<Term>, key: Term) -> bool {
    exists|i: int| 0 <= i < s.len() && veq(#[trigger] s[i], key)
}

/// Find the declaration under `key`, first occurrence by value equality.
pub fn decl_get<'a>(ds: &'a Declarations, key: &Term) -> (r: Option<&'a Declaration>)
    ensures
        match r {
            Option::Some(d) => decl_lookup(ds@, *key) == Option::Some(*d),
            Option::None => decl_lookup(ds@, *key) is None,
        },
{
    let n = ds.len();
    let mut i: usize = 0;
    proof {
        assert(ds@.skip(0) =~= ds@);
    }
    while i < n
        invariant
            i <= n,
            n == ds@.len(),
            decl_lookup(ds@, *key) == decl_lookup(ds@.skip(i as int), *key),
        decreases n - i,
    {
        proof {
            assert(ds@.skip(i as int).drop_first() =~= ds@.skip(i + 1 as int));
            assert(ds@.skip(i as int)[0] == ds@[i as int]);
        }
        if term_eq(&ds[i].0, key) {
            return Option::Some(&ds[i].1);
        }
        i += 1;
    }
    proof {
        assert(ds@.skip(n as int) =~= Seq::<(Term, Declaration)>::empty());
    }
    Option::None
}

impl Declaration {
    /// The declared relation type; a type error when this declaration is
    /// not a relation.
    pub fn as_relation_type(&self) -> (r: PolarResult<&Term>)
        ensures
            match r {
                Result::Ok(t) => *self matches Declaration::Relation(rt) && *t == rt,
                Result::Err(e) => !(*self is Relation) && e.context is None && e.kind matches
                    ErrorKind::Runtime(RuntimeError::TypeError { .. }),
            },
    {
        match self {
            Declaration::Relation(relation) => Result::Ok(relation),
            Declaration::Role => Result::Err(
                PolarError::new(
                    ErrorKind::Runtime(
                        RuntimeError::TypeError { msg: "Expected Relation; got: Role".to_owned() },
                    ),
                ),
            ),
            Declaration::Permission => Result::Err(
                PolarError::new(
                    ErrorKind::Runtime(
                        RuntimeError::TypeError {
                            msg: "Expected Relation; got: Permission".to_owned(),
                        },
                    ),
                ),
            ),
        }
    }

    /// The generated predicate name for this declaration's category.
    pub fn as_rule_name(&self) -> (r: Symbol)
        ensures
            r.0@ == self.spec_rule_name(),
    {
        match self {
            Declaration::Role => Symbol::new("has_role"),
            Declaration::Permission => Symbol::new("has_permission"),
            Declaration::Relation(_) => Symbol::new("has_relation"),
        }
    }

    /// The generated predicate name, at the spec level.
    pub open spec fn spec_rule_name(&self) -> Seq<char> {
        match self {
            Declaration::Role => "has_role"@,
            Declaration::Permission => "has_permission"@,
            Declaration::Relation(_) => "has_relation"@,
        }
    }
}

/// One accepted resource block: its kind, name, indexed declarations and
/// implications.
pub struct BlockEntry {
    pub entity_type: EntityType,
    pub resource: Term,
    pub declarations: Declarations,
    pub implications: Vec<Implication>,
}

/// The accumulated resource blocks of the current load batch, keyed by the
/// resource name term.
pub struct ResourceBlocks {
    pub blocks: Vec<BlockEntry>,
}

/// The block entry under a resource name term, comparing names by value
/// equality.
pub open spec fn blocks_lookup(bs: Seq<BlockEntry>, key: Term) -> Option<BlockEntry>
    decreases bs.len(),
{
    if bs.len() == 0 {
        Option::None
    } else if veq(bs[0].resource, key) {
        Option::Some(bs[0])
    } else {
        blocks_lookup(bs.drop_first(), key)
    }
}

/// Find the block entry under a resource name term.
pub fn blocks_get<'a>(bs: &'a Vec<BlockEntry>, key: &Term) -> (r: Option<&'a BlockEntry>)
    ensures
        match r {
            Option::Some(b) => blocks_lookup(bs@, *key) == Option::Some(*b),
            Option::None => blocks_lookup(bs@, *key) is None,
        },
{
    let n = bs.len();
    let mut i: usize = 0;
    proof {
        assert(bs@.skip(0) =~= bs@);
    }
    while i < n
        invariant
            i <= n,
            n == bs@.len(),
            blocks_lookup(bs@, *key) == blocks_lookup(bs@.skip(i as int), *key),
        decreases n - i,
    {
        proof {
            assert(bs@.skip(i as int).drop_first() =~= bs@.skip(i + 1 as int));
            assert(bs@.skip(i as int)[0] == bs@[i as int]);
        }
        if term_eq(&bs[i].resource, key) {
            return Option::Some(&bs[i]);
        }
        i += 1;
    }
    proof {
        assert(bs@.skip(n as int) =~= Seq::<BlockEntry>::empty());
    }
    Option::None
}

impl ResourceBlocks {
    /// Whether no block state is held.
    pub open spec fn is_cleared(&self) -> bool {
        self.blocks@.len() == 0
    }

    pub fn new() -> (r: ResourceBlocks)
        ensures
            r.is_cleared(),
    {
        ResourceBlocks { blocks: Vec::new() }
    }

    /// Drop all accumulated block state.
    pub fn clear(&mut self)
        ensures
            final(self).is_cleared(),
    {
        self.blocks.clear();
    }

    /// Record one validated block's declarations and implications under its
    /// resource name term.
    pub fn add(
        &mut self,
        entity_type: EntityType,
        resource: Term,
        declarations: Declarations,
        implications: Vec<Implication>,
    )
        ensures
            final(self).blocks@ == old(self).blocks@.push(
                BlockEntry { entity_type, resource, declarations, implications },
            ),
    {
        self.blocks.push(BlockEntry { entity_type, resource, declarations, implications });
    }

    /// Whether a block was already recorded under this resource name.
    pub fn has_block(&self, resource: &Term) -> (r: bool)
        ensures
            r == (blocks_lookup(self.blocks@, *resource) is Some),
    {
        blocks_get(&self.blocks, resource).is_some()
    }

    /// Look up `declaration` in the `resource` block, which must exist.
    pub fn get_declaration_in_resource_block<'a>(
        &'a self,
        declaration: &Term,
        resource: &Term,
    ) -> (r: PolarResult<&'a Declaration>)
        requires
            blocks_lookup(self.blocks@, *resource) is Some,
        ensures
            match r {
                Result::Ok(d) => blocks_lookup(self.blocks@, *resource) matches Option::Some(b)
                    && decl_lookup(b.declarations@, *declaration) == Option::Some(*d),
                Result::Err(e) => {
                    &&& blocks_lookup(self.blocks@, *resource) matches Option::Some(b)
                        && decl_lookup(b.declarations@, *declaration) is None
                    &&& e.context is None
                    &&& e.kind matches ErrorKind::Parse(ParseError::ParseSugar { loc, msg, ranges })
                        && loc == declaration.spec_offset() && ranges@.len() == 0
                },
            },
    {
        let ds = match blocks_get(&self.blocks, resource) {
            Option::Some(b) => &b.declarations,
            Option::None => {
                proof {
                    assert(false);
                }
                return Result::Err(PolarError::new(ErrorKind::Runtime(RuntimeError::TypeError {
                    msg: String::new(),
                })));
            },
        };
        match decl_get(ds, declaration) {
            Option::Some(d) => Result::Ok(d),
            Option::None => {
                let mut msg: String = "Undeclared term ".to_owned();
                msg.append(declaration.to_polar().as_str());
                msg.append(" referenced in rule in the '");
                msg.append(resource.to_polar().as_str());
                msg.append(
                    "' resource block. Did you mean to declare it as a role, permission, or relation?",
                );
                Result::Err(
                    PolarError::new(
                        ErrorKind::Parse(
                            ParseError::ParseSugar {
                                loc: declaration.offset(),
                                msg,
                                ranges: Vec::new(),
                            },
                        ),
                    ),
                )
            },
        }
    }

    /// Look up `relation` in the `resource` block and return its declared
    /// type.
    pub fn get_relation_type_in_resource_block<'a>(
        &'a self,
        relation: &Term,
        resource: &Term,
    ) -> (r: PolarResult<&'a Term>)
        requires
            blocks_lookup(self.blocks@, *resource) is Some,
        ensures
            match r {
                Result::Ok(t) => blocks_lookup(self.blocks@, *resource) matches Option::Some(b)
                    && decl_lookup(b.declarations@, *relation) matches Option::Some(d) && (
                d matches Declaration::Relation(rt) && rt == *t),
                Result::Err(e) => {
                    &&& blocks_lookup(self.blocks@, *resource) matches Option::Some(b) && match
                        decl_lookup(b.declarations@, *relation) {
                        Option::Some(d) => !(d is Relation),
                        Option::None => true,
                    }
                    &&& e.context is None
                },
            },
    {
        match self.get_declaration_in_resource_block(relation, resource) {
            Result::Ok(d) => d.as_relation_type(),
            Result::Err(e) => Result::Err(e),
        }
    }

    /// Look up `declaration` in the `resource` block and return the rule
    /// name its category rewrites to.
    pub fn get_rule_name_for_declaration_in_resource_block(
        &self,
        declaration: &Term,
        resource: &Term,
    ) -> (r: PolarResult<Symbol>)
        requires
            blocks_lookup(self.blocks@, *resource) is Some,
        ensures
            match r {
                Result::Ok(name) => blocks_lookup(self.blocks@, *resource) matches Option::Some(b)
                    && decl_lookup(b.declarations@, *declaration) matches Option::Some(d)
                    && name.0@ == d.spec_rule_name(),
                Result::Err(e) => {
                    &&& blocks_lookup(self.blocks@, *resource) matches Option::Some(b)
                        && decl_lookup(b.declarations@, *declaration) is None
                    &&& e.context is None
                },
            },
    {
        match self.get_declaration_in_resource_block(declaration, resource) {
            Result::Ok(d) => Result::Ok(d.as_rule_name()),
            Result::Err(e) => Result::Err(e),
        }
    }

    /// Traverse from the `resource` block to the related block via
    /// `relation`, then look up `declaration` there and return the rule name
    /// its category rewrites to. A missing related block and a missing
    /// declaration in it are distinct errors.
    pub fn get_rule_name_for_declaration_in_related_resource_block(
        &self,
        declaration: &Term,
        relation: &Term,
        resource: &Term,
    ) -> (r: PolarResult<Symbol>)
        requires
            blocks_lookup(self.blocks@, *resource) is Some,
        ensures
            match r {
                Result::Ok(name) => related_decl(*self, *declaration, *relation, *resource) matches
                    Option::Some(d) && name.0@ == d.spec_rule_name(),
                Result::Err(e) => related_decl(*self, *declaration, *relation, *resource) is None
                    && e.context is None,
            },
    {
        let related_block = match self.get_relation_type_in_resource_block(relation, resource) {
            Result::Ok(t) => t,
            Result::Err(e) => {
                return Result::Err(e);
            },
        };
        match blocks_get(&self.blocks, related_block) {
            Option::Some(related) => match decl_get(&related.declarations, declaration) {
                Option::Some(d) => Result::Ok(d.as_rule_name()),
                Option::None => {
                    let mut msg = resource.to_polar();
                    msg.append(": Term ");
                    msg.append(declaration.to_polar().as_str());
                    msg.append(" not declared in related resource block '");
                    msg.append(related_block.to_polar().as_str());
                    msg.append(
                        "'. Did you mean to declare it as a role, permission, or relation in the '",
                    );
                    msg.append(related_block.to_polar().as_str());
                    msg.append("' resource block?");
                    Result::Err(
                        PolarError::new(
                            ErrorKind::Parse(
                                ParseError::ParseSugar {
                                    loc: declaration.offset(),
                                    msg,
                                    ranges: Vec::new(),
                                },
                            ),
                        ),
                    )
                },
            },
            Option::None => {
                let mut msg = resource.to_polar();
                msg.append(": Relation ");
                msg.append(relation.to_polar().as_str());
                msg.append(" in rule body `");
                msg.append(declaration.to_polar().as_str());
                msg.append(" on ");
                msg.append(relation.to_polar().as_str());
                msg.append("` has type '");
                msg.append(related_block.to_polar().as_str());
                msg.append("', but no such resource block exists. Try declaring one: `resource ");
                msg.append(related_block.to_polar().as_str());
                msg.append(" {}`");
                Result::Err(
                    PolarError::new(
                        ErrorKind::Parse(
                            ParseError::ParseSugar {
                                loc: related_block.offset(),
                                msg,
                                ranges: Vec::new(),
                            },
                        ),
                    ),
                )
            },
        }
    }
}

// ---------------------------------------------------------------------------
// Rewriting implications into rules
// ---------------------------------------------------------------------------

/// What `str::to_lowercase` returns for the given characters; the result
/// depends on the characters alone.
pub uninterp spec fn lower_of(s: Seq<char>) -> Seq<char>;

/// Relies on `str::to_lowercase`: the lowercase mapping of the string's
/// characters, a function of those characters alone.
#[verifier::external_body]
fn lowercase(s: &String) -> (r: String)
    ensures
        r@ == lower_of(s@),
{
    s.as_str().to_lowercase()
}

/// The variable name derived from a resource type name: its lowercasing,
/// with `_instance` appended only when lowercasing changed nothing (so the
/// variable cannot shadow an already-lowercase type name).
pub open spec fn resource_var_name(name: Seq<char>) -> Seq<char> {
    if lower_of(name) == name {
        name + "_instance"@
    } else {
        lower_of(name)
    }
}

/// The symbol name of a variable term; empty for any other term.
pub open spec fn var_name_of(t: Term) -> Seq<char> {
    match t.value {
        Value::Variable(s) => s.0@,
        _ => Seq::empty(),
    }
}

/// Derive the body/parameter variable for a resource from its type name.
pub fn resource_as_var(resource: &Term) -> (r: Value)
    requires
        resource.value is Variable,
    ensures
        r matches Value::Variable(s) && s.0@ == resource_var_name(var_name_of(*resource)),
{
    let name: String = match &resource.value {
        Value::Variable(s) => s.0.clone(),
        _ => {
            proof {
                assert(false);
            }
            String::new()
        },
    };
    let lowercased = lowercase(&name);
    if lowercased == name {
        let mut out = lowercased;
        out.append("_instance");
        Value::Variable(Symbol(out))
    } else {
        Value::Variable(Symbol(lowercased))
    }
}

/// The declaration under `name` in `resource`'s block, if both exist.
pub open spec fn decl_of(blocks: ResourceBlocks, resource: Term, name: Term) -> Option<
    Declaration,
> {
    match blocks_lookup(blocks.blocks@, resource) {
        Option::Some(b) => decl_lookup(b.declarations@, name),
        Option::None => Option::None,
    }
}

/// The declared type of `relation` in `resource`'s block, when declared as
/// a relation.
pub open spec fn relation_type_of(blocks: ResourceBlocks, resource: Term, relation: Term) -> Option<
    Term,
> {
    match decl_of(blocks, resource, relation) {
        Option::Some(Declaration::Relation(rt)) => Option::Some(rt),
        _ => Option::None,
    }
}

/// A variable term with the given name at the given source position.
pub open spec fn is_var_term(t: Term, name: Seq<char>, src: SourceInfo) -> bool {
    t.source_info == src && (t.value matches Value::Variable(s) && s.0@ == name)
}

/// The relation declarations of every accepted block name variable-valued
/// types, and every block name is itself a variable term. The indexer only
/// accepts such blocks.
pub open spec fn block_entry_wf(b: BlockEntry) -> bool {
    &&& b.resource.value is Variable
    &&& forall|j: int|
        0 <= j < b.declarations@.len() ==> ((#[trigger] b.declarations@[j]).1 matches
            Declaration::Relation(rt) ==> rt.value is Variable)
}

/// Every accepted block is well formed.
pub open spec fn blocks_wf(blocks: ResourceBlocks) -> bool {
    forall|i: int| 0 <= i < blocks.blocks@.len() ==> block_entry_wf(#[trigger] blocks.blocks@[i])
}

/// A block found by lookup is one of the blocks.
proof fn lemma_blocks_lookup_elem(bs: Seq<BlockEntry>, key: Term)
    requires
        blocks_lookup(bs, key) is Some,
    ensures
        exists|i: int| 0 <= i < bs.len() && #[trigger] bs[i] == blocks_lookup(bs, key)->0,
    decreases bs.len(),
{
    if bs.len() > 0 && !veq(bs[0].resource, key) {
        lemma_blocks_lookup_elem(bs.drop_first(), key);
        let i = choose|i: int|
            0 <= i < bs.drop_first().len() && #[trigger] bs.drop_first()[i] == blocks_lookup(
                bs.drop_first(),
                key,
            )->0;
        assert(bs[i + 1] == bs.drop_first()[i]);
    }
}

/// A declaration found by lookup is one of the declarations.
proof fn lemma_decl_lookup_elem(ds: Seq<(Term, Declaration)>, key: Term)
    requires
        decl_lookup(ds, key) is Some,
    ensures
        exists|i: int| 0 <= i < ds.len() && (#[trigger] ds[i]).1 == decl_lookup(ds, key)->0,
    decreases ds.len(),
{
    if ds.len() > 0 && !veq(ds[0].0, key) {
        lemma_decl_lookup_elem(ds.drop_first(), key);
        let i = choose|i: int|
            0 <= i < ds.drop_first().len() && (#[trigger] ds.drop_first()[i]).1 == decl_lookup(
                ds.drop_first(),
                key,
            )->0;
        assert(ds[i + 1] == ds.drop_first()[i]);
    }
}

/// The three fixed parameters of a rewritten implication: `actor`
/// specialized on the built-in Actor pattern, the head term itself bare,
/// and a resource-typed variable specialized on the resource's type name.
pub open spec fn is_implication_params(ps: Seq<Parameter>, head: Term, resource: Term) -> bool {
    &&& ps.len() == 3
    &&& ps[0].parameter.source_info == head.source_info
    &&& (ps[0].parameter.value matches Value::Variable(s) && s.0@ == "actor"@)
    &&& (ps[0].specializer matches Option::Some(sp) && {
        &&& sp.source_info == head.source_info
        &&& (sp.value matches Value::Pattern(Pattern::Instance(il)) && il.tag.0@ == "Actor"@
            && il.fields.fields@.len() == 0)
    })
    &&& same_term(ps[1].parameter, head)
    &&& ps[1].specializer is None
    &&& ps[2].parameter.source_info == head.source_info
    &&& (ps[2].parameter.value matches Value::Variable(s2) && s2.0@ == resource_var_name(
        var_name_of(resource),
    ))
    &&& (ps[2].specializer matches Option::Some(sp2) && {
        &&& sp2.source_info == resource.source_info
        &&& (sp2.value matches Value::Pattern(Pattern::Instance(il2)) && il2.tag.0@ == var_name_of(
            resource,
        ) && il2.fields.fields@.len() == 0)
    })
}

/// The body of a local implication: a one-element conjunction of
/// `<category>(actor, implier, <resource var>)`.
pub open spec fn is_local_body(t: Term, implier: Term, resource: Term, blocks: ResourceBlocks) -> bool {
    &&& t.source_info == implier.source_info
    &&& (t.value matches Value::Expression(o) && {
        &&& o.operator == Operator::And
        &&& o.args@.len() == 1
        &&& o.args@[0].source_info == implier.source_info
        &&& (o.args@[0].value matches Value::Call(c) && {
            &&& (decl_of(blocks, resource, implier) matches Option::Some(d) && c.name.0@
                == d.spec_rule_name())
            &&& c.args@.len() == 3
            &&& is_var_term(c.args@[0], "actor"@, implier.source_info)
            &&& same_term(c.args@[1], implier)
            &&& is_var_term(
                c.args@[2],
                resource_var_name(var_name_of(resource)),
                implier.source_info,
            )
        })
    })
}

/// The body of a cross-resource implication: a conjunction of
/// `has_relation(<related var>, relation, <resource var>)` followed by
/// `<category in related block>(actor, implier, <related var>)`.
pub open spec fn is_relational_body(
    t: Term,
    implier: Term,
    relation: Term,
    resource: Term,
    blocks: ResourceBlocks,
) -> bool {
    &&& (relation_type_of(blocks, resource, relation) matches Option::Some(related_type) && {
        &&& t.source_info == implier.source_info
        &&& (t.value matches Value::Expression(o) && {
            &&& o.operator == Operator::And
            &&& o.args@.len() == 2
            &&& o.args@[0].source_info == relation.source_info
            &&& (o.args@[0].value matches Value::Call(c1) && {
                &&& c1.name.0@ == "has_relation"@
                &&& c1.args@.len() == 3
                &&& is_var_term(
                    c1.args@[0],
                    resource_var_name(var_name_of(related_type)),
                    relation.source_info,
                )
                &&& same_term(c1.args@[1], relation)
                &&& is_var_term(
                    c1.args@[2],
                    resource_var_name(var_name_of(resource)),
                    implier.source_info,
                )
            })
            &&& o.args@[1].source_info == implier.source_info
            &&& (o.args@[1].value matches Value::Call(c2) && {
                &&& (related_decl(blocks, implier, relation, resource) matches Option::Some(d)
                    && c2.name.0@ == d.spec_rule_name())
                &&& c2.args@.len() == 3
                &&& is_var_term(c2.args@[0], "actor"@, implier.source_info)
                &&& same_term(c2.args@[1], implier)
                &&& is_var_term(
                    c2.args@[2],
                    resource_var_name(var_name_of(related_type)),
                    relation.source_info,
                )
            })
        })
    })
}

/// Turn an implication head into the three parameters of the rewritten
/// rule.
pub fn implication_head_to_params(head: &Term, resource: &Term) -> (r: Vec<Parameter>)
    requires
        resource.value is Variable,
    ensures
        is_implication_params(r@, *head, *resource),
{
    let resource_name: String = match &resource.value {
        Value::Variable(s) => s.0.clone(),
        _ => {
            proof {
                assert(false);
            }
            String::new()
        },
    };
    let mut params: Vec<Parameter> = Vec::new();
    params.push(
        Parameter {
            parameter: head.clone_with_value(Value::Variable(Symbol::new("actor"))),
            specializer: Option::Some(
                head.clone_with_value(
                    Value::Pattern(
                        Pattern::Instance(
                            InstanceLiteral {
                                tag: Symbol::new("Actor"),
                                fields: Dictionary { fields: Vec::new() },
                            },
                        ),
                    ),
                ),
            ),
        },
    );
    params.push(Parameter { parameter: head.clone(), specializer: Option::None });
    params.push(
        Parameter {
            parameter: head.clone_with_value(resource_as_var(resource)),
            specializer: Option::Some(
                resource.clone_with_value(
                    Value::Pattern(
                        Pattern::Instance(
                            InstanceLiteral {
                                tag: Symbol(resource_name),
                                fields: Dictionary { fields: Vec::new() },
                            },
                        ),
                    ),
                ),
            ),
        },
    );
    params
}

/// Turn an implication body into a conjunction of calls: one call for a
/// local implication, a relation call followed by the implier call for a
/// cross-resource implication.
pub fn implication_body_to_rule_body(
    body: &(Term, Option<Term>),
    resource: &Term,
    blocks: &ResourceBlocks,
) -> (r: PolarResult<Term>)
    requires
        resource.value is Variable,
        blocks_lookup(blocks.blocks@, *resource) is Some,
        blocks_wf(*blocks),
    ensures
        match r {
            Result::Ok(t) => match body.1 {
                Option::Some(rel) => is_relational_body(t, body.0, rel, *resource, *blocks),
                Option::None => is_local_body(t, body.0, *resource, *blocks),
            },
            Result::Err(e) => e.context is None && match body.1 {
                Option::Some(rel) => related_decl(*blocks, body.0, rel, *resource) is None,
                Option::None => decl_of(*blocks, *resource, body.0) is None,
            },
        },
{
    let implier = &body.0;
    let resource_var = implier.clone_with_value(resource_as_var(resource));
    let actor_var = implier.clone_with_value(Value::Variable(Symbol::new("actor")));
    match &body.1 {
        Option::Some(relation) => {
            let relation_type = match blocks.get_relation_type_in_resource_block(
                relation,
                resource,
            ) {
                Result::Ok(t) => t,
                Result::Err(e) => {
                    return Result::Err(e);
                },
            };
            proof {
                lemma_blocks_lookup_elem(blocks.blocks@, *resource);
                lemma_decl_lookup_elem(
                    blocks_lookup(blocks.blocks@, *resource)->0.declarations@,
                    *relation,
                );
            }
            let relation_type_var = relation.clone_with_value(resource_as_var(relation_type));
            let mut rel_args: Vec<Term> = Vec::new();
            rel_args.push(relation_type_var.clone());
            rel_args.push(relation.clone());
            rel_args.push(resource_var);
            let relation_call = relation.clone_with_value(
                Value::Call(Call { name: Symbol::new("has_relation"), args: rel_args }),
            );
            let implier_rule_name = match blocks
                .get_rule_name_for_declaration_in_related_resource_block(
                implier,
                relation,
                resource,
            ) {
                Result::Ok(n) => n,
                Result::Err(e) => {
                    return Result::Err(e);
                },
            };
            let mut imp_args: Vec<Term> = Vec::new();
            imp_args.push(actor_var);
            imp_args.push(implier.clone());
            imp_args.push(relation_type_var);
            let implier_call = implier.clone_with_value(
                Value::Call(Call { name: implier_rule_name, args: imp_args }),
            );
            let mut and_args: Vec<Term> = Vec::new();
            and_args.push(relation_call);
            and_args.push(implier_call);
            Result::Ok(
                implier.clone_with_value(
                    Value::Expression(Operation { operator: Operator::And, args: and_args }),
                ),
            )
        },
        Option::None => {
            let implier_rule_name = match blocks.get_rule_name_for_declaration_in_resource_block(
                implier,
                resource,
            ) {
                Result::Ok(n) => n,
                Result::Err(e) => {
                    return Result::Err(e);
                },
            };
            let mut imp_args: Vec<Term> = Vec::new();
            imp_args.push(actor_var);
            imp_args.push(implier.clone());
            imp_args.push(resource_var);
            let implier_call = implier.clone_with_value(
                Value::Call(Call { name: implier_rule_name, args: imp_args }),
            );
            let mut and_args: Vec<Term> = Vec::new();
            and_args.push(implier_call);
            Result::Ok(
                implier.clone_with_value(
                    Value::Expression(Operation { operator: Operator::And, args: and_args }),
                ),
            )
        },
    }
}

/// The provenance of a rewritten rule: the head's source id and span, with
/// zeroes where the head has none.
pub open spec fn implication_src(head: Term) -> SourceInfo {
    match head.source_info {
        SourceInfo::Parser { src_id, left, right } => SourceInfo::Parser { src_id, left, right },
        SourceInfo::Anonymous => SourceInfo::Parser { src_id: 0, left: 0, right: 0 },
    }
}

/// The exact shape of a rewritten implication: the generated predicate name
/// from the head's declared category, the three fixed parameters, the
/// rewritten body, and the head's provenance.
pub open spec fn is_rewritten_rule(
    rule: Rule,
    imp: Implication,
    resource: Term,
    blocks: ResourceBlocks,
) -> bool {
    &&& (decl_of(blocks, resource, imp.head) matches Option::Some(d) && rule.name.0@
        == d.spec_rule_name())
    &&& is_implication_params(rule.params@, imp.head, resource)
    &&& match imp.body.1 {
        Option::Some(rel) => is_relational_body(rule.body, imp.body.0, rel, resource, blocks),
        Option::None => is_local_body(rule.body, imp.body.0, resource, blocks),
    }
    &&& rule.source_info == implication_src(imp.head)
}

/// The implication's head and body names all resolve, so it can be
/// rewritten for `resource`.
pub open spec fn implication_ok(blocks: ResourceBlocks, resource: Term, imp: Implication) -> bool {
    &&& decl_of(blocks, resource, imp.head) is Some
    &&& match imp.body.1 {
        Option::Some(rel) => related_decl(blocks, imp.body.0, rel, resource) is Some,
        Option::None => decl_of(blocks, resource, imp.body.0) is Some,
    }
}

impl Implication {
    /// Compile this implication into a base rule for `resource_block`,
    /// resolving the head's category in that block and the implier's
    /// category locally or across the relation.
    pub fn as_rule(&self, resource_block: &Term, blocks: &ResourceBlocks) -> (r: PolarResult<Rule>)
        requires
            resource_block.value is Variable,
            blocks_lookup(blocks.blocks@, *resource_block) is Some,
            blocks_wf(*blocks),
        ensures
            match r {
                Result::Ok(rule) => is_rewritten_rule(rule, *self, *resource_block, *blocks),
                Result::Err(e) => e.context is None && !implication_ok(
                    *blocks,
                    *resource_block,
                    *self,
                ),
            },
    {
        let src_id = match self.head.get_source_id() {
            Option::Some(id) => id,
            Option::None => 0,
        };
        let (start, end) = match self.head.span() {
            Option::Some(se) => se,
            Option::None => (0, 0),
        };
        let name = match blocks.get_rule_name_for_declaration_in_resource_block(
            &self.head,
            resource_block,
        ) {
            Result::Ok(n) => n,
            Result::Err(e) => {
                return Result::Err(e);
            },
        };
        let params = implication_head_to_params(&self.head, resource_block);
        let body = match implication_body_to_rule_body(&self.body, resource_block, blocks) {
            Result::Ok(b) => b,
            Result::Err(e) => {
                return Result::Err(e);
            },
        };
        Result::Ok(Rule::new_from_parser(src_id, start, end, name, params, body))
    }
}

// ---------------------------------------------------------------------------
// Indexing a block's declarations
// ---------------------------------------------------------------------------

/// The items of an optional list term; empty for anything else.
pub open spec fn opt_list_items(o: Option<Term>) -> Seq<Term> {
    match o {
        Option::Some(t) => match t.value {
            Value::List(l) => l@,
            _ => Seq::empty(),
        },
        Option::None => Seq::empty(),
    }
}

/// The fields of an optional dictionary term; empty for anything else.
pub open spec fn opt_dict_fields(o: Option<Term>) -> Seq<(Symbol, Term)> {
    match o {
        Option::Some(t) => match t.value {
            Value::Dictionary(d) => d.fields@,
            _ => Seq::empty(),
        },
        Option::None => Seq::empty(),
    }
}

/// An absent term or a list.
pub open spec fn opt_is_list(o: Option<Term>) -> bool {
    match o {
        Option::Some(t) => t.value is List,
        Option::None => true,
    }
}

/// An absent term or a dictionary.
pub open spec fn opt_is_dict(o: Option<Term>) -> bool {
    match o {
        Option::Some(t) => t.value is Dictionary,
        Option::None => true,
    }
}

/// The role/permission lists are lists and the relations are a dictionary.
pub open spec fn decl_shapes_ok(
    roles: Option<Term>,
    permissions: Option<Term>,
    relations: Option<Term>,
) -> bool {
    opt_is_list(roles) && opt_is_list(permissions) && opt_is_dict(relations)
}

/// The role at `i` repeats an earlier role name.
pub open spec fn role_dup_at(rl: Seq<Term>, i: int) -> bool {
    exists|q: int| 0 <= q < i && veq(#[trigger] rl[q], rl[i])
}

/// Some role name appears twice in the roles list.
pub open spec fn roles_dup(rl: Seq<Term>) -> bool {
    exists|i: int| 0 <= i < rl.len() && #[trigger] role_dup_at(rl, i)
}

/// The diagnostic for a duplicate role name.
pub open spec fn dup_role_msg(resource: Term, item: Term) -> Seq<char> {
    term_to_polar_s(resource) + ": Duplicate declaration of "@ + term_to_polar_s(item)
        + " in the roles list."@
}

/// The diagnostic for a permission that reuses a role name.
pub open spec fn perm_as_role_msg(resource: Term, item: Term) -> Seq<char> {
    term_to_polar_s(resource) + ": "@ + term_to_polar_s(item)
        + " declared as a permission but it was previously declared as a role."@
}

/// The diagnostic for a duplicate permission name.
pub open spec fn dup_perm_msg(resource: Term, item: Term) -> Seq<char> {
    term_to_polar_s(resource) + ": Duplicate declaration of "@ + term_to_polar_s(item)
        + " in the permissions list."@
}

/// The diagnostic for a relation key that reuses a role name.
pub open spec fn rel_as_role_msg(resource: Term, key: Seq<char>) -> Seq<char> {
    term_to_polar_s(resource) + ": '"@ + key
        + "' declared as a relation but it was previously declared as a role."@
}

/// The diagnostic for a relation key that reuses a permission name.
pub open spec fn rel_as_perm_msg(resource: Term, key: Seq<char>) -> Seq<char> {
    term_to_polar_s(resource) + ": '"@ + key
        + "' declared as a relation but it was previously declared as a permission."@
}

/// The permission at `i` reuses a role name or an earlier permission name.
pub open spec fn perm_clash_at(rl: Seq<Term>, pl: Seq<Term>, i: int) -> bool {
    term_set_has(rl, pl[i]) || exists|j: int| 0 <= j < i && veq(#[trigger] pl[j], pl[i])
}

/// Some permission clashes with a role or an earlier permission.
pub open spec fn perm_clash(rl: Seq<Term>, pl: Seq<Term>) -> bool {
    exists|i: int| 0 <= i < pl.len() && #[trigger] perm_clash_at(rl, pl, i)
}

/// The term is a string holding exactly the characters `k`.
pub open spec fn str_key_matches(t: Term, k: Seq<char>) -> bool {
    t.value matches Value::Str(s) && s@ == k
}

/// The relation key at `i` reuses a role or permission name.
pub open spec fn rel_clash_at(rl: Seq<Term>, pl: Seq<Term>, fl: Seq<(Symbol, Term)>, i: int) -> bool {
    ||| exists|j: int| 0 <= j < rl.len() && str_key_matches(#[trigger] rl[j], fl[i].0.0@)
    ||| exists|j: int| 0 <= j < pl.len() && str_key_matches(#[trigger] pl[j], fl[i].0.0@)
}

/// Some relation key clashes with a role or permission name.
pub open spec fn rel_clash(rl: Seq<Term>, pl: Seq<Term>, fl: Seq<(Symbol, Term)>) -> bool {
    exists|i: int| 0 <= i < fl.len() && #[trigger] rel_clash_at(rl, pl, fl, i)
}

/// The indexed declarations: first the roles, then the permissions, then
/// each relation under a string-valued copy of its key carrying its type
/// term's source position.
pub open spec fn is_indexed(
    d: Seq<(Term, Declaration)>,
    rl: Seq<Term>,
    pl: Seq<Term>,
    fl: Seq<(Symbol, Term)>,
) -> bool {
    &&& d.len() == rl.len() + pl.len() + fl.len()
    &&& forall|i: int| 0 <= i < rl.len() ==> (#[trigger] d[i]) == (rl[i], Declaration::Role)
    &&& forall|i: int|
        0 <= i < pl.len() ==> (#[trigger] d[rl.len() + i]) == (pl[i], Declaration::Permission)
    &&& forall|i: int|
        0 <= i < fl.len() ==> {
            let e = #[trigger] d[rl.len() + pl.len() + i];
            &&& e.0.value matches Value::Str(s) && s@ == fl[i].0.0@
            &&& e.0.source_info == fl[i].1.source_info
            &&& e.1 == Declaration::Relation(fl[i].1)
        }
}

/// A head is declared when it equals a role or permission name or, as a
/// string, a relation key.
pub open spec fn head_declared(
    head: Term,
    rl: Seq<Term>,
    pl: Seq<Term>,
    fl: Seq<(Symbol, Term)>,
) -> bool {
    ||| term_set_has(rl, head)
    ||| term_set_has(pl, head)
    ||| exists|i: int| 0 <= i < fl.len() && str_key_matches(head, (#[trigger] fl[i]).0.0@)
}

/// A lookup succeeds exactly when some entry's key matches.
proof fn lemma_decl_lookup_exists(ds: Seq<(Term, Declaration)>, key: Term)
    ensures
        decl_lookup(ds, key) is Some <==> exists|i: int|
            0 <= i < ds.len() && veq((#[trigger] ds[i]).0, key),
    decreases ds.len(),
{
    if ds.len() > 0 {
        lemma_decl_lookup_exists(ds.drop_first(), key);
        if !veq(ds[0].0, key) {
            assert(forall|i: int|
                0 <= i < ds.drop_first().len() ==> (#[trigger] ds.drop_first()[i]) == ds[i + 1]);
            if decl_lookup(ds, key) is Some {
                let i = choose|i: int|
                    0 <= i < ds.drop_first().len() && veq((#[trigger] ds.drop_first()[i]).0, key);
                assert(veq(ds[i + 1].0, key));
            }
            if exists|i: int| 0 <= i < ds.len() && veq((#[trigger] ds[i]).0, key) {
                let i = choose|i: int| 0 <= i < ds.len() && veq((#[trigger] ds[i]).0, key);
                assert(i > 0);
                assert(veq(ds.drop_first()[i - 1].0, key));
            }
        }
    }
}

/// In an indexed block, a head looks up successfully exactly when it is
/// declared.
pub proof fn lemma_indexed_head_lookup(
    d: Seq<(Term, Declaration)>,
    rl: Seq<Term>,
    pl: Seq<Term>,
    fl: Seq<(Symbol, Term)>,
    head: Term,
)
    requires
        is_indexed(d, rl, pl, fl),
    ensures
        decl_lookup(d, head) is Some <==> head_declared(head, rl, pl, fl),
{
    lemma_decl_lookup_exists(d, head);
    assert forall|i: int| rl.len() + pl.len() <= i < d.len() implies (veq(
        (#[trigger] d[i]).0,
        head,
    ) == str_key_matches(head, fl[i - rl.len() - pl.len()].0.0@)) by {
        let k = i - rl.len() - pl.len();
        assert(d[rl.len() + pl.len() + k] == d[i]);
    }
    if head_declared(head, rl, pl, fl) {
        if term_set_has(rl, head) {
            let i = choose|i: int| 0 <= i < rl.len() && veq(#[trigger] rl[i], head);
            assert(veq(d[i].0, head));
        } else if term_set_has(pl, head) {
            let i = choose|i: int| 0 <= i < pl.len() && veq(#[trigger] pl[i], head);
            assert(veq(d[rl.len() + i].0, head));
        } else {
            let i = choose|i: int|
                0 <= i < fl.len() && str_key_matches(head, (#[trigger] fl[i]).0.0@);
            assert(veq(d[rl.len() + pl.len() + i].0, head));
        }
    }
    if decl_lookup(d, head) is Some {
        let i = choose|i: int| 0 <= i < d.len() && veq((#[trigger] d[i]).0, head);
        if i < rl.len() {
            assert(term_set_has(rl, head));
        } else if i < rl.len() + pl.len() {
            let k = i - rl.len();
            assert(d[rl.len() + k] == d[i]);
            assert(veq(pl[k], head));
            assert(term_set_has(pl, head));
        } else {
            let k = i - rl.len() - pl.len();
            assert(d[rl.len() + pl.len() + k] == d[i]);
            assert(str_key_matches(head, fl[k].0.0@));
        }
    }
}

/// The exact diagnostic the indexer returns, in check order: a wrong shape
/// is a type error; the first duplicate role, the first clashing permission
/// and the first clashing relation key each carry their message and the
/// offending term's offset.
pub open spec fn index_error_desc(
    e: PolarError,
    roles: Option<Term>,
    permissions: Option<Term>,
    relations: Option<Term>,
    resource: Term,
) -> bool {
                    let rl = opt_list_items(roles);
                    let pl = opt_list_items(permissions);
                    let fl = opt_dict_fields(relations);
                    if !opt_is_list(roles) {
                        e.kind matches ErrorKind::Runtime(RuntimeError::TypeError { .. })
                    } else if roles_dup(rl) {
                        e.kind matches ErrorKind::Parse(
                            ParseError::ParseSugar { loc, msg, ranges },
                        ) && exists|i: int|
                            {
                                &&& 0 <= i < rl.len()
                                &&& #[trigger] role_dup_at(rl, i)
                                &&& forall|k: int| 0 <= k < i ==> !role_dup_at(rl, k)
                                &&& msg@ == dup_role_msg(resource, rl[i])
                                &&& loc == rl[i].spec_offset()
                                &&& ranges@.len() == 0
                            }
                    } else if !opt_is_list(permissions) {
                        e.kind matches ErrorKind::Runtime(RuntimeError::TypeError { .. })
                    } else if perm_clash(rl, pl) {
                        e.kind matches ErrorKind::Parse(
                            ParseError::ParseSugar { loc, msg, ranges },
                        ) && exists|i: int|
                            {
                                &&& 0 <= i < pl.len()
                                &&& #[trigger] perm_clash_at(rl, pl, i)
                                &&& forall|k: int| 0 <= k < i ==> !perm_clash_at(rl, pl, k)
                                &&& msg@ == if term_set_has(rl, pl[i]) {
                                    perm_as_role_msg(resource, pl[i])
                                } else {
                                    dup_perm_msg(resource, pl[i])
                                }
                                &&& loc == pl[i].spec_offset()
                                &&& ranges@.len() == 0
                            }
                    } else if !opt_is_dict(relations) {
                        e.kind matches ErrorKind::Runtime(RuntimeError::TypeError { .. })
                    } else {
                        &&& rel_clash(rl, pl, fl)
                        &&& e.kind matches ErrorKind::Parse(
                            ParseError::ParseSugar { loc, msg, ranges },
                        ) && exists|i: int|
                            {
                                &&& 0 <= i < fl.len()
                                &&& #[trigger] rel_clash_at(rl, pl, fl, i)
                                &&& forall|k: int| 0 <= k < i ==> !rel_clash_at(rl, pl, fl, k)
                                &&& msg@ == if exists|j: int|
                                    0 <= j < rl.len() && str_key_matches(
                                        #[trigger] rl[j],
                                        fl[i].0.0@,
                                    ) {
                                    rel_as_role_msg(resource, fl[i].0.0@)
                                } else {
                                    rel_as_perm_msg(resource, fl[i].0.0@)
                                }
                                &&& loc == fl[i].1.spec_offset()
                                &&& ranges@.len() == 0
                            }
                    }
}

/// Build the name-to-declaration index for one resource block, rejecting
/// duplicate names and cross-category clashes.
#[verifier::loop_isolation(false)]
#[verifier::rlimit(30)]
pub fn index_declarations(
    roles: Option<Term>,
    permissions: Option<Term>,
    relations: Option<Term>,
    resource: &Term,
) -> (r: PolarResult<Declarations>)
    requires
        match relations {
            Option::Some(t) => match t.value {
                Value::Dictionary(d) => forall|i: int, j: int|
                    0 <= i < j < d.fields@.len() ==> (#[trigger] d.fields@[i]).0.0@ != (
                    #[trigger] d.fields@[j]).0.0@,
                _ => true,
            },
            Option::None => true,
        },
    ensures
        match r {
            Result::Ok(d) => {
                &&& decl_shapes_ok(roles, permissions, relations)
                &&& !roles_dup(opt_list_items(roles))
                &&& !perm_clash(opt_list_items(roles), opt_list_items(permissions))
                &&& !rel_clash(
                    opt_list_items(roles),
                    opt_list_items(permissions),
                    opt_dict_fields(relations),
                )
                &&& is_indexed(
                    d@,
                    opt_list_items(roles),
                    opt_list_items(permissions),
                    opt_dict_fields(relations),
                )
            },
            Result::Err(e) => {
                &&& e.context is None
                &&& index_error_desc(e, roles, permissions, relations, *resource)
            },
        },
{
    let ghost rl_s = opt_list_items(roles);
    let ghost pl_s = opt_list_items(permissions);
    let ghost fl_s = opt_dict_fields(relations);
    let mut declarations: Vec<(Term, Declaration)> = Vec::new();

    match roles {
        Option::Some(t) => {
            let mut rest = match t.value {
                Value::List(l) => l,
                _ => {
                    return Result::Err(shape_error("Expected a list of role names."));
                },
            };
            let n = rest.len();
            let mut i: usize = 0;
            while i < n
                invariant
                    i <= n,
                    n == rl_s.len(),
                    rest@ =~= rl_s.skip(i as int),
                    declarations@.len() == i,
                    forall|k: int|
                        0 <= k < i ==> (#[trigger] declarations@[k]) == (
                            rl_s[k],
                            Declaration::Role,
                        ),
                    forall|k: int, j: int| #![trigger rl_s[k], rl_s[j]]
                        0 <= j < k < i ==> !veq(rl_s[j], rl_s[k]),
                decreases n - i,
            {
                proof {
                    assert(rl_s.skip(i as int)[0] == rl_s[i as int]);
                    assert(rl_s.skip(i as int).remove(0) =~= rl_s.skip(i + 1 as int));
                }
                let item = rest.remove(0);
                let mut j: usize = 0;
                let mut dup = false;
                while j < i
                    invariant
                        j <= i,
                        i < n,
                        n == rl_s.len(),
                        item == rl_s[i as int],
                        declarations@.len() == i,
                        forall|k: int|
                            0 <= k < i ==> (#[trigger] declarations@[k]) == (
                                rl_s[k],
                                Declaration::Role,
                            ),
                        dup <==> exists|q: int|
                            0 <= q < j && veq(#[trigger] rl_s[q], rl_s[i as int]),
                    decreases i - j,
                {
                    if term_eq(&declarations[j].0, &item) {
                        dup = true;
                    }
                    j += 1;
                }
                if dup {
                    proof {
                        assert(role_dup_at(rl_s, i as int));
                        assert(roles_dup(rl_s));
                        assert forall|k: int| 0 <= k < i implies !role_dup_at(rl_s, k) by {
                            if role_dup_at(rl_s, k) {
                                let q = choose|q: int|
                                    0 <= q < k && veq(#[trigger] rl_s[q], rl_s[k]);
                            }
                        }
                    }
                    let mut msg = resource.to_polar();
                    msg.append(": Duplicate declaration of ");
                    msg.append(item.to_polar().as_str());
                    msg.append(" in the roles list.");
                    proof {
                        assert(msg@ =~= dup_role_msg(*resource, rl_s[i as int]));
                    }
                    return Result::Err(sugar_error(item.offset(), msg));
                }
                declarations.push((item, Declaration::Role));
                i += 1;
            }
        },
        Option::None => {},
    }

    proof {
        assert forall|k: int| 0 <= k < rl_s.len() implies !role_dup_at(rl_s, k) by {
            if role_dup_at(rl_s, k) {
                let q = choose|q: int| 0 <= q < k && veq(#[trigger] rl_s[q], rl_s[k]);
            }
        }
    }

    match permissions {
        Option::Some(t) => {
            let mut rest = match t.value {
                Value::List(l) => l,
                _ => {
                    return Result::Err(shape_error("Expected a list of permission names."));
                },
            };
            let n = rest.len();
            let mut i: usize = 0;
            while i < n
                invariant
                    i <= n,
                    n == pl_s.len(),
                    rest@ =~= pl_s.skip(i as int),
                    declarations@.len() == rl_s.len() + i,
                    forall|k: int|
                        0 <= k < rl_s.len() ==> (#[trigger] declarations@[k]) == (
                            rl_s[k],
                            Declaration::Role,
                        ),
                    forall|k: int|
                        0 <= k < i ==> (#[trigger] declarations@[rl_s.len() + k]) == (
                            pl_s[k],
                            Declaration::Permission,
                        ),
                    forall|k: int| 0 <= k < i ==> !(#[trigger] perm_clash_at(rl_s, pl_s, k)),
                decreases n - i,
            {
                proof {
                    assert(pl_s.skip(i as int)[0] == pl_s[i as int]);
                    assert(pl_s.skip(i as int).remove(0) =~= pl_s.skip(i + 1 as int));
                }
                let item = rest.remove(0);
                let nd = declarations.len();
                let mut j: usize = 0;
                let mut clash: Option<bool> = Option::None;
                while j < nd
                    invariant
                        j <= nd,
                        i < n,
                        n == pl_s.len(),
                        item == pl_s[i as int],
                        nd == rl_s.len() + i,
                        declarations@.len() == nd,
                        forall|k: int|
                            0 <= k < rl_s.len() ==> (#[trigger] declarations@[k]) == (
                                rl_s[k],
                                Declaration::Role,
                            ),
                        forall|k: int|
                            0 <= k < i ==> (#[trigger] declarations@[rl_s.len() + k]) == (
                                pl_s[k],
                                Declaration::Permission,
                            ),
                        match clash {
                            Option::Some(was_role) => if was_role {
                                term_set_has(rl_s, pl_s[i as int])
                            } else {
                                (exists|q: int|
                                    0 <= q < i && veq(#[trigger] pl_s[q], pl_s[i as int]))
                                    && !term_set_has(rl_s, pl_s[i as int])
                            },
                            Option::None => forall|q: int|
                                0 <= q < j ==> !veq((#[trigger] declarations@[q]).0, pl_s[i as int]),
                        },
                    decreases nd - j,
                {
                    let hit = term_eq(&declarations[j].0, &item);
                    if clash.is_none() && hit {
                        proof {
                            let jj = j as int;
                            if jj < rl_s.len() {
                                assert(declarations@[jj] == (rl_s[jj], Declaration::Role));
                            } else {
                                let k = jj - rl_s.len();
                                assert(declarations@[rl_s.len() + k] == (
                                    pl_s[k],
                                    Declaration::Permission,
                                ));
                                assert forall|q: int| 0 <= q < rl_s.len() implies !veq(
                                    #[trigger] rl_s[q],
                                    pl_s[i as int],
                                ) by {
                                    assert(declarations@[q] == (rl_s[q], Declaration::Role));
                                }
                                assert(!term_set_has(rl_s, pl_s[i as int]));
                            }
                        }
                        clash = Option::Some(
                            match &declarations[j].1 {
                                Declaration::Role => true,
                                _ => false,
                            },
                        );
                    }
                    j += 1;
                }
                match clash {
                    Option::Some(true) => {
                        proof {
                            assert(perm_clash_at(rl_s, pl_s, i as int));
                        }
                        let mut msg = resource.to_polar();
                        msg.append(": ");
                        msg.append(item.to_polar().as_str());
                        msg.append(
                            " declared as a permission but it was previously declared as a role.",
                        );
                        proof {
                            assert(msg@ =~= perm_as_role_msg(*resource, pl_s[i as int]));
                        }
                        return Result::Err(sugar_error(item.offset(), msg));
                    },
                    Option::Some(false) => {
                        proof {
                            assert(perm_clash_at(rl_s, pl_s, i as int));
                        }
                        let mut msg = resource.to_polar();
                        msg.append(": Duplicate declaration of ");
                        msg.append(item.to_polar().as_str());
                        msg.append(" in the permissions list.");
                        proof {
                            assert(msg@ =~= dup_perm_msg(*resource, pl_s[i as int]));
                        }
                        return Result::Err(sugar_error(item.offset(), msg));
                    },
                    Option::None => {
                        proof {
                            assert forall|q: int| 0 <= q < rl_s.len() implies !veq(
                                #[trigger] rl_s[q],
                                pl_s[i as int],
                            ) by {
                                assert(declarations@[q] == (rl_s[q], Declaration::Role));
                            }
                            assert forall|q: int| 0 <= q < i implies !veq(
                                #[trigger] pl_s[q],
                                pl_s[i as int],
                            ) by {
                                assert(declarations@[rl_s.len() + q] == (
                                    pl_s[q],
                                    Declaration::Permission,
                                ));
                            }
                            assert(!term_set_has(rl_s, pl_s[i as int]));
                            assert(!perm_clash_at(rl_s, pl_s, i as int));
                        }
                    },
                }
                declarations.push((item, Declaration::Permission));
                i += 1;
            }
        },
        Option::None => {},
    }

    match relations {
        Option::Some(t) => {
            let mut rest = match t.value {
                Value::Dictionary(d) => d.fields,
                _ => {
                    return Result::Err(shape_error("Expected a dictionary of relations."));
                },
            };
            let n = rest.len();
            let mut i: usize = 0;
            while i < n
                invariant
                    i <= n,
                    n == fl_s.len(),
                    rest@ =~= fl_s.skip(i as int),
                    declarations@.len() == rl_s.len() + pl_s.len() + i,
                    forall|k: int|
                        0 <= k < rl_s.len() ==> (#[trigger] declarations@[k]) == (
                            rl_s[k],
                            Declaration::Role,
                        ),
                    forall|k: int|
                        0 <= k < pl_s.len() ==> (#[trigger] declarations@[rl_s.len() + k]) == (
                            pl_s[k],
                            Declaration::Permission,
                        ),
                    forall|k: int|
                        0 <= k < i ==> {
                            let e = #[trigger] declarations@[rl_s.len() + pl_s.len() + k];
                            &&& e.0.value matches Value::Str(sv) && sv@ == fl_s[k].0.0@
                            &&& e.0.source_info == fl_s[k].1.source_info
                            &&& e.1 == Declaration::Relation(fl_s[k].1)
                        },
                    forall|k: int| 0 <= k < i ==> !(#[trigger] rel_clash_at(rl_s, pl_s, fl_s, k)),
                    forall|a: int, b: int|
                        0 <= a < b < fl_s.len() ==> (#[trigger] fl_s[a]).0.0@ != (
                        #[trigger] fl_s[b]).0.0@,
                decreases n - i,
            {
                proof {
                    assert(fl_s.skip(i as int)[0] == fl_s[i as int]);
                    assert(fl_s.skip(i as int).remove(0) =~= fl_s.skip(i + 1 as int));
                }
                let (key_sym, type_term) = rest.remove(0);
                let nd = declarations.len();
                let mut j: usize = 0;
                let mut clash: Option<bool> = Option::None;
                while j < nd
                    invariant
                        j <= nd,
                        i < n,
                        n == fl_s.len(),
                        key_sym == fl_s[i as int].0,
                        nd == rl_s.len() + pl_s.len() + i,
                        declarations@.len() == nd,
                        forall|k: int|
                            0 <= k < rl_s.len() ==> (#[trigger] declarations@[k]) == (
                                rl_s[k],
                                Declaration::Role,
                            ),
                        forall|k: int|
                            0 <= k < pl_s.len() ==> (#[trigger] declarations@[rl_s.len() + k]) == (
                                pl_s[k],
                                Declaration::Permission,
                            ),
                        forall|k: int|
                            0 <= k < i ==> {
                                let e = #[trigger] declarations@[rl_s.len() + pl_s.len() + k];
                                &&& e.0.value matches Value::Str(sv) && sv@ == fl_s[k].0.0@
                                &&& e.1 == Declaration::Relation(fl_s[k].1)
                            },
                        forall|a: int, b: int|
                            0 <= a < b < fl_s.len() ==> (#[trigger] fl_s[a]).0.0@ != (
                            #[trigger] fl_s[b]).0.0@,
                        match clash {
                            Option::Some(was_role) => if was_role {
                                exists|q: int|
                                    0 <= q < rl_s.len() && str_key_matches(
                                        #[trigger] rl_s[q],
                                        fl_s[i as int].0.0@,
                                    )
                            } else {
                                (exists|q: int|
                                    0 <= q < pl_s.len() && str_key_matches(
                                        #[trigger] pl_s[q],
                                        fl_s[i as int].0.0@,
                                    )) && !(exists|q: int|
                                    0 <= q < rl_s.len() && str_key_matches(
                                        #[trigger] rl_s[q],
                                        fl_s[i as int].0.0@,
                                    ))
                            },
                            Option::None => forall|q: int|
                                0 <= q < j ==> !str_key_matches(
                                    (#[trigger] declarations@[q]).0,
                                    fl_s[i as int].0.0@,
                                ),
                        },
                    decreases nd - j,
                {
                    let hit = match &declarations[j].0.value {
                        Value::Str(sv) => *sv == key_sym.0,
                        _ => false,
                    };
                    if clash.is_none() && hit {
                        proof {
                            let jj = j as int;
                            if jj < rl_s.len() {
                                assert(declarations@[jj] == (rl_s[jj], Declaration::Role));
                                assert(str_key_matches(rl_s[jj], fl_s[i as int].0.0@));
                            } else if jj < rl_s.len() + pl_s.len() {
                                let k = jj - rl_s.len();
                                assert(declarations@[rl_s.len() + k] == (
                                    pl_s[k],
                                    Declaration::Permission,
                                ));
                                assert(str_key_matches(pl_s[k], fl_s[i as int].0.0@));
                                assert forall|q: int| 0 <= q < rl_s.len() implies !str_key_matches(
                                    #[trigger] rl_s[q],
                                    fl_s[i as int].0.0@,
                                ) by {
                                    assert(declarations@[q] == (rl_s[q], Declaration::Role));
                                }
                            } else {
                                let k = jj - rl_s.len() - pl_s.len();
                                assert(declarations@[rl_s.len() + pl_s.len() + k]
                                    == declarations@[jj]);
                                assert(false);
                            }
                        }
                        clash = Option::Some(
                            match &declarations[j].1 {
                                Declaration::Role => true,
                                _ => false,
                            },
                        );
                    }
                    j += 1;
                }
                match clash {
                    Option::Some(true) => {
                        proof {
                            assert(rel_clash_at(rl_s, pl_s, fl_s, i as int));
                        }
                        let mut msg = resource.to_polar();
                        msg.append(": '");
                        msg.append(key_sym.0.as_str());
                        msg.append(
                            "' declared as a relation but it was previously declared as a role.",
                        );
                        proof {
                            assert(msg@ =~= rel_as_role_msg(*resource, fl_s[i as int].0.0@));
                        }
                        return Result::Err(sugar_error(type_term.offset(), msg));
                    },
                    Option::Some(false) => {
                        proof {
                            assert(rel_clash_at(rl_s, pl_s, fl_s, i as int));
                        }
                        let mut msg = resource.to_polar();
                        msg.append(": '");
                        msg.append(key_sym.0.as_str());
                        msg.append(
                            "' declared as a relation but it was previously declared as a permission.",
                        );
                        proof {
                            assert(msg@ =~= rel_as_perm_msg(*resource, fl_s[i as int].0.0@));
                        }
                        return Result::Err(sugar_error(type_term.offset(), msg));
                    },
                    Option::None => {
                        proof {
                            assert(!rel_clash_at(rl_s, pl_s, fl_s, i as int)) by {
                                assert(forall|q: int|
                                    0 <= q < rl_s.len() ==> (#[trigger] rl_s[q]) == declarations@[q].0);
                                assert(forall|q: int|
                                    0 <= q < pl_s.len() ==> (#[trigger] pl_s[q]) == declarations@[
                                        rl_s.len() + q
                                    ].0);
                            }
                        }
                    },
                }
                let src = type_term.source_info;
                let stringified = Term { value: Value::Str(key_sym.0), source_info: src };
                declarations.push((stringified, Declaration::Relation(type_term)));
                i += 1;
            }
        },
        Option::None => {},
    }

    Result::Ok(declarations)
}

/// A source-located declarative-syntax error with no highlighted ranges.
fn sugar_error(loc: usize, msg: String) -> (r: PolarError)
    ensures
        r.context is None,
        r.kind matches ErrorKind::Parse(ParseError::ParseSugar { loc: l, msg: m, ranges })
            && l == loc && m == msg && ranges@.len() == 0,
{
    PolarError::new(ErrorKind::Parse(ParseError::ParseSugar { loc, msg, ranges: Vec::new() }))
}

/// A wrong-shape declaration, reported as a type error.
fn shape_error(msg: &str) -> (r: PolarError)
    ensures
        r.context is None,
        r.kind matches ErrorKind::Runtime(RuntimeError::TypeError { .. }),
{
    PolarError::new(ErrorKind::Runtime(RuntimeError::TypeError { msg: msg.to_owned() }))
}

/// The declaration that a cross-block implication body resolves to: follow
/// `relation`'s declared type out of `resource`'s block, then look
/// `declaration` up in that related block.
pub open spec fn related_decl(
    blocks: ResourceBlocks,
    declaration: Term,
    relation: Term,
    resource: Term,
) -> Option<Declaration> {
    match blocks_lookup(blocks.blocks@, resource) {
        Option::Some(b) => match decl_lookup(b.declarations@, relation) {
            Option::Some(Declaration::Relation(rt)) => match blocks_lookup(blocks.blocks@, rt) {
                Option::Some(related) => decl_lookup(related.declarations@, declaration),
                Option::None => Option::None,
            },
            _ => Option::None,
        },
        Option::None => Option::None,
    }
}

// ---------------------------------------------------------------------------
// Whole-block validation and the rewrite pipeline
// ---------------------------------------------------------------------------

/// A lookup over the blocks succeeds exactly when some block's name
/// matches.
proof fn lemma_blocks_lookup_exists(bs: Seq<BlockEntry>, key: Term)
    ensures
        blocks_lookup(bs, key) is Some <==> exists|i: int|
            0 <= i < bs.len() && veq((#[trigger] bs[i]).resource, key),
    decreases bs.len(),
{
    if bs.len() > 0 {
        lemma_blocks_lookup_exists(bs.drop_first(), key);
        if !veq(bs[0].resource, key) {
            assert(forall|i: int|
                0 <= i < bs.drop_first().len() ==> (#[trigger] bs.drop_first()[i]) == bs[i + 1]);
            if blocks_lookup(bs, key) is Some {
                let i = choose|i: int|
                    0 <= i < bs.drop_first().len() && veq(
                        (#[trigger] bs.drop_first()[i]).resource,
                        key,
                    );
                assert(veq(bs[i + 1].resource, key));
            }
            if exists|i: int| 0 <= i < bs.len() && veq((#[trigger] bs[i]).resource, key) {
                let i = choose|i: int| 0 <= i < bs.len() && veq((#[trigger] bs[i]).resource, key);
                assert(i > 0);
                assert(veq(bs.drop_first()[i - 1].resource, key));
            }
        }
    }
}

/// Whether `term` names a registered class; a type error when it is not a
/// symbol at all.
pub fn is_registered_class(kb: &KnowledgeBase, term: &Term) -> (r: PolarResult<bool>)
    ensures
        match r {
            Result::Ok(b) => term.value matches Value::Variable(s) && b
                == kb.constants.spec_contains(s.0@),
            Result::Err(e) => !(term.value is Variable) && e.context is None && e.kind matches
                ErrorKind::Runtime(RuntimeError::TypeError { .. }),
        },
{
    match &term.value {
        Value::Variable(s) => Result::Ok(kb.is_constant(s)),
        _ => Result::Err(shape_error("Expected a symbol.")),
    }
}

/// The diagnostic for a block whose name is not a registered class.
pub open spec fn unregistered_block_msg(resource: Term) -> Seq<char> {
    "Invalid resource block '"@ + term_to_polar_s(resource) + "' -- '"@ + term_to_polar_s(resource)
        + "' must be a registered class."@
}

/// The exact diagnostic for a block name that is not a registered class: a
/// type error when the name is not a symbol at all, else the source-located
/// message.
pub open spec fn not_registered_desc(e: PolarError, resource: Term) -> bool {
    if !(resource.value is Variable) {
        e.kind matches ErrorKind::Runtime(RuntimeError::TypeError { .. })
    } else {
        e.kind matches ErrorKind::Parse(ParseError::ParseSugar { loc, msg, ranges }) && loc
            == resource.spec_offset() && msg@ == unregistered_block_msg(resource) && ranges@.len()
            == 0
    }
}

/// The diagnostic for a resource name declared by two blocks in one load.
pub open spec fn dup_block_msg(resource: Term) -> Seq<char> {
    "Duplicate declaration of '"@ + term_to_polar_s(resource) + "' resource block."@
}

/// The diagnostic for an implication head not declared in its own block.
pub open spec fn undeclared_head_msg(head: Term, resource: Term) -> Seq<char> {
    "Undeclared term "@ + term_to_polar_s(head) + " referenced in rule in '"@ + term_to_polar_s(
        resource,
    ) + "' resource block. Did you mean to declare it as a role, permission, or relation?"@
}

/// The condition for a block name to be accepted: it is a symbol naming a
/// registered class.
pub open spec fn resource_registered(kb: KnowledgeBase, resource: Term) -> bool {
    resource.value matches Value::Variable(s) && kb.constants.spec_contains(s.0@)
}

/// Reject a resource block whose name was already declared by an earlier
/// block in this load.
pub fn check_for_duplicate_resource_blocks(blocks: &ResourceBlocks, resource: &Term) -> (r:
    PolarResult<()>)
    ensures
        match r {
            Result::Ok(_) => blocks_lookup(blocks.blocks@, *resource) is None,
            Result::Err(e) => {
                &&& blocks_lookup(blocks.blocks@, *resource) is Some
                &&& e.context is None
                &&& e.kind matches ErrorKind::Parse(ParseError::ParseSugar { loc, msg, ranges })
                    && loc == resource.spec_offset() && msg@ == dup_block_msg(*resource)
                    && ranges@.len() == 0
            },
        },
{
    if blocks.has_block(resource) {
        let mut msg: String = "Duplicate declaration of '".to_owned();
        msg.append(resource.to_polar().as_str());
        msg.append("' resource block.");
        proof {
            assert(msg@ =~= "Duplicate declaration of '"@ + term_to_polar_s(*resource)
                + "' resource block."@);
        }
        return Result::Err(sugar_error(resource.offset(), msg));
    }
    Result::Ok(())
}

/// Reject a resource block whose name is not a registered class.
pub fn check_that_block_resource_is_registered_as_a_class(
    kb: &KnowledgeBase,
    resource: &Term,
) -> (r: PolarResult<()>)
    ensures
        match r {
            Result::Ok(_) => resource_registered(*kb, *resource),
            Result::Err(e) => !resource_registered(*kb, *resource) && e.context is None
                && not_registered_desc(e, *resource),
        },
{
    let registered = match is_registered_class(kb, resource) {
        Result::Ok(b) => b,
        Result::Err(e) => {
            return Result::Err(e);
        },
    };
    if !registered {
        let mut msg: String = "Invalid resource block '".to_owned();
        msg.append(resource.to_polar().as_str());
        msg.append("' -- '");
        msg.append(resource.to_polar().as_str());
        msg.append("' must be a registered class.");
        proof {
            assert(msg@ =~= unregistered_block_msg(*resource));
        }
        return Result::Err(sugar_error(resource.offset(), msg));
    }
    Result::Ok(())
}

/// A relation's declared type names a registered class.
pub open spec fn relation_registered(kb: KnowledgeBase, kind: Term) -> bool {
    kind.value matches Value::Variable(s) && kb.constants.spec_contains(s.0@)
}

/// The diagnostic for a relation whose declared type is not a registered
/// class.
pub open spec fn unregistered_relation_msg(key: Seq<char>, kind: Term) -> Seq<char> {
    "Type '"@ + term_to_polar_s(kind) + "' in relation '"@ + key + ": "@ + term_to_polar_s(kind)
        + "' must be registered as a class."@
}

/// The exact diagnostic for an unregistered relation type: a type error
/// when the type is not a symbol or the key is not a string, else the
/// source-located message naming the relation and its type.
pub open spec fn relation_error_desc(e: PolarError, relation: Term, kind: Term) -> bool {
    if !(kind.value is Variable) || !(relation.value is Str) {
        e.kind matches ErrorKind::Runtime(RuntimeError::TypeError { .. })
    } else {
        e.kind matches ErrorKind::Parse(ParseError::ParseSugar { loc, msg, ranges }) && loc
            == relation.spec_offset() && msg@ == unregistered_relation_msg(
            relation.value->Str_0@,
            kind,
        ) && ranges@.len() == 0
    }
}

/// Reject a relation whose declared type is not a registered class.
pub fn relation_type_is_registered(kb: &KnowledgeBase, pair: (&Term, &Term)) -> (r: PolarResult<
    (),
>)
    ensures
        match r {
            Result::Ok(_) => relation_registered(*kb, *pair.1),
            Result::Err(e) => !relation_registered(*kb, *pair.1) && e.context is None
                && relation_error_desc(e, *pair.0, *pair.1),
        },
{
    let (relation, kind) = pair;
    let registered = match is_registered_class(kb, kind) {
        Result::Ok(b) => b,
        Result::Err(e) => {
            return Result::Err(e);
        },
    };
    if !registered {
        let rel_str = match &relation.value {
            Value::Str(sv) => sv.clone(),
            _ => {
                return Result::Err(shape_error("Expected a string."));
            },
        };
        let mut msg: String = "Type '".to_owned();
        msg.append(kind.to_polar().as_str());
        msg.append("' in relation '");
        msg.append(rel_str.as_str());
        msg.append(": ");
        msg.append(kind.to_polar().as_str());
        msg.append("' must be registered as a class.");
        proof {
            assert(msg@ =~= unregistered_relation_msg(relation.value->Str_0@, *kind));
        }
        return Result::Err(sugar_error(relation.offset(), msg));
    }
    Result::Ok(())
}

/// Every relation type declared in this block names a registered class.
pub open spec fn block_relations_registered(kb: KnowledgeBase, b: BlockEntry) -> bool {
    forall|j: int|
        0 <= j < b.declarations@.len() ==> ((#[trigger] b.declarations@[j]).1 matches
            Declaration::Relation(rt) ==> relation_registered(kb, rt))
}

/// Every relation type declared in any accumulated block names a registered
/// class.
pub open spec fn all_relation_types_registered(kb: KnowledgeBase) -> bool {
    forall|i: int|
        0 <= i < kb.resource_blocks.blocks@.len() ==> block_relations_registered(
            kb,
            #[trigger] kb.resource_blocks.blocks@[i],
        )
}

/// A declaration whose relation type is not a registered class.
pub open spec fn decl_fails(kb: KnowledgeBase, d: (Term, Declaration)) -> bool {
    d.1 matches Declaration::Relation(rt) && !relation_registered(kb, rt)
}

/// The indices of this block's declarations whose relation type is not
/// registered, in order.
pub open spec fn failing_rel_idxs(kb: KnowledgeBase, ds: Seq<(Term, Declaration)>) -> Seq<int>
    decreases ds.len(),
{
    if ds.len() == 0 {
        Seq::empty()
    } else {
        let prefix = failing_rel_idxs(kb, ds.drop_last());
        if decl_fails(kb, ds.last()) {
            prefix.push(ds.len() - 1)
        } else {
            prefix
        }
    }
}

/// Every failing (block index, declaration index) pair, blocks in order and
/// declarations in order within each block.
pub open spec fn failing_rel_pairs(kb: KnowledgeBase, bs: Seq<BlockEntry>) -> Seq<(int, int)>
    decreases bs.len(),
{
    if bs.len() == 0 {
        Seq::empty()
    } else {
        failing_rel_pairs(kb, bs.drop_last()) + failing_rel_idxs(
            kb,
            bs.last().declarations@,
        ).map_values(|j: int| ((bs.len() - 1) as int, j))
    }
}

/// Each error describes the failing declaration at the matching position
/// of `pairs`.
pub open spec fn errs_describe(
    kb: KnowledgeBase,
    bs: Seq<BlockEntry>,
    pairs: Seq<(int, int)>,
    errs: Seq<PolarError>,
) -> bool {
    &&& errs.len() == pairs.len()
    &&& forall|k: int|
        0 <= k < errs.len() ==> {
            let p = pairs[k];
            let d = bs[p.0].declarations@[p.1];
            &&& decl_fails(kb, d)
            &&& (#[trigger] errs[k]).context is None
            &&& (d.1 matches Declaration::Relation(rt) && relation_error_desc(errs[k], d.0, rt))
        }
}

/// The `k`-th error describes the `k`-th failing declaration, in order.
pub open spec fn rel_errors_match(kb: KnowledgeBase, bs: Seq<BlockEntry>, errs: Seq<PolarError>) -> bool {
    errs_describe(kb, bs, failing_rel_pairs(kb, bs), errs)
}

/// One more described pair keeps the correspondence.
proof fn lemma_describe_push(
    kb: KnowledgeBase,
    bs: Seq<BlockEntry>,
    pairs: Seq<(int, int)>,
    errs: Seq<PolarError>,
    p: (int, int),
    e: PolarError,
)
    requires
        errs_describe(kb, bs, pairs, errs),
        0 <= p.0 < bs.len(),
        0 <= p.1 < bs[p.0].declarations@.len(),
        decl_fails(kb, bs[p.0].declarations@[p.1]),
        e.context is None,
        bs[p.0].declarations@[p.1].1 matches Declaration::Relation(rt) && relation_error_desc(
            e,
            bs[p.0].declarations@[p.1].0,
            rt,
        ),
    ensures
        errs_describe(kb, bs, pairs.push(p), errs.push(e)),
{
    assert forall|k: int| 0 <= k < errs.push(e).len() implies {
        let p2 = pairs.push(p)[k];
        let d = bs[p2.0].declarations@[p2.1];
        &&& decl_fails(kb, d)
        &&& (#[trigger] errs.push(e)[k]).context is None
        &&& (d.1 matches Declaration::Relation(rt) && relation_error_desc(errs.push(e)[k], d.0, rt))
    } by {
        if k < errs.len() {
            assert(errs.push(e)[k] == errs[k]);
            assert(pairs.push(p)[k] == pairs[k]);
        } else {
            assert(errs.push(e)[k] == e);
            assert(pairs.push(p)[k] == p);
        }
    }
}

/// Check every declared relation type across all accumulated blocks against
/// the constants registry, returning one error per failure, in order.
pub fn check_all_relation_types_have_been_registered(kb: &KnowledgeBase) -> (r: Vec<PolarError>)
    ensures
        r@.len() == 0 <==> all_relation_types_registered(*kb),
        forall|i: int| 0 <= i < r@.len() ==> (#[trigger] r@[i]).context is None,
        rel_errors_match(*kb, kb.resource_blocks.blocks@, r@),
{
    let mut errors: Vec<PolarError> = Vec::new();
    let nb = kb.resource_blocks.blocks.len();
    let mut g: usize = 0;
    let ghost bs = kb.resource_blocks.blocks@;
    let ghost mut pairs: Seq<(int, int)> = Seq::empty();
    proof {
        assert(bs.take(0) =~= Seq::<BlockEntry>::empty());
    }
    while g < nb
        invariant
            g <= nb,
            bs == kb.resource_blocks.blocks@,
            nb == bs.len(),
            errors@.len() == 0 <==> forall|h: int|
                0 <= h < g ==> block_relations_registered(*kb, #[trigger] bs[h]),
            forall|i: int| 0 <= i < errors@.len() ==> (#[trigger] errors@[i]).context is None,
            pairs == failing_rel_pairs(*kb, bs.take(g as int)),
            errs_describe(*kb, bs, pairs, errors@),
        decreases nb - g,
    {
        let nd = kb.resource_blocks.blocks[g].declarations.len();
        let mut j: usize = 0;
        proof {
            assert(bs[g as int].declarations@.take(0) =~= Seq::<(Term, Declaration)>::empty());
        }
        while j < nd
            invariant
                j <= nd,
                g < nb,
                bs == kb.resource_blocks.blocks@,
                nb == bs.len(),
                nd == bs[g as int].declarations@.len(),
                errors@.len() == 0 <==> (forall|h: int|
                    0 <= h < g ==> block_relations_registered(*kb, #[trigger] bs[h])) && (forall|
                    k: int,
                |
                    0 <= k < j ==> ((#[trigger] bs[g as int].declarations@[k]).1 matches
                        Declaration::Relation(rt) ==> relation_registered(*kb, rt))),
                forall|i: int| 0 <= i < errors@.len() ==> (#[trigger] errors@[i]).context is None,
                pairs == failing_rel_pairs(*kb, bs.take(g as int)) + failing_rel_idxs(
                    *kb,
                    bs[g as int].declarations@.take(j as int),
                ).map_values(|j2: int| ((g as int) + 0, j2)),
                errs_describe(*kb, bs, pairs, errors@),
            decreases nd - j,
        {
            proof {
                assert(bs[g as int].declarations@.take(j + 1 as int).drop_last()
                    =~= bs[g as int].declarations@.take(j as int));
                assert(bs[g as int].declarations@.take(j + 1 as int).last()
                    == bs[g as int].declarations@[j as int]);
            }
            let entry = &kb.resource_blocks.blocks[g].declarations[j];
            match &entry.1 {
                Declaration::Relation(_) => {
                    let rt = match &entry.1 {
                        Declaration::Relation(t) => t,
                        _ => {
                            proof {
                                assert(false);
                            }
                            &entry.0
                        },
                    };
                    match relation_type_is_registered(kb, (&entry.0, rt)) {
                        Result::Ok(_) => {
                            proof {
                                let ds = bs[g as int].declarations@;
                                assert(!decl_fails(*kb, ds[j as int]));
                                assert(failing_rel_idxs(*kb, ds.take(j + 1 as int))
                                    =~= failing_rel_idxs(*kb, ds.take(j as int)));
                            }
                        },
                        Result::Err(e) => {
                            proof {
                                let ds = bs[g as int].declarations@;
                                assert(decl_fails(*kb, ds[j as int]));
                                assert(ds[j as int] == (entry.0, entry.1));
                                lemma_describe_push(
                                    *kb,
                                    bs,
                                    pairs,
                                    errors@,
                                    ((g as int) + 0, j as int),
                                    e,
                                );
                                assert(failing_rel_idxs(*kb, ds.take(j + 1 as int))
                                    =~= failing_rel_idxs(*kb, ds.take(j as int)).push(j as int));
                                assert(failing_rel_idxs(*kb, ds.take(j + 1 as int)).map_values(
                                    |j2: int| ((g as int) + 0, j2),
                                ) =~= failing_rel_idxs(*kb, ds.take(j as int)).map_values(
                                    |j2: int| ((g as int) + 0, j2),
                                ).push(((g as int) + 0, j as int)));
                                pairs = pairs.push(((g as int) + 0, j as int));
                                assert(pairs =~= failing_rel_pairs(*kb, bs.take(g as int))
                                    + failing_rel_idxs(*kb, ds.take(j + 1 as int)).map_values(
                                    |j2: int| ((g as int) + 0, j2),
                                ));
                            }
                            errors.push(e);
                        },
                    }
                },
                _ => {
                    proof {
                        let ds = bs[g as int].declarations@;
                        assert(!decl_fails(*kb, ds[j as int]));
                        assert(failing_rel_idxs(*kb, ds.take(j + 1 as int)) =~= failing_rel_idxs(
                            *kb,
                            ds.take(j as int),
                        ));
                    }
                },
            }
            j += 1;
        }
        proof {
            let ds = bs[g as int].declarations@;
            assert(ds.take(nd as int) =~= ds);
            assert(bs.take(g + 1 as int).drop_last() =~= bs.take(g as int));
            assert(bs.take(g + 1 as int).last() == bs[g as int]);
            assert(failing_rel_idxs(*kb, ds).map_values(|j2: int| ((g as int) + 0, j2))
                =~= failing_rel_idxs(*kb, ds).map_values(
                |j2: int| ((bs.take(g + 1 as int).len() - 1) as int, j2),
            ));
            assert(pairs =~= failing_rel_pairs(*kb, bs.take(g + 1 as int)));
        }
        g += 1;
    }
    proof {
        assert(bs.take(nb as int) =~= bs);
    }
    errors
}

impl ResourceBlock {
    /// Validate this block and record it in the knowledge base's block
    /// registry: its name must be a registered class not yet declared, its
    /// declarations must index without clashes, and every implication head
    /// must be declared locally.
    pub fn add_to_kb(self, kb: &mut KnowledgeBase) -> (r: PolarResult<()>)
        requires
            match self.relations {
                Option::Some(t) => match t.value {
                    Value::Dictionary(d) => forall|i: int, j: int|
                        0 <= i < j < d.fields@.len() ==> (#[trigger] d.fields@[i]).0.0@ != (
                        #[trigger] d.fields@[j]).0.0@,
                    _ => true,
                },
                Option::None => true,
            },
        ensures
            match r {
                Result::Ok(_) => {
                    &&& resource_registered(*old(kb), self.resource)
                    &&& blocks_lookup(old(kb).resource_blocks.blocks@, self.resource) is None
                    &&& decl_shapes_ok(self.roles, self.permissions, self.relations)
                    &&& !roles_dup(opt_list_items(self.roles))
                    &&& !perm_clash(opt_list_items(self.roles), opt_list_items(self.permissions))
                    &&& !rel_clash(
                        opt_list_items(self.roles),
                        opt_list_items(self.permissions),
                        opt_dict_fields(self.relations),
                    )
                    &&& forall|i: int|
                        0 <= i < self.implications@.len() ==> head_declared(
                            (#[trigger] self.implications@[i]).head,
                            opt_list_items(self.roles),
                            opt_list_items(self.permissions),
                            opt_dict_fields(self.relations),
                        )
                    &&& final(kb).resource_blocks.blocks@.len()
                        == old(kb).resource_blocks.blocks@.len() + 1
                    &&& {
                        let e = final(kb).resource_blocks.blocks@.last();
                        &&& e.entity_type == self.entity_type
                        &&& e.resource == self.resource
                        &&& is_indexed(
                            e.declarations@,
                            opt_list_items(self.roles),
                            opt_list_items(self.permissions),
                            opt_dict_fields(self.relations),
                        )
                        &&& e.implications == self.implications
                    }
                    &&& forall|j: int|
                        0 <= j < old(kb).resource_blocks.blocks@.len()
                            ==> final(kb).resource_blocks.blocks@[j]
                            == old(kb).resource_blocks.blocks@[j]
                    &&& *final(kb) == (KnowledgeBase {
                        resource_blocks: final(kb).resource_blocks,
                        ..*old(kb)
                    })
                },
                Result::Err(e) => {
                    &&& *final(kb) == *old(kb)
                    &&& e.context is None
                    &&& {
                        let rl = opt_list_items(self.roles);
                        let pl = opt_list_items(self.permissions);
                        let fl = opt_dict_fields(self.relations);
                        if !(decl_shapes_ok(self.roles, self.permissions, self.relations)
                            && !roles_dup(rl) && !perm_clash(rl, pl) && !rel_clash(rl, pl, fl)) {
                            index_error_desc(
                                e,
                                self.roles,
                                self.permissions,
                                self.relations,
                                self.resource,
                            )
                        } else if !resource_registered(*old(kb), self.resource) {
                            not_registered_desc(e, self.resource)
                        } else if blocks_lookup(
                            old(kb).resource_blocks.blocks@,
                            self.resource,
                        ) is Some {
                            e.kind matches ErrorKind::Parse(
                                ParseError::ParseSugar { loc, msg, ranges },
                            ) && loc == self.resource.spec_offset() && msg@ == dup_block_msg(
                                self.resource,
                            ) && ranges@.len() == 0
                        } else {
                            exists|i: int|
                                {
                                    &&& 0 <= i < self.implications@.len()
                                    &&& !head_declared(
                                        (#[trigger] self.implications@[i]).head,
                                        rl,
                                        pl,
                                        fl,
                                    )
                                    &&& forall|j: int|
                                        0 <= j < i ==> head_declared(
                                            self.implications@[j].head,
                                            rl,
                                            pl,
                                            fl,
                                        )
                                    &&& (e.kind matches ErrorKind::Parse(
                                        ParseError::ParseSugar { loc, msg, ranges },
                                    ) && loc == self.implications@[i].head.spec_offset() && msg@
                                        == undeclared_head_msg(
                                        self.implications@[i].head,
                                        self.resource,
                                    ) && ranges@.len() == 0)
                                }
                        }
                    }
                },
            },
    {
        let ghost sblock = self;
        let ResourceBlock { entity_type, resource, roles, permissions, relations, implications } =
            self;
        proof {
            assert(resource == sblock.resource && roles == sblock.roles && permissions
                == sblock.permissions && relations == sblock.relations && implications
                == sblock.implications && entity_type == sblock.entity_type);
        }
        let ghost rl_s = opt_list_items(roles);
        let ghost pl_s = opt_list_items(permissions);
        let ghost fl_s = opt_dict_fields(relations);

        let err1 = match check_that_block_resource_is_registered_as_a_class(kb, &resource) {
            Result::Ok(_) => Option::None,
            Result::Err(e) => Option::Some(e),
        };
        let err2 = match check_for_duplicate_resource_blocks(&kb.resource_blocks, &resource) {
            Result::Ok(_) => Option::None,
            Result::Err(e) => Option::Some(e),
        };
        let declarations = match index_declarations(roles, permissions, relations, &resource) {
            Result::Ok(d) => d,
            Result::Err(e) => {
                return Result::Err(e);
            },
        };
        let head_errors = check_that_implication_heads_are_declared_locally(
            &implications,
            &declarations,
            &resource,
        );
        proof {
            assert forall|i: int|
                0 <= i < implications@.len() implies (decl_lookup(
                declarations@,
                (#[trigger] implications@[i]).head,
            ) is Some <==> head_declared(implications@[i].head, rl_s, pl_s, fl_s)) by {
                lemma_indexed_head_lookup(
                    declarations@,
                    rl_s,
                    pl_s,
                    fl_s,
                    implications@[i].head,
                );
            }
        }
        match err1 {
            Option::Some(e) => {
                proof {
                    assert(not_registered_desc(e, sblock.resource));
                }
                return Result::Err(e);
            },
            Option::None => {},
        }
        match err2 {
            Option::Some(e) => {
                return Result::Err(e);
            },
            Option::None => {},
        }
        if head_errors.len() > 0 {
            let mut he = head_errors;
            return Result::Err(he.remove(0));
        }
        kb.resource_blocks.add(entity_type, resource, declarations, implications);
        Result::Ok(())
    }
}

/// One error for every implication head not declared in this block.
pub fn check_that_implication_heads_are_declared_locally(
    implications: &Vec<Implication>,
    declarations: &Declarations,
    resource: &Term,
) -> (r: Vec<PolarError>)
    ensures
        r@.len() == 0 <==> forall|i: int|
            0 <= i < implications@.len() ==> decl_lookup(
                declarations@,
                (#[trigger] implications@[i]).head,
            ) is Some,
        forall|i: int| 0 <= i < r@.len() ==> (#[trigger] r@[i]).context is None,
        r@.len() > 0 ==> exists|i: int|
            {
                &&& 0 <= i < implications@.len()
                &&& decl_lookup(declarations@, (#[trigger] implications@[i]).head) is None
                &&& forall|j: int|
                    0 <= j < i ==> decl_lookup(declarations@, implications@[j].head) is Some
                &&& (r@[0].kind matches ErrorKind::Parse(
                    ParseError::ParseSugar { loc, msg, ranges },
                ) && loc == implications@[i].head.spec_offset() && msg@ == undeclared_head_msg(
                    implications@[i].head,
                    *resource,
                ) && ranges@.len() == 0)
            },
{
    let mut errors: Vec<PolarError> = Vec::new();
    let n = implications.len();
    let mut i: usize = 0;
    while i < n
        invariant
            i <= n,
            n == implications@.len(),
            errors@.len() == 0 <==> forall|k: int|
                0 <= k < i ==> decl_lookup(
                    declarations@,
                    (#[trigger] implications@[k]).head,
                ) is Some,
            forall|k: int| 0 <= k < errors@.len() ==> (#[trigger] errors@[k]).context is None,
            errors@.len() > 0 ==> exists|fi: int|
                {
                    &&& 0 <= fi < i
                    &&& decl_lookup(declarations@, (#[trigger] implications@[fi]).head) is None
                    &&& forall|j: int|
                        0 <= j < fi ==> decl_lookup(declarations@, implications@[j].head) is Some
                    &&& (errors@[0].kind matches ErrorKind::Parse(
                        ParseError::ParseSugar { loc, msg, ranges },
                    ) && loc == implications@[fi].head.spec_offset() && msg@
                        == undeclared_head_msg(implications@[fi].head, *resource) && ranges@.len()
                        == 0)
                },
        decreases n - i,
    {
        if decl_get(declarations, &implications[i].head).is_none() {
            let mut msg: String = "Undeclared term ".to_owned();
            msg.append(implications[i].head.to_polar().as_str());
            msg.append(" referenced in rule in '");
            msg.append(resource.to_polar().as_str());
            msg.append(
                "' resource block. Did you mean to declare it as a role, permission, or relation?",
            );
            proof {
                assert(msg@ =~= undeclared_head_msg(implications@[i as int].head, *resource));
            }
            let ghost pre = errors@;
            errors.push(sugar_error(implications[i].head.offset(), msg));
            proof {
                if pre.len() > 0 {
                    assert(errors@[0] == pre[0]);
                } else {
                    assert(errors@[0] == errors@[errors@.len() - 1]);
                }
            }
        }
        i += 1;
    }
    errors
}

// ---------------------------------------------------------------------------
// The rewrite step of the pipeline
// ---------------------------------------------------------------------------

/// Every accumulated block's name is a variable term.
pub open spec fn blocks_resources_vars(blocks: ResourceBlocks) -> bool {
    forall|i: int|
        0 <= i < blocks.blocks@.len() ==> (#[trigger] blocks.blocks@[i]).resource.value is Variable
}

/// Every implication of every accumulated block can be rewritten.
pub open spec fn block_implications_ok(blocks: ResourceBlocks, b: BlockEntry) -> bool {
    forall|k: int|
        0 <= k < b.implications@.len() ==> implication_ok(
            blocks,
            b.resource,
            #[trigger] b.implications@[k],
        )
}

/// Every implication of the whole batch can be rewritten.
pub open spec fn all_implications_ok(blocks: ResourceBlocks) -> bool {
    forall|i: int|
        0 <= i < blocks.blocks@.len() ==> block_implications_ok(
            blocks,
            #[trigger] blocks.blocks@[i],
        )
}

/// The total number of rules held across all generic rules.
pub open spec fn gr_total(rules: Seq<GenericRule>) -> int
    decreases rules.len(),
{
    if rules.len() == 0 {
        0
    } else {
        gr_total(rules.drop_last()) + rules.last().rules@.len()
    }
}

/// The total number of implications across all accumulated blocks.
pub open spec fn imp_total(bs: Seq<BlockEntry>) -> int
    decreases bs.len(),
{
    if bs.len() == 0 {
        0
    } else {
        imp_total(bs.drop_last()) + bs.last().implications@.len()
    }
}

/// Changing one generic rule changes the total by the difference at that
/// position.
proof fn lemma_total_pointwise(a: Seq<GenericRule>, b: Seq<GenericRule>, i: int)
    requires
        a.len() == b.len(),
        0 <= i < a.len(),
        forall|j: int| 0 <= j < a.len() && j != i ==> a[j] == b[j],
    ensures
        gr_total(b) == gr_total(a) - a[i].rules@.len() + b[i].rules@.len(),
    decreases a.len(),
{
    if a.len() > 0 {
        if i == a.len() - 1 {
            assert(a.drop_last() =~= b.drop_last());
        } else {
            assert forall|j: int|
                0 <= j < a.drop_last().len() && j != i implies a.drop_last()[j] == b.drop_last()[j] by {
                assert(a.drop_last()[j] == a[j] && b.drop_last()[j] == b[j]);
            }
            lemma_total_pointwise(a.drop_last(), b.drop_last(), i);
            assert(a.last() == b.last());
            assert(a.drop_last()[i] == a[i] && b.drop_last()[i] == b[i]);
        }
    }
}

/// Appending a generic rule adds its rules to the total.
proof fn lemma_push_total(a: Seq<GenericRule>, x: GenericRule)
    ensures
        gr_total(a.push(x)) == gr_total(a) + x.rules@.len(),
{
    assert(a.push(x).drop_last() =~= a);
    assert(a.push(x).last() == x);
}

/// Adding one rule raises the total by exactly one.
proof fn lemma_added_total(olds: Seq<GenericRule>, news: Seq<GenericRule>, rule: Rule)
    requires
        rules_with_added(olds, news, rule),
    ensures
        gr_total(news) == gr_total(olds) + 1,
{
    if exists|i: int| 0 <= i < olds.len() && (#[trigger] olds[i]).name.0@ == rule.name.0@ {
        let i = choose|i: int|
            {
                &&& 0 <= i < olds.len()
                &&& (#[trigger] olds[i]).name.0@ == rule.name.0@
                &&& gr_with_added(news[i], olds[i], rule)
                &&& forall|j: int| 0 <= j < olds.len() && j != i ==> news[j] == olds[j]
            };
        lemma_total_pointwise(olds, news, i);
    } else {
        assert(news =~= olds.push(news.last()));
        lemma_push_total(olds, news.last());
    }
}

/// `e` is the diagnostic of the first implication, in block order, whose
/// names fail to resolve.
pub open spec fn first_rewrite_error(e: PolarError, blocks: ResourceBlocks) -> bool {
    exists|i: int, k: int|
        #![trigger blocks.blocks@[i].implications@[k]]
        {
            &&& 0 <= i < blocks.blocks@.len()
            &&& 0 <= k < blocks.blocks@[i].implications@.len()
            &&& !implication_ok(
                blocks,
                blocks.blocks@[i].resource,
                blocks.blocks@[i].implications@[k],
            )
            &&& forall|i2: int|
                0 <= i2 < i ==> block_implications_ok(blocks, #[trigger] blocks.blocks@[i2])
            &&& forall|k2: int|
                0 <= k2 < k ==> implication_ok(
                    blocks,
                    blocks.blocks@[i].resource,
                    #[trigger] blocks.blocks@[i].implications@[k2],
                )
            &&& e.context is None
        }
}

/// The new rules keep every old generic rule in place, with its rules as a
/// prefix.
pub open spec fn rules_extend(olds: Seq<GenericRule>, news: Seq<GenericRule>) -> bool {
    &&& news.len() >= olds.len()
    &&& forall|g: int|
        0 <= g < olds.len() ==> (#[trigger] news[g]).name == olds[g].name
            && olds[g].rules@.is_prefix_of(news[g].rules@)
}

/// Adding one rule extends the generic rules.
proof fn lemma_added_extends(olds: Seq<GenericRule>, news: Seq<GenericRule>, rule: Rule)
    requires
        rules_with_added(olds, news, rule),
    ensures
        rules_extend(olds, news),
{
    if exists|i: int| 0 <= i < olds.len() && (#[trigger] olds[i]).name.0@ == rule.name.0@ {
        let i = choose|i: int|
            {
                &&& 0 <= i < olds.len()
                &&& (#[trigger] olds[i]).name.0@ == rule.name.0@
                &&& gr_with_added(news[i], olds[i], rule)
                &&& forall|j: int| 0 <= j < olds.len() && j != i ==> news[j] == olds[j]
            };
        assert forall|g: int| 0 <= g < olds.len() implies (#[trigger] news[g]).name == olds[g].name
            && olds[g].rules@.is_prefix_of(news[g].rules@) by {
            if g == i {
                assert(news[g].rules@ == olds[g].rules@.push((olds[g].next_idx, rule)));
                assert(olds[g].rules@.is_prefix_of(news[g].rules@));
            } else {
                assert(olds[g].rules@.is_prefix_of(news[g].rules@));
            }
        }
    } else {
        assert forall|g: int| 0 <= g < olds.len() implies (#[trigger] news[g]).name == olds[g].name
            && olds[g].rules@.is_prefix_of(news[g].rules@) by {
            assert(news[g] == olds[g]);
        }
    }
}

/// Extension is transitive.
proof fn lemma_extend_trans(a: Seq<GenericRule>, b: Seq<GenericRule>, c: Seq<GenericRule>)
    requires
        rules_extend(a, b),
        rules_extend(b, c),
    ensures
        rules_extend(a, c),
{
    assert forall|g: int| 0 <= g < a.len() implies (#[trigger] c[g]).name == a[g].name
        && a[g].rules@.is_prefix_of(c[g].rules@) by {
        assert(b[g].name == a[g].name && a[g].rules@.is_prefix_of(b[g].rules@));
        assert(c[g].name == b[g].name && b[g].rules@.is_prefix_of(c[g].rules@));
    }
}

/// Every implication of the block below `upto` has a rewritten rule among
/// `rules`.
pub open spec fn imp_rewritten(rules: Seq<Rule>, blocks: ResourceBlocks, b: BlockEntry, k: int) -> bool {
    exists|ri: int|
        0 <= ri < rules.len() && is_rewritten_rule(
            #[trigger] rules[ri],
            b.implications@[k],
            b.resource,
            blocks,
        )
}

pub open spec fn block_imps_rewritten(
    rules: Seq<Rule>,
    blocks: ResourceBlocks,
    b: BlockEntry,
    upto: int,
) -> bool {
    forall|k: int| 0 <= k < upto ==> #[trigger] imp_rewritten(rules, blocks, b, k)
}

/// The rule is the rewrite of some accumulated implication.
pub open spec fn some_imp_rewritten(rule: Rule, blocks: ResourceBlocks) -> bool {
    exists|i: int, k: int|
        #![trigger blocks.blocks@[i].implications@[k]]
        {
            &&& 0 <= i < blocks.blocks@.len()
            &&& 0 <= k < blocks.blocks@[i].implications@.len()
            &&& is_rewritten_rule(
                rule,
                blocks.blocks@[i].implications@[k],
                blocks.blocks@[i].resource,
                blocks,
            )
        }
}

/// Pushing a rule keeps every established rewrite.
proof fn lemma_imps_rewritten_push(
    pre: Seq<Rule>,
    rule: Rule,
    blocks: ResourceBlocks,
    b: BlockEntry,
    upto: int,
)
    requires
        block_imps_rewritten(pre, blocks, b, upto),
    ensures
        block_imps_rewritten(pre.push(rule), blocks, b, upto),
{
    assert forall|k: int| 0 <= k < upto implies #[trigger] imp_rewritten(
        pre.push(rule),
        blocks,
        b,
        k,
    ) by {
        assert(imp_rewritten(pre, blocks, b, k));
        let ri = choose|ri: int|
            0 <= ri < pre.len() && is_rewritten_rule(
                #[trigger] pre[ri],
                b.implications@[k],
                b.resource,
                blocks,
            );
        assert(pre.push(rule)[ri] == pre[ri]);
    }
}

/// A rewritten rule for the implication stands somewhere in the knowledge
/// base's rules.
pub open spec fn rewritten_in(
    kbrules: Seq<GenericRule>,
    blocks: ResourceBlocks,
    resource: Term,
    imp: Implication,
) -> bool {
    exists|g: int, k: int|
        #![trigger kbrules[g].rules@[k]]
        {
            &&& 0 <= g < kbrules.len()
            &&& 0 <= k < kbrules[g].rules@.len()
            &&& is_rewritten_rule(kbrules[g].rules@[k].1, imp, resource, blocks)
        }
}

/// Every implication of the block has its rewritten rule in the knowledge
/// base's rules.
pub open spec fn block_rewritten_in(
    kbrules: Seq<GenericRule>,
    blocks: ResourceBlocks,
    b: BlockEntry,
) -> bool {
    forall|k: int|
        0 <= k < b.implications@.len() ==> rewritten_in(
            kbrules,
            blocks,
            b.resource,
            #[trigger] b.implications@[k],
        )
}

impl KnowledgeBase {
    /// Rewrite every accumulated implication into a base rule and merge the
    /// results into the rule set. The accumulated block state is cleared
    /// unconditionally, on success and on every failure path, so no block
    /// state leaks into the next load.
    pub fn rewrite_implications(&mut self) -> (r: PolarResult<()>)
        requires
            blocks_resources_vars(old(self).resource_blocks),
        ensures
            final(self).resource_blocks.is_cleared(),
            match r {
                Result::Ok(_) => {
                    &&& all_relation_types_registered(*old(self))
                    &&& all_implications_ok(old(self).resource_blocks)
                    &&& rules_extend(old(self).rules@, final(self).rules@)
                    &&& forall|i: int|
                        0 <= i < old(self).resource_blocks.blocks@.len() ==> block_rewritten_in(
                            final(self).rules@,
                            old(self).resource_blocks,
                            #[trigger] old(self).resource_blocks.blocks@[i],
                        )
                    &&& gr_total(final(self).rules@) == gr_total(old(self).rules@) + imp_total(
                        old(self).resource_blocks.blocks@,
                    )
                    &&& forall|g2: int, k2: int|
                        #![trigger final(self).rules@[g2].rules@[k2]]
                        (0 <= g2 < final(self).rules@.len() && 0 <= k2
                            < final(self).rules@[g2].rules@.len() && !(g2 < old(self).rules@.len()
                            && k2 < old(self).rules@[g2].rules@.len())) ==> some_imp_rewritten(
                            final(self).rules@[g2].rules@[k2].1,
                            old(self).resource_blocks,
                        )
                    &&& *final(self) == (KnowledgeBase {
                        resource_blocks: final(self).resource_blocks,
                        rules: final(self).rules,
                        ..*old(self)
                    })
                },
                Result::Err(e) => {
                    &&& *final(self) == (KnowledgeBase {
                        resource_blocks: final(self).resource_blocks,
                        ..*old(self)
                    })
                    &&& if !all_relation_types_registered(*old(self)) {
                        // The first unregistered relation type's diagnostic.
                        failing_rel_pairs(*old(self), old(self).resource_blocks.blocks@).len() > 0
                            && {
                            let p = failing_rel_pairs(
                                *old(self),
                                old(self).resource_blocks.blocks@,
                            )[0];
                            let d = old(self).resource_blocks.blocks@[p.0].declarations@[p.1];
                            &&& decl_fails(*old(self), d)
                            &&& e.context is None
                            &&& (d.1 matches Declaration::Relation(rt) && relation_error_desc(
                                e,
                                d.0,
                                rt,
                            ))
                        }
                    } else {
                        &&& !all_implications_ok(old(self).resource_blocks)
                        &&& first_rewrite_error(e, old(self).resource_blocks)
                    }
                },
            },
    {
        let ghost okb = *self;
        let ghost oblocks = self.resource_blocks;
        let errors = check_all_relation_types_have_been_registered(&*self);
        if errors.len() > 0 {
            self.resource_blocks.clear();
            let mut errs = errors;
            let e = errs.remove(0);
            return Result::Err(e);
        }

        proof {
            assert forall|i: int| 0 <= i < oblocks.blocks@.len() implies block_entry_wf(
                #[trigger] oblocks.blocks@[i],
            ) by {
                assert(block_relations_registered(okb, oblocks.blocks@[i]));
            }
        }

        let mut rules: Vec<Rule> = Vec::new();
        let nb = self.resource_blocks.blocks.len();
        let mut g: usize = 0;
        let mut first_err: Option<PolarError> = Option::None;
        while g < nb
            invariant
                g <= nb,
                *self == okb,
                self.resource_blocks == oblocks,
                nb == oblocks.blocks@.len(),
                blocks_wf(oblocks),
                blocks_resources_vars(oblocks),
                first_err is None ==> forall|i: int|
                    0 <= i < g ==> block_imps_rewritten(
                        rules@,
                        oblocks,
                        #[trigger] oblocks.blocks@[i],
                        oblocks.blocks@[i].implications@.len() as int,
                    ),
                first_err is None ==> forall|i: int|
                    0 <= i < g ==> block_implications_ok(oblocks, #[trigger] oblocks.blocks@[i]),
                first_err is None ==> rules@.len() == imp_total(oblocks.blocks@.take(g as int)),
                first_err matches Option::Some(e) ==> first_rewrite_error(e, oblocks),
                forall|ri: int|
                    0 <= ri < rules@.len() ==> some_imp_rewritten(#[trigger] rules@[ri], oblocks),
            decreases nb - g,
        {
            proof {
                lemma_blocks_lookup_exists(oblocks.blocks@, oblocks.blocks@[g as int].resource);
                assert(veq(
                    oblocks.blocks@[g as int].resource,
                    oblocks.blocks@[g as int].resource,
                ));
            }
            let ni = self.resource_blocks.blocks[g].implications.len();
            let mut k: usize = 0;
            while k < ni
                invariant
                    k <= ni,
                    g < nb,
                    *self == okb,
                    self.resource_blocks == oblocks,
                    nb == oblocks.blocks@.len(),
                    ni == oblocks.blocks@[g as int].implications@.len(),
                    blocks_wf(oblocks),
                    blocks_resources_vars(oblocks),
                    blocks_lookup(oblocks.blocks@, oblocks.blocks@[g as int].resource) is Some,
                    first_err is None ==> forall|i: int|
                        0 <= i < g ==> block_imps_rewritten(
                            rules@,
                            oblocks,
                            #[trigger] oblocks.blocks@[i],
                            oblocks.blocks@[i].implications@.len() as int,
                        ),
                    first_err is None ==> block_imps_rewritten(
                        rules@,
                        oblocks,
                        oblocks.blocks@[g as int],
                        k as int,
                    ),
                    first_err is None ==> forall|i: int|
                        0 <= i < g ==> block_implications_ok(
                            oblocks,
                            #[trigger] oblocks.blocks@[i],
                        ),
                    first_err is None ==> forall|k2: int|
                        0 <= k2 < k ==> implication_ok(
                            oblocks,
                            oblocks.blocks@[g as int].resource,
                            #[trigger] oblocks.blocks@[g as int].implications@[k2],
                        ),
                    first_err is None ==> rules@.len() == imp_total(
                        oblocks.blocks@.take(g as int),
                    ) + k,
                    first_err matches Option::Some(e) ==> first_rewrite_error(e, oblocks),
                    forall|ri: int|
                        0 <= ri < rules@.len() ==> some_imp_rewritten(
                            #[trigger] rules@[ri],
                            oblocks,
                        ),
                decreases ni - k,
            {
                match self.resource_blocks.blocks[g].implications[k].as_rule(
                    &self.resource_blocks.blocks[g].resource,
                    &self.resource_blocks,
                ) {
                    Result::Ok(rule) => {
                        let ghost pre = rules@;
                        rules.push(rule);
                        proof {
                            assert(rules@ == pre.push(rule));
                            assert(rules@[pre.len() as int] == rule);
                            assert(is_rewritten_rule(
                                rule,
                                oblocks.blocks@[g as int].implications@[k as int],
                                oblocks.blocks@[g as int].resource,
                                oblocks,
                            ));
                            assert(implication_ok(
                                oblocks,
                                oblocks.blocks@[g as int].resource,
                                oblocks.blocks@[g as int].implications@[k as int],
                            ));
                            if first_err is None {
                                assert forall|i: int| 0 <= i < g implies block_imps_rewritten(
                                    rules@,
                                    oblocks,
                                    #[trigger] oblocks.blocks@[i],
                                    oblocks.blocks@[i].implications@.len() as int,
                                ) by {
                                    lemma_imps_rewritten_push(
                                        pre,
                                        rule,
                                        oblocks,
                                        oblocks.blocks@[i],
                                        oblocks.blocks@[i].implications@.len() as int,
                                    );
                                }
                                lemma_imps_rewritten_push(
                                    pre,
                                    rule,
                                    oblocks,
                                    oblocks.blocks@[g as int],
                                    k as int,
                                );
                                assert(block_imps_rewritten(
                                    rules@,
                                    oblocks,
                                    oblocks.blocks@[g as int],
                                    k + 1 as int,
                                )) by {
                                    assert forall|k2: int| 0 <= k2 < k + 1 implies
                                        #[trigger] imp_rewritten(
                                        rules@,
                                        oblocks,
                                        oblocks.blocks@[g as int],
                                        k2,
                                    ) by {
                                        if k2 == k {
                                            assert(is_rewritten_rule(
                                                rules@[pre.len() as int],
                                                oblocks.blocks@[g as int].implications@[k2],
                                                oblocks.blocks@[g as int].resource,
                                                oblocks,
                                            ));
                                        }
                                    }
                                }
                            }
                            assert forall|ri: int| 0 <= ri < rules@.len() implies
                                some_imp_rewritten(#[trigger] rules@[ri], oblocks) by {
                                if ri == pre.len() {
                                    assert(rules@[ri] == rule);
                                    assert(0 <= (g as int) < oblocks.blocks@.len() && 0 <= (
                                    k as int) < oblocks.blocks@[
                                        g as int
                                    ].implications@.len() && is_rewritten_rule(
                                        rule,
                                        oblocks.blocks@[g as int].implications@[k as int],
                                        oblocks.blocks@[g as int].resource,
                                        oblocks,
                                    ));
                                } else {
                                    assert(rules@[ri] == pre[ri]);
                                }
                            }
                        }
                    },
                    Result::Err(e) => {
                        proof {
                            assert(!implication_ok(
                                oblocks,
                                oblocks.blocks@[g as int].resource,
                                oblocks.blocks@[g as int].implications@[k as int],
                            ));
                            assert(!block_implications_ok(oblocks, oblocks.blocks@[g as int]));
                        }
                        if first_err.is_none() {
                            proof {
                                assert(first_rewrite_error(e, oblocks)) by {
                                    assert(0 <= (g as int) < oblocks.blocks@.len() && 0 <= (
                                    k as int) < oblocks.blocks@[g as int].implications@.len()
                                        && !implication_ok(
                                        oblocks,
                                        oblocks.blocks@[g as int].resource,
                                        oblocks.blocks@[g as int].implications@[k as int],
                                    ));
                                }
                            }
                            first_err = Option::Some(e);
                        }
                    },
                }
                k += 1;
            }
            proof {
                if first_err is None {
                    assert(oblocks.blocks@.take(g + 1 as int).drop_last() =~= oblocks.blocks@.take(
                        g as int,
                    ));
                    assert(oblocks.blocks@.take(g + 1 as int).last() == oblocks.blocks@[g as int]);
                }
            }
            g += 1;
        }

        self.resource_blocks.clear();
        match first_err {
            Option::Some(e) => {
                return Result::Err(e);
            },
            Option::None => {},
        }
        proof {
            assert(oblocks.blocks@.take(nb as int) =~= oblocks.blocks@);
            assert(rules@.len() == imp_total(oblocks.blocks@));
        }

        let ghost all_rules = rules@;
        let ghost cleared_kb = *self;
        let mut rest = rules;
        let nr = rest.len();
        let mut ri: usize = 0;
        while ri < nr
            invariant
                ri <= nr,
                nr == all_rules.len(),
                rest@ =~= all_rules.skip(ri as int),
                *self == (KnowledgeBase { rules: self.rules, ..cleared_kb }),
                rules_extend(cleared_kb.rules@, self.rules@),
                gr_total(self.rules@) == gr_total(cleared_kb.rules@) + ri,
                forall|rj: int|
                    0 <= rj < all_rules.len() ==> some_imp_rewritten(
                        #[trigger] all_rules[rj],
                        oblocks,
                    ),
                forall|g2: int, k2: int|
                    #![trigger self.rules@[g2].rules@[k2]]
                    (0 <= g2 < self.rules@.len() && 0 <= k2 < self.rules@[g2].rules@.len() && !(g2
                        < cleared_kb.rules@.len() && k2
                        < cleared_kb.rules@[g2].rules@.len())) ==> some_imp_rewritten(
                        self.rules@[g2].rules@[k2].1,
                        oblocks,
                    ),
                forall|j: int|
                    0 <= j < ri ==> exists|g2: int, k2: int|
                        #![trigger self.rules@[g2].rules@[k2]]
                        0 <= g2 < self.rules@.len() && 0 <= k2 < self.rules@[g2].rules@.len()
                            && self.rules@[g2].rules@[k2].1 == (#[trigger] all_rules[j]),
            decreases nr - ri,
        {
            proof {
                assert(all_rules.skip(ri as int)[0] == all_rules[ri as int]);
                assert(all_rules.skip(ri as int).remove(0) =~= all_rules.skip(ri + 1 as int));
            }
            let rule = rest.remove(0);
            let ghost before = self.rules@;
            self.add_rule(rule);
            proof {
                lemma_added_extends(before, self.rules@, all_rules[ri as int]);
                lemma_extend_trans(cleared_kb.rules@, before, self.rules@);
                lemma_added_total(before, self.rules@, all_rules[ri as int]);
                assert forall|g2: int, k2: int|
                    #![trigger self.rules@[g2].rules@[k2]]
                    (0 <= g2 < self.rules@.len() && 0 <= k2 < self.rules@[g2].rules@.len() && !(g2
                        < cleared_kb.rules@.len() && k2
                        < cleared_kb.rules@[g2].rules@.len())) implies some_imp_rewritten(
                    self.rules@[g2].rules@[k2].1,
                    oblocks,
                ) by {
                    if exists|i: int|
                        0 <= i < before.len() && (#[trigger] before[i]).name.0@ == all_rules[
                        ri as int
                    ].name.0@ {
                        let i = choose|i: int|
                            {
                                &&& 0 <= i < before.len()
                                &&& (#[trigger] before[i]).name.0@ == all_rules[ri as int].name.0@
                                &&& gr_with_added(self.rules@[i], before[i], all_rules[ri as int])
                                &&& forall|j: int|
                                    0 <= j < before.len() && j != i ==> self.rules@[j] == before[j]
                            };
                        if g2 == i {
                            if k2 < before[i].rules@.len() {
                                assert(self.rules@[g2].rules@[k2] == before[g2].rules@[k2]);
                            } else {
                                assert(self.rules@[g2].rules@[k2].1 == all_rules[ri as int]);
                            }
                        } else {
                            assert(self.rules@[g2] == before[g2]);
                        }
                    } else {
                        if g2 < before.len() {
                            assert(self.rules@[g2] == before[g2]);
                        } else {
                            assert(self.rules@[g2].rules@ =~= seq![
                                (0u64, all_rules[ri as int]),
                            ]);
                            assert(self.rules@[g2].rules@[k2].1 == all_rules[ri as int]);
                        }
                    }
                }
                assert(exists|g2: int, k2: int|
                    #![trigger self.rules@[g2].rules@[k2]]
                    0 <= g2 < self.rules@.len() && 0 <= k2 < self.rules@[g2].rules@.len()
                        && self.rules@[g2].rules@[k2].1 == all_rules[ri as int]) by {
                    if exists|i: int|
                        0 <= i < before.len() && (#[trigger] before[i]).name.0@ == all_rules[
                        ri as int
                    ].name.0@ {
                        let i = choose|i: int|
                            {
                                &&& 0 <= i < before.len()
                                &&& (#[trigger] before[i]).name.0@ == all_rules[ri as int].name.0@
                                &&& gr_with_added(self.rules@[i], before[i], all_rules[ri as int])
                                &&& forall|j: int|
                                    0 <= j < before.len() && j != i ==> self.rules@[j] == before[j]
                            };
                        assert(self.rules@[i].rules@[before[i].rules@.len() as int].1 == all_rules[
                            ri as int
                        ]);
                    } else {
                        assert(self.rules@[before.len() as int].rules@[0].1 == all_rules[
                            ri as int
                        ]);
                    }
                }
                assert forall|j: int| #![trigger all_rules[j]] 0 <= j < ri + 1 implies exists|
                    g2: int,
                    k2: int,
                |
                    #![trigger self.rules@[g2].rules@[k2]]
                    0 <= g2 < self.rules@.len() && 0 <= k2 < self.rules@[g2].rules@.len()
                        && self.rules@[g2].rules@[k2].1 == all_rules[j] by {
                    if j < ri {
                        let (g2, k2) = choose|g2: int, k2: int|
                            #![trigger before[g2].rules@[k2]]
                            0 <= g2 < before.len() && 0 <= k2 < before[g2].rules@.len() && before[
                            g2
                        ].rules@[k2].1 == all_rules[j];
                        assert(before[g2].rules@.is_prefix_of(self.rules@[g2].rules@));
                        assert(self.rules@[g2].rules@[k2] == before[g2].rules@[k2]);
                    }
                }
            }
            ri += 1;
        }
        proof {
            assert forall|i: int| 0 <= i < oblocks.blocks@.len() implies block_rewritten_in(
                self.rules@,
                oblocks,
                #[trigger] oblocks.blocks@[i],
            ) by {
                let b = oblocks.blocks@[i];
                assert(block_imps_rewritten(all_rules, oblocks, b, b.implications@.len() as int));
                assert forall|k: int| 0 <= k < b.implications@.len() implies rewritten_in(
                    self.rules@,
                    oblocks,
                    b.resource,
                    #[trigger] b.implications@[k],
                ) by {
                    assert(imp_rewritten(all_rules, oblocks, b, k));
                    let rj = choose|rj: int|
                        0 <= rj < all_rules.len() && is_rewritten_rule(
                            #[trigger] all_rules[rj],
                            b.implications@[k],
                            b.resource,
                            oblocks,
                        );
                    let (g2, k2) = choose|g2: int, k2: int|
                        #![trigger self.rules@[g2].rules@[k2]]
                        0 <= g2 < self.rules@.len() && 0 <= k2 < self.rules@[g2].rules@.len()
                            && self.rules@[g2].rules@[k2].1 == all_rules[rj];
                    assert(is_rewritten_rule(
                        self.rules@[g2].rules@[k2].1,
                        b.implications@[k],
                        b.resource,
                        oblocks,
                    ));
                }
            }
        }
        Result::Ok(())
    }
}

// ---------------------------------------------------------------------------
// The parser-facing validation surface
// ---------------------------------------------------------------------------

/// The byte range of a parsed term, for highlighting in diagnostics.
pub fn term_source_range(term: &Term) -> (r: (usize, usize))
    requires
        term.source_info is Parser,
    ensures
        term.source_info matches SourceInfo::Parser { left, right, .. } && r == (left, right),
{
    match &term.source_info {
        SourceInfo::Parser { left, right, .. } => (*left, *right),
        SourceInfo::Anonymous => {
            proof {
                assert(false);
            }
            (0, 0)
        },
    }
}

/// Accept the keyword between a relation implier and a relation name only
/// when it is exactly `on`.
pub fn validate_relation_keyword(pair: (Term, Term)) -> (r: PolarResult<Term>)
    requires
        pair.0.value is Variable,
    ensures
        match r {
            Result::Ok(t) => (pair.0.value matches Value::Variable(s) && s.0@ == "on"@) && t
                == pair.1,
            Result::Err(e) => {
                &&& !(pair.0.value matches Value::Variable(s) && s.0@ == "on"@)
                &&& e.context is None
                &&& e.kind matches ErrorKind::Parse(ParseError::ParseSugar { loc, msg, ranges })
                    && loc == pair.0.spec_offset() && msg@ == "Unexpected relation keyword '"@
                    + term_to_polar_s(pair.0) + "'. Did you mean 'on'?"@ && ranges@.len() == 0
            },
        },
{
    let (keyword, relation) = pair;
    let is_on = match &keyword.value {
        Value::Variable(s) => s.0 == "on".to_owned(),
        _ => {
            proof {
                assert(false);
            }
            false
        },
    };
    if is_on {
        Result::Ok(relation)
    } else {
        let mut msg: String = "Unexpected relation keyword '".to_owned();
        msg.append(keyword.to_polar().as_str());
        msg.append("'. Did you mean 'on'?");
        proof {
            assert(msg@ =~= "Unexpected relation keyword '"@ + term_to_polar_s(keyword)
                + "'. Did you mean 'on'?"@);
        }
        Result::Err(sugar_error(keyword.offset(), msg))
    }
}

/// A `name = term;` declaration is one of `roles = [...]`,
/// `permissions = [...]` or `relations = {...}`; anything else is a
/// source-located error.
pub fn validate_parsed_declaration(pair: (Symbol, Term)) -> (r: PolarResult<Production>)
    requires
        pair.1.value is List || pair.1.value is Dictionary,
        pair.1.source_info is Parser,
    ensures
        match r {
            Result::Ok(p) => match p {
                Production::Roles(t) => pair.0.0@ == "roles"@ && t == pair.1 && t.value is List,
                Production::Permissions(t) => pair.0.0@ == "permissions"@ && t == pair.1
                    && t.value is List,
                Production::Relations(t) => pair.0.0@ == "relations"@ && t == pair.1
                    && t.value is Dictionary,
                Production::Implication(_, _) => false,
            },
            Result::Err(e) => {
                &&& !((pair.0.0@ == "roles"@ && pair.1.value is List) || (pair.0.0@
                    == "permissions"@ && pair.1.value is List) || (pair.0.0@ == "relations"@
                    && pair.1.value is Dictionary))
                &&& e.context is None
                &&& e.kind matches ErrorKind::Parse(ParseError::ParseSugar { loc, msg, ranges })
                    && loc == pair.1.spec_offset() && ranges@.len() == 1
            },
        },
{
    let (name, term) = pair;
    let is_roles = name.0 == "roles".to_owned();
    let is_permissions = name.0 == "permissions".to_owned();
    let is_relations = name.0 == "relations".to_owned();
    let is_list = matches!(&term.value, Value::List(_));
    if is_roles && is_list {
        return Result::Ok(Production::Roles(term));
    }
    if is_permissions && is_list {
        return Result::Ok(Production::Permissions(term));
    }
    if is_relations && !is_list {
        return Result::Ok(Production::Relations(term));
    }
    let range = term_source_range(&term);
    let mut ranges: Vec<(usize, usize)> = Vec::new();
    ranges.push(range);
    let msg: String = if (is_roles || is_permissions) && !is_list {
        let mut m: String = "Expected '".to_owned();
        m.append(name.0.as_str());
        m.append("' declaration to be a list of strings; found a dictionary:\n");
        m
    } else if is_relations {
        "Expected 'relations' declaration to be a dictionary; found a list:\n".to_owned()
    } else if is_list {
        let mut m: String = "Unexpected declaration '".to_owned();
        m.append(name.0.as_str());
        m.append(
            "'. Did you mean for this to be 'roles = [ ... ];' or 'permissions = [ ... ];'?\n",
        );
        m
    } else {
        let mut m: String = "Unexpected declaration '".to_owned();
        m.append(name.0.as_str());
        m.append("'. Did you mean for this to be 'relations = { ... };'?\n");
        m
    };
    Result::Err(
        PolarError::new(
            ErrorKind::Parse(ParseError::ParseSugar { loc: term.offset(), msg, ranges }),
        ),
    )
}

/// The first roles production, scanning left to right.
pub open spec fn first_roles(ps: Seq<Production>) -> Option<Term>
    decreases ps.len(),
{
    if ps.len() == 0 {
        Option::None
    } else {
        let prefix = first_roles(ps.drop_last());
        if prefix is Some {
            prefix
        } else {
            match ps.last() {
                Production::Roles(t) => Option::Some(t),
                _ => Option::None,
            }
        }
    }
}

/// The first permissions production, scanning left to right.
pub open spec fn first_permissions(ps: Seq<Production>) -> Option<Term>
    decreases ps.len(),
{
    if ps.len() == 0 {
        Option::None
    } else {
        let prefix = first_permissions(ps.drop_last());
        if prefix is Some {
            prefix
        } else {
            match ps.last() {
                Production::Permissions(t) => Option::Some(t),
                _ => Option::None,
            }
        }
    }
}

/// The first relations production, scanning left to right.
pub open spec fn first_relations(ps: Seq<Production>) -> Option<Term>
    decreases ps.len(),
{
    if ps.len() == 0 {
        Option::None
    } else {
        let prefix = first_relations(ps.drop_last());
        if prefix is Some {
            prefix
        } else {
            match ps.last() {
                Production::Relations(t) => Option::Some(t),
                _ => Option::None,
            }
        }
    }
}

/// The implications among the productions, in order.
pub open spec fn implications_of(ps: Seq<Production>) -> Seq<Implication>
    decreases ps.len(),
{
    if ps.len() == 0 {
        Seq::empty()
    } else {
        let prefix = implications_of(ps.drop_last());
        match ps.last() {
            Production::Implication(h, b) => prefix.push(Implication { head: h, body: b }),
            _ => prefix,
        }
    }
}

/// Two productions declare the same kind.
pub open spec fn same_decl_kind(a: Production, b: Production) -> bool {
    ||| (a is Roles && b is Roles)
    ||| (a is Permissions && b is Permissions)
    ||| (a is Relations && b is Relations)
}

/// Two productions of the same declaration kind.
pub open spec fn dup_productions(ps: Seq<Production>) -> bool {
    exists|i: int, j: int|
        #![trigger ps[i], ps[j]]
        0 <= i < j < ps.len() && same_decl_kind(ps[i], ps[j])
}

/// The byte span of a term; zeroes when it has none.
pub open spec fn span_of(t: Term) -> (usize, usize) {
    match t.source_info {
        SourceInfo::Parser { left, right, .. } => (left, right),
        SourceInfo::Anonymous => (0usize, 0usize),
    }
}

/// The diagnostic for a declaration kind appearing twice in one block: the
/// message names the kind and the block, and both occurrences are
/// highlighted.
pub open spec fn multiple_decls_desc(
    e: PolarError,
    kind_name: Seq<char>,
    previous: Term,
    new_term: Term,
    resource: Term,
) -> bool {
    e.kind matches ErrorKind::Parse(ParseError::ParseSugar { loc, msg, ranges }) && loc
        == new_term.spec_offset() && msg@ == "Multiple '"@ + kind_name + "' declarations in '"@
        + term_to_polar_s(resource) + "' resource block.\n"@ && ranges@.len() == 2 && ranges@[0]
        == span_of(previous) && ranges@[1] == span_of(new_term)
}

/// Whether the terms of a declaration production came from the parser, so
/// that duplicate diagnostics can highlight both.
pub open spec fn production_parsed(p: Production) -> bool {
    match p {
        Production::Roles(t) => t.source_info is Parser,
        Production::Permissions(t) => t.source_info is Parser,
        Production::Relations(t) => t.source_info is Parser,
        Production::Implication(_, _) => true,
    }
}

/// Fold the parser's productions into one resource block: the leading
/// keyword must be `actor` or `resource`, and each declaration kind may
/// appear at most once.
#[verifier::loop_isolation(false)]
pub fn turn_productions_into_resource_block(
    keyword: Option<Term>,
    resource: Term,
    productions: Vec<Production>,
) -> (r: PolarResult<ResourceBlock>)
    requires
        keyword matches Option::Some(t) ==> t.value is Variable,
        forall|i: int| 0 <= i < productions@.len() ==> production_parsed(#[trigger] productions@[i]),
    ensures
        match r {
            Result::Ok(b) => {
                &&& (keyword matches Option::Some(kw) && (kw.value matches Value::Variable(s) && (
                s.0@ == "actor"@ || s.0@ == "resource"@)))
                &&& b.entity_type == (if (keyword->0.value->Variable_0).0@ == "actor"@ {
                    EntityType::Actor
                } else {
                    EntityType::Resource
                })
                &&& b.resource == resource
                &&& !dup_productions(productions@)
                &&& b.roles == first_roles(productions@)
                &&& b.permissions == first_permissions(productions@)
                &&& b.relations == first_relations(productions@)
                &&& b.implications@ == implications_of(productions@)
            },
            Result::Err(e) => {
                &&& e.context is None
                &&& match keyword {
                    Option::None => e.kind matches ErrorKind::Parse(
                        ParseError::ParseSugar { loc, msg, ranges },
                    ) && loc == resource.spec_offset() && msg@
                        == "Expected 'actor' or 'resource' but found nothing."@ && ranges@.len()
                        == 0,
                    Option::Some(kw) => if !(kw.value matches Value::Variable(s) && (s.0@
                        == "actor"@ || s.0@ == "resource"@)) {
                        e.kind matches ErrorKind::Parse(
                            ParseError::ParseSugar { loc, msg, ranges },
                        ) && loc == kw.spec_offset() && msg@
                            == "Expected 'actor' or 'resource' but found '"@ + term_to_polar_s(kw)
                            + "'."@ && ranges@.len() == 0
                    } else {
                        exists|j: int|
                            {
                                &&& 0 <= j < productions@.len()
                                &&& (exists|q: int|
                                    0 <= q < j && same_decl_kind(
                                        #[trigger] productions@[q],
                                        productions@[j],
                                    ))
                                &&& forall|a: int, b: int|
                                    #![trigger productions@[a], productions@[b]]
                                    0 <= a < b < j ==> !same_decl_kind(
                                        productions@[a],
                                        productions@[b],
                                    )
                                &&& match #[trigger] productions@[j] {
                                    Production::Roles(newt) => first_roles(
                                        productions@.take(j),
                                    ) matches Option::Some(prev) && multiple_decls_desc(
                                        e,
                                        "roles"@,
                                        prev,
                                        newt,
                                        resource,
                                    ),
                                    Production::Permissions(newt) => first_permissions(
                                        productions@.take(j),
                                    ) matches Option::Some(prev) && multiple_decls_desc(
                                        e,
                                        "permissions"@,
                                        prev,
                                        newt,
                                        resource,
                                    ),
                                    Production::Relations(newt) => first_relations(
                                        productions@.take(j),
                                    ) matches Option::Some(prev) && multiple_decls_desc(
                                        e,
                                        "relations"@,
                                        prev,
                                        newt,
                                        resource,
                                    ),
                                    Production::Implication(_, _) => false,
                                }
                            }
                    },
                }
            },
        },
{
    let kw = match keyword {
        Option::Some(kw) => kw,
        Option::None => {
            let msg: String = "Expected 'actor' or 'resource' but found nothing.".to_owned();
            return Result::Err(sugar_error(resource.offset(), msg));
        },
    };
    let kw_name: String = match &kw.value {
        Value::Variable(s) => s.0.clone(),
        _ => {
            proof {
                assert(false);
            }
            String::new()
        },
    };
    let is_actor = kw_name == "actor".to_owned();
    let is_resource = kw_name == "resource".to_owned();
    if !is_actor && !is_resource {
        let mut msg: String = "Expected 'actor' or 'resource' but found '".to_owned();
        msg.append(kw.to_polar().as_str());
        msg.append("'.");
        proof {
            assert(msg@ =~= "Expected 'actor' or 'resource' but found '"@ + term_to_polar_s(kw)
                + "'."@);
        }
        return Result::Err(sugar_error(kw.offset(), msg));
    }
    let entity_type = if is_actor {
        EntityType::Actor
    } else {
        EntityType::Resource
    };

    let ghost ps = productions@;
    let mut rest = productions;
    let mut roles: Option<Term> = Option::None;
    let mut permissions: Option<Term> = Option::None;
    let mut relations: Option<Term> = Option::None;
    let mut implications: Vec<Implication> = Vec::new();
    let n = rest.len();
    let mut i: usize = 0;
    while i < n
        invariant
            i <= n,
            n == ps.len(),
            rest@ =~= ps.skip(i as int),
            roles == first_roles(ps.take(i as int)),
            permissions == first_permissions(ps.take(i as int)),
            relations == first_relations(ps.take(i as int)),
            implications@ == implications_of(ps.take(i as int)),
            roles is Some <==> exists|q: int| 0 <= q < i && (#[trigger] ps[q]) is Roles,
            permissions is Some <==> exists|q: int|
                0 <= q < i && (#[trigger] ps[q]) is Permissions,
            relations is Some <==> exists|q: int| 0 <= q < i && (#[trigger] ps[q]) is Relations,
            roles matches Option::Some(t) ==> t.source_info is Parser,
            permissions matches Option::Some(t) ==> t.source_info is Parser,
            relations matches Option::Some(t) ==> t.source_info is Parser,
            forall|a: int, b: int|
                #![trigger ps[a], ps[b]]
                0 <= a < b < i ==> !((ps[a] is Roles && ps[b] is Roles) || (ps[a] is Permissions
                    && ps[b] is Permissions) || (ps[a] is Relations && ps[b] is Relations)),
        decreases n - i,
    {
        proof {
            assert(ps.skip(i as int)[0] == ps[i as int]);
            assert(ps.skip(i as int).remove(0) =~= ps.skip(i + 1 as int));
            assert(ps.take(i + 1 as int).drop_last() =~= ps.take(i as int));
            assert(ps.take(i + 1 as int).last() == ps[i as int]);
        }
        let production = rest.remove(0);
        match production {
            Production::Roles(new) => {
                match &roles {
                    Option::Some(previous) => {
                        proof {
                            let q = choose|q: int| 0 <= q < i && (#[trigger] ps[q]) is Roles;
                            assert(ps[q] is Roles && ps[i as int] is Roles);
                        }
                        let e = multiple_declarations_error("roles", previous, &new, &resource);
                        return Result::Err(e);
                    },
                    Option::None => {
                        roles = Option::Some(new);
                    },
                }
            },
            Production::Permissions(new) => {
                match &permissions {
                    Option::Some(previous) => {
                        proof {
                            let q = choose|q: int| 0 <= q < i && (#[trigger] ps[q]) is Permissions;
                            assert(ps[q] is Permissions && ps[i as int] is Permissions);
                        }
                        let e = multiple_declarations_error(
                            "permissions",
                            previous,
                            &new,
                            &resource,
                        );
                        return Result::Err(e);
                    },
                    Option::None => {
                        permissions = Option::Some(new);
                    },
                }
            },
            Production::Relations(new) => {
                match &relations {
                    Option::Some(previous) => {
                        proof {
                            let q = choose|q: int| 0 <= q < i && (#[trigger] ps[q]) is Relations;
                            assert(ps[q] is Relations && ps[i as int] is Relations);
                        }
                        let e = multiple_declarations_error("relations", previous, &new, &resource);
                        return Result::Err(e);
                    },
                    Option::None => {
                        relations = Option::Some(new);
                    },
                }
            },
            Production::Implication(head, body) => {
                implications.push(Implication { head, body });
            },
        }
        i += 1;
    }
    proof {
        assert(ps.take(n as int) =~= ps);
    }
    Result::Ok(
        ResourceBlock { entity_type, resource, roles, permissions, relations, implications },
    )
}

/// The diagnostic for a declaration kind that appears twice in one block,
/// highlighting both occurrences.
fn multiple_declarations_error(
    name: &str,
    previous: &Term,
    new: &Term,
    resource: &Term,
) -> (r: PolarError)
    requires
        previous.source_info is Parser,
        new.source_info is Parser,
    ensures
        r.context is None,
        multiple_decls_desc(r, name@, *previous, *new, *resource),
{
    let prev_range = term_source_range(previous);
    let new_range = term_source_range(new);
    let mut ranges: Vec<(usize, usize)> = Vec::new();
    ranges.push(prev_range);
    ranges.push(new_range);
    let mut msg: String = "Multiple '".to_owned();
    msg.append(name);
    msg.append("' declarations in '");
    msg.append(resource.to_polar().as_str());
    msg.append("' resource block.\n");
    proof {
        assert(msg@ =~= "Multiple '"@ + name@ + "' declarations in '"@ + term_to_polar_s(*resource)
            + "' resource block.\n"@);
    }
    PolarError::new(
        ErrorKind::Parse(ParseError::ParseSugar { loc: new.offset(), msg, ranges }),
    )
}

} // verus!
