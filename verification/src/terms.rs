//! The term/value data model: interned names, tagged values, source-located
//! terms, patterns, and rule parameters.
//!
//! Terms compare by value: source spans are carried only for diagnostics and
//! never take part in equality. Two spec relations capture this: [`veq`] is
//! value equality (spans ignored), and [`same_term`] is full structural
//! identity (spans included), which is what cloning preserves.

use vstd::prelude::*;

verus! {

broadcast use vstd::std_specs::vec::axiom_vec_index_decreases;

/// An interned name with string-equality semantics.
pub struct Symbol(pub String);

impl Symbol {
    pub fn new(name: &str) -> (r: Symbol)
        ensures
            r.0@ == name@,
    {
        Symbol(name.to_owned())
    }

    /// String equality of the two names.
    pub fn eq_sym(&self, other: &Symbol) -> (r: bool)
        ensures
            r == (self.0@ == other.0@),
    {
        self.0 == other.0
    }
}

impl Clone for Symbol {
    fn clone(&self) -> (r: Self)
        ensures
            r == *self,
    {
        Symbol(self.0.clone())
    }
}

/// Where a term came from: either built in memory, or produced by the parser
/// from the source with the given id, between the two byte offsets.
#[derive(PartialEq, Eq, Structural, Clone, Copy)]
pub enum SourceInfo {
    Anonymous,
    Parser { src_id: u64, left: usize, right: usize },
}

/// A numeric literal. A float is carried as its IEEE-754 bit pattern; the
/// engine never computes with it, it only classifies its kind and compares
/// structurally (bit-for-bit), and diagnostics render the raw bits.
#[derive(PartialEq, Eq, Structural, Clone, Copy)]
pub enum Numeric {
    Integer(i64),
    Float(u64),
}

/// A predicate application: a name applied to ordered arguments.
pub struct Call {
    pub name: Symbol,
    pub args: Vec<Term>,
}

/// The operator of a compound expression.
#[derive(PartialEq, Eq, Structural, Clone, Copy)]
pub enum Operator {
    And,
    Or,
    Not,
    Unify,
    Isa,
    Dot,
}

/// A compound expression: an operator applied to ordered arguments.
pub struct Operation {
    pub operator: Operator,
    pub args: Vec<Term>,
}

/// An order-irrelevant mapping from names to terms.
pub struct Dictionary {
    pub fields: Vec<(Symbol, Term)>,
}

/// A class pattern: a tag together with required fields.
pub struct InstanceLiteral {
    pub tag: Symbol,
    pub fields: Dictionary,
}

/// A specializer pattern: either a tagged instance shape or a bare
/// dictionary shape.
pub enum Pattern {
    Instance(InstanceLiteral),
    Dictionary(Dictionary),
}

/// The closed set of term values.
pub enum Value {
    Variable(Symbol),
    Number(Numeric),
    Str(String),
    Boolean(bool),
    List(Vec<Term>),
    Dictionary(Dictionary),
    Pattern(Pattern),
    /// A reference to a host-side instance, by its opaque instance id.
    ExternalInstance(u64),
    Call(Call),
    Expression(Operation),
}

/// A value together with its provenance.
pub struct Term {
    pub value: Value,
    pub source_info: SourceInfo,
}

/// A rule parameter: the parameter term plus an optional specializer.
pub struct Parameter {
    pub parameter: Term,
    pub specializer: Option<Term>,
}

// ---------------------------------------------------------------------------
// Value equality (source spans ignored)
// ---------------------------------------------------------------------------

/// The term found under `key` in an association list of fields, taking the
/// first occurrence.
pub open spec fn lookup_field(fields: Seq<(Symbol, Term)>, key: Seq<char>) -> Option<Term>
    decreases fields.len(),
{
    if fields.len() == 0 {
        Option::None
    } else if fields[0].0.0@ == key {
        Option::Some(fields[0].1)
    } else {
        lookup_field(fields.drop_first(), key)
    }
}

/// Whether an association list of fields holds `key` at all.
pub open spec fn has_field(fields: Seq<(Symbol, Term)>, key: Seq<char>) -> bool {
    lookup_field(fields, key) is Some
}

/// Value equality of two terms, ignoring source spans everywhere.
pub open spec fn veq(a: Term, b: Term) -> bool
    decreases a,
{
    value_eq(a.value, b.value)
}

/// Value equality of two values; lists and arguments compare pointwise,
/// dictionaries compare as maps (same keys, equal values per key).
pub open spec fn value_eq(x: Value, y: Value) -> bool
    decreases x,
{
    match (x, y) {
        (Value::Variable(s1), Value::Variable(s2)) => s1.0@ == s2.0@,
        (Value::Number(n1), Value::Number(n2)) => n1 == n2,
        (Value::Str(s1), Value::Str(s2)) => s1@ == s2@,
        (Value::Boolean(b1), Value::Boolean(b2)) => b1 == b2,
        (Value::List(l1), Value::List(l2)) => terms_eq(l1@, l2@),
        (Value::Dictionary(d1), Value::Dictionary(d2)) => dict_eq(d1, d2),
        (Value::Pattern(p1), Value::Pattern(p2)) => pattern_eq(p1, p2),
        (Value::ExternalInstance(i1), Value::ExternalInstance(i2)) => i1 == i2,
        (Value::Call(c1), Value::Call(c2)) => c1.name.0@ == c2.name.0@ && terms_eq(
            c1.args@,
            c2.args@,
        ),
        (Value::Expression(o1), Value::Expression(o2)) => o1.operator == o2.operator && terms_eq(
            o1.args@,
            o2.args@,
        ),
        _ => false,
    }
}

/// Pointwise value equality of two term sequences.
pub open spec fn terms_eq(s: Seq<Term>, t: Seq<Term>) -> bool
    decreases s,
{
    s.len() == t.len() && (forall|i: int| 0 <= i < s.len() ==> veq(#[trigger] s[i], t[i]))
}

/// Map equality of two dictionaries: every field of `d1` is in `d2` with an
/// equal value, and every key of `d2` is a key of `d1`.
pub open spec fn dict_eq(d1: Dictionary, d2: Dictionary) -> bool
    decreases d1,
{
    &&& forall|i: int|
        0 <= i < d1.fields@.len() ==> match lookup_field(d2.fields@, #[trigger] d1.fields@[i].0.0@) {
            Option::Some(v) => veq(d1.fields@[i].1, v),
            Option::None => false,
        }
    &&& forall|j: int|
        0 <= j < d2.fields@.len() ==> has_field(d1.fields@, #[trigger] d2.fields@[j].0.0@)
}

/// Value equality of two patterns: same shape, equal tag, equal fields.
pub open spec fn pattern_eq(p1: Pattern, p2: Pattern) -> bool
    decreases p1,
{
    match (p1, p2) {
        (Pattern::Instance(i1), Pattern::Instance(i2)) => i1.tag.0@ == i2.tag.0@ && dict_eq(
            i1.fields,
            i2.fields,
        ),
        (Pattern::Dictionary(d1), Pattern::Dictionary(d2)) => dict_eq(d1, d2),
        _ => false,
    }
}

// ---------------------------------------------------------------------------
// Structural identity (source spans included) — what cloning preserves
// ---------------------------------------------------------------------------

/// Full structural identity of two terms: equal values, position for
/// position, and equal source spans at every level.
pub open spec fn same_term(a: Term, b: Term) -> bool
    decreases a,
{
    a.source_info == b.source_info && same_value(a.value, b.value)
}

/// Full structural identity of two values.
pub open spec fn same_value(x: Value, y: Value) -> bool
    decreases x,
{
    match (x, y) {
        (Value::Variable(s1), Value::Variable(s2)) => s1.0@ == s2.0@,
        (Value::Number(n1), Value::Number(n2)) => n1 == n2,
        (Value::Str(s1), Value::Str(s2)) => s1@ == s2@,
        (Value::Boolean(b1), Value::Boolean(b2)) => b1 == b2,
        (Value::List(l1), Value::List(l2)) => same_terms(l1@, l2@),
        (Value::Dictionary(d1), Value::Dictionary(d2)) => same_dict(d1, d2),
        (Value::Pattern(p1), Value::Pattern(p2)) => same_pattern(p1, p2),
        (Value::ExternalInstance(i1), Value::ExternalInstance(i2)) => i1 == i2,
        (Value::Call(c1), Value::Call(c2)) => c1.name.0@ == c2.name.0@ && same_terms(
            c1.args@,
            c2.args@,
        ),
        (Value::Expression(o1), Value::Expression(o2)) => o1.operator == o2.operator && same_terms(
            o1.args@,
            o2.args@,
        ),
        _ => false,
    }
}

/// Pointwise structural identity of two term sequences.
pub open spec fn same_terms(s: Seq<Term>, t: Seq<Term>) -> bool
    decreases s,
{
    s.len() == t.len() && (forall|i: int| 0 <= i < s.len() ==> same_term(#[trigger] s[i], t[i]))
}

/// Pointwise structural identity of two dictionaries, entry order included.
pub open spec fn same_dict(d1: Dictionary, d2: Dictionary) -> bool
    decreases d1,
{
    d1.fields@.len() == d2.fields@.len() && (forall|i: int|
        0 <= i < d1.fields@.len() ==> (#[trigger] d1.fields@[i]).0.0@ == d2.fields@[i].0.0@
            && same_term(d1.fields@[i].1, d2.fields@[i].1))
}

/// Structural identity of two patterns.
pub open spec fn same_pattern(p1: Pattern, p2: Pattern) -> bool
    decreases p1,
{
    match (p1, p2) {
        (Pattern::Instance(i1), Pattern::Instance(i2)) => i1.tag.0@ == i2.tag.0@ && same_dict(
            i1.fields,
            i2.fields,
        ),
        (Pattern::Dictionary(d1), Pattern::Dictionary(d2)) => same_dict(d1, d2),
        _ => false,
    }
}

/// Structural identity of two parameters.
pub open spec fn same_param(p1: Parameter, p2: Parameter) -> bool {
    &&& same_term(p1.parameter, p2.parameter)
    &&& match (p1.specializer, p2.specializer) {
        (Option::Some(s1), Option::Some(s2)) => same_term(s1, s2),
        (Option::None, Option::None) => true,
        _ => false,
    }
}

// ---------------------------------------------------------------------------
// Executable lookup and equality
// ---------------------------------------------------------------------------

/// Find `key` in an association list of fields, first occurrence.
pub fn lookup_in<'a>(fields: &'a Vec<(Symbol, Term)>, key: &Symbol) -> (r: Option<&'a Term>)
    ensures
        match r {
            Option::Some(t) => lookup_field(fields@, key.0@) == Option::Some(*t),
            Option::None => lookup_field(fields@, key.0@) is None,
        },
{
    let n = fields.len();
    let mut i: usize = 0;
    proof {
        assert(fields@.skip(0) =~= fields@);
    }
    while i < n
        invariant
            i <= n,
            n == fields@.len(),
            lookup_field(fields@, key.0@) == lookup_field(fields@.skip(i as int), key.0@),
        decreases n - i,
    {
        proof {
            assert(fields@.skip(i as int).drop_first() =~= fields@.skip(i + 1 as int));
            assert(fields@.skip(i as int)[0] == fields@[i as int]);
        }
        if fields[i].0.eq_sym(key) {
            return Option::Some(&fields[i].1);
        }
        i += 1;
    }
    proof {
        assert(fields@.skip(n as int) =~= Seq::<(Symbol, Term)>::empty());
    }
    Option::None
}

/// Value equality of two terms (source spans ignored).
pub fn term_eq(a: &Term, b: &Term) -> (r: bool)
    ensures
        r == veq(*a, *b),
    decreases *a,
{
    value_eq_exec(&a.value, &b.value)
}

/// Value equality of two values.
pub fn value_eq_exec(x: &Value, y: &Value) -> (r: bool)
    ensures
        r == value_eq(*x, *y),
    decreases *x,
{
    match (x, y) {
        (Value::Variable(s1), Value::Variable(s2)) => s1.eq_sym(s2),
        (Value::Number(n1), Value::Number(n2)) => *n1 == *n2,
        (Value::Str(s1), Value::Str(s2)) => *s1 == *s2,
        (Value::Boolean(b1), Value::Boolean(b2)) => *b1 == *b2,
        (Value::List(l1), Value::List(l2)) => terms_eq_exec(l1, l2),
        (Value::Dictionary(d1), Value::Dictionary(d2)) => dict_eq_exec(d1, d2),
        (Value::Pattern(p1), Value::Pattern(p2)) => pattern_eq_exec(p1, p2),
        (Value::ExternalInstance(i1), Value::ExternalInstance(i2)) => *i1 == *i2,
        (Value::Call(c1), Value::Call(c2)) => c1.name.eq_sym(&c2.name) && terms_eq_exec(
            &c1.args,
            &c2.args,
        ),
        (Value::Expression(o1), Value::Expression(o2)) => o1.operator == o2.operator
            && terms_eq_exec(&o1.args, &o2.args),
        _ => false,
    }
}

/// Pointwise value equality of two term vectors.
pub fn terms_eq_exec(s: &Vec<Term>, t: &Vec<Term>) -> (r: bool)
    ensures
        r == terms_eq(s@, t@),
    decreases s@,
{
    if s.len() != t.len() {
        return false;
    }
    let n = s.len();
    let mut i: usize = 0;
    while i < n
        invariant
            i <= n,
            n == s@.len(),
            n == t@.len(),
            forall|j: int| 0 <= j < i ==> veq(#[trigger] s@[j], t@[j]),
        decreases n - i,
    {
        if !term_eq(&s[i], &t[i]) {
            return false;
        }
        i += 1;
    }
    true
}

/// Map equality of two dictionaries.
pub fn dict_eq_exec(d1: &Dictionary, d2: &Dictionary) -> (r: bool)
    ensures
        r == dict_eq(*d1, *d2),
    decreases *d1,
{
    let n1 = d1.fields.len();
    let mut i: usize = 0;
    while i < n1
        invariant
            i <= n1,
            n1 == d1.fields@.len(),
            forall|k: int|
                0 <= k < i ==> match lookup_field(
                    d2.fields@,
                    (#[trigger] d1.fields@[k]).0.0@,
                ) {
                    Option::Some(v) => veq(d1.fields@[k].1, v),
                    Option::None => false,
                },
        decreases n1 - i,
    {
        match lookup_in(&d2.fields, &d1.fields[i].0) {
            Option::Some(v) => {
                if !term_eq(&d1.fields[i].1, v) {
                    return false;
                }
            },
            Option::None => {
                return false;
            },
        }
        i += 1;
    }
    let n2 = d2.fields.len();
    let mut j: usize = 0;
    while j < n2
        invariant
            j <= n2,
            n2 == d2.fields@.len(),
            n1 == d1.fields@.len(),
            forall|k: int|
                0 <= k < n1 ==> match lookup_field(
                    d2.fields@,
                    (#[trigger] d1.fields@[k]).0.0@,
                ) {
                    Option::Some(v) => veq(d1.fields@[k].1, v),
                    Option::None => false,
                },
            forall|k: int| 0 <= k < j ==> has_field(d1.fields@, (#[trigger] d2.fields@[k]).0.0@),
        decreases n2 - j,
    {
        if lookup_in(&d1.fields, &d2.fields[j].0).is_none() {
            return false;
        }
        j += 1;
    }
    true
}

/// Value equality of two patterns.
pub fn pattern_eq_exec(p1: &Pattern, p2: &Pattern) -> (r: bool)
    ensures
        r == pattern_eq(*p1, *p2),
    decreases *p1,
{
    match (p1, p2) {
        (Pattern::Instance(i1), Pattern::Instance(i2)) => i1.tag.eq_sym(&i2.tag) && dict_eq_exec(
            &i1.fields,
            &i2.fields,
        ),
        (Pattern::Dictionary(d1), Pattern::Dictionary(d2)) => dict_eq_exec(d1, d2),
        _ => false,
    }
}

// ---------------------------------------------------------------------------
// Cloning (preserves structure and source spans)
// ---------------------------------------------------------------------------

fn clone_terms(s: &Vec<Term>) -> (r: Vec<Term>)
    ensures
        same_terms(r@, s@),
    decreases s@,
{
    let mut out: Vec<Term> = Vec::new();
    let n = s.len();
    let mut i: usize = 0;
    while i < n
        invariant
            i <= n,
            n == s@.len(),
            out@.len() == i,
            forall|j: int| 0 <= j < i ==> same_term(#[trigger] out@[j], s@[j]),
        decreases n - i,
    {
        out.push(clone_term_rec(&s[i]));
        i += 1;
    }
    out
}

fn clone_fields(s: &Vec<(Symbol, Term)>) -> (r: Vec<(Symbol, Term)>)
    ensures
        r@.len() == s@.len(),
        forall|j: int|
            0 <= j < s@.len() ==> (#[trigger] r@[j]).0.0@ == s@[j].0.0@ && same_term(
                r@[j].1,
                s@[j].1,
            ),
    decreases s@,
{
    let mut out: Vec<(Symbol, Term)> = Vec::new();
    let n = s.len();
    let mut i: usize = 0;
    while i < n
        invariant
            i <= n,
            n == s@.len(),
            out@.len() == i,
            forall|j: int|
                0 <= j < i ==> (#[trigger] out@[j]).0.0@ == s@[j].0.0@ && same_term(
                    out@[j].1,
                    s@[j].1,
                ),
        decreases n - i,
    {
        out.push((s[i].0.clone(), clone_term_rec(&s[i].1)));
        i += 1;
    }
    out
}

fn clone_dict_rec(d: &Dictionary) -> (r: Dictionary)
    ensures
        same_dict(r, *d),
    decreases *d,
{
    Dictionary { fields: clone_fields(&d.fields) }
}

fn clone_pattern_rec(p: &Pattern) -> (r: Pattern)
    ensures
        same_pattern(r, *p),
    decreases *p,
{
    match p {
        Pattern::Instance(i) => Pattern::Instance(
            InstanceLiteral { tag: i.tag.clone(), fields: clone_dict_rec(&i.fields) },
        ),
        Pattern::Dictionary(d) => Pattern::Dictionary(clone_dict_rec(d)),
    }
}

fn clone_value_rec(x: &Value) -> (r: Value)
    ensures
        same_value(r, *x),
    decreases *x,
{
    match x {
        Value::Variable(s) => Value::Variable(s.clone()),
        Value::Number(n) => Value::Number(*n),
        Value::Str(s) => Value::Str(s.clone()),
        Value::Boolean(b) => Value::Boolean(*b),
        Value::List(l) => Value::List(clone_terms(l)),
        Value::Dictionary(d) => Value::Dictionary(clone_dict_rec(d)),
        Value::Pattern(p) => Value::Pattern(clone_pattern_rec(p)),
        Value::ExternalInstance(i) => Value::ExternalInstance(*i),
        Value::Call(c) => Value::Call(Call { name: c.name.clone(), args: clone_terms(&c.args) }),
        Value::Expression(o) => Value::Expression(
            Operation { operator: o.operator, args: clone_terms(&o.args) },
        ),
    }
}

fn clone_term_rec(a: &Term) -> (r: Term)
    ensures
        same_term(r, *a),
    decreases *a,
{
    Term { value: clone_value_rec(&a.value), source_info: a.source_info }
}

impl Clone for Term {
    fn clone(&self) -> (r: Self)
        ensures
            same_term(r, *self),
    {
        clone_term_rec(self)
    }
}

impl Clone for Value {
    fn clone(&self) -> (r: Self)
        ensures
            same_value(r, *self),
    {
        clone_value_rec(self)
    }
}

impl Clone for Dictionary {
    fn clone(&self) -> (r: Self)
        ensures
            same_dict(r, *self),
    {
        clone_dict_rec(self)
    }
}

impl Clone for Parameter {
    fn clone(&self) -> (r: Self)
        ensures
            same_param(r, *self),
    {
        Parameter {
            parameter: self.parameter.clone(),
            specializer: match &self.specializer {
                Option::Some(s) => Option::Some(s.clone()),
                Option::None => Option::None,
            },
        }
    }
}

// ---------------------------------------------------------------------------
// Term construction and provenance accessors
// ---------------------------------------------------------------------------

impl Term {
    /// A term with no provenance.
    pub fn new(value: Value) -> (r: Term)
        ensures
            r.value == value,
            r.source_info == SourceInfo::Anonymous,
    {
        Term { value, source_info: SourceInfo::Anonymous }
    }

    /// A term as produced by the parser, with its source id and byte span.
    pub fn from_parser(src_id: u64, left: usize, right: usize, value: Value) -> (r: Term)
        ensures
            r.value == value,
            r.source_info == (SourceInfo::Parser { src_id, left, right }),
    {
        Term { value, source_info: SourceInfo::Parser { src_id, left, right } }
    }

    pub fn value(&self) -> (r: &Value)
        ensures
            r == &self.value,
    {
        &self.value
    }

    /// A new term holding `value` at this term's source position.
    pub fn clone_with_value(&self, value: Value) -> (r: Term)
        ensures
            r.value == value,
            r.source_info == self.source_info,
    {
        Term { value, source_info: self.source_info }
    }

    /// The byte offset for diagnostics; zero when the term has no span.
    pub fn offset(&self) -> (r: usize)
        ensures
            r == self.spec_offset(),
    {
        match &self.source_info {
            SourceInfo::Parser { left, .. } => *left,
            SourceInfo::Anonymous => 0,
        }
    }

    pub open spec fn spec_offset(&self) -> usize {
        match self.source_info {
            SourceInfo::Parser { left, .. } => left,
            SourceInfo::Anonymous => 0,
        }
    }

    /// The byte span, when the parser produced this term.
    pub fn span(&self) -> (r: Option<(usize, usize)>)
        ensures
            match self.source_info {
                SourceInfo::Parser { left, right, .. } => r == Option::Some((left, right)),
                SourceInfo::Anonymous => r is None,
            },
    {
        match &self.source_info {
            SourceInfo::Parser { left, right, .. } => Option::Some((*left, *right)),
            SourceInfo::Anonymous => Option::None,
        }
    }

    /// The id of the source this term was parsed from, if any.
    pub fn get_source_id(&self) -> (r: Option<u64>)
        ensures
            r == self.spec_source_id(),
    {
        match &self.source_info {
            SourceInfo::Parser { src_id, .. } => Option::Some(*src_id),
            SourceInfo::Anonymous => Option::None,
        }
    }

    pub open spec fn spec_source_id(&self) -> Option<u64> {
        match self.source_info {
            SourceInfo::Parser { src_id, .. } => Option::Some(src_id),
            SourceInfo::Anonymous => Option::None,
        }
    }
}

} // verus!
