//! Rendering of terms, patterns and parameters back into policy syntax, for
//! diagnostics and for displaying rules. Every renderer has an exact
//! specification: the returned string's characters equal the spec-level
//! rendering of the value.

use vstd::prelude::*;

use crate::terms::{Dictionary, Numeric, Operation, Operator, Parameter, Pattern, Symbol, Term,
    Value};

verus! {

// ---------------------------------------------------------------------------
// Decimal rendering of integers
// ---------------------------------------------------------------------------

/// The decimal digit character for `d` (clamped into `0 ..= 9`).
pub open spec fn digit_char(d: int) -> char {
    if d == 0 {
        '0'
    } else if d == 1 {
        '1'
    } else if d == 2 {
        '2'
    } else if d == 3 {
        '3'
    } else if d == 4 {
        '4'
    } else if d == 5 {
        '5'
    } else if d == 6 {
        '6'
    } else if d == 7 {
        '7'
    } else if d == 8 {
        '8'
    } else {
        '9'
    }
}

/// The decimal digit sequence of a non-negative integer.
pub open spec fn dec_digits(n: int) -> Seq<char>
    decreases n,
{
    if n < 10 {
        seq![digit_char(n)]
    } else {
        dec_digits(n / 10).push(digit_char(n % 10))
    }
}

/// The decimal rendering of an integer, with a leading minus when negative.
pub open spec fn int_str(i: int) -> Seq<char> {
    if i < 0 {
        seq!['-'] + dec_digits(-i)
    } else {
        dec_digits(i)
    }
}

fn digit_str(d: u64) -> (r: &'static str)
    requires
        d < 10,
    ensures
        r@ == seq![digit_char(d as int)],
{
    if d == 0 {
        proof {
            reveal_strlit("0");
            assert("0"@ =~= seq![digit_char(0)]);
        }
        "0"
    } else if d == 1 {
        proof {
            reveal_strlit("1");
            assert("1"@ =~= seq![digit_char(1)]);
        }
        "1"
    } else if d == 2 {
        proof {
            reveal_strlit("2");
            assert("2"@ =~= seq![digit_char(2)]);
        }
        "2"
    } else if d == 3 {
        proof {
            reveal_strlit("3");
            assert("3"@ =~= seq![digit_char(3)]);
        }
        "3"
    } else if d == 4 {
        proof {
            reveal_strlit("4");
            assert("4"@ =~= seq![digit_char(4)]);
        }
        "4"
    } else if d == 5 {
        proof {
            reveal_strlit("5");
            assert("5"@ =~= seq![digit_char(5)]);
        }
        "5"
    } else if d == 6 {
        proof {
            reveal_strlit("6");
            assert("6"@ =~= seq![digit_char(6)]);
        }
        "6"
    } else if d == 7 {
        proof {
            reveal_strlit("7");
            assert("7"@ =~= seq![digit_char(7)]);
        }
        "7"
    } else if d == 8 {
        proof {
            reveal_strlit("8");
            assert("8"@ =~= seq![digit_char(8)]);
        }
        "8"
    } else {
        proof {
            reveal_strlit("9");
            assert("9"@ =~= seq![digit_char(9)]);
        }
        "9"
    }
}

/// Render an unsigned integer in decimal.
pub fn u64_to_string(n: u64) -> (r: String)
    ensures
        r@ == dec_digits(n as int),
    decreases n,
{
    if n < 10 {
        digit_str(n).to_owned()
    } else {
        let prefix = u64_to_string(n / 10);
        prefix.concat(digit_str(n % 10))
    }
}

/// Render a signed integer in decimal.
pub fn i64_to_string(n: i64) -> (r: String)
    ensures
        r@ == int_str(n as int),
{
    if n >= 0 {
        u64_to_string(n as u64)
    } else {
        let mag: u64 = if n == i64::MIN {
            9223372036854775808
        } else {
            (-n) as u64
        };
        proof {
            assert(mag as int == -(n as int));
            reveal_strlit("-");
            assert("-"@ =~= seq!['-']);
        }
        let minus: String = "-".to_owned();
        minus.concat(u64_to_string(mag).as_str())
    }
}

// ---------------------------------------------------------------------------
// Policy-syntax rendering (spec level)
// ---------------------------------------------------------------------------

/// Rendering of a term.
pub open spec fn term_to_polar_s(t: Term) -> Seq<char>
    decreases t, 0int,
{
    value_to_polar_s(t.value)
}

/// Rendering of a value.
pub open spec fn value_to_polar_s(v: Value) -> Seq<char>
    decreases v, 0int,
{
    match v {
        Value::Variable(s) => s.0@,
        Value::Number(Numeric::Integer(i)) => int_str(i as int),
        Value::Number(Numeric::Float(bits)) => "float("@ + dec_digits(bits as int) + ")"@,
        Value::Str(s) => "\""@ + s@ + "\""@,
        Value::Boolean(b) => if b {
            "true"@
        } else {
            "false"@
        },
        Value::List(l) => "["@ + terms_join_s(l@, 0, ", "@) + "]"@,
        Value::Dictionary(d) => dict_to_polar_s(d),
        Value::Pattern(p) => pattern_to_polar_s(p),
        Value::ExternalInstance(id) => "^{id: "@ + dec_digits(id as int) + "}"@,
        Value::Call(c) => c.name.0@ + "("@ + terms_join_s(c.args@, 0, ", "@) + ")"@,
        Value::Expression(o) => operation_to_polar_s(o),
    }
}

/// Rendering of an operation: a conjunction joins its arguments with
/// ` and `; any other operator renders as a named application.
pub open spec fn operation_to_polar_s(o: Operation) -> Seq<char>
    decreases o, 0int,
{
    if o.operator == Operator::And {
        terms_join_s(o.args@, 0, " and "@)
    } else {
        operator_name_s(o.operator) + "("@ + terms_join_s(o.args@, 0, ", "@) + ")"@
    }
}

/// The display name of an operator.
pub open spec fn operator_name_s(op: Operator) -> Seq<char> {
    match op {
        Operator::And => "and"@,
        Operator::Or => "or"@,
        Operator::Not => "not"@,
        Operator::Unify => "unify"@,
        Operator::Isa => "isa"@,
        Operator::Dot => "dot"@,
    }
}

/// Rendering of the terms from index `i` on, separated by `sep`.
pub open spec fn terms_join_s(args: Seq<Term>, i: int, sep: Seq<char>) -> Seq<char>
    decreases args, args.len() - i,
{
    if i < 0 || i >= args.len() {
        Seq::empty()
    } else if i == args.len() - 1 {
        term_to_polar_s(args[i])
    } else {
        term_to_polar_s(args[i]) + sep + terms_join_s(args, i + 1, sep)
    }
}

/// Rendering of a dictionary's fields from index `i` on.
pub open spec fn fields_join_s(fields: Seq<(Symbol, Term)>, i: int) -> Seq<char>
    decreases fields, fields.len() - i,
{
    if i < 0 || i >= fields.len() {
        Seq::empty()
    } else if i == fields.len() - 1 {
        fields[i].0.0@ + ": "@ + term_to_polar_s(fields[i].1)
    } else {
        fields[i].0.0@ + ": "@ + term_to_polar_s(fields[i].1) + ", "@ + fields_join_s(
            fields,
            i + 1,
        )
    }
}

/// Rendering of a dictionary.
pub open spec fn dict_to_polar_s(d: Dictionary) -> Seq<char>
    decreases d, 0int,
{
    "{"@ + fields_join_s(d.fields@, 0) + "}"@
}

/// Rendering of a pattern.
pub open spec fn pattern_to_polar_s(p: Pattern) -> Seq<char>
    decreases p, 0int,
{
    match p {
        Pattern::Instance(i) => i.tag.0@ + dict_to_polar_s(i.fields),
        Pattern::Dictionary(d) => dict_to_polar_s(d),
    }
}

/// Rendering of a parameter, `name: specializer` when specialized.
pub open spec fn param_to_polar_s(p: Parameter) -> Seq<char> {
    match p.specializer {
        Option::Some(s) => term_to_polar_s(p.parameter) + ": "@ + term_to_polar_s(s),
        Option::None => term_to_polar_s(p.parameter),
    }
}

/// Rendering of the parameters from index `i` on, comma-separated.
pub open spec fn params_join_s(params: Seq<Parameter>, i: int) -> Seq<char>
    decreases params.len() - i,
{
    if i < 0 || i >= params.len() {
        Seq::empty()
    } else if i == params.len() - 1 {
        param_to_polar_s(params[i])
    } else {
        param_to_polar_s(params[i]) + ", "@ + params_join_s(params, i + 1)
    }
}

// ---------------------------------------------------------------------------
// Policy-syntax rendering (executable)
// ---------------------------------------------------------------------------

/// Render the terms from index `i` on, separated by `sep`.
pub fn terms_join(args: &Vec<Term>, i: usize, sep: &str) -> (r: String)
    ensures
        r@ == terms_join_s(args@, i as int, sep@),
    decreases args@, args@.len() - i,
{
    if i >= args.len() {
        String::new()
    } else if i == args.len() - 1 {
        args[i].to_polar()
    } else {
        let head = args[i].to_polar().concat(sep);
        head.concat(terms_join(args, i + 1, sep).as_str())
    }
}

/// Render the fields from index `i` on, comma-separated.
pub fn fields_join(fields: &Vec<(Symbol, Term)>, i: usize) -> (r: String)
    ensures
        r@ == fields_join_s(fields@, i as int),
    decreases fields@, fields@.len() - i,
{
    if i >= fields.len() {
        String::new()
    } else {
        let mut out = fields[i].0.0.clone();
        out.append(": ");
        out.append(fields[i].1.to_polar().as_str());
        if i == fields.len() - 1 {
            out
        } else {
            out.append(", ");
            out.concat(fields_join(fields, i + 1).as_str())
        }
    }
}

impl Dictionary {
    /// Render this dictionary as `{k: v, ...}`.
    pub fn to_polar(&self) -> (r: String)
        ensures
            r@ == dict_to_polar_s(*self),
        decreases *self, 1int,
    {
        let mut out: String = "{".to_owned();
        out.append(fields_join(&self.fields, 0).as_str());
        out.append("}");
        out
    }
}

impl Pattern {
    /// Render this pattern.
    pub fn to_polar(&self) -> (r: String)
        ensures
            r@ == pattern_to_polar_s(*self),
        decreases *self, 2int,
    {
        match self {
            Pattern::Instance(i) => i.tag.0.clone().concat(i.fields.to_polar().as_str()),
            Pattern::Dictionary(d) => d.to_polar(),
        }
    }
}

impl Value {
    /// Render this value.
    pub fn to_polar(&self) -> (r: String)
        ensures
            r@ == value_to_polar_s(*self),
        decreases *self, 3int,
    {
        match self {
            Value::Variable(s) => s.0.clone(),
            Value::Number(Numeric::Integer(i)) => i64_to_string(*i),
            Value::Number(Numeric::Float(bits)) => {
                let mut out: String = "float(".to_owned();
                out.append(u64_to_string(*bits).as_str());
                out.append(")");
                out
            },
            Value::Str(s) => {
                let mut out: String = "\"".to_owned();
                out.append(s.as_str());
                out.append("\"");
                out
            },
            Value::Boolean(b) => if *b {
                "true".to_owned()
            } else {
                "false".to_owned()
            },
            Value::List(l) => {
                let mut out: String = "[".to_owned();
                out.append(terms_join(l, 0, ", ").as_str());
                out.append("]");
                out
            },
            Value::Dictionary(d) => d.to_polar(),
            Value::Pattern(p) => p.to_polar(),
            Value::ExternalInstance(id) => {
                let mut out: String = "^{id: ".to_owned();
                out.append(u64_to_string(*id).as_str());
                out.append("}");
                out
            },
            Value::Call(c) => {
                let mut out = c.name.0.clone();
                out.append("(");
                out.append(terms_join(&c.args, 0, ", ").as_str());
                out.append(")");
                out
            },
            Value::Expression(o) => {
                if matches!(o.operator, Operator::And) {
                    terms_join(&o.args, 0, " and ")
                } else {
                    let mut out = operator_name(o.operator);
                    out.append("(");
                    out.append(terms_join(&o.args, 0, ", ").as_str());
                    out.append(")");
                    out
                }
            },
        }
    }
}

/// The display name of an operator.
pub fn operator_name(op: Operator) -> (r: String)
    ensures
        r@ == operator_name_s(op),
{
    match op {
        Operator::And => "and".to_owned(),
        Operator::Or => "or".to_owned(),
        Operator::Not => "not".to_owned(),
        Operator::Unify => "unify".to_owned(),
        Operator::Isa => "isa".to_owned(),
        Operator::Dot => "dot".to_owned(),
    }
}

impl Term {
    /// Render this term.
    pub fn to_polar(&self) -> (r: String)
        ensures
            r@ == term_to_polar_s(*self),
        decreases *self, 4int,
    {
        self.value.to_polar()
    }
}

impl Parameter {
    /// Render this parameter.
    pub fn to_polar(&self) -> (r: String)
        ensures
            r@ == param_to_polar_s(*self),
    {
        match &self.specializer {
            Option::Some(s) => {
                let mut out = self.parameter.to_polar();
                out.append(": ");
                out.append(s.to_polar().as_str());
                out
            },
            Option::None => self.parameter.to_polar(),
        }
    }
}

/// Render the parameters from index `i` on, comma-separated.
pub fn params_join(params: &Vec<Parameter>, i: usize) -> (r: String)
    ensures
        r@ == params_join_s(params@, i as int),
    decreases params@.len() - i,
{
    if i >= params.len() {
        String::new()
    } else if i == params.len() - 1 {
        params[i].to_polar()
    } else {
        let head = params[i].to_polar().concat(", ");
        head.concat(params_join(params, i + 1).as_str())
    }
}

} // verus!
