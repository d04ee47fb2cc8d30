//! The error taxonomy: parse/semantic-sugar errors, runtime file-loading and
//! type errors, operational (invariant-violation) errors, parameter errors,
//! rule-validation errors, and roles-configuration errors. Every user-facing
//! error carries a message, a source offset where one applies, and zero or
//! more highlighted source ranges.

use vstd::prelude::*;

use crate::sources::Source;

verus! {

/// An error in the declarative policy syntax, located in the source.
#[derive(Debug)]
pub enum ParseError {
    ParseSugar { loc: usize, msg: String, ranges: Vec<(usize, usize)> },
}

/// A runtime error: conflicting file loads, or a declaration used at the
/// wrong type.
#[derive(Debug)]
pub enum RuntimeError {
    FileLoading { msg: String },
    TypeError { msg: String },
}

/// An internal invariant violation: a registration-order bug by the host,
/// not a policy-authoring mistake.
#[derive(Debug)]
pub enum OperationalError {
    InvalidState(String),
}

/// A bad argument in a host registration call.
#[derive(Debug)]
pub struct ParameterError(pub String);

/// A rule that fails to match every applicable prototype.
#[derive(Debug)]
pub enum ValidationError {
    InvalidRule { rule: String, msg: String },
}

/// A roles configuration that fails structural validation.
#[derive(Debug)]
pub struct RolesValidationError(pub String);

/// The kinds of error this engine reports.
#[derive(Debug)]
pub enum ErrorKind {
    Parse(ParseError),
    Runtime(RuntimeError),
    Operational(OperationalError),
    Parameter(ParameterError),
    Validation(ValidationError),
    RolesValidation(RolesValidationError),
}

/// Source context attached to an error for rendering an in-editor pointer:
/// the source the offending term came from, and the term's offset in it.
#[derive(Debug)]
pub struct ErrorContext {
    pub source: Source,
    pub loc: usize,
}

/// An error together with optional source context.
#[derive(Debug)]
pub struct PolarError {
    pub kind: ErrorKind,
    pub context: Option<ErrorContext>,
}

impl PolarError {
    /// Wrap a bare error kind with no source context.
    pub fn new(kind: ErrorKind) -> (r: PolarError)
        ensures
            r.kind == kind,
            r.context is None,
    {
        PolarError { kind, context: Option::None }
    }
}

pub type PolarResult<T> = Result<T, PolarError>;

} // verus!
