//! Validation and compilation core of a declarative authorization-rule engine.
//!
//! The crate models logic-program terms, lets a host register a class
//! hierarchy and constants, matches rules against typed rule prototypes,
//! and compiles role/permission/relation resource blocks into base rules.

pub mod assoc;
pub mod bindings;
pub mod counter;
pub mod errors;
pub mod fmt;
pub mod kb;
pub mod laws;
pub mod roles_validation;
pub mod rules;
pub mod sources;
pub mod sugar;
pub mod terms;
pub mod validation;
