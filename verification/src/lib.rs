//! Scope-aware completion-candidate resolution for a contract language.
//!
//! Given a parsed program (a storage block plus named predicates with
//! parameters and local variable bindings) and a cursor offset, the library
//! computes the table of identifiers that are valid to suggest at that
//! offset, each classified by kind (keyword, built-in type, storage field,
//! predicate-scoped variable) with a deterministic key and display label.

pub mod ast;
pub mod candidates;
pub mod completion;
pub mod laws;
