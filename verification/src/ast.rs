//! The program representation the resolver works on: spans, expressions,
//! storage declarations, predicates, and the contract root.

use vstd::prelude::*;

verus! {

/// Half-open interval `[start, end)` over flat source offsets.
#[derive(Clone, Copy, PartialEq, Eq, Structural, Debug)]
pub struct Span {
    pub start: usize,
    pub end: usize,
}

/// Whether `offset` falls inside the half-open interval of `s`.
pub open spec fn span_contains(s: Span, offset: int) -> bool {
    s.start <= offset && offset < s.end
}

/// Operator of a binary expression. The resolver never reads it; it is kept
/// so that an expression tree carries the same structure the parser produced.
#[derive(Clone, Copy, PartialEq, Eq, Structural, Debug)]
pub enum BinaryOp {
    Add,
    Sub,
    Mul,
    Div,
    Eq,
    NotEq,
}

/// An expression node together with the span it covers.
pub struct Spanned {
    pub expr: Expr,
    pub span: Span,
}

/// A tagged expression variant. `Local` is an identifier occurrence;
/// `Let` introduces a binding (its fourth field is the binder's own span);
/// `Then` is sequencing of two expressions.
pub enum Expr {
    /// Parse-error placeholder left by a recovering parser.
    Error,
    /// A literal value.
    Value,
    /// An identifier occurrence; the occurrence's span is on the wrapper.
    Local(String),
    /// `Let(name, initializer, body, binder_span)`.
    Let(String, Box<Spanned>, Box<Spanned>, Span),
    /// Sequencing: evaluate the first expression, continue with the second.
    Then(Box<Spanned>, Box<Spanned>),
    Binary(Box<Spanned>, BinaryOp, Box<Spanned>),
    Call(Box<Spanned>, Vec<Spanned>),
    If(Box<Spanned>, Box<Spanned>, Box<Spanned>),
    Print(Box<Spanned>),
    List(Vec<Spanned>),
}

/// One storage-declared field: a global, persistently backed variable.
pub struct StorageVar {
    pub name: String,
    pub span: Span,
}

/// One predicate parameter.
pub struct Param {
    pub name: String,
    pub span: Span,
}

/// One predicate-local variable binding with its defining expression.
pub struct Variable {
    pub name: String,
    pub body: Spanned,
}

/// A named, self-contained unit with parameters and local variables.
pub struct Predicate {
    pub name: String,
    pub params: Vec<Param>,
    pub variables: Vec<Variable>,
}

/// Root of one parsed source unit: the storage block and the predicates,
/// both in declaration order.
pub struct Contract {
    pub storage: Vec<StorageVar>,
    pub predicates: Vec<Predicate>,
}

} // verus!
