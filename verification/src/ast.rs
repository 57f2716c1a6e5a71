//! Thin models of the AST facts that elaboration reads.
//!
//! The full abstract syntax tree lives in the surrounding parser
//! infrastructure.  Elaboration only needs each node's identity, its source
//! spans, and — for parameter declarations — the declared name, so the types
//! here carry exactly that.

use crate::common::{Name, NodeId, Span, Spanned};
use vstd::prelude::*;

verus! {

/// A module declaration.
#[derive(Debug, Clone, Copy, PartialEq, Eq, Hash, Structural)]
pub struct ModDecl {
    pub id: NodeId,
    pub name: Spanned<Name>,
    pub span: Span,
}

/// A port declaration.  Ports declared without an external name forbid
/// named connections at instantiation sites.
#[derive(Debug, Clone, Copy, PartialEq, Eq, Hash)]
pub struct PortDecl {
    pub span: Span,
    pub name: Option<Spanned<Name>>,
}

/// A type expression.
#[derive(Debug, Clone, Copy, PartialEq, Eq, Hash, Structural)]
pub struct TypeDecl {
    pub span: Span,
}

/// The module/interface name and parameter assignments of an instantiation.
#[derive(Debug, Clone, Copy, PartialEq, Eq, Hash, Structural)]
pub struct InstDecl {
    pub span: Span,
    pub target: Spanned<Name>,
}

/// An instance name together with its source span.
#[derive(Debug, Clone, Copy, PartialEq, Eq, Hash, Structural)]
pub struct InstName {
    pub id: NodeId,
    pub span: Span,
    pub name: Spanned<Name>,
}

/// The body of a parameter declaration: one or more type or value
/// declarators, identified by their node ids.
#[derive(Debug, Clone, PartialEq, Eq, Hash)]
pub enum ParamKind {
    Type(Vec<NodeId>),
    Value(Vec<NodeId>),
}

/// A parameter declaration, possibly declaring several parameters at once.
#[derive(Debug, Clone, PartialEq, Eq, Hash)]
pub struct ParamDecl {
    pub span: Span,
    pub kind: ParamKind,
}

/// A single type-parameter declarator.
#[derive(Debug, Clone, Copy, PartialEq, Eq, Hash, Structural)]
pub struct ParamTypeDecl {
    pub id: NodeId,
    pub span: Span,
    pub name: Spanned<Name>,
}

/// A single value-parameter declarator.
#[derive(Debug, Clone, Copy, PartialEq, Eq, Hash, Structural)]
pub struct ParamValueDecl {
    pub id: NodeId,
    pub span: Span,
    pub name: Spanned<Name>,
}

} // verus!
