//! Models of the HIR facts consumed by elaboration.
//!
//! The full high-level intermediate representation is produced by the
//! surrounding lowering passes; instantiation only reads the declared
//! parameter lists of modules and interfaces and the raw argument lists
//! written at the instantiation site.

use crate::ast::ParamDecl;
use crate::common::{Name, NodeId, Span, Spanned};
use vstd::prelude::*;

verus! {

/// A positional parameter or port assignment: the source span of the
/// assignment and the assigned node, if one was written (a hole otherwise).
pub type PosParam = (Span, Option<NodeId>);

/// A named parameter or port assignment: the source span of the assignment,
/// the name written, and the assigned node, if one was written.
pub type NamedParam = (Span, Spanned<Name>, Option<NodeId>);

/// A disambiguation hint for downstream lowering.
///
/// The surface syntax of a type argument and a value argument can be
/// lexically identical, so each matched argument node is tagged with the
/// kind of parameter it was bound to.
#[derive(Debug, Clone, Copy, PartialEq, Eq, Hash, Structural)]
pub enum Hint {
    /// Treat the node as a type.
    Type,
    /// Treat the node as an expression.
    Expr,
}

/// The facts of a module that instantiation needs.
#[derive(Debug, Clone, PartialEq, Eq, Hash)]
pub struct Module {
    /// The id of the module's AST node.
    pub ast: NodeId,
    /// The explicit header parameters, in declaration order.
    pub params: Vec<NodeId>,
    /// The parameters declared in the module body, in declaration order.
    pub block_params: Vec<NodeId>,
}

/// The facts of an interface that instantiation needs.
///
/// Unlike a module's, an interface's header parameters arrive as raw
/// parameter declarations whose declarators have not been flattened yet.
#[derive(Debug, Clone, PartialEq, Eq, Hash)]
pub struct Interface {
    /// The id of the interface's AST node.
    pub ast: NodeId,
    /// The parameter declarations of the interface header, in order.
    pub params: Vec<ParamDecl>,
    /// The parameters declared in the interface body, in declaration order.
    pub block_params: Vec<NodeId>,
}

} // verus!
