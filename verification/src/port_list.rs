//! The canonicalized external port view of a module or interface.
//!
//! Canonicalization itself (flattening port declarations into this view) is
//! performed by the surrounding lowering passes; port-mapping resolution only
//! consumes the result.

use crate::common::{Name, NodeId, Span};
use vstd::prelude::*;

verus! {

/// One external port of a module or interface.
#[derive(Debug, Clone, Copy, PartialEq, Eq, Hash)]
pub struct ExtPort {
    /// The id of the port's AST node.
    pub id: NodeId,
    /// The external name.  Absent when the node's ports are declared without
    /// external names, which forbids named connections entirely.
    pub name: Option<Name>,
    /// The source span of the port declaration.
    pub span: Span,
}

/// The ordered external port list of a node.
#[derive(Debug, Clone, PartialEq, Eq, Hash)]
pub struct PortList {
    /// The external ports, in declaration order, for positional access.
    pub ext_pos: Vec<ExtPort>,
    /// A name-to-index table for named access; absent when the node's ports
    /// carry no external names.
    pub ext_named: Option<Vec<(Name, usize)>>,
}

impl PortList {
    /// Every name-table entry indexes into the port list.
    pub open spec fn wf(self) -> bool {
        match self.ext_named {
            Some(tbl) => forall|k: int|
                0 <= k < tbl@.len() ==> (#[trigger] tbl@[k]).1 < self.ext_pos@.len(),
            None => true,
        }
    }
}

} // verus!
