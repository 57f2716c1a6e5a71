//! Structured diagnostics for failed resolutions.
//!
//! Resolution computes bindings and reports problems as structured values;
//! rendering a diagnostic into user-facing text is the business of the
//! surrounding reporting pipeline.

use crate::common::{Name, NodeId, Span};
use vstd::prelude::*;

verus! {

/// A user-facing problem found while resolving one instantiation site.
#[derive(Debug, Clone, PartialEq, Eq, Hash)]
pub enum Diagnostic {
    /// The instantiation supplies more positional parameter assignments than
    /// the instantiated node declares parameters.  `declared` is the number
    /// of declared parameters; `span` is the first excess assignment's.
    ParamArity { node: NodeId, declared: usize, span: Span },
    /// The instantiation supplies more positional connections than the
    /// instantiated node has external ports.
    PortArity { node: NodeId, declared: usize, span: Span },
    /// A named parameter assignment matches no declared parameter.
    /// `declared` lists every declared parameter name as a remediation hint.
    UnknownParam { node: NodeId, name: Name, declared: Vec<Name>, span: Span },
    /// A named connection matches no external port name.  `declared` lists
    /// every named external port as a remediation hint.
    UnknownPort { node: NodeId, name: Name, declared: Vec<Name>, span: Span },
    /// A named connection was made against a node whose ports carry no
    /// external names; such a node must be connected positionally.
    PositionalOnly { node: NodeId, name: Name, span: Span },
    /// A node previously classified as a parameter resolved to an unexpected
    /// AST node kind.  This is not a user error: it signals a compiler
    /// defect, and resolution of the affected site halts.
    InvalidParamNode { node: NodeId },
}

/// The spec-level shape of a [`Diagnostic`].
#[verifier::ext_equal]
pub enum DiagnosticView {
    ParamArity { node: NodeId, declared: nat, span: Span },
    PortArity { node: NodeId, declared: nat, span: Span },
    UnknownParam { node: NodeId, name: Name, declared: Seq<Name>, span: Span },
    UnknownPort { node: NodeId, name: Name, declared: Seq<Name>, span: Span },
    PositionalOnly { node: NodeId, name: Name, span: Span },
    InvalidParamNode { node: NodeId },
}

impl View for Diagnostic {
    type V = DiagnosticView;

    open spec fn view(&self) -> DiagnosticView {
        match *self {
            Diagnostic::ParamArity { node, declared, span } => DiagnosticView::ParamArity {
                node,
                declared: declared as nat,
                span,
            },
            Diagnostic::PortArity { node, declared, span } => DiagnosticView::PortArity {
                node,
                declared: declared as nat,
                span,
            },
            Diagnostic::UnknownParam { node, name, ref declared, span } => DiagnosticView::UnknownParam {
                node,
                name,
                declared: declared@,
                span,
            },
            Diagnostic::UnknownPort { node, name, ref declared, span } => DiagnosticView::UnknownPort {
                node,
                name,
                declared: declared@,
                span,
            },
            Diagnostic::PositionalOnly { node, name, span } => DiagnosticView::PositionalOnly {
                node,
                name,
                span,
            },
            Diagnostic::InvalidParamNode { node } => DiagnosticView::InvalidParamNode { node },
        }
    }
}

} // verus!
