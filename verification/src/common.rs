//! Identifier and source-location types shared across the elaboration core.

use vstd::prelude::*;

verus! {

/// An opaque, process-wide-unique identifier for one AST/HIR node.
///
/// Node identifiers carry no ownership semantics beyond identity; the actual
/// nodes live in the write-once AST registry.
#[derive(Debug, Clone, Copy, PartialEq, Eq, PartialOrd, Ord, Hash, Structural)]
pub struct NodeId(pub u32);

/// An interned source name (symbol).
///
/// The symbol table itself belongs to the surrounding lexer infrastructure;
/// the elaboration core only compares names for equality and lists them in
/// diagnostics.
#[derive(Debug, Clone, Copy, PartialEq, Eq, PartialOrd, Ord, Hash, Structural)]
pub struct Name(pub u32);

/// A source location: a byte range within the source text.
#[derive(Debug, Clone, Copy, PartialEq, Eq, Hash, Structural)]
pub struct Span {
    pub begin: u32,
    pub end: u32,
}

impl Span {
    /// Create a span covering the given byte range.
    pub fn new(begin: u32, end: u32) -> (r: Span)
        ensures
            r.begin == begin,
            r.end == end,
    {
        Span { begin, end }
    }
}

/// A value paired with the source span it was written at.
#[derive(Debug, Clone, Copy, PartialEq, Eq, Hash, Structural)]
pub struct Spanned<T> {
    pub value: T,
    pub span: Span,
}

/// A handle to an interned constant value.
///
/// Value representation and evaluation are the business of the downstream
/// value queries; the elaboration core only stores and compares handles.
#[derive(Debug, Clone, Copy, PartialEq, Eq, PartialOrd, Ord, Hash, Structural)]
pub struct Value(pub u32);

/// A handle to an interned unpacked type.
///
/// Type representation is the business of the downstream type queries; the
/// elaboration core only stores and compares handles.
#[derive(Debug, Clone, Copy, PartialEq, Eq, PartialOrd, Ord, Hash, Structural)]
pub struct UnpackedType(pub u32);

} // verus!
