//! A write-once mapping from node IDs to AST nodes.
//!
//! The registry is populated once, while the AST is being constructed, and is
//! read-only afterwards.  Each node id may be registered at most once.

use crate::assoc::{find_first, lemma_find_first_map_of, lemma_map_of_contains, map_of, unique_keys};
use crate::ast::{InstDecl, InstName, ModDecl, ParamDecl, ParamTypeDecl, ParamValueDecl, PortDecl, TypeDecl};
use crate::common::{NodeId, Span};
use vstd::prelude::*;

verus! {

/// A reference to an AST node.
///
/// This enum provides a typed wrapper around the node facts stored in the
/// registry.  Code obtains a generic node by id and then matches on the
/// actual kind that was registered.
#[derive(Debug, Clone, PartialEq, Eq, Hash)]
pub enum AstNode {
    Module(ModDecl),
    Port(PortDecl),
    Type(TypeDecl),
    /// The module/interface name and parameters of an instantiation.
    InstTarget(InstDecl),
    /// An instance name and reference to its target.
    Inst(InstName, NodeId),
    /// A type parameter.
    TypeParam(ParamDecl, ParamTypeDecl),
    /// A value parameter.
    ValueParam(ParamDecl, ParamValueDecl),
}

impl AstNode {
    /// The full source extent of the node.
    pub open spec fn spec_span(self) -> Span {
        match self {
            AstNode::Module(x) => x.span,
            AstNode::Port(x) => x.span,
            AstNode::Type(x) => x.span,
            AstNode::InstTarget(x) => x.span,
            AstNode::Inst(x, _) => x.span,
            AstNode::TypeParam(x, _) => x.span,
            AstNode::ValueParam(x, _) => x.span,
        }
    }

    /// The span a human reader would associate with the node: the declared
    /// name where the node has one, the full extent otherwise.
    pub open spec fn spec_human_span(self) -> Span {
        match self {
            AstNode::Module(x) => x.name.span,
            AstNode::Port(x) => match x.name {
                Some(n) => n.span,
                None => x.span,
            },
            AstNode::Type(x) => x.span,
            AstNode::InstTarget(x) => x.target.span,
            AstNode::Inst(x, _) => x.name.span,
            AstNode::TypeParam(_, d) => d.name.span,
            AstNode::ValueParam(_, d) => d.name.span,
        }
    }

    /// The full source extent of the node.
    pub fn span(&self) -> (r: Span)
        ensures
            r == self.spec_span(),
    {
        match self {
            AstNode::Module(x) => x.span,
            AstNode::Port(x) => x.span,
            AstNode::Type(x) => x.span,
            AstNode::InstTarget(x) => x.span,
            AstNode::Inst(x, _) => x.span,
            AstNode::TypeParam(x, _) => x.span,
            AstNode::ValueParam(x, _) => x.span,
        }
    }

    /// The span a human reader would associate with the node.
    pub fn human_span(&self) -> (r: Span)
        ensures
            r == self.spec_human_span(),
    {
        match self {
            AstNode::Module(x) => x.name.span,
            AstNode::Port(x) => match x.name {
                Some(n) => n.span,
                None => x.span,
            },
            AstNode::Type(x) => x.span,
            AstNode::InstTarget(x) => x.target.span,
            AstNode::Inst(x, _) => x.name.span,
            AstNode::TypeParam(_, d) => d.name.span,
            AstNode::ValueParam(_, d) => d.name.span,
        }
    }

    /// A short, static description of the node kind.
    pub fn desc(&self) -> (r: &'static str)
        ensures
            self is Module ==> r@ == "module"@,
            self is Port ==> r@ == "port"@,
            self is Type ==> r@ == "type"@,
            self is InstTarget ==> r@ == "instantiation"@,
            self is Inst ==> r@ == "instance"@,
            self is TypeParam ==> r@ == "type parameter"@,
            self is ValueParam ==> r@ == "parameter"@,
    {
        match self {
            AstNode::Module(_) => "module",
            AstNode::Port(_) => "port",
            AstNode::Type(_) => "type",
            AstNode::InstTarget(_) => "instantiation",
            AstNode::Inst(_, _) => "instance",
            AstNode::TypeParam(_, _) => "type parameter",
            AstNode::ValueParam(_, _) => "parameter",
        }
    }
}

/// The write-once registry mapping node ids to AST nodes.
pub struct AstMap {
    entries: Vec<(NodeId, AstNode)>,
}

impl View for AstMap {
    type V = Map<NodeId, AstNode>;

    closed spec fn view(&self) -> Map<NodeId, AstNode> {
        map_of(self.entries@)
    }
}

impl AstMap {
    /// Every node id is registered at most once.
    pub closed spec fn wf(self) -> bool {
        unique_keys(self.entries@)
    }

    /// Insert an AST node into the map.
    ///
    /// Registering the same id twice is a construction error; the protocol
    /// requires each id to be set at most once.
    pub fn set(&mut self, id: NodeId, node: AstNode)
        requires
            old(self).wf(),
            !old(self)@.contains_key(id),
        ensures
            final(self).wf(),
            final(self)@ == old(self)@.insert(id, node),
    {
        proof {
            lemma_map_of_contains(self.entries@, id);
        }
        let ghost s0 = self.entries@;
        self.entries.push((id, node));
        proof {
            assert(self.entries@.drop_last() =~= s0);
            assert forall|i: int, j: int|
                0 <= i < j < self.entries@.len() implies #[trigger] self.entries@[i].0
                != #[trigger] self.entries@[j].0 by {
                if j + 1 == self.entries@.len() {
                    assert(self.entries@[i] == s0[i]);
                } else {
                    assert(self.entries@[i] == s0[i]);
                    assert(self.entries@[j] == s0[j]);
                }
            }
        }
    }

    /// Retrieve an AST node from the map.
    pub fn get(&self, id: NodeId) -> (r: Option<&AstNode>)
        requires
            self.wf(),
        ensures
            match r {
                Some(n) => self@.contains_key(id) && *n == self@[id],
                None => !self@.contains_key(id),
            },
    {
        let ghost s = self.entries@;
        proof {
            assert(s.subrange(0, s.len() as int) =~= s);
        }
        let mut i: usize = 0;
        while i < self.entries.len()
            invariant
                self.wf(),
                s == self.entries@,
                i <= s.len(),
                find_first(s.subrange(i as int, s.len() as int), id) == find_first(s, id),
            decreases s.len() - i,
        {
            let ghost tail = s.subrange(i as int, s.len() as int);
            if self.entries[i].0 == id {
                proof {
                    assert(tail[0] == s[i as int]);
                    assert(find_first(s, id) == Some(s[i as int].1));
                    lemma_find_first_map_of(s, id);
                }
                return Some(&self.entries[i].1);
            }
            proof {
                assert(tail[0] == s[i as int]);
                assert(tail.drop_first() =~= s.subrange(i + 1, s.len() as int));
            }
            i = i + 1;
        }
        proof {
            assert(s.subrange(i as int, s.len() as int) =~= Seq::<(NodeId, AstNode)>::empty());
            lemma_find_first_map_of(s, id);
        }
        None
    }
}

impl Default for AstMap {
    /// An empty registry.
    fn default() -> (r: AstMap)
        ensures
            r.wf(),
            r@ == Map::<NodeId, AstNode>::empty(),
    {
        AstMap { entries: Vec::new() }
    }
}

} // verus!
