//! A parameter environment generated by an instantiation.
//!
//! The environment resolver takes one instantiation site — the instantiated
//! node, its ordered declared-parameter list, the environment in effect
//! around the site, and the raw positional/named argument lists — and
//! produces the interned handle of the site's parameter environment, or
//! fails with a single diagnostic.  Matched arguments become indirect
//! bindings: the parameter's value is defined to equal the argument node
//! evaluated in the outer environment, where the argument was written.

use crate::assoc::{find_first, remove_key};
use crate::ast::{ParamDecl, ParamKind};
use crate::ast_map::AstNode;
use crate::common::{Name, NodeId, UnpackedType, Value};
use crate::context::{interned_at, Context};
use crate::diag::{Diagnostic, DiagnosticView};
use crate::hir::{Hint, Interface, Module, NamedParam, PosParam};
use vstd::prelude::*;

verus! {

/// A parameter environment.
///
/// This is merely a handle that is cheap to copy and pass around.  Use the
/// context to resolve it to the actual [`ParamEnvData`].  The interning
/// invariant makes two handles equal exactly if they refer to content-equal
/// data, so handle equality is a valid substitute for deep equality.
#[derive(Debug, Clone, Copy, PartialEq, Eq, PartialOrd, Ord, Hash, Structural)]
pub struct ParamEnv(pub u32);

/// A node id with corresponding parameter environment: "the value of this
/// node, under this environment".
#[derive(Debug, Clone, Copy, PartialEq, Eq, PartialOrd, Ord, Hash, Structural)]
pub struct NodeEnvId(pub NodeId, pub ParamEnv);

impl NodeEnvId {
    /// Create a new combined node ID with associated parameter bindings.
    pub fn new(id: NodeId, env: ParamEnv) -> (r: Self)
        ensures
            r.0 == id,
            r.1 == env,
    {
        NodeEnvId(id, env)
    }

    /// Obtain the underlying node.
    pub fn id(self) -> (r: NodeId)
        ensures
            r == self.0,
    {
        self.0
    }

    /// Obtain the parameter bindings associated with the node.
    pub fn env(self) -> (r: ParamEnv)
        ensures
            r == self.1,
    {
        self.1
    }
}

/// A helper trait to allow for easy wrapping of node IDs.
pub trait IntoNodeEnvId: Sized {
    /// The node being wrapped.
    spec fn spec_node(self) -> NodeId;

    /// Associate parameter bindings with this node.
    fn env(self, env: ParamEnv) -> (r: NodeEnvId)
        ensures
            r.0 == self.spec_node(),
            r.1 == env,
    ;
}

impl IntoNodeEnvId for NodeId {
    open spec fn spec_node(self) -> NodeId {
        self
    }

    fn env(self, env: ParamEnv) -> (r: NodeEnvId) {
        NodeEnvId(self, env)
    }
}

/// A binding in a parameter environment.
#[derive(Debug, Clone, Copy, PartialEq, Eq, Hash)]
pub enum ParamEnvBinding<T> {
    /// A direct binding, directly assigning a type or value to a node.
    Direct(T),
    /// An indirect binding, pointing at another node's type or value: the
    /// bound node's value equals that node's value under that environment.
    Indirect(NodeEnvId),
}

/// The resolved bindings produced by one instantiation.
///
/// Mutable only while one resolution call constructs it; once interned it is
/// immutable for the remainder of the process.
pub struct ParamEnvData {
    pub(crate) module: Option<NodeId>,
    pub(crate) values: Vec<(NodeId, ParamEnvBinding<Value>)>,
    pub(crate) types: Vec<(NodeId, ParamEnvBinding<UnpackedType>)>,
    pub(crate) intfs: Vec<(NodeId, NodeEnvId)>,
}

/// The spec-level shape of a [`ParamEnvData`].
#[verifier::ext_equal]
pub struct ParamEnvDataView {
    /// The node whose instantiation produced this environment.
    pub module: Option<NodeId>,
    /// The value-parameter bindings, in insertion order.
    pub values: Seq<(NodeId, ParamEnvBinding<Value>)>,
    /// The type-parameter bindings, in insertion order.
    pub types: Seq<(NodeId, ParamEnvBinding<UnpackedType>)>,
    /// The interface-port parametrizations, in insertion order.
    pub intfs: Seq<(NodeId, NodeEnvId)>,
}

impl View for ParamEnvData {
    type V = ParamEnvDataView;

    closed spec fn view(&self) -> ParamEnvDataView {
        ParamEnvDataView {
            module: self.module,
            values: self.values@,
            types: self.types@,
            intfs: self.intfs@,
        }
    }
}

/// Whether every indirect reference in `d` points at an environment handle
/// below `n`.  Data interned when `n` environments existed satisfies this
/// with that `n`: an indirection can only name an environment that already
/// existed, which is what makes following indirection chains terminate.
pub open spec fn data_refs_below(d: ParamEnvDataView, n: int) -> bool {
    &&& forall|i: int|
        0 <= i < d.values.len() ==> match (#[trigger] d.values[i]).1 {
            ParamEnvBinding::Indirect(ne) => (ne.1).0 < n,
            ParamEnvBinding::Direct(_) => true,
        }
    &&& forall|i: int|
        0 <= i < d.types.len() ==> match (#[trigger] d.types[i]).1 {
            ParamEnvBinding::Indirect(ne) => (ne.1).0 < n,
            ParamEnvBinding::Direct(_) => true,
        }
    &&& forall|i: int| 0 <= i < d.intfs.len() ==> ((#[trigger] d.intfs[i]).1.1).0 < n
}

/// The first parameter in `s` whose binding indirectly points at `target`.
pub open spec fn reverse_find_first<T>(
    s: Seq<(NodeId, ParamEnvBinding<T>)>,
    target: NodeId,
) -> Option<NodeId>
    decreases s.len(),
{
    if s.len() == 0 {
        None
    } else {
        match s[0].1 {
            ParamEnvBinding::Indirect(ne) => if ne.0 == target {
                Some(s[0].0)
            } else {
                reverse_find_first(s.drop_first(), target)
            },
            ParamEnvBinding::Direct(_) => reverse_find_first(s.drop_first(), target),
        }
    }
}

impl ParamEnvData {
    /// Find the value assigned to a node.  Where a node is bound more than
    /// once, the first-inserted binding answers.
    pub fn find_value(&self, node_id: NodeId) -> (r: Option<ParamEnvBinding<Value>>)
        ensures
            r == find_first(self@.values, node_id),
    {
        let ghost s = self.values@;
        proof {
            assert(s.subrange(0, s.len() as int) =~= s);
        }
        let mut i: usize = 0;
        while i < self.values.len()
            invariant
                s == self.values@,
                i <= s.len(),
                find_first(s.subrange(i as int, s.len() as int), node_id) == find_first(s, node_id),
            decreases s.len() - i,
        {
            let ghost tail = s.subrange(i as int, s.len() as int);
            proof {
                assert(tail[0] == s[i as int]);
                assert(tail.drop_first() =~= s.subrange(i + 1, s.len() as int));
            }
            if self.values[i].0 == node_id {
                return Some(self.values[i].1);
            }
            i = i + 1;
        }
        proof {
            assert(s.subrange(i as int, s.len() as int) =~= Seq::<(
                NodeId,
                ParamEnvBinding<Value>,
            )>::empty());
        }
        None
    }

    /// Find the type assigned to a node.  Where a node is bound more than
    /// once, the first-inserted binding answers.
    pub fn find_type(&self, node_id: NodeId) -> (r: Option<ParamEnvBinding<UnpackedType>>)
        ensures
            r == find_first(self@.types, node_id),
    {
        let ghost s = self.types@;
        proof {
            assert(s.subrange(0, s.len() as int) =~= s);
        }
        let mut i: usize = 0;
        while i < self.types.len()
            invariant
                s == self.types@,
                i <= s.len(),
                find_first(s.subrange(i as int, s.len() as int), node_id) == find_first(s, node_id),
            decreases s.len() - i,
        {
            let ghost tail = s.subrange(i as int, s.len() as int);
            proof {
                assert(tail[0] == s[i as int]);
                assert(tail.drop_first() =~= s.subrange(i + 1, s.len() as int));
            }
            if self.types[i].0 == node_id {
                return Some(self.types[i].1);
            }
            i = i + 1;
        }
        proof {
            assert(s.subrange(i as int, s.len() as int) =~= Seq::<(
                NodeId,
                ParamEnvBinding<UnpackedType>,
            )>::empty());
        }
        None
    }

    /// Find the parametrization of an interface port.
    pub fn find_interface(&self, node_id: NodeId) -> (r: Option<NodeEnvId>)
        ensures
            r == find_first(self@.intfs, node_id),
    {
        let ghost s = self.intfs@;
        proof {
            assert(s.subrange(0, s.len() as int) =~= s);
        }
        let mut i: usize = 0;
        while i < self.intfs.len()
            invariant
                s == self.intfs@,
                i <= s.len(),
                find_first(s.subrange(i as int, s.len() as int), node_id) == find_first(s, node_id),
            decreases s.len() - i,
        {
            let ghost tail = s.subrange(i as int, s.len() as int);
            proof {
                assert(tail[0] == s[i as int]);
                assert(tail.drop_first() =~= s.subrange(i + 1, s.len() as int));
            }
            if self.intfs[i].0 == node_id {
                return Some(self.intfs[i].1);
            }
            i = i + 1;
        }
        proof {
            assert(s.subrange(i as int, s.len() as int) =~= Seq::<(NodeId, NodeEnvId)>::empty());
        }
        None
    }

    /// Find the node assigned to a value parameter: the first parameter
    /// whose binding indirectly points at `node_id`.
    pub fn reverse_find_value(&self, node_id: NodeId) -> (r: Option<NodeId>)
        ensures
            r == reverse_find_first(self@.values, node_id),
    {
        let ghost s = self.values@;
        proof {
            assert(s.subrange(0, s.len() as int) =~= s);
        }
        let mut i: usize = 0;
        while i < self.values.len()
            invariant
                s == self.values@,
                i <= s.len(),
                reverse_find_first(s.subrange(i as int, s.len() as int), node_id)
                    == reverse_find_first(s, node_id),
            decreases s.len() - i,
        {
            let ghost tail = s.subrange(i as int, s.len() as int);
            proof {
                assert(tail[0] == s[i as int]);
                assert(tail.drop_first() =~= s.subrange(i + 1, s.len() as int));
            }
            match self.values[i].1 {
                ParamEnvBinding::Indirect(ne) => {
                    if ne.id() == node_id {
                        return Some(self.values[i].0);
                    }
                },
                ParamEnvBinding::Direct(_) => {},
            }
            i = i + 1;
        }
        proof {
            assert(s.subrange(i as int, s.len() as int) =~= Seq::<(
                NodeId,
                ParamEnvBinding<Value>,
            )>::empty());
        }
        None
    }

    /// Assign a value to a node.  Any prior binding for the node is removed
    /// first, so after the call the node is bound exactly once, directly.
    pub fn set_value(&mut self, node_id: NodeId, value: Value)
        ensures
            final(self)@.values == remove_key(old(self)@.values, node_id).push(
                (node_id, ParamEnvBinding::Direct(value)),
            ),
            final(self)@.module == old(self)@.module,
            final(self)@.types == old(self)@.types,
            final(self)@.intfs == old(self)@.intfs,
    {
        let ghost s0 = self.values@;
        let mut kept: Vec<(NodeId, ParamEnvBinding<Value>)> = Vec::new();
        proof {
            assert(s0.subrange(0, 0) =~= Seq::<(NodeId, ParamEnvBinding<Value>)>::empty());
        }
        let mut i: usize = 0;
        while i < self.values.len()
            invariant
                s0 == self.values@,
                i <= s0.len(),
                kept@ == remove_key(s0.subrange(0, i as int), node_id),
            decreases s0.len() - i,
        {
            let ghost head = s0.subrange(0, i + 1);
            proof {
                assert(head.drop_last() =~= s0.subrange(0, i as int));
                assert(head.last() == s0[i as int]);
            }
            if self.values[i].0 != node_id {
                kept.push(self.values[i]);
            }
            i = i + 1;
        }
        proof {
            assert(s0.subrange(0, s0.len() as int) =~= s0);
        }
        kept.push((node_id, ParamEnvBinding::Direct(value)));
        self.values = kept;
    }

    /// Add additional interface parametrizations, in order, after the
    /// existing ones.
    pub fn add_interfaces(&mut self, items: Vec<(NodeId, NodeEnvId)>)
        ensures
            final(self)@.intfs == old(self)@.intfs + items@,
            final(self)@.module == old(self)@.module,
            final(self)@.values == old(self)@.values,
            final(self)@.types == old(self)@.types,
    {
        let mut items = items;
        self.intfs.append(&mut items);
    }
}

impl Default for ParamEnvData {
    /// An environment with no owning node and no bindings.
    fn default() -> (r: ParamEnvData)
        ensures
            r@ == (ParamEnvDataView {
                module: None,
                values: Seq::empty(),
                types: Seq::empty(),
                intfs: Seq::empty(),
            }),
    {
        ParamEnvData { module: None, values: Vec::new(), types: Vec::new(), intfs: Vec::new() }
    }
}

/// A location that implies a parameter environment.
///
/// A short-lived descriptor of one instantiation site, carrying the facts of
/// the instantiated node, the surrounding ("outer") environment, and the raw
/// argument lists from the instantiation syntax.
#[derive(Debug, Clone, PartialEq, Eq, Hash)]
pub enum ParamEnvSource {
    ModuleInst { module: Module, env: ParamEnv, pos: Vec<PosParam>, named: Vec<NamedParam> },
    InterfaceInst {
        interface: Interface,
        env: ParamEnv,
        pos: Vec<PosParam>,
        named: Vec<NamedParam>,
    },
}

/// The declarator ids of a sequence of parameter declarations, flattened in
/// declaration order.
pub open spec fn flatten_param_decls(decls: Seq<ParamDecl>) -> Seq<NodeId>
    decreases decls.len(),
{
    if decls.len() == 0 {
        Seq::empty()
    } else {
        flatten_param_decls(decls.drop_last()) + (match decls.last().kind {
            ParamKind::Type(ids) => ids@,
            ParamKind::Value(ids) => ids@,
        })
    }
}

/// The instantiated node of a source descriptor.
pub open spec fn src_node(src: ParamEnvSource) -> NodeId {
    match src {
        ParamEnvSource::ModuleInst { module, .. } => module.ast,
        ParamEnvSource::InterfaceInst { interface, .. } => interface.ast,
    }
}

/// The outer environment of a source descriptor.
pub open spec fn src_env(src: ParamEnvSource) -> ParamEnv {
    match src {
        ParamEnvSource::ModuleInst { env, .. } => env,
        ParamEnvSource::InterfaceInst { env, .. } => env,
    }
}

/// The positional assignments of a source descriptor.
pub open spec fn src_pos(src: ParamEnvSource) -> Seq<PosParam> {
    match src {
        ParamEnvSource::ModuleInst { pos, .. } => pos@,
        ParamEnvSource::InterfaceInst { pos, .. } => pos@,
    }
}

/// The named assignments of a source descriptor.
pub open spec fn src_named(src: ParamEnvSource) -> Seq<NamedParam> {
    match src {
        ParamEnvSource::ModuleInst { named, .. } => named@,
        ParamEnvSource::InterfaceInst { named, .. } => named@,
    }
}

/// The full declared-parameter list of a source descriptor: explicit header
/// parameters followed by body-declared parameters, in that concatenation
/// order.  The order is semantically load-bearing for positional matching.
pub open spec fn src_params(src: ParamEnvSource) -> Seq<NodeId> {
    match src {
        ParamEnvSource::ModuleInst { module, .. } => module.params@ + module.block_params@,
        ParamEnvSource::InterfaceInst { interface, .. } => flatten_param_decls(interface.params@)
            + interface.block_params@,
    }
}

/// Whether the registry knows `id` as a type parameter.
pub open spec fn is_type_param(reg: Map<NodeId, AstNode>, id: NodeId) -> bool {
    reg.contains_key(id) && reg[id] is TypeParam
}

/// Whether the registry knows `id` as a value parameter.
pub open spec fn is_value_param(reg: Map<NodeId, AstNode>, id: NodeId) -> bool {
    reg.contains_key(id) && reg[id] is ValueParam
}

/// Whether the registry knows `id` as a parameter of either kind.
pub open spec fn is_param_node(reg: Map<NodeId, AstNode>, id: NodeId) -> bool {
    is_type_param(reg, id) || is_value_param(reg, id)
}

/// The declared name of a parameter node, if the registry knows one.
pub open spec fn param_name(reg: Map<NodeId, AstNode>, id: NodeId) -> Option<Name> {
    if reg.contains_key(id) {
        match reg[id] {
            AstNode::TypeParam(_, d) => Some(d.name.value),
            AstNode::ValueParam(_, d) => Some(d.name.value),
            _ => None,
        }
    } else {
        None
    }
}

/// The named view of a declared-parameter list: every parameter the registry
/// knows by name, paired with that name, in declaration order.  Type and
/// value parameters share this one namespace.
pub open spec fn declared_names(reg: Map<NodeId, AstNode>, params: Seq<NodeId>) -> Seq<
    (Name, NodeId),
>
    decreases params.len(),
{
    if params.len() == 0 {
        Seq::empty()
    } else {
        let rest = declared_names(reg, params.drop_last());
        match param_name(reg, params.last()) {
            Some(n) => rest.push((n, params.last())),
            None => rest,
        }
    }
}

/// Positional matching: the i-th positional assignment binds to the i-th
/// declared parameter.  Meaningful once the arity check passed.
pub open spec fn pos_pairs(params: Seq<NodeId>, pos: Seq<PosParam>) -> Seq<
    (NodeId, Option<NodeId>),
> {
    Seq::new(pos.len(), |i: int| (params[i], pos[i].1))
}

/// The parameter matched by one named assignment: the first declared
/// parameter carrying that name.
pub open spec fn named_target(reg: Map<NodeId, AstNode>, params: Seq<NodeId>, name: Name) -> Option<
    NodeId,
> {
    find_first(declared_names(reg, params), name)
}

/// Named matching: each named assignment paired with its target parameter.
/// Meaningful once every name matched.
pub open spec fn named_pairs(
    reg: Map<NodeId, AstNode>,
    params: Seq<NodeId>,
    named: Seq<NamedParam>,
) -> Seq<(NodeId, Option<NodeId>)> {
    Seq::new(
        named.len(),
        |j: int|
            (
                match named_target(reg, params, named[j].1.value) {
                    Some(id) => id,
                    None => NodeId(0),
                },
                named[j].2,
            ),
    )
}

/// All matched (parameter, argument) pairs, positional first, then named, in
/// source order.
pub open spec fn all_pairs(
    reg: Map<NodeId, AstNode>,
    params: Seq<NodeId>,
    pos: Seq<PosParam>,
    named: Seq<NamedParam>,
) -> Seq<(NodeId, Option<NodeId>)> {
    pos_pairs(params, pos) + named_pairs(reg, params, named)
}

/// The pairs that actually bind: those whose assignment supplies a node.  A
/// pair without one ("a hole") leaves its parameter or port unbound; for a
/// parameter, downstream default resolution answers there.
pub open spec fn bound_pairs<P>(pairs: Seq<(P, Option<NodeId>)>) -> Seq<(P, NodeId)>
    decreases pairs.len(),
{
    if pairs.len() == 0 {
        Seq::empty()
    } else {
        let rest = bound_pairs(pairs.drop_last());
        match pairs.last().1 {
            Some(a) => rest.push((pairs.last().0, a)),
            None => rest,
        }
    }
}

/// The value-parameter bindings produced by the bound pairs: each argument
/// node qualified by the outer environment, insertion order kept.
pub open spec fn value_bindings(
    reg: Map<NodeId, AstNode>,
    b: Seq<(NodeId, NodeId)>,
    outer: ParamEnv,
) -> Seq<(NodeId, ParamEnvBinding<Value>)>
    decreases b.len(),
{
    if b.len() == 0 {
        Seq::empty()
    } else {
        let rest = value_bindings(reg, b.drop_last(), outer);
        if is_value_param(reg, b.last().0) {
            rest.push((b.last().0, ParamEnvBinding::Indirect(NodeEnvId(b.last().1, outer))))
        } else {
            rest
        }
    }
}

/// The type-parameter bindings produced by the bound pairs.
pub open spec fn type_bindings(
    reg: Map<NodeId, AstNode>,
    b: Seq<(NodeId, NodeId)>,
    outer: ParamEnv,
) -> Seq<(NodeId, ParamEnvBinding<UnpackedType>)>
    decreases b.len(),
{
    if b.len() == 0 {
        Seq::empty()
    } else {
        let rest = type_bindings(reg, b.drop_last(), outer);
        if is_type_param(reg, b.last().0) {
            rest.push((b.last().0, ParamEnvBinding::Indirect(NodeEnvId(b.last().1, outer))))
        } else {
            rest
        }
    }
}

/// The lowering hints after tagging every bound argument node with its
/// parameter's kind: "treat as type" or "treat as expression".
pub open spec fn hints_after(
    h0: Map<NodeId, Hint>,
    reg: Map<NodeId, AstNode>,
    b: Seq<(NodeId, NodeId)>,
) -> Map<NodeId, Hint>
    decreases b.len(),
{
    if b.len() == 0 {
        h0
    } else {
        let prev = hints_after(h0, reg, b.drop_last());
        if is_type_param(reg, b.last().0) {
            prev.insert(b.last().1, Hint::Type)
        } else if is_value_param(reg, b.last().0) {
            prev.insert(b.last().1, Hint::Expr)
        } else {
            prev
        }
    }
}

/// Whether the positional assignments fit the declared-parameter count.
pub open spec fn arity_ok(params: Seq<NodeId>, pos: Seq<PosParam>) -> bool {
    pos.len() <= params.len()
}

/// Whether every named assignment matches a declared parameter name.
pub open spec fn names_ok(
    reg: Map<NodeId, AstNode>,
    params: Seq<NodeId>,
    named: Seq<NamedParam>,
) -> bool {
    forall|j: int|
        0 <= j < named.len() ==> named_target(reg, params, (#[trigger] named[j]).1.value) is Some
}

/// Whether the registry knows every bound parameter as a parameter.
pub open spec fn kinds_ok(reg: Map<NodeId, AstNode>, b: Seq<(NodeId, NodeId)>) -> bool {
    forall|i: int| 0 <= i < b.len() ==> is_param_node(reg, (#[trigger] b[i]).0)
}

/// Whether resolution of the site succeeds.
pub open spec fn resolution_ok(
    reg: Map<NodeId, AstNode>,
    params: Seq<NodeId>,
    pos: Seq<PosParam>,
    named: Seq<NamedParam>,
) -> bool {
    &&& arity_ok(params, pos)
    &&& names_ok(reg, params, named)
    &&& kinds_ok(reg, bound_pairs(all_pairs(reg, params, pos, named)))
}

/// The environment data that a successful resolution interns.
pub open spec fn resolved_data(
    reg: Map<NodeId, AstNode>,
    node: NodeId,
    params: Seq<NodeId>,
    outer: ParamEnv,
    pos: Seq<PosParam>,
    named: Seq<NamedParam>,
) -> ParamEnvDataView {
    let b = bound_pairs(all_pairs(reg, params, pos, named));
    ParamEnvDataView {
        module: Some(node),
        values: value_bindings(reg, b, outer),
        types: type_bindings(reg, b, outer),
        intfs: Seq::empty(),
    }
}

/// The index of the first named assignment with no matching parameter.
pub open spec fn first_bad_named(
    reg: Map<NodeId, AstNode>,
    params: Seq<NodeId>,
    named: Seq<NamedParam>,
) -> int
    decreases named.len(),
{
    if named.len() == 0 {
        0
    } else if named_target(reg, params, named[0].1.value) is None {
        0
    } else {
        1 + first_bad_named(reg, params, named.drop_first())
    }
}

/// The index of the first bound pair whose parameter the registry does not
/// know as a parameter.
pub open spec fn first_bad_kind(reg: Map<NodeId, AstNode>, b: Seq<(NodeId, NodeId)>) -> int
    decreases b.len(),
{
    if b.len() == 0 {
        0
    } else if !is_param_node(reg, b[0].0) {
        0
    } else {
        1 + first_bad_kind(reg, b.drop_first())
    }
}

/// The single diagnostic reported for a failed resolution: the first
/// failure, in matching order — positional arity first, then the named
/// assignments in source order, then the bound pairs in binding order.
pub open spec fn resolution_diag(
    reg: Map<NodeId, AstNode>,
    node: NodeId,
    params: Seq<NodeId>,
    pos: Seq<PosParam>,
    named: Seq<NamedParam>,
) -> DiagnosticView {
    if !arity_ok(params, pos) {
        DiagnosticView::ParamArity {
            node,
            declared: params.len(),
            span: pos[params.len() as int].0,
        }
    } else if !names_ok(reg, params, named) {
        let j = first_bad_named(reg, params, named);
        DiagnosticView::UnknownParam {
            node,
            name: named[j].1.value,
            declared: declared_names(reg, params).map_values(|p: (Name, NodeId)| p.0),
            span: named[j].1.span,
        }
    } else {
        let b = bound_pairs(all_pairs(reg, params, pos, named));
        DiagnosticView::InvalidParamNode { node: b[first_bad_kind(reg, b)].0 }
    }
}

/// Everything a successful resolution guarantees about the context: the
/// resolved data is interned (at an existing handle if content-equal data
/// was interned before, at the next handle otherwise), the reverse
/// association is registered, the bound arguments are tagged, and nothing
/// else changed.
pub open spec fn resolution_success(
    pre: Context,
    post: Context,
    node: NodeId,
    params: Seq<NodeId>,
    outer: ParamEnv,
    pos: Seq<PosParam>,
    named: Seq<NamedParam>,
    e: ParamEnv,
) -> bool {
    let reg = pre.registry();
    let b = bound_pairs(all_pairs(reg, params, pos, named));
    &&& interned_at(post.envs(), resolved_data(reg, node, params, outer, pos, named), e)
    &&& pre.envs().len() <= post.envs().len() <= pre.envs().len() + 1
    &&& post.envs().subrange(0, pre.envs().len() as int) == pre.envs()
    &&& (exists|k: int|
        0 <= k < pre.envs().len() && #[trigger] pre.envs()[k] == resolved_data(
            reg,
            node,
            params,
            outer,
            pos,
            named,
        )) ==> post.envs() == pre.envs()
    &&& post.env_nodes() == pre.env_nodes().push((e, node))
    &&& post.hints() == hints_after(pre.hints(), reg, b)
    &&& post.registry() == pre.registry()
    &&& post.ports() == pre.ports()
    &&& post.diags() == pre.diags()
}

/// Everything a failed resolution guarantees about the context: exactly one
/// diagnostic — the first failure — is emitted, and nothing else changed.
/// No environment is interned for a failed attempt.
pub open spec fn resolution_failure(
    pre: Context,
    post: Context,
    node: NodeId,
    params: Seq<NodeId>,
    pos: Seq<PosParam>,
    named: Seq<NamedParam>,
) -> bool {
    &&& post.envs() == pre.envs()
    &&& post.env_nodes() == pre.env_nodes()
    &&& post.hints() == pre.hints()
    &&& post.registry() == pre.registry()
    &&& post.ports() == pre.ports()
    &&& post.diags() == pre.diags().push(
        resolution_diag(pre.registry(), node, params, pos, named),
    )
}

/// The hint map after applying a list of tags in order.
spec fn apply_hints(h0: Map<NodeId, Hint>, hl: Seq<(NodeId, Hint)>) -> Map<NodeId, Hint>
    decreases hl.len(),
{
    if hl.len() == 0 {
        h0
    } else {
        apply_hints(h0, hl.drop_last()).insert(hl.last().0, hl.last().1)
    }
}

/// Splitting a pair list splits its bound pairs.
pub proof fn lemma_bound_pairs_add<P>(a: Seq<(P, Option<NodeId>)>, b: Seq<(P, Option<NodeId>)>)
    ensures
        bound_pairs(a + b) == bound_pairs(a) + bound_pairs(b),
    decreases b.len(),
{
    if b.len() == 0 {
        assert(a + b =~= a);
        assert(bound_pairs(b) =~= Seq::<(P, NodeId)>::empty());
        assert(bound_pairs(a) + bound_pairs(b) =~= bound_pairs(a));
    } else {
        lemma_bound_pairs_add(a, b.drop_last());
        assert((a + b).drop_last() =~= a + b.drop_last());
        assert((a + b).last() == b.last());
        match b.last().1 {
            Some(x) => {
                assert(bound_pairs(a) + bound_pairs(b) =~= (bound_pairs(a) + bound_pairs(
                    b.drop_last(),
                )).push((b.last().0, x)));
            },
            None => {},
        }
    }
}

/// The first unmatched named assignment determines the failure index.
pub proof fn lemma_first_bad_named(
    reg: Map<NodeId, AstNode>,
    params: Seq<NodeId>,
    named: Seq<NamedParam>,
    j: int,
)
    requires
        0 <= j < named.len(),
        named_target(reg, params, named[j].1.value) is None,
        forall|k: int|
            0 <= k < j ==> named_target(reg, params, (#[trigger] named[k]).1.value) is Some,
    ensures
        first_bad_named(reg, params, named) == j,
        !names_ok(reg, params, named),
    decreases j,
{
    if j == 0 {
    } else {
        assert(named_target(reg, params, named[0].1.value) is Some);
        let t = named.drop_first();
        assert forall|k: int|
            0 <= k < j - 1 implies named_target(reg, params, (#[trigger] t[k]).1.value) is Some by {
            assert(t[k] == named[k + 1]);
        }
        assert(t[j - 1] == named[j]);
        lemma_first_bad_named(reg, params, t, j - 1);
    }
}

/// The first invalidly-classified bound parameter determines the failure
/// index.
pub proof fn lemma_first_bad_kind(reg: Map<NodeId, AstNode>, b: Seq<(NodeId, NodeId)>, i: int)
    requires
        0 <= i < b.len(),
        !is_param_node(reg, b[i].0),
        forall|k: int| 0 <= k < i ==> is_param_node(reg, (#[trigger] b[k]).0),
    ensures
        first_bad_kind(reg, b) == i,
        !kinds_ok(reg, b),
    decreases i,
{
    if i == 0 {
    } else {
        assert(is_param_node(reg, b[0].0));
        let t = b.drop_first();
        assert forall|k: int| 0 <= k < i - 1 implies is_param_node(reg, (#[trigger] t[k]).0) by {
            assert(t[k] == b[k + 1]);
        }
        assert(t[i - 1] == b[i]);
        lemma_first_bad_kind(reg, t, i - 1);
    }
}

/// Every produced value binding is indirect and qualified by the outer
/// environment.
pub proof fn lemma_value_bindings_shape(
    reg: Map<NodeId, AstNode>,
    b: Seq<(NodeId, NodeId)>,
    outer: ParamEnv,
)
    ensures
        forall|i: int|
            0 <= i < value_bindings(reg, b, outer).len() ==> match (#[trigger] value_bindings(
                reg,
                b,
                outer,
            )[i]).1 {
                ParamEnvBinding::Indirect(ne) => ne.1 == outer,
                ParamEnvBinding::Direct(_) => false,
            },
    decreases b.len(),
{
    if b.len() == 0 {
    } else {
        lemma_value_bindings_shape(reg, b.drop_last(), outer);
        let vb0 = value_bindings(reg, b.drop_last(), outer);
        let vb = value_bindings(reg, b, outer);
        assert forall|i: int|
            0 <= i < vb.len() implies match (#[trigger] vb[i]).1 {
            ParamEnvBinding::Indirect(ne) => ne.1 == outer,
            ParamEnvBinding::Direct(_) => false,
        } by {
            if i < vb0.len() {
                assert(vb[i] == vb0[i]);
            }
        }
    }
}

/// Every produced type binding is indirect and qualified by the outer
/// environment.
pub proof fn lemma_type_bindings_shape(
    reg: Map<NodeId, AstNode>,
    b: Seq<(NodeId, NodeId)>,
    outer: ParamEnv,
)
    ensures
        forall|i: int|
            0 <= i < type_bindings(reg, b, outer).len() ==> match (#[trigger] type_bindings(
                reg,
                b,
                outer,
            )[i]).1 {
                ParamEnvBinding::Indirect(ne) => ne.1 == outer,
                ParamEnvBinding::Direct(_) => false,
            },
    decreases b.len(),
{
    if b.len() == 0 {
    } else {
        lemma_type_bindings_shape(reg, b.drop_last(), outer);
        let tb0 = type_bindings(reg, b.drop_last(), outer);
        let tb = type_bindings(reg, b, outer);
        assert forall|i: int|
            0 <= i < tb.len() implies match (#[trigger] tb[i]).1 {
            ParamEnvBinding::Indirect(ne) => ne.1 == outer,
            ParamEnvBinding::Direct(_) => false,
        } by {
            if i < tb0.len() {
                assert(tb[i] == tb0[i]);
            }
        }
    }
}

/// Resolving the same instantiation site twice yields the same interned
/// handle — identity, not merely content equality.
///
/// If one successful resolution of (node, declared parameters, outer
/// environment, argument lists) took the context from `cx0` to `cx1`
/// producing handle `e1`, and a later successful resolution of the same site
/// took `cx1` to `cx2` producing `e2`, then `e1 == e2`: both resolutions
/// intern the same resolved data (the registry never changes), and the
/// handle of interned content is the first store index holding it, which
/// never moves as the store grows.
pub proof fn lemma_resolution_deterministic(
    cx0: Context,
    cx1: Context,
    cx2: Context,
    node: NodeId,
    params: Seq<NodeId>,
    outer: ParamEnv,
    pos: Seq<PosParam>,
    named: Seq<NamedParam>,
    e1: ParamEnv,
    e2: ParamEnv,
)
    requires
        resolution_success(cx0, cx1, node, params, outer, pos, named, e1),
        resolution_success(cx1, cx2, node, params, outer, pos, named, e2),
    ensures
        e1 == e2,
{
    let d = resolved_data(cx0.registry(), node, params, outer, pos, named);
    assert(cx1.registry() == cx0.registry());
    crate::context::lemma_interning_deterministic(cx1.envs(), cx2.envs(), d, e1, e2);
}

/// A pair list that never binds `key` produces no bound pair for `key`.
pub proof fn lemma_bound_pairs_key_absent<P>(pairs: Seq<(P, Option<NodeId>)>, key: P)
    requires
        forall|j: int|
            0 <= j < pairs.len() ==> ((#[trigger] pairs[j]).0 != key || pairs[j].1 is None),
    ensures
        forall|j: int|
            0 <= j < bound_pairs(pairs).len() ==> (#[trigger] bound_pairs(pairs)[j]).0 != key,
    decreases pairs.len(),
{
    if pairs.len() == 0 {
    } else {
        let p0 = pairs.drop_last();
        assert(forall|j: int| 0 <= j < p0.len() ==> p0[j] == pairs[j]);
        lemma_bound_pairs_key_absent(p0, key);
        let b0 = bound_pairs(p0);
        let b = bound_pairs(pairs);
        assert forall|j: int| 0 <= j < b.len() implies (#[trigger] b[j]).0 != key by {
            if j < b0.len() {
                assert(b[j] == b0[j]);
            }
        }
    }
}

/// Bound pairs that never bind `id` produce no value binding for `id`.
pub proof fn lemma_value_bindings_absent(
    reg: Map<NodeId, AstNode>,
    b: Seq<(NodeId, NodeId)>,
    outer: ParamEnv,
    id: NodeId,
)
    requires
        forall|j: int| 0 <= j < b.len() ==> (#[trigger] b[j]).0 != id,
    ensures
        find_first(value_bindings(reg, b, outer), id) is None,
    decreases b.len(),
{
    if b.len() == 0 {
    } else {
        let b0 = b.drop_last();
        assert(forall|j: int| 0 <= j < b0.len() ==> b0[j] == b[j]);
        lemma_value_bindings_absent(reg, b0, outer, id);
        if is_value_param(reg, b.last().0) {
            crate::assoc::lemma_find_first_push(
                value_bindings(reg, b0, outer),
                (b.last().0, ParamEnvBinding::Indirect(NodeEnvId(b.last().1, outer))),
                id,
            );
        }
    }
}

/// Bound pairs that never bind `id` produce no type binding for `id`.
pub proof fn lemma_type_bindings_absent(
    reg: Map<NodeId, AstNode>,
    b: Seq<(NodeId, NodeId)>,
    outer: ParamEnv,
    id: NodeId,
)
    requires
        forall|j: int| 0 <= j < b.len() ==> (#[trigger] b[j]).0 != id,
    ensures
        find_first(type_bindings(reg, b, outer), id) is None,
    decreases b.len(),
{
    if b.len() == 0 {
    } else {
        let b0 = b.drop_last();
        assert(forall|j: int| 0 <= j < b0.len() ==> b0[j] == b[j]);
        lemma_type_bindings_absent(reg, b0, outer, id);
        if is_type_param(reg, b.last().0) {
            crate::assoc::lemma_find_first_push(
                type_bindings(reg, b0, outer),
                (b.last().0, ParamEnvBinding::Indirect(NodeEnvId(b.last().1, outer))),
                id,
            );
        }
    }
}

/// Splitting a bound-pair list splits its value bindings.
pub proof fn lemma_value_bindings_add(
    reg: Map<NodeId, AstNode>,
    a: Seq<(NodeId, NodeId)>,
    b: Seq<(NodeId, NodeId)>,
    outer: ParamEnv,
)
    ensures
        value_bindings(reg, a + b, outer) == value_bindings(reg, a, outer) + value_bindings(
            reg,
            b,
            outer,
        ),
    decreases b.len(),
{
    if b.len() == 0 {
        assert(a + b =~= a);
        assert(value_bindings(reg, b, outer) =~= Seq::<(NodeId, ParamEnvBinding<Value>)>::empty());
        assert(value_bindings(reg, a, outer) + value_bindings(reg, b, outer) =~= value_bindings(
            reg,
            a,
            outer,
        ));
    } else {
        lemma_value_bindings_add(reg, a, b.drop_last(), outer);
        assert((a + b).drop_last() =~= a + b.drop_last());
        assert((a + b).last() == b.last());
        if is_value_param(reg, b.last().0) {
            assert(value_bindings(reg, a, outer) + value_bindings(reg, b, outer)
                =~= (value_bindings(reg, a, outer) + value_bindings(reg, b.drop_last(), outer)).push(
                (b.last().0, ParamEnvBinding::Indirect(NodeEnvId(b.last().1, outer))),
            ));
        }
    }
}

/// Splitting a bound-pair list splits its type bindings.
pub proof fn lemma_type_bindings_add(
    reg: Map<NodeId, AstNode>,
    a: Seq<(NodeId, NodeId)>,
    b: Seq<(NodeId, NodeId)>,
    outer: ParamEnv,
)
    ensures
        type_bindings(reg, a + b, outer) == type_bindings(reg, a, outer) + type_bindings(
            reg,
            b,
            outer,
        ),
    decreases b.len(),
{
    if b.len() == 0 {
        assert(a + b =~= a);
        assert(type_bindings(reg, b, outer) =~= Seq::<
            (NodeId, ParamEnvBinding<UnpackedType>),
        >::empty());
        assert(type_bindings(reg, a, outer) + type_bindings(reg, b, outer) =~= type_bindings(
            reg,
            a,
            outer,
        ));
    } else {
        lemma_type_bindings_add(reg, a, b.drop_last(), outer);
        assert((a + b).drop_last() =~= a + b.drop_last());
        assert((a + b).last() == b.last());
        if is_type_param(reg, b.last().0) {
            assert(type_bindings(reg, a, outer) + type_bindings(reg, b, outer)
                =~= (type_bindings(reg, a, outer) + type_bindings(reg, b.drop_last(), outer)).push(
                (b.last().0, ParamEnvBinding::Indirect(NodeEnvId(b.last().1, outer))),
            ));
        }
    }
}

/// The value bindings of the positional pass answer a lookup of the i-th
/// declared parameter with the i-th argument.
proof fn lemma_pos_values_find(
    reg: Map<NodeId, AstNode>,
    params: Seq<NodeId>,
    outer: ParamEnv,
    pos: Seq<PosParam>,
    i: int,
    a: NodeId,
)
    requires
        params.no_duplicates(),
        pos.len() <= params.len(),
        0 <= i < pos.len(),
        pos[i].1 == Some(a),
        is_value_param(reg, params[i]),
    ensures
        find_first(value_bindings(reg, bound_pairs(pos_pairs(params, pos)), outer), params[i])
            == Some(ParamEnvBinding::<Value>::Indirect(NodeEnvId(a, outer))),
    decreases pos.len(),
{
    let pp = pos_pairs(params, pos);
    let pp0 = pos_pairs(params, pos.drop_last());
    assert(pp.drop_last() =~= pp0);
    let n = pos.len() - 1;
    let b0 = bound_pairs(pp0);
    let vb0 = value_bindings(reg, b0, outer);
    if i == n {
        assert(pp.last() == (params[i], Some(a)));
        assert(bound_pairs(pp) == b0.push((params[i], a)));
        assert(bound_pairs(pp).drop_last() =~= b0);
        assert(bound_pairs(pp).last() == (params[i], a));
        let entry = (params[i], ParamEnvBinding::Indirect(NodeEnvId(a, outer)));
        assert(value_bindings(reg, bound_pairs(pp), outer) == vb0.push(entry));
        assert forall|j: int| 0 <= j < pp0.len() implies ((#[trigger] pp0[j]).0 != params[i]
            || pp0[j].1 is None) by {
            assert(pp0[j].0 == params[j]);
        }
        lemma_bound_pairs_key_absent(pp0, params[i]);
        lemma_value_bindings_absent(reg, b0, outer, params[i]);
        crate::assoc::lemma_find_first_push(vb0, entry, params[i]);
    } else {
        assert(pos.drop_last()[i] == pos[i]);
        lemma_pos_values_find(reg, params, outer, pos.drop_last(), i, a);
        match pp.last().1 {
            Some(an) => {
                assert(bound_pairs(pp) == b0.push((params[n], an)));
                assert(bound_pairs(pp).drop_last() =~= b0);
                if is_value_param(reg, params[n]) {
                    let entry = (params[n], ParamEnvBinding::Indirect(NodeEnvId(an, outer)));
                    assert(value_bindings(reg, bound_pairs(pp), outer) == vb0.push(entry));
                    crate::assoc::lemma_find_first_push(vb0, entry, params[i]);
                } else {
                    assert(value_bindings(reg, bound_pairs(pp), outer) == vb0);
                }
            },
            None => {
                assert(bound_pairs(pp) == b0);
            },
        }
    }
}

/// The type bindings of the positional pass answer a lookup of the i-th
/// declared parameter with the i-th argument.
proof fn lemma_pos_types_find(
    reg: Map<NodeId, AstNode>,
    params: Seq<NodeId>,
    outer: ParamEnv,
    pos: Seq<PosParam>,
    i: int,
    a: NodeId,
)
    requires
        params.no_duplicates(),
        pos.len() <= params.len(),
        0 <= i < pos.len(),
        pos[i].1 == Some(a),
        is_type_param(reg, params[i]),
    ensures
        find_first(type_bindings(reg, bound_pairs(pos_pairs(params, pos)), outer), params[i])
            == Some(ParamEnvBinding::<UnpackedType>::Indirect(NodeEnvId(a, outer))),
    decreases pos.len(),
{
    let pp = pos_pairs(params, pos);
    let pp0 = pos_pairs(params, pos.drop_last());
    assert(pp.drop_last() =~= pp0);
    let n = pos.len() - 1;
    let b0 = bound_pairs(pp0);
    let tb0 = type_bindings(reg, b0, outer);
    if i == n {
        assert(pp.last() == (params[i], Some(a)));
        assert(bound_pairs(pp) == b0.push((params[i], a)));
        assert(bound_pairs(pp).drop_last() =~= b0);
        let entry = (params[i], ParamEnvBinding::Indirect(NodeEnvId(a, outer)));
        assert(type_bindings(reg, bound_pairs(pp), outer) == tb0.push(entry));
        assert forall|j: int| 0 <= j < pp0.len() implies ((#[trigger] pp0[j]).0 != params[i]
            || pp0[j].1 is None) by {
            assert(pp0[j].0 == params[j]);
        }
        lemma_bound_pairs_key_absent(pp0, params[i]);
        lemma_type_bindings_absent(reg, b0, outer, params[i]);
        crate::assoc::lemma_find_first_push(tb0, entry, params[i]);
    } else {
        assert(pos.drop_last()[i] == pos[i]);
        lemma_pos_types_find(reg, params, outer, pos.drop_last(), i, a);
        match pp.last().1 {
            Some(an) => {
                assert(bound_pairs(pp) == b0.push((params[n], an)));
                assert(bound_pairs(pp).drop_last() =~= b0);
                if is_type_param(reg, params[n]) {
                    let entry = (params[n], ParamEnvBinding::Indirect(NodeEnvId(an, outer)));
                    assert(type_bindings(reg, bound_pairs(pp), outer) == tb0.push(entry));
                    crate::assoc::lemma_find_first_push(tb0, entry, params[i]);
                } else {
                    assert(type_bindings(reg, bound_pairs(pp), outer) == tb0);
                }
            },
            None => {
                assert(bound_pairs(pp) == b0);
            },
        }
    }
}

/// Positional bindings occupy the declared parameters in declaration order,
/// and a positional binding takes precedence over any later named binding of
/// the same parameter: looking the parameter up returns the first-inserted
/// binding, and positional bindings are inserted first.
///
/// For any instantiation whose i-th positional argument supplies node `a`,
/// the resolved environment answers a lookup of the i-th declared parameter
/// with `a` qualified by the outer environment — whatever the named
/// assignments are.
pub proof fn lemma_positional_precedence(
    reg: Map<NodeId, AstNode>,
    node: NodeId,
    params: Seq<NodeId>,
    outer: ParamEnv,
    pos: Seq<PosParam>,
    named: Seq<NamedParam>,
    i: int,
    a: NodeId,
)
    requires
        params.no_duplicates(),
        pos.len() <= params.len(),
        0 <= i < pos.len(),
        pos[i].1 == Some(a),
    ensures
        is_value_param(reg, params[i]) ==> find_first(
            resolved_data(reg, node, params, outer, pos, named).values,
            params[i],
        ) == Some(ParamEnvBinding::<Value>::Indirect(NodeEnvId(a, outer))),
        is_type_param(reg, params[i]) ==> find_first(
            resolved_data(reg, node, params, outer, pos, named).types,
            params[i],
        ) == Some(ParamEnvBinding::<UnpackedType>::Indirect(NodeEnvId(a, outer))),
{
    let pp = pos_pairs(params, pos);
    let np = named_pairs(reg, params, named);
    lemma_bound_pairs_add(pp, np);
    let bp = bound_pairs(pp);
    let bn = bound_pairs(np);
    lemma_value_bindings_add(reg, bp, bn, outer);
    lemma_type_bindings_add(reg, bp, bn, outer);
    if is_value_param(reg, params[i]) {
        lemma_pos_values_find(reg, params, outer, pos, i, a);
        crate::assoc::lemma_find_first_add(
            value_bindings(reg, bp, outer),
            value_bindings(reg, bn, outer),
            params[i],
        );
    }
    if is_type_param(reg, params[i]) {
        lemma_pos_types_find(reg, params, outer, pos, i, a);
        crate::assoc::lemma_find_first_add(
            type_bindings(reg, bp, outer),
            type_bindings(reg, bn, outer),
            params[i],
        );
    }
}

/// Positional binding: in an instantiation with only positional arguments,
/// and at most as many as declared parameters, the i-th supplied argument
/// binds to the i-th declared parameter, for every i.
pub proof fn lemma_positional_binding(
    reg: Map<NodeId, AstNode>,
    node: NodeId,
    params: Seq<NodeId>,
    outer: ParamEnv,
    pos: Seq<PosParam>,
    i: int,
    a: NodeId,
)
    requires
        params.no_duplicates(),
        pos.len() <= params.len(),
        0 <= i < pos.len(),
        pos[i].1 == Some(a),
    ensures
        is_value_param(reg, params[i]) ==> find_first(
            resolved_data(reg, node, params, outer, pos, Seq::empty()).values,
            params[i],
        ) == Some(ParamEnvBinding::<Value>::Indirect(NodeEnvId(a, outer))),
        is_type_param(reg, params[i]) ==> find_first(
            resolved_data(reg, node, params, outer, pos, Seq::empty()).types,
            params[i],
        ) == Some(ParamEnvBinding::<UnpackedType>::Indirect(NodeEnvId(a, outer))),
{
    lemma_positional_precedence(reg, node, params, outer, pos, Seq::empty(), i, a);
}

/// A declared parameter with no supplied argument receives no binding at
/// all: in an instantiation with only positional arguments, a parameter
/// whose position carries no argument — or lies beyond the supplied
/// arguments — is absent from both binding lists, leaving default
/// resolution to the downstream value and type queries.
pub proof fn lemma_unsupplied_unbound(
    reg: Map<NodeId, AstNode>,
    node: NodeId,
    params: Seq<NodeId>,
    outer: ParamEnv,
    pos: Seq<PosParam>,
    i: int,
)
    requires
        params.no_duplicates(),
        pos.len() <= params.len(),
        0 <= i < params.len(),
        i < pos.len() ==> pos[i].1 is None,
    ensures
        find_first(
            resolved_data(reg, node, params, outer, pos, Seq::empty()).values,
            params[i],
        ) is None,
        find_first(
            resolved_data(reg, node, params, outer, pos, Seq::empty()).types,
            params[i],
        ) is None,
{
    let pp = pos_pairs(params, pos);
    let np = named_pairs(reg, params, Seq::empty());
    assert(np =~= Seq::<(NodeId, Option<NodeId>)>::empty());
    assert(pp + np =~= pp);
    assert forall|j: int| 0 <= j < pp.len() implies ((#[trigger] pp[j]).0 != params[i] || pp[j].1
        is None) by {
        assert(pp[j].0 == params[j]);
    }
    lemma_bound_pairs_key_absent(pp, params[i]);
    lemma_value_bindings_absent(reg, bound_pairs(pp), outer, params[i]);
    lemma_type_bindings_absent(reg, bound_pairs(pp), outer, params[i]);
}

/// First-match search of a declared-name table.
fn lookup_declared(names: &Vec<(Name, NodeId)>, name: Name) -> (r: Option<NodeId>)
    ensures
        r == find_first(names@, name),
{
    let ghost s = names@;
    proof {
        assert(s.subrange(0, s.len() as int) =~= s);
    }
    let mut i: usize = 0;
    while i < names.len()
        invariant
            s == names@,
            i <= s.len(),
            find_first(s.subrange(i as int, s.len() as int), name) == find_first(s, name),
        decreases s.len() - i,
    {
        let ghost tail = s.subrange(i as int, s.len() as int);
        proof {
            assert(tail[0] == s[i as int]);
            assert(tail.drop_first() =~= s.subrange(i + 1, s.len() as int));
        }
        if names[i].0 == name {
            return Some(names[i].1);
        }
        i = i + 1;
    }
    proof {
        assert(s.subrange(i as int, s.len() as int) =~= Seq::<(Name, NodeId)>::empty());
    }
    None
}

/// Resolve the parameter environment of one instantiation site from the
/// instantiated node, its flattened declared-parameter list, the outer
/// environment, and the raw argument lists.
///
/// On success the resolved bindings are interned and the handle returned;
/// on failure exactly one diagnostic — the first problem found — is emitted
/// and nothing is interned.
pub fn param_env_from_instance(
    cx: &mut Context,
    node: NodeId,
    params: &Vec<NodeId>,
    env: ParamEnv,
    pos: &Vec<PosParam>,
    named: &Vec<NamedParam>,
) -> (r: Result<ParamEnv, ()>)
    requires
        old(cx).wf(),
        (env.0 as nat) < old(cx).envs().len(),
        old(cx).envs().len() < u32::MAX as nat,
    ensures
        final(cx).wf(),
        r is Ok <==> resolution_ok(old(cx).registry(), params@, pos@, named@),
        r matches Ok(e) ==> resolution_success(
            *old(cx),
            *final(cx),
            node,
            params@,
            env,
            pos@,
            named@,
            e,
        ),
        r is Err ==> resolution_failure(*old(cx), *final(cx), node, params@, pos@, named@),
{
    let ghost reg = cx.registry();

    // Positional pass: the i-th positional assignment binds to the i-th
    // declared parameter; a positional assignment beyond the declared count
    // aborts the site with an arity diagnostic.
    if pos.len() > params.len() {
        let span = pos[params.len()].0;
        cx.emit(Diagnostic::ParamArity { node, declared: params.len(), span });
        proof {
            assert(cx.diags() =~= old(cx).diags().push(
                resolution_diag(reg, node, params@, pos@, named@),
            ));
        }
        return Err(());
    }
    // Build the named view of the declared parameters; type and value
    // parameters share one namespace.
    let mut names: Vec<(Name, NodeId)> = Vec::new();
    proof {
        assert(params@.subrange(0, 0) =~= Seq::<NodeId>::empty());
    }
    let mut i: usize = 0;
    while i < params.len()
        invariant
            *cx == *old(cx),
            cx.wf(),
            reg == cx.registry(),
            i <= params@.len(),
            names@ == declared_names(reg, params@.subrange(0, i as int)),
        decreases params@.len() - i,
    {
        let ghost head = params@.subrange(0, i + 1);
        proof {
            assert(head.drop_last() =~= params@.subrange(0, i as int));
            assert(head.last() == params@[i as int]);
        }
        match cx.ast_of(params[i]) {
            Ok(AstNode::TypeParam(_, d)) => names.push((d.name.value, params[i])),
            Ok(AstNode::ValueParam(_, d)) => names.push((d.name.value, params[i])),
            _ => {},
        }
        i = i + 1;
    }
    proof {
        assert(params@.subrange(0, params@.len() as int) =~= params@);
    }
    // Associate the positional assignments with the declared parameters.
    let mut pairs: Vec<(NodeId, Option<NodeId>)> = Vec::new();
    let mut i: usize = 0;
    while i < pos.len()
        invariant
            i <= pos@.len(),
            pos@.len() <= params@.len(),
            pairs@ == pos_pairs(params@, pos@).take(i as int),
        decreases pos@.len() - i,
    {
        pairs.push((params[i], pos[i].1));
        proof {
            assert(pairs@ =~= pos_pairs(params@, pos@).take(i + 1));
        }
        i = i + 1;
    }
    proof {
        assert(pos_pairs(params@, pos@).take(pos@.len() as int) =~= pos_pairs(params@, pos@));
        assert(all_pairs(reg, params@, pos@, named@).take(pos@.len() as int) =~= pos_pairs(
            params@,
            pos@,
        ));
    }
    // Named pass: each named assignment targets the first declared parameter
    // carrying its name; an unmatched name aborts the site, listing every
    // declared name as a remediation hint.
    let mut j: usize = 0;
    while j < named.len()
        invariant
            *cx == *old(cx),
            cx.wf(),
            reg == cx.registry(),
            j <= named@.len(),
            pos@.len() <= params@.len(),
            names@ == declared_names(reg, params@),
            pairs@ == all_pairs(reg, params@, pos@, named@).take((pos@.len() + j) as int),
            forall|k: int|
                0 <= k < j ==> named_target(reg, params@, (#[trigger] named@[k]).1.value) is Some,
        decreases named@.len() - j,
    {
        let nm = named[j].1;
        match lookup_declared(&names, nm.value) {
            Some(pid) => {
                pairs.push((pid, named[j].2));
                proof {
                    assert(pairs@ =~= all_pairs(reg, params@, pos@, named@).take(
                        pos@.len() + j + 1,
                    ));
                }
            },
            None => {
                let mut decl: Vec<Name> = Vec::new();
                let mut m: usize = 0;
                while m < names.len()
                    invariant
                        m <= names@.len(),
                        decl@ == names@.map_values(|p: (Name, NodeId)| p.0).take(m as int),
                    decreases names@.len() - m,
                {
                    decl.push(names[m].0);
                    proof {
                        assert(decl@ =~= names@.map_values(|p: (Name, NodeId)| p.0).take(m + 1));
                    }
                    m = m + 1;
                }
                proof {
                    lemma_first_bad_named(reg, params@, named@, j as int);
                    assert(decl@ =~= declared_names(reg, params@).map_values(
                        |p: (Name, NodeId)| p.0,
                    ));
                }
                cx.emit(
                    Diagnostic::UnknownParam { node, name: nm.value, declared: decl, span: nm.span },
                );
                proof {
                    assert(cx.diags() =~= old(cx).diags().push(
                        resolution_diag(reg, node, params@, pos@, named@),
                    ));
                }
                return Err(());
            },
        }
        j = j + 1;
    }
    proof {
        assert(all_pairs(reg, params@, pos@, named@).take((pos@.len() + named@.len()) as int) =~= all_pairs(
            reg,
            params@,
            pos@,
            named@,
        ));
    }
    // Split pass: a type-kind match records a type binding and tags its
    // argument "treat as type"; a value-kind match records a value binding
    // and tags "treat as expression".  Each binding is indirect: the
    // parameter equals the argument node evaluated in the outer environment.
    let ghost b = bound_pairs(all_pairs(reg, params@, pos@, named@));
    let mut values: Vec<(NodeId, ParamEnvBinding<Value>)> = Vec::new();
    let mut types: Vec<(NodeId, ParamEnvBinding<UnpackedType>)> = Vec::new();
    let mut hint_list: Vec<(NodeId, Hint)> = Vec::new();
    let mut k: usize = 0;
    while k < pairs.len()
        invariant
            *cx == *old(cx),
            cx.wf(),
            reg == cx.registry(),
            k <= pairs@.len(),
            pos@.len() <= params@.len(),
            names_ok(reg, params@, named@),
            pairs@ == all_pairs(reg, params@, pos@, named@),
            kinds_ok(reg, bound_pairs(pairs@.take(k as int))),
            values@ == value_bindings(reg, bound_pairs(pairs@.take(k as int)), env),
            types@ == type_bindings(reg, bound_pairs(pairs@.take(k as int)), env),
            hints_after(old(cx).hints(), reg, bound_pairs(pairs@.take(k as int))) == apply_hints(
                old(cx).hints(),
                hint_list@,
            ),
        decreases pairs@.len() - k,
    {
        let ghost head = pairs@.take(k + 1);
        proof {
            assert(head.drop_last() =~= pairs@.take(k as int));
            assert(head.last() == pairs@[k as int]);
        }
        let (pid, assign) = pairs[k];
        match assign {
            Some(a) => {
                match cx.ast_of(pid) {
                    Ok(AstNode::TypeParam(_, _)) => {
                        let ghost hl0 = hint_list@;
                        types.push((pid, ParamEnvBinding::Indirect(NodeEnvId(a, env))));
                        hint_list.push((a, Hint::Type));
                        proof {
                            assert(hint_list@.drop_last() =~= hl0);
                            let bk = bound_pairs(pairs@.take(k as int));
                            let bk1 = bound_pairs(pairs@.take(k + 1));
                            assert(bk1 == bk.push((pid, a)));
                            assert(bk1.drop_last() =~= bk);
                        }
                    },
                    Ok(AstNode::ValueParam(_, _)) => {
                        let ghost hl0 = hint_list@;
                        values.push((pid, ParamEnvBinding::Indirect(NodeEnvId(a, env))));
                        hint_list.push((a, Hint::Expr));
                        proof {
                            assert(hint_list@.drop_last() =~= hl0);
                            let bk = bound_pairs(pairs@.take(k as int));
                            let bk1 = bound_pairs(pairs@.take(k + 1));
                            assert(bk1 == bk.push((pid, a)));
                            assert(bk1.drop_last() =~= bk);
                        }
                    },
                    _ => {
                        proof {
                            let bb = bound_pairs(all_pairs(reg, params@, pos@, named@));
                            let bk = bound_pairs(pairs@.take(k as int));
                            assert(pairs@ =~= pairs@.take(k + 1) + pairs@.skip(k + 1));
                            lemma_bound_pairs_add(pairs@.take(k + 1), pairs@.skip(k + 1));
                            let lhs = bound_pairs(pairs@.take(k + 1));
                            let rhs = bound_pairs(pairs@.skip(k + 1));
                            assert(lhs == bk.push((pid, a)));
                            assert(bb == lhs + rhs);
                            let i = bk.len() as int;
                            assert((lhs + rhs)[i] == lhs[i]);
                            assert(bb[i] == (pid, a));
                            assert forall|m: int|
                                0 <= m < i implies is_param_node(reg, (#[trigger] bb[m]).0) by {
                                assert((lhs + rhs)[m] == lhs[m]);
                                assert(lhs[m] == bk[m]);
                            }
                            lemma_first_bad_kind(reg, bb, i);
                        }
                        cx.emit(Diagnostic::InvalidParamNode { node: pid });
                        proof {
                            assert(cx.diags() =~= old(cx).diags().push(
                                resolution_diag(reg, node, params@, pos@, named@),
                            ));
                        }
                        return Err(());
                    },
                }
            },
            None => {},
        }
        k = k + 1;
    }
    proof {
        assert(pairs@.take(pairs@.len() as int) =~= pairs@);
    }
    // Tag the matched argument nodes for downstream lowering.
    let mut m: usize = 0;
    proof {
        assert(hint_list@.take(0) =~= Seq::<(NodeId, Hint)>::empty());
    }
    while m < hint_list.len()
        invariant
            m <= hint_list@.len(),
            cx.wf(),
            reg == cx.registry(),
            cx.envs() == old(cx).envs(),
            cx.env_nodes() == old(cx).env_nodes(),
            cx.ports() == old(cx).ports(),
            cx.diags() == old(cx).diags(),
            cx.hints() == apply_hints(old(cx).hints(), hint_list@.take(m as int)),
        decreases hint_list@.len() - m,
    {
        let ghost head = hint_list@.take(m + 1);
        proof {
            assert(head.drop_last() =~= hint_list@.take(m as int));
            assert(head.last() == hint_list@[m as int]);
        }
        cx.set_lowering_hint(hint_list[m].0, hint_list[m].1);
        m = m + 1;
    }
    proof {
        assert(hint_list@.take(hint_list@.len() as int) =~= hint_list@);
    }
    // Intern the finished binding lists and register the reverse
    // association from the instantiated node to the produced environment.
    let data = ParamEnvData { module: Some(node), values, types, intfs: Vec::new() };
    proof {
        assert(data@ =~= resolved_data(reg, node, params@, env, pos@, named@));
        lemma_value_bindings_shape(reg, b, env);
        lemma_type_bindings_shape(reg, b, env);
        assert(data_refs_below(data@, cx.envs().len() as int));
    }
    let e = cx.intern_param_env(data);
    cx.add_param_env_context(e, node);
    Ok(e)
}

/// Compute the parameter environment implied by one instantiation site.
///
/// The declared-parameter list is the concatenation of the node's explicit
/// header parameters and its body-declared parameters, in that order; for an
/// interface the header declarations are flattened into their declarator ids
/// first.
pub fn compute(cx: &mut Context, src: &ParamEnvSource) -> (r: Result<ParamEnv, ()>)
    requires
        old(cx).wf(),
        (src_env(*src).0 as nat) < old(cx).envs().len(),
        old(cx).envs().len() < u32::MAX as nat,
    ensures
        final(cx).wf(),
        r is Ok <==> resolution_ok(
            old(cx).registry(),
            src_params(*src),
            src_pos(*src),
            src_named(*src),
        ),
        r matches Ok(e) ==> resolution_success(
            *old(cx),
            *final(cx),
            src_node(*src),
            src_params(*src),
            src_env(*src),
            src_pos(*src),
            src_named(*src),
            e,
        ),
        r is Err ==> resolution_failure(
            *old(cx),
            *final(cx),
            src_node(*src),
            src_params(*src),
            src_pos(*src),
            src_named(*src),
        ),
{
    match src {
        ParamEnvSource::ModuleInst { module, env, pos, named } => {
            let mut flat: Vec<NodeId> = Vec::new();
            let mut i: usize = 0;
            while i < module.params.len()
                invariant
                    i <= module.params@.len(),
                    flat@ == module.params@.take(i as int),
                decreases module.params@.len() - i,
            {
                flat.push(module.params[i]);
                proof {
                    assert(flat@ =~= module.params@.take(i + 1));
                }
                i = i + 1;
            }
            proof {
                assert(module.params@.take(module.params@.len() as int) =~= module.params@);
            }
            let mut i: usize = 0;
            while i < module.block_params.len()
                invariant
                    i <= module.block_params@.len(),
                    flat@ == module.params@ + module.block_params@.take(i as int),
                decreases module.block_params@.len() - i,
            {
                flat.push(module.block_params[i]);
                proof {
                    assert(flat@ =~= module.params@ + module.block_params@.take(i + 1));
                }
                i = i + 1;
            }
            proof {
                assert(module.block_params@.take(module.block_params@.len() as int)
                    =~= module.block_params@);
                assert(flat@ == src_params(*src));
            }
            param_env_from_instance(cx, module.ast, &flat, *env, pos, named)
        },
        ParamEnvSource::InterfaceInst { interface, env, pos, named } => {
            let mut flat: Vec<NodeId> = Vec::new();
            let mut d: usize = 0;
            proof {
                assert(interface.params@.take(0) =~= Seq::<ParamDecl>::empty());
            }
            while d < interface.params.len()
                invariant
                    d <= interface.params@.len(),
                    flat@ == flatten_param_decls(interface.params@.take(d as int)),
                decreases interface.params@.len() - d,
            {
                let ghost head = interface.params@.take(d + 1);
                proof {
                    assert(head.drop_last() =~= interface.params@.take(d as int));
                    assert(head.last() == interface.params@[d as int]);
                }
                match &interface.params[d].kind {
                    ParamKind::Type(ids) => {
                        let ghost base = flat@;
                        let mut k: usize = 0;
                        while k < ids.len()
                            invariant
                                k <= ids@.len(),
                                flat@ == base + ids@.take(k as int),
                            decreases ids@.len() - k,
                        {
                            flat.push(ids[k]);
                            proof {
                                assert(flat@ =~= base + ids@.take(k + 1));
                            }
                            k = k + 1;
                        }
                        proof {
                            assert(ids@.take(ids@.len() as int) =~= ids@);
                        }
                    },
                    ParamKind::Value(ids) => {
                        let ghost base = flat@;
                        let mut k: usize = 0;
                        while k < ids.len()
                            invariant
                                k <= ids@.len(),
                                flat@ == base + ids@.take(k as int),
                            decreases ids@.len() - k,
                        {
                            flat.push(ids[k]);
                            proof {
                                assert(flat@ =~= base + ids@.take(k + 1));
                            }
                            k = k + 1;
                        }
                        proof {
                            assert(ids@.take(ids@.len() as int) =~= ids@);
                        }
                    },
                }
                d = d + 1;
            }
            proof {
                assert(interface.params@.take(interface.params@.len() as int)
                    =~= interface.params@);
            }
            let ghost hdr = flat@;
            let mut i: usize = 0;
            while i < interface.block_params.len()
                invariant
                    i <= interface.block_params@.len(),
                    flat@ == hdr + interface.block_params@.take(i as int),
                decreases interface.block_params@.len() - i,
            {
                flat.push(interface.block_params[i]);
                proof {
                    assert(flat@ =~= hdr + interface.block_params@.take(i + 1));
                }
                i = i + 1;
            }
            proof {
                assert(interface.block_params@.take(interface.block_params@.len() as int)
                    =~= interface.block_params@);
                assert(flat@ == src_params(*src));
            }
            param_env_from_instance(cx, interface.ast, &flat, *env, pos, named)
        },
    }
}

/// Whether two value-binding entries are equal.
pub(crate) fn value_entry_eq(a: &(NodeId, ParamEnvBinding<Value>), b: &(NodeId, ParamEnvBinding<Value>)) -> (r:
    bool)
    ensures
        r <==> *a == *b,
{
    a.0 == b.0 && match (&a.1, &b.1) {
        (ParamEnvBinding::Direct(v), ParamEnvBinding::Direct(w)) => *v == *w,
        (ParamEnvBinding::Indirect(m), ParamEnvBinding::Indirect(n)) => *m == *n,
        _ => false,
    }
}

/// Whether two type-binding entries are equal.
pub(crate) fn type_entry_eq(
    a: &(NodeId, ParamEnvBinding<UnpackedType>),
    b: &(NodeId, ParamEnvBinding<UnpackedType>),
) -> (r: bool)
    ensures
        r <==> *a == *b,
{
    a.0 == b.0 && match (&a.1, &b.1) {
        (ParamEnvBinding::Direct(v), ParamEnvBinding::Direct(w)) => *v == *w,
        (ParamEnvBinding::Indirect(m), ParamEnvBinding::Indirect(n)) => *m == *n,
        _ => false,
    }
}

/// Whether two environments hold identical content.
pub(crate) fn data_eq(a: &ParamEnvData, b: &ParamEnvData) -> (r: bool)
    ensures
        r <==> a@ == b@,
{
    let module_eq = match (a.module, b.module) {
        (Some(m), Some(n)) => m == n,
        (None, None) => true,
        _ => false,
    };
    if !module_eq {
        return false;
    }
    if a.values.len() != b.values.len() {
        return false;
    }
    if a.types.len() != b.types.len() {
        return false;
    }
    if a.intfs.len() != b.intfs.len() {
        return false;
    }
    let mut i: usize = 0;
    while i < a.values.len()
        invariant
            a@.values.len() == b@.values.len(),
            i <= a@.values.len(),
            forall|k: int| 0 <= k < i ==> a@.values[k] == b@.values[k],
        decreases a@.values.len() - i,
    {
        if !value_entry_eq(&a.values[i], &b.values[i]) {
            return false;
        }
        i = i + 1;
    }
    let mut i: usize = 0;
    while i < a.types.len()
        invariant
            a@.types.len() == b@.types.len(),
            i <= a@.types.len(),
            forall|k: int| 0 <= k < i ==> a@.types[k] == b@.types[k],
        decreases a@.types.len() - i,
    {
        if !type_entry_eq(&a.types[i], &b.types[i]) {
            return false;
        }
        i = i + 1;
    }
    let mut i: usize = 0;
    while i < a.intfs.len()
        invariant
            a@.intfs.len() == b@.intfs.len(),
            i <= a@.intfs.len(),
            forall|k: int| 0 <= k < i ==> a@.intfs[k] == b@.intfs[k],
        decreases a@.intfs.len() - i,
    {
        if !(a.intfs[i].0 == b.intfs[i].0 && a.intfs[i].1 == b.intfs[i].1) {
            return false;
        }
        i = i + 1;
    }
    proof {
        assert(a@.values =~= b@.values);
        assert(a@.types =~= b@.types);
        assert(a@.intfs =~= b@.intfs);
        assert(a@ =~= b@);
    }
    true
}

} // verus!
