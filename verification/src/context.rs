//! The interning and query context that hosts elaboration.
//!
//! The context owns the frozen AST registry, the canonicalizing store of
//! parameter environments, the canonicalized port lists, the lowering hints,
//! and the diagnostic sink.  Interning guarantees that content-equal
//! environment data always maps to the same handle, so handle equality is a
//! valid substitute for deep equality everywhere downstream.

use crate::assoc::{
    find_first, lemma_find_first_map_of, lemma_find_first_some_exists, lemma_map_of_contains,
    map_of, unique_keys,
};
use crate::ast_map::{AstMap, AstNode};
use crate::common::{NodeId, Value};
use crate::diag::{Diagnostic, DiagnosticView};
use crate::hir::Hint;
use crate::param_env::{
    data_eq, data_refs_below, NodeEnvId, ParamEnv, ParamEnvBinding, ParamEnvData, ParamEnvDataView,
};
use crate::port_list::PortList;
use vstd::prelude::*;

verus! {

/// Whether `e` is the handle under which `d` is interned in `envs`: the
/// first index holding content equal to `d`.
pub open spec fn interned_at(envs: Seq<ParamEnvDataView>, d: ParamEnvDataView, e: ParamEnv) -> bool {
    &&& e.0 < envs.len()
    &&& envs[e.0 as int] == d
    &&& forall|k: int| 0 <= k < e.0 ==> envs[k] != d
}

/// Resolving the same instantiation twice yields the same interned handle.
///
/// If one resolution interned its data under handle `e1`, and a later
/// resolution of content-equal data obtained handle `e2` — the environment
/// store having only grown in between — the handles are identical, not
/// merely equal in content: each is the first store index holding that
/// content, and the first index of existing content never moves.
pub proof fn lemma_interning_deterministic(
    envs1: Seq<ParamEnvDataView>,
    envs2: Seq<ParamEnvDataView>,
    d: ParamEnvDataView,
    e1: ParamEnv,
    e2: ParamEnv,
)
    requires
        envs1.len() <= envs2.len(),
        envs2.subrange(0, envs1.len() as int) == envs1,
        interned_at(envs1, d, e1),
        interned_at(envs2, d, e2),
    ensures
        e1 == e2,
{
    assert(envs2[e1.0 as int] == envs1[e1.0 as int]);
    if e2.0 < e1.0 {
        assert(envs2[e2.0 as int] == envs1[e2.0 as int]);
        assert(false);
    }
    if e1.0 < e2.0 {
        assert(false);
    }
}

/// The outcome of following a chain of value bindings.
pub enum ChaseOutcome {
    /// The chain ended at a directly assigned value.
    Resolved(Value),
    /// The chain ended at a node with no binding in its environment; the
    /// node's declared default answers there.
    Default(NodeEnvId),
}

/// Follow value bindings from `ne` for at most `fuel` steps: a direct
/// binding resolves, an absent binding falls back to the node's declared
/// default, and an indirect binding is followed.  `None` means the fuel ran
/// out or an environment handle was invalid.
pub open spec fn chase_value(envs: Seq<ParamEnvDataView>, ne: NodeEnvId, fuel: nat) -> Option<
    ChaseOutcome,
>
    decreases fuel,
{
    if fuel == 0 {
        None
    } else if (ne.1).0 >= envs.len() {
        None
    } else {
        match find_first(envs[(ne.1).0 as int].values, ne.0) {
            Some(ParamEnvBinding::Direct(v)) => Some(ChaseOutcome::Resolved(v)),
            Some(ParamEnvBinding::Indirect(next)) => chase_value(envs, next, (fuel - 1) as nat),
            None => Some(ChaseOutcome::Default(ne)),
        }
    }
}

/// A resolved chase is stable under more fuel.
pub proof fn lemma_chase_value_fuel(
    envs: Seq<ParamEnvDataView>,
    ne: NodeEnvId,
    fuel1: nat,
    fuel2: nat,
)
    requires
        chase_value(envs, ne, fuel1) is Some,
        fuel1 <= fuel2,
    ensures
        chase_value(envs, ne, fuel2) == chase_value(envs, ne, fuel1),
    decreases fuel1,
{
    match find_first(envs[(ne.1).0 as int].values, ne.0) {
        Some(ParamEnvBinding::Indirect(next)) => {
            lemma_chase_value_fuel(envs, next, (fuel1 - 1) as nat, (fuel2 - 1) as nat);
        },
        _ => {},
    }
}

/// Following indirect value bindings always terminates.
///
/// In a store where every environment references only environments interned
/// before it — which the context invariant maintains — the chain from any
/// valid (node, environment) pair reaches a direct value or an unbound node
/// within `e + 1` steps, where `e` is the environment's handle index.  That
/// index is bounded by the number of instantiations performed, and on any
/// one path by the instantiation nesting depth that produced the
/// environment.
pub proof fn lemma_indirection_terminates(envs: Seq<ParamEnvDataView>, ne: NodeEnvId)
    requires
        forall|k: int| 0 <= k < envs.len() ==> data_refs_below(#[trigger] envs[k], k),
        ((ne.1).0 as nat) < envs.len(),
    ensures
        chase_value(envs, ne, ((ne.1).0 + 1) as nat) is Some,
    decreases (ne.1).0,
{
    let e = (ne.1).0 as int;
    let entries = envs[e].values;
    match find_first(entries, ne.0) {
        Some(b) => match b {
            ParamEnvBinding::Direct(_) => {},
            ParamEnvBinding::Indirect(next) => {
                lemma_find_first_some_exists(entries, ne.0);
                let i = choose|i: int|
                    0 <= i < entries.len() && #[trigger] entries[i].0 == ne.0 && find_first(
                        entries,
                        ne.0,
                    ) == Some(entries[i].1);
                assert(data_refs_below(envs[e], e));
                assert((next.1).0 < e);
                lemma_indirection_terminates(envs, next);
                lemma_chase_value_fuel(
                    envs,
                    next,
                    ((next.1).0 + 1) as nat,
                    (ne.1).0 as nat,
                );
            },
        },
        None => {},
    }
}

/// The elaboration context.
pub struct Context {
    ast: AstMap,
    envs: Vec<ParamEnvData>,
    env_nodes: Vec<(ParamEnv, NodeId)>,
    hints: Vec<(NodeId, Hint)>,
    port_lists: Vec<(NodeId, PortList)>,
    diags: Vec<Diagnostic>,
}

impl Context {
    /// The frozen AST registry.
    pub closed spec fn registry(self) -> Map<NodeId, AstNode> {
        self.ast@
    }

    /// The interned parameter environments; a handle is an index here.
    pub closed spec fn envs(self) -> Seq<ParamEnvDataView> {
        self.envs@.map_values(|d: ParamEnvData| d@)
    }

    /// The registered "this environment resulted from instantiating this
    /// node" associations, in registration order.
    pub closed spec fn env_nodes(self) -> Seq<(ParamEnv, NodeId)> {
        self.env_nodes@
    }

    /// The lowering hints set so far.
    pub closed spec fn hints(self) -> Map<NodeId, Hint> {
        map_of(self.hints@)
    }

    /// The canonicalized port lists registered so far.
    pub closed spec fn ports(self) -> Map<NodeId, PortList> {
        map_of(self.port_lists@)
    }

    /// The diagnostics emitted so far, in emission order.
    pub closed spec fn diags(self) -> Seq<DiagnosticView> {
        self.diags@.map_values(|d: Diagnostic| d@)
    }

    /// The context invariant.
    ///
    /// The environment store holds pairwise content-distinct entries (the
    /// interning invariant), and every entry only references environments
    /// interned before it (which bounds indirection chains).  Port lists are
    /// registered at most once per node and are internally consistent.
    pub closed spec fn wf(self) -> bool {
        &&& self.ast.wf()
        &&& forall|i: int, j: int|
            0 <= i < j < self.envs().len() ==> #[trigger] self.envs()[i] != #[trigger] self.envs()[j]
        &&& forall|k: int| 0 <= k < self.envs().len() ==> data_refs_below(#[trigger] self.envs()[k], k)
        &&& unique_keys(self.port_lists@)
        &&& forall|k: int| 0 <= k < self.port_lists@.len() ==> (#[trigger] self.port_lists@[k]).1.wf()
    }

    /// Create a context over a fully constructed AST registry.
    pub fn new(ast: AstMap) -> (r: Context)
        requires
            ast.wf(),
        ensures
            r.wf(),
            r.registry() == ast@,
            r.envs() == Seq::<ParamEnvDataView>::empty(),
            r.env_nodes() == Seq::<(ParamEnv, NodeId)>::empty(),
            r.hints() == Map::<NodeId, Hint>::empty(),
            r.ports() == Map::<NodeId, PortList>::empty(),
            r.diags() == Seq::<DiagnosticView>::empty(),
    {
        let r = Context {
            ast,
            envs: Vec::new(),
            env_nodes: Vec::new(),
            hints: Vec::new(),
            port_lists: Vec::new(),
            diags: Vec::new(),
        };
        proof {
            assert(r.envs() =~= Seq::<ParamEnvDataView>::empty());
            assert(r.diags() =~= Seq::<DiagnosticView>::empty());
        }
        r
    }

    /// Resolve a node id to its AST fact; failure propagates as resolution
    /// failure of the querying site.
    pub fn ast_of(&self, id: NodeId) -> (r: Result<&AstNode, ()>)
        requires
            self.wf(),
        ensures
            match r {
                Ok(n) => self.registry().contains_key(id) && *n == self.registry()[id],
                Err(_) => !self.registry().contains_key(id),
            },
    {
        match self.ast.get(id) {
            Some(n) => Ok(n),
            None => Err(()),
        }
    }

    /// Search the store for content equal to `data`.
    fn find_env(&self, data: &ParamEnvData) -> (r: Option<usize>)
        ensures
            match r {
                Some(i) => i < self.envs().len() && self.envs()[i as int] == data@
                    && forall|k: int| 0 <= k < i ==> self.envs()[k] != data@,
                None => forall|k: int| 0 <= k < self.envs().len() ==> self.envs()[k] != data@,
            },
    {
        let mut i: usize = 0;
        while i < self.envs.len()
            invariant
                i <= self.envs@.len(),
                forall|k: int| 0 <= k < i ==> self.envs()[k] != data@,
            decreases self.envs@.len() - i,
        {
            if data_eq(&self.envs[i], data) {
                return Some(i);
            }
            i = i + 1;
        }
        None
    }

    /// Canonicalize `data` and obtain its stable handle.
    ///
    /// Content-equal data always yields the same handle: the handle of the
    /// first stored copy.  The store only ever grows, and never by more than
    /// the one entry.
    pub fn intern_param_env(&mut self, data: ParamEnvData) -> (r: ParamEnv)
        requires
            old(self).wf(),
            data_refs_below(data@, old(self).envs().len() as int),
            old(self).envs().len() < u32::MAX as nat,
        ensures
            final(self).wf(),
            interned_at(final(self).envs(), data@, r),
            old(self).envs().len() <= final(self).envs().len() <= old(self).envs().len() + 1,
            final(self).envs().subrange(0, old(self).envs().len() as int) == old(self).envs(),
            (exists|k: int|
                0 <= k < old(self).envs().len() && #[trigger] old(self).envs()[k] == data@)
                ==> final(self).envs() == old(self).envs(),
            final(self).registry() == old(self).registry(),
            final(self).env_nodes() == old(self).env_nodes(),
            final(self).hints() == old(self).hints(),
            final(self).ports() == old(self).ports(),
            final(self).diags() == old(self).diags(),
    {
        let ghost dv = data@;
        let ghost old_envs = self.envs();
        match self.find_env(&data) {
            Some(i) => {
                proof {
                    assert(old_envs.subrange(0, old_envs.len() as int) =~= old_envs);
                }
                ParamEnv(i as u32)
            },
            None => {
                self.envs.push(data);
                let n = self.envs.len() - 1;
                proof {
                    assert(self.envs() =~= old_envs.push(dv));
                    assert(self.envs().subrange(0, old_envs.len() as int) =~= old_envs);
                    assert forall|i: int, j: int|
                        0 <= i < j < self.envs().len() implies #[trigger] self.envs()[i]
                        != #[trigger] self.envs()[j] by {
                        if j < old_envs.len() {
                            assert(old_envs[i] != old_envs[j]);
                        } else {
                            assert(self.envs()[j] == dv);
                            assert(old_envs[i] != dv);
                        }
                    }
                    assert forall|k: int|
                        0 <= k < self.envs().len() implies data_refs_below(
                        #[trigger] self.envs()[k],
                        k,
                    ) by {
                        if k < old_envs.len() {
                            assert(data_refs_below(old_envs[k], k));
                        }
                    }
                }
                ParamEnv(n as u32)
            },
        }
    }

    /// Register that `env` resulted from instantiating `node`, so later
    /// passes can recover which environment an instantiation produced.
    pub fn add_param_env_context(&mut self, env: ParamEnv, node: NodeId)
        requires
            old(self).wf(),
        ensures
            final(self).wf(),
            final(self).env_nodes() == old(self).env_nodes().push((env, node)),
            final(self).registry() == old(self).registry(),
            final(self).envs() == old(self).envs(),
            final(self).hints() == old(self).hints(),
            final(self).ports() == old(self).ports(),
            final(self).diags() == old(self).diags(),
    {
        self.env_nodes.push((env, node));
        proof {
            assert(self.envs() == old(self).envs());
            assert(self.port_lists@ == old(self).port_lists@);
            assert(self.ast == old(self).ast);
        }
    }

    /// Tag `node` with a disambiguation hint for downstream lowering.  A
    /// later hint for the same node replaces an earlier one.
    pub fn set_lowering_hint(&mut self, node: NodeId, hint: Hint)
        requires
            old(self).wf(),
        ensures
            final(self).wf(),
            final(self).hints() == old(self).hints().insert(node, hint),
            final(self).registry() == old(self).registry(),
            final(self).envs() == old(self).envs(),
            final(self).env_nodes() == old(self).env_nodes(),
            final(self).ports() == old(self).ports(),
            final(self).diags() == old(self).diags(),
    {
        let ghost s0 = self.hints@;
        self.hints.push((node, hint));
        proof {
            assert(self.hints@.drop_last() =~= s0);
            assert(self.envs() == old(self).envs());
            assert(self.port_lists@ == old(self).port_lists@);
            assert(self.ast == old(self).ast);
        }
    }

    /// The hint set for `node`, if any.
    pub fn lowering_hint(&self, node: NodeId) -> (r: Option<Hint>)
        ensures
            r == if self.hints().contains_key(node) {
                Some(self.hints()[node])
            } else {
                None::<Hint>
            },
    {
        let ghost s = self.hints@;
        let mut r: Option<Hint> = None;
        proof {
            assert(s.subrange(0, 0) =~= Seq::<(NodeId, Hint)>::empty());
        }
        let mut i: usize = 0;
        while i < self.hints.len()
            invariant
                s == self.hints@,
                i <= s.len(),
                r == if map_of(s.subrange(0, i as int)).contains_key(node) {
                    Some(map_of(s.subrange(0, i as int))[node])
                } else {
                    None::<Hint>
                },
            decreases s.len() - i,
        {
            let ghost head = s.subrange(0, i + 1);
            proof {
                assert(head.drop_last() =~= s.subrange(0, i as int));
                assert(head.last() == s[i as int]);
            }
            if self.hints[i].0 == node {
                r = Some(self.hints[i].1);
            }
            i = i + 1;
        }
        proof {
            assert(s.subrange(0, s.len() as int) =~= s);
        }
        r
    }

    /// Register the canonicalized external port list of `node`.  Each node's
    /// ports are canonicalized once.
    pub fn register_ports(&mut self, node: NodeId, ports: PortList)
        requires
            old(self).wf(),
            !old(self).ports().contains_key(node),
            ports.wf(),
        ensures
            final(self).wf(),
            final(self).ports() == old(self).ports().insert(node, ports),
            final(self).registry() == old(self).registry(),
            final(self).envs() == old(self).envs(),
            final(self).env_nodes() == old(self).env_nodes(),
            final(self).hints() == old(self).hints(),
            final(self).diags() == old(self).diags(),
    {
        proof {
            lemma_map_of_contains(self.port_lists@, node);
        }
        let ghost s0 = self.port_lists@;
        self.port_lists.push((node, ports));
        proof {
            assert(self.port_lists@.drop_last() =~= s0);
            assert(self.envs() == old(self).envs());
            assert(self.ast == old(self).ast);
            assert forall|i: int, j: int|
                0 <= i < j < self.port_lists@.len() implies #[trigger] self.port_lists@[i].0
                != #[trigger] self.port_lists@[j].0 by {
                if j + 1 < self.port_lists@.len() {
                    assert(self.port_lists@[i] == s0[i]);
                    assert(self.port_lists@[j] == s0[j]);
                } else {
                    assert(self.port_lists@[i] == s0[i]);
                }
            }
        }
    }

    /// Obtain the ordered/named external port view of `node`.
    pub fn canonicalize_ports(&self, node: NodeId) -> (r: &PortList)
        requires
            self.wf(),
            self.ports().contains_key(node),
        ensures
            *r == self.ports()[node],
            r.wf(),
    {
        let ghost s = self.port_lists@;
        proof {
            assert(s.subrange(0, s.len() as int) =~= s);
            lemma_find_first_map_of(s, node);
        }
        let mut i: usize = 0;
        while i < self.port_lists.len()
            invariant
                self.wf(),
                self.ports().contains_key(node),
                s == self.port_lists@,
                i <= s.len(),
                find_first(s.subrange(i as int, s.len() as int), node) == find_first(s, node),
            decreases s.len() - i,
        {
            let ghost tail = s.subrange(i as int, s.len() as int);
            proof {
                assert(tail[0] == s[i as int]);
                assert(tail.drop_first() =~= s.subrange(i + 1, s.len() as int));
            }
            if self.port_lists[i].0 == node {
                proof {
                    assert(find_first(s, node) == Some(s[i as int].1));
                    lemma_find_first_map_of(s, node);
                }
                return &self.port_lists[i].1;
            }
            i = i + 1;
        }
        proof {
            assert(s.subrange(i as int, s.len() as int) =~= Seq::<(NodeId, PortList)>::empty());
            assert(false);
        }
        &self.port_lists[0].1
    }

    /// Report a user-facing problem.
    pub fn emit(&mut self, diag: Diagnostic)
        requires
            old(self).wf(),
        ensures
            final(self).wf(),
            final(self).diags() == old(self).diags().push(diag@),
            final(self).registry() == old(self).registry(),
            final(self).envs() == old(self).envs(),
            final(self).env_nodes() == old(self).env_nodes(),
            final(self).hints() == old(self).hints(),
            final(self).ports() == old(self).ports(),
    {
        let ghost d0 = self.diags();
        let ghost dv = diag@;
        self.diags.push(diag);
        proof {
            assert(self.diags() =~= d0.push(dv));
            assert(self.envs() == old(self).envs());
            assert(self.port_lists@ == old(self).port_lists@);
            assert(self.ast == old(self).ast);
        }
    }

    /// Resolve a handle to the interned environment data.
    pub fn param_env_data(&self, env: ParamEnv) -> (r: &ParamEnvData)
        requires
            env.0 < self.envs().len(),
        ensures
            r@ == self.envs()[env.0 as int],
    {
        &self.envs[env.0 as usize]
    }

    /// The number of environments interned so far.
    pub fn num_param_envs(&self) -> (r: usize)
        ensures
            r == self.envs().len(),
    {
        self.envs.len()
    }

    /// The diagnostics emitted so far, in emission order.
    pub fn diagnostics(&self) -> (r: &Vec<Diagnostic>)
        ensures
            r@.map_values(|d: Diagnostic| d@) == self.diags(),
            r@.len() == self.diags().len(),
    {
        &self.diags
    }

    /// The registered environment-to-node associations, in order.
    pub fn env_contexts(&self) -> (r: &Vec<(ParamEnv, NodeId)>)
        ensures
            r@ == self.env_nodes(),
    {
        &self.env_nodes
    }
}

} // verus!
