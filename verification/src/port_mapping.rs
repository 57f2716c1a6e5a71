//! A port mapping generated by an instantiation.
//!
//! The port-mapping resolver mirrors the environment resolver, with external
//! ports substituted for declared parameters: positional connection i binds
//! to external port i, a named connection binds to the port carrying its
//! name, and each resolved connection is recorded with the signal qualified
//! by the environment of the caller — connected signals live where they were
//! written.

use crate::assoc::{find_first, lemma_find_first_some_exists};
use crate::common::{Name, NodeId};
use crate::context::Context;
use crate::diag::{Diagnostic, DiagnosticView};
use crate::hir::{NamedParam, PosParam};
use crate::param_env::{bound_pairs, NodeEnvId, ParamEnv};
use crate::port_list::{ExtPort, PortList};
use vstd::prelude::*;

verus! {

/// A port mapping: one (external port, connected signal) pair per resolved
/// connection.  Unconnected ports are simply absent.
#[derive(Debug, Clone, PartialEq, Eq, Hash)]
pub struct PortMapping(pub Vec<(ExtPort, NodeEnvId)>);

/// The signal assigned to the first entry for port `id`.
pub open spec fn port_find(s: Seq<(ExtPort, NodeEnvId)>, id: NodeId) -> Option<NodeEnvId>
    decreases s.len(),
{
    if s.len() == 0 {
        None
    } else if s[0].0.id == id {
        Some(s[0].1)
    } else {
        port_find(s.drop_first(), id)
    }
}

/// The port of the first entry whose signal is node `id`.
pub open spec fn port_reverse_find(s: Seq<(ExtPort, NodeEnvId)>, id: NodeId) -> Option<ExtPort>
    decreases s.len(),
{
    if s.len() == 0 {
        None
    } else if (s[0].1).0 == id {
        Some(s[0].0)
    } else {
        port_reverse_find(s.drop_first(), id)
    }
}

impl PortMapping {
    /// Find the signal assigned to a port.
    pub fn find(&self, node_id: NodeId) -> (r: Option<NodeEnvId>)
        ensures
            r == port_find(self.0@, node_id),
    {
        let ghost s = self.0@;
        proof {
            assert(s.subrange(0, s.len() as int) =~= s);
        }
        let mut i: usize = 0;
        while i < self.0.len()
            invariant
                s == self.0@,
                i <= s.len(),
                port_find(s.subrange(i as int, s.len() as int), node_id) == port_find(s, node_id),
            decreases s.len() - i,
        {
            let ghost tail = s.subrange(i as int, s.len() as int);
            proof {
                assert(tail[0] == s[i as int]);
                assert(tail.drop_first() =~= s.subrange(i + 1, s.len() as int));
            }
            if self.0[i].0.id == node_id {
                return Some(self.0[i].1);
            }
            i = i + 1;
        }
        proof {
            assert(s.subrange(i as int, s.len() as int) =~= Seq::<(ExtPort, NodeEnvId)>::empty());
        }
        None
    }

    /// Find the port a signal is assigned to.
    pub fn reverse_find(&self, node_id: NodeId) -> (r: Option<ExtPort>)
        ensures
            r == port_reverse_find(self.0@, node_id),
    {
        let ghost s = self.0@;
        proof {
            assert(s.subrange(0, s.len() as int) =~= s);
        }
        let mut i: usize = 0;
        while i < self.0.len()
            invariant
                s == self.0@,
                i <= s.len(),
                port_reverse_find(s.subrange(i as int, s.len() as int), node_id)
                    == port_reverse_find(s, node_id),
            decreases s.len() - i,
        {
            let ghost tail = s.subrange(i as int, s.len() as int);
            proof {
                assert(tail[0] == s[i as int]);
                assert(tail.drop_first() =~= s.subrange(i + 1, s.len() as int));
            }
            if self.0[i].1.id() == node_id {
                return Some(self.0[i].0);
            }
            i = i + 1;
        }
        proof {
            assert(s.subrange(i as int, s.len() as int) =~= Seq::<(ExtPort, NodeEnvId)>::empty());
        }
        None
    }
}

/// A location that implies a port mapping.
#[derive(Debug, Clone, PartialEq, Eq, Hash)]
pub enum PortMappingSource {
    ModuleInst {
        module: NodeId,
        inst: NodeId,
        /// The parameter environment around the instantiation.
        outer_env: ParamEnv,
        /// The parameter environment generated by the instantiation.
        inner_env: ParamEnv,
        pos: Vec<PosParam>,
        named: Vec<NamedParam>,
    },
    InterfaceInst {
        interface: NodeId,
        inst: NodeId,
        /// The parameter environment around the instantiation.
        outer_env: ParamEnv,
        /// The parameter environment generated by the instantiation.
        inner_env: ParamEnv,
        pos: Vec<PosParam>,
        named: Vec<NamedParam>,
    },
}

/// The instantiated node of a source descriptor.
pub open spec fn pm_node(src: PortMappingSource) -> NodeId {
    match src {
        PortMappingSource::ModuleInst { module, .. } => module,
        PortMappingSource::InterfaceInst { interface, .. } => interface,
    }
}

/// The outer environment of a source descriptor.
pub open spec fn pm_outer(src: PortMappingSource) -> ParamEnv {
    match src {
        PortMappingSource::ModuleInst { outer_env, .. } => outer_env,
        PortMappingSource::InterfaceInst { outer_env, .. } => outer_env,
    }
}

/// The positional connections of a source descriptor.
pub open spec fn pm_pos(src: PortMappingSource) -> Seq<PosParam> {
    match src {
        PortMappingSource::ModuleInst { pos, .. } => pos@,
        PortMappingSource::InterfaceInst { pos, .. } => pos@,
    }
}

/// The named connections of a source descriptor.
pub open spec fn pm_named(src: PortMappingSource) -> Seq<NamedParam> {
    match src {
        PortMappingSource::ModuleInst { named, .. } => named@,
        PortMappingSource::InterfaceInst { named, .. } => named@,
    }
}

/// Whether the positional connections fit the external port count.
pub open spec fn ports_arity_ok(pl: PortList, pos: Seq<PosParam>) -> bool {
    pos.len() <= pl.ext_pos@.len()
}

/// The port index matched by one named connection, through the name table.
/// Absent when the node has no name table (its ports carry no external
/// names) or when no port carries the name.
pub open spec fn conn_target(pl: PortList, name: Name) -> Option<usize> {
    match pl.ext_named {
        Some(tbl) => find_first(tbl@, name),
        None => None,
    }
}

/// The matched port index as a plain index, for positional access.
pub open spec fn conn_index(pl: PortList, name: Name) -> int {
    match conn_target(pl, name) {
        Some(ix) => ix as int,
        None => 0,
    }
}

/// Whether every named connection matches a named external port.
pub open spec fn conns_ok(pl: PortList, named: Seq<NamedParam>) -> bool {
    forall|j: int| 0 <= j < named.len() ==> conn_target(pl, (#[trigger] named[j]).1.value) is Some
}

/// Whether port-mapping resolution of the site succeeds.
pub open spec fn port_mapping_ok(pl: PortList, pos: Seq<PosParam>, named: Seq<NamedParam>) -> bool {
    ports_arity_ok(pl, pos) && conns_ok(pl, named)
}

/// Positional matching: the i-th positional connection binds to the i-th
/// external port.
pub open spec fn port_pos_pairs(pl: PortList, pos: Seq<PosParam>) -> Seq<(ExtPort, Option<NodeId>)> {
    Seq::new(pos.len(), |i: int| (pl.ext_pos@[i], pos[i].1))
}

/// Named matching: each named connection paired with its matched port.
pub open spec fn port_named_pairs(pl: PortList, named: Seq<NamedParam>) -> Seq<
    (ExtPort, Option<NodeId>),
> {
    Seq::new(
        named.len(),
        |j: int| (pl.ext_pos@[conn_index(pl, named[j].1.value)], named[j].2),
    )
}

/// All matched (port, connection) pairs, positional first, then named, in
/// source order.
pub open spec fn port_all_pairs(pl: PortList, pos: Seq<PosParam>, named: Seq<NamedParam>) -> Seq<
    (ExtPort, Option<NodeId>),
> {
    port_pos_pairs(pl, pos) + port_named_pairs(pl, named)
}

/// The resolved connections: every bound pair, the signal qualified by the
/// environment of the caller.
pub open spec fn resolved_ports(
    pl: PortList,
    pos: Seq<PosParam>,
    named: Seq<NamedParam>,
    outer: ParamEnv,
) -> Seq<(ExtPort, NodeEnvId)> {
    bound_pairs(port_all_pairs(pl, pos, named)).map_values(
        |p: (ExtPort, NodeId)| (p.0, NodeEnvId(p.1, outer)),
    )
}

/// The externally visible names of a port list, in port order.
pub open spec fn port_names(ext: Seq<ExtPort>) -> Seq<Name>
    decreases ext.len(),
{
    if ext.len() == 0 {
        Seq::empty()
    } else {
        let rest = port_names(ext.drop_last());
        match ext.last().name {
            Some(n) => rest.push(n),
            None => rest,
        }
    }
}

/// The index of the first named connection that matches no port.
pub open spec fn first_bad_conn(pl: PortList, named: Seq<NamedParam>) -> int
    decreases named.len(),
{
    if named.len() == 0 {
        0
    } else if conn_target(pl, named[0].1.value) is None {
        0
    } else {
        1 + first_bad_conn(pl, named.drop_first())
    }
}

/// The single diagnostic reported for a failed port mapping: the first
/// failure, in matching order.  A named connection against a node without a
/// name table is a positional-only violation; one against a present table
/// with no matching entry lists every named port as a remediation hint.
pub open spec fn port_mapping_diag(
    pl: PortList,
    node: NodeId,
    pos: Seq<PosParam>,
    named: Seq<NamedParam>,
) -> DiagnosticView {
    if !ports_arity_ok(pl, pos) {
        DiagnosticView::PortArity {
            node,
            declared: pl.ext_pos@.len(),
            span: pos[pl.ext_pos@.len() as int].0,
        }
    } else {
        let j = first_bad_conn(pl, named);
        if pl.ext_named is None {
            DiagnosticView::PositionalOnly { node, name: named[j].1.value, span: named[j].1.span }
        } else {
            DiagnosticView::UnknownPort {
                node,
                name: named[j].1.value,
                declared: port_names(pl.ext_pos@),
                span: named[j].1.span,
            }
        }
    }
}

/// The first unmatched named connection determines the failure index.
pub proof fn lemma_first_bad_conn(pl: PortList, named: Seq<NamedParam>, j: int)
    requires
        0 <= j < named.len(),
        conn_target(pl, named[j].1.value) is None,
        forall|k: int| 0 <= k < j ==> conn_target(pl, (#[trigger] named[k]).1.value) is Some,
    ensures
        first_bad_conn(pl, named) == j,
        !conns_ok(pl, named),
    decreases j,
{
    if j == 0 {
    } else {
        assert(conn_target(pl, named[0].1.value) is Some);
        let t = named.drop_first();
        assert forall|k: int|
            0 <= k < j - 1 implies conn_target(pl, (#[trigger] t[k]).1.value) is Some by {
            assert(t[k] == named[k + 1]);
        }
        assert(t[j - 1] == named[j]);
        lemma_first_bad_conn(pl, t, j - 1);
    }
}

/// First-match search of a port name table.
fn lookup_port(tbl: &Vec<(Name, usize)>, name: Name) -> (r: Option<usize>)
    ensures
        r == find_first(tbl@, name),
{
    let ghost s = tbl@;
    proof {
        assert(s.subrange(0, s.len() as int) =~= s);
    }
    let mut i: usize = 0;
    while i < tbl.len()
        invariant
            s == tbl@,
            i <= s.len(),
            find_first(s.subrange(i as int, s.len() as int), name) == find_first(s, name),
        decreases s.len() - i,
    {
        let ghost tail = s.subrange(i as int, s.len() as int);
        proof {
            assert(tail[0] == s[i as int]);
            assert(tail.drop_first() =~= s.subrange(i + 1, s.len() as int));
        }
        if tbl[i].0 == name {
            return Some(tbl[i].1);
        }
        i = i + 1;
    }
    proof {
        assert(s.subrange(i as int, s.len() as int) =~= Seq::<(Name, usize)>::empty());
    }
    None
}

/// Associate every external port of the instantiated node with the signal
/// connected to it, or report the first problem as a structured diagnostic.
/// This is the pure part of port mapping: it reads the canonicalized port
/// list and the raw connection lists and performs no side effect.
pub fn resolve_ports(
    pl: &PortList,
    node: NodeId,
    outer: ParamEnv,
    pos: &Vec<PosParam>,
    named: &Vec<NamedParam>,
) -> (r: Result<PortMapping, Diagnostic>)
    requires
        pl.wf(),
    ensures
        r is Ok <==> port_mapping_ok(*pl, pos@, named@),
        r matches Ok(m) ==> m.0@ == resolved_ports(*pl, pos@, named@, outer),
        r matches Err(d) ==> d@ == port_mapping_diag(*pl, node, pos@, named@),
{
    // Positional pass: a connection beyond the external port count aborts
    // the site with an arity diagnostic.
    if pos.len() > pl.ext_pos.len() {
        let span = pos[pl.ext_pos.len()].0;
        return Err(Diagnostic::PortArity { node, declared: pl.ext_pos.len(), span });
    }
    let mut entries: Vec<(ExtPort, NodeEnvId)> = Vec::new();
    let mut i: usize = 0;
    while i < pos.len()
        invariant
            pl.wf(),
            i <= pos@.len(),
            pos@.len() <= pl.ext_pos@.len(),
            entries@ == bound_pairs(port_pos_pairs(*pl, pos@).take(i as int)).map_values(
                |p: (ExtPort, NodeId)| (p.0, NodeEnvId(p.1, outer)),
            ),
        decreases pos@.len() - i,
    {
        let ghost head = port_pos_pairs(*pl, pos@).take(i + 1);
        proof {
            assert(head.drop_last() =~= port_pos_pairs(*pl, pos@).take(i as int));
            assert(head.last() == port_pos_pairs(*pl, pos@)[i as int]);
        }
        match pos[i].1 {
            Some(a) => {
                entries.push((pl.ext_pos[i], NodeEnvId::new(a, outer)));
                proof {
                    assert(entries@ =~= bound_pairs(head).map_values(
                        |p: (ExtPort, NodeId)| (p.0, NodeEnvId(p.1, outer)),
                    ));
                }
            },
            None => {},
        }
        i = i + 1;
    }
    proof {
        assert(port_pos_pairs(*pl, pos@).take(pos@.len() as int) =~= port_pos_pairs(*pl, pos@));
        assert(port_all_pairs(*pl, pos@, named@).take(pos@.len() as int) =~= port_pos_pairs(
            *pl,
            pos@,
        ));
    }
    // Named pass: a named connection requires a name table; a present but
    // unmatched name lists every named port.
    let mut j: usize = 0;
    while j < named.len()
        invariant
            pl.wf(),
            j <= named@.len(),
            pos@.len() <= pl.ext_pos@.len(),
            entries@ == bound_pairs(
                port_all_pairs(*pl, pos@, named@).take((pos@.len() + j) as int),
            ).map_values(|p: (ExtPort, NodeId)| (p.0, NodeEnvId(p.1, outer))),
            forall|k: int| 0 <= k < j ==> conn_target(*pl, (#[trigger] named@[k]).1.value) is Some,
        decreases named@.len() - j,
    {
        let nm = named[j].1;
        let ghost head = port_all_pairs(*pl, pos@, named@).take((pos@.len() + j + 1) as int);
        proof {
            assert(head.drop_last() =~= port_all_pairs(*pl, pos@, named@).take(
                (pos@.len() + j) as int,
            ));
            assert(head.last() == port_named_pairs(*pl, named@)[j as int]);
        }
        match &pl.ext_named {
            None => {
                proof {
                    lemma_first_bad_conn(*pl, named@, j as int);
                }
                return Err(Diagnostic::PositionalOnly { node, name: nm.value, span: nm.span });
            },
            Some(tbl) => {
                match lookup_port(tbl, nm.value) {
                    Some(ix) => {
                        proof {
                            lemma_find_first_some_exists(tbl@, nm.value);
                        }
                        match named[j].2 {
                            Some(a) => {
                                entries.push((pl.ext_pos[ix], NodeEnvId::new(a, outer)));
                                proof {
                                    assert(entries@ =~= bound_pairs(head).map_values(
                                        |p: (ExtPort, NodeId)| (p.0, NodeEnvId(p.1, outer)),
                                    ));
                                }
                            },
                            None => {},
                        }
                    },
                    None => {
                        let mut decl: Vec<Name> = Vec::new();
                        let mut m: usize = 0;
                        while m < pl.ext_pos.len()
                            invariant
                                m <= pl.ext_pos@.len(),
                                decl@ == port_names(pl.ext_pos@.take(m as int)),
                            decreases pl.ext_pos@.len() - m,
                        {
                            let ghost h2 = pl.ext_pos@.take(m + 1);
                            proof {
                                assert(h2.drop_last() =~= pl.ext_pos@.take(m as int));
                                assert(h2.last() == pl.ext_pos@[m as int]);
                            }
                            match pl.ext_pos[m].name {
                                Some(n) => decl.push(n),
                                None => {},
                            }
                            m = m + 1;
                        }
                        proof {
                            assert(pl.ext_pos@.take(pl.ext_pos@.len() as int) =~= pl.ext_pos@);
                            lemma_first_bad_conn(*pl, named@, j as int);
                        }
                        return Err(
                            Diagnostic::UnknownPort {
                                node,
                                name: nm.value,
                                declared: decl,
                                span: nm.span,
                            },
                        );
                    },
                }
            },
        }
        j = j + 1;
    }
    proof {
        assert(port_all_pairs(*pl, pos@, named@).take((pos@.len() + named@.len()) as int)
            =~= port_all_pairs(*pl, pos@, named@));
    }
    Ok(PortMapping(entries))
}

/// Compute the port assignments for an instantiation.
///
/// On success the mapping is returned and the context is untouched; on
/// failure exactly one diagnostic — the first problem found — is emitted.
pub fn port_mapping(cx: &mut Context, src: &PortMappingSource) -> (r: Result<PortMapping, ()>)
    requires
        old(cx).wf(),
        old(cx).ports().contains_key(pm_node(*src)),
    ensures
        final(cx).wf(),
        r is Ok <==> port_mapping_ok(
            old(cx).ports()[pm_node(*src)],
            pm_pos(*src),
            pm_named(*src),
        ),
        r matches Ok(m) ==> m.0@ == resolved_ports(
            old(cx).ports()[pm_node(*src)],
            pm_pos(*src),
            pm_named(*src),
            pm_outer(*src),
        ) && *final(cx) == *old(cx),
        r is Err ==> final(cx).diags() == old(cx).diags().push(
            port_mapping_diag(
                old(cx).ports()[pm_node(*src)],
                pm_node(*src),
                pm_pos(*src),
                pm_named(*src),
            ),
        ) && final(cx).envs() == old(cx).envs() && final(cx).env_nodes() == old(cx).env_nodes()
            && final(cx).hints() == old(cx).hints() && final(cx).registry() == old(cx).registry()
            && final(cx).ports() == old(cx).ports(),
{
    let (node, outer, pos, named) = match src {
        PortMappingSource::ModuleInst { module, outer_env, pos, named, .. } => (
            *module,
            *outer_env,
            pos,
            named,
        ),
        PortMappingSource::InterfaceInst { interface, outer_env, pos, named, .. } => (
            *interface,
            *outer_env,
            pos,
            named,
        ),
    };
    let pl = cx.canonicalize_ports(node);
    let resolved = resolve_ports(pl, node, outer, pos, named);
    match resolved {
        Ok(m) => Ok(m),
        Err(d) => {
            cx.emit(d);
            Err(())
        },
    }
}

} // verus!
