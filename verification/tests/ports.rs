use svlog_elab::ast_map::AstMap;
use svlog_elab::common::{Name, NodeId, Span, Spanned};
use svlog_elab::context::Context;
use svlog_elab::diag::Diagnostic;
use svlog_elab::param_env::{NodeEnvId, ParamEnv, ParamEnvData};
use svlog_elab::port_list::{ExtPort, PortList};
use svlog_elab::port_mapping::{port_mapping, PortMappingSource};

fn sp(n: u32) -> Span {
    Span::new(n, n + 1)
}

fn named_of(n: u32) -> Spanned<Name> {
    Spanned { value: Name(n), span: sp(90 + n) }
}

/// A context with one module (node 100) whose external ports are nodes 7
/// and 8; `with_names` gives them external names A (20) and B (21).
fn port_context(with_names: bool) -> (Context, ParamEnv) {
    let mut cx = Context::new(AstMap::default());
    let outer = cx.intern_param_env(ParamEnvData::default());
    let (names, table) = if with_names {
        (
            [Some(Name(20)), Some(Name(21))],
            Some(vec![(Name(20), 0usize), (Name(21), 1usize)]),
        )
    } else {
        ([None, None], None)
    };
    let list = PortList {
        ext_pos: vec![
            ExtPort { id: NodeId(7), name: names[0], span: sp(7) },
            ExtPort { id: NodeId(8), name: names[1], span: sp(8) },
        ],
        ext_named: table,
    };
    cx.register_ports(NodeId(100), list);
    (cx, outer)
}

fn inst(
    outer: ParamEnv,
    pos: Vec<(Span, Option<NodeId>)>,
    named: Vec<(Span, Spanned<Name>, Option<NodeId>)>,
) -> PortMappingSource {
    PortMappingSource::ModuleInst {
        module: NodeId(100),
        inst: NodeId(300),
        outer_env: outer,
        inner_env: outer,
        pos,
        named,
    }
}

#[test]
fn anonymous_ports_forbid_named_connections() {
    // M(.A(x)) against a node with unnamed ports fails with a
    // positional-only violation.
    let (mut cx, outer) = port_context(false);
    let src = inst(outer, vec![], vec![(sp(50), named_of(20), Some(NodeId(50)))]);
    let r = port_mapping(&mut cx, &src);
    assert!(r.is_err());
    match &cx.diagnostics()[0] {
        Diagnostic::PositionalOnly { node, name, span } => {
            assert_eq!(*node, NodeId(100));
            assert_eq!(*name, Name(20));
            assert_eq!(*span, named_of(20).span);
        }
        other => panic!("unexpected diagnostic {:?}", other),
    }
}

#[test]
fn anonymous_ports_connect_positionally() {
    // M(x, y) binds port 0 to x and port 1 to y, both qualified by the
    // caller's environment.
    let (mut cx, outer) = port_context(false);
    let src = inst(
        outer,
        vec![(sp(50), Some(NodeId(50))), (sp(51), Some(NodeId(51)))],
        vec![],
    );
    let m = port_mapping(&mut cx, &src).expect("port mapping succeeds");
    assert_eq!(m.find(NodeId(7)), Some(NodeEnvId::new(NodeId(50), outer)));
    assert_eq!(m.find(NodeId(8)), Some(NodeEnvId::new(NodeId(51), outer)));
    // The mapping is queryable bidirectionally.
    let back = m.reverse_find(NodeId(51)).expect("signal drives a port");
    assert_eq!(back.id, NodeId(8));
    assert_eq!(cx.diagnostics().len(), 0);
}

#[test]
fn named_connections_match_port_names() {
    // M(.B(x), .A(y)) binds through the name table, in any order.
    let (mut cx, outer) = port_context(true);
    let src = inst(
        outer,
        vec![],
        vec![
            (sp(50), named_of(21), Some(NodeId(50))),
            (sp(51), named_of(20), Some(NodeId(51))),
        ],
    );
    let m = port_mapping(&mut cx, &src).expect("port mapping succeeds");
    assert_eq!(m.find(NodeId(8)), Some(NodeEnvId::new(NodeId(50), outer)));
    assert_eq!(m.find(NodeId(7)), Some(NodeEnvId::new(NodeId(51), outer)));
}

#[test]
fn unknown_port_name_lists_declared_ports() {
    let (mut cx, outer) = port_context(true);
    let src = inst(outer, vec![], vec![(sp(50), named_of(42), Some(NodeId(50)))]);
    let r = port_mapping(&mut cx, &src);
    assert!(r.is_err());
    match &cx.diagnostics()[0] {
        Diagnostic::UnknownPort { node, name, declared, span } => {
            assert_eq!(*node, NodeId(100));
            assert_eq!(*name, Name(42));
            assert_eq!(declared.as_slice(), &[Name(20), Name(21)]);
            assert_eq!(*span, named_of(42).span);
        }
        other => panic!("unexpected diagnostic {:?}", other),
    }
}

#[test]
fn excess_positional_connection_fails_with_arity_diagnostic() {
    // A third positional connection on a node with two ports fails, stating
    // the port count, and produces no mapping.
    let (mut cx, outer) = port_context(true);
    let src = inst(
        outer,
        vec![(sp(50), Some(NodeId(50))), (sp(51), Some(NodeId(51))), (sp(52), Some(NodeId(52)))],
        vec![],
    );
    let r = port_mapping(&mut cx, &src);
    assert!(r.is_err());
    match &cx.diagnostics()[0] {
        Diagnostic::PortArity { node, declared, span } => {
            assert_eq!(*node, NodeId(100));
            assert_eq!(*declared, 2);
            assert_eq!(*span, sp(52));
        }
        other => panic!("unexpected diagnostic {:?}", other),
    }
}

#[test]
fn unconnected_ports_are_absent_from_the_mapping() {
    // M(x) with two ports: port 1 has no entry; a hole binds nothing.
    let (mut cx, outer) = port_context(true);
    let src = inst(outer, vec![(sp(50), Some(NodeId(50))), (sp(51), None)], vec![]);
    let m = port_mapping(&mut cx, &src).expect("port mapping succeeds");
    assert_eq!(m.find(NodeId(7)), Some(NodeEnvId::new(NodeId(50), outer)));
    assert_eq!(m.find(NodeId(8)), None);
    assert_eq!(m.0.len(), 1);
}

#[test]
fn port_lookup_returns_first_inserted_entry() {
    // Like parameter lookup, port lookup answers with the first-inserted
    // entry when a port is connected twice (positionally and by name).
    let (mut cx, outer) = port_context(true);
    let src = inst(
        outer,
        vec![(sp(50), Some(NodeId(50)))],
        vec![(sp(51), named_of(20), Some(NodeId(51)))],
    );
    let m = port_mapping(&mut cx, &src).expect("port mapping succeeds");
    assert_eq!(m.find(NodeId(7)), Some(NodeEnvId::new(NodeId(50), outer)));
    assert_eq!(m.0.len(), 2);
}
