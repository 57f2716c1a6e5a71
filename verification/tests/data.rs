use svlog_elab::ast::{ModDecl, ParamDecl, ParamKind, ParamValueDecl, PortDecl};
use svlog_elab::ast_map::{AstMap, AstNode};
use svlog_elab::common::{Name, NodeId, Span, Spanned, Value};
use svlog_elab::param_env::{
    IntoNodeEnvId, NodeEnvId, ParamEnv, ParamEnvBinding, ParamEnvData,
};

fn sp(n: u32) -> Span {
    Span::new(n, n + 1)
}

#[test]
fn node_env_id_carries_its_parts() {
    let ne = NodeEnvId::new(NodeId(3), ParamEnv(5));
    assert_eq!(ne.id(), NodeId(3));
    assert_eq!(ne.env(), ParamEnv(5));
    // The wrapping helper builds the same pair.
    assert_eq!(NodeId(3).env(ParamEnv(5)), ne);
}

#[test]
fn set_value_rebinds_a_node_directly() {
    // Re-binding a node removes the prior entry first: the last write is
    // visible, not both.
    let mut data = ParamEnvData::default();
    data.set_value(NodeId(1), Value(10));
    data.set_value(NodeId(2), Value(20));
    data.set_value(NodeId(1), Value(30));
    assert_eq!(data.find_value(NodeId(1)), Some(ParamEnvBinding::Direct(Value(30))));
    assert_eq!(data.find_value(NodeId(2)), Some(ParamEnvBinding::Direct(Value(20))));
    assert_eq!(data.find_value(NodeId(3)), None);
}

#[test]
fn find_type_misses_on_an_empty_environment() {
    let data = ParamEnvData::default();
    assert_eq!(data.find_type(NodeId(1)), None);
    assert_eq!(data.reverse_find_value(NodeId(1)), None);
}

#[test]
fn interfaces_accumulate_in_order() {
    let mut data = ParamEnvData::default();
    let first = NodeEnvId::new(NodeId(9), ParamEnv(0));
    let second = NodeEnvId::new(NodeId(10), ParamEnv(1));
    data.add_interfaces(vec![(NodeId(4), first)]);
    data.add_interfaces(vec![(NodeId(5), second), (NodeId(4), second)]);
    // First-inserted entry answers.
    assert_eq!(data.find_interface(NodeId(4)), Some(first));
    assert_eq!(data.find_interface(NodeId(5)), Some(second));
    assert_eq!(data.find_interface(NodeId(6)), None);
}

#[test]
fn ast_map_stores_each_node_once() {
    let mut ast = AstMap::default();
    ast.set(
        NodeId(1),
        AstNode::Module(ModDecl {
            id: NodeId(1),
            name: Spanned { value: Name(10), span: sp(2) },
            span: sp(1),
        }),
    );
    ast.set(NodeId(2), AstNode::Port(PortDecl { span: sp(3), name: None }));
    assert!(matches!(ast.get(NodeId(1)), Some(AstNode::Module(_))));
    assert!(matches!(ast.get(NodeId(2)), Some(AstNode::Port(_))));
    assert!(ast.get(NodeId(3)).is_none());
}

#[test]
fn ast_node_spans_and_descriptions() {
    let decl = ParamDecl { span: sp(1), kind: ParamKind::Value(vec![NodeId(1)]) };
    let node = AstNode::ValueParam(
        decl,
        ParamValueDecl { id: NodeId(1), span: sp(4), name: Spanned { value: Name(10), span: sp(5) } },
    );
    assert_eq!(node.span(), sp(1));
    assert_eq!(node.human_span(), sp(5));
    assert_eq!(node.desc(), "parameter");
    let module = AstNode::Module(ModDecl {
        id: NodeId(2),
        name: Spanned { value: Name(11), span: sp(7) },
        span: sp(6),
    });
    assert_eq!(module.span(), sp(6));
    assert_eq!(module.human_span(), sp(7));
    assert_eq!(module.desc(), "module");
}

#[test]
fn interning_deduplicates_equal_content() {
    let mut cx = svlog_elab::context::Context::new(AstMap::default());
    let e0 = cx.intern_param_env(ParamEnvData::default());
    let e1 = cx.intern_param_env(ParamEnvData::default());
    assert_eq!(e0, e1);
    assert_eq!(cx.num_param_envs(), 1);
    let mut other = ParamEnvData::default();
    other.set_value(NodeId(1), Value(10));
    let e2 = cx.intern_param_env(other);
    assert_ne!(e0, e2);
    assert_eq!(cx.num_param_envs(), 2);
    // Handle equality is a valid substitute for deep equality.
    let mut again = ParamEnvData::default();
    again.set_value(NodeId(1), Value(10));
    assert_eq!(cx.intern_param_env(again), e2);
}
