use svlog_elab::ast::{ParamDecl, ParamKind, ParamTypeDecl, ParamValueDecl, PortDecl};
use svlog_elab::ast_map::{AstMap, AstNode};
use svlog_elab::common::{Name, NodeId, Span, Spanned};
use svlog_elab::context::Context;
use svlog_elab::diag::Diagnostic;
use svlog_elab::hir::{Hint, Interface, Module};
use svlog_elab::param_env::{compute, NodeEnvId, ParamEnvBinding, ParamEnvData, ParamEnvSource};

fn sp(n: u32) -> Span {
    Span::new(n, n + 1)
}

fn named_of(n: u32) -> Spanned<Name> {
    Spanned { value: Name(n), span: sp(90 + n) }
}

fn value_param(id: u32, name: u32) -> AstNode {
    AstNode::ValueParam(
        ParamDecl { span: sp(id), kind: ParamKind::Value(vec![NodeId(id)]) },
        ParamValueDecl { id: NodeId(id), span: sp(id), name: named_of(name) },
    )
}

fn type_param(id: u32, name: u32) -> AstNode {
    AstNode::TypeParam(
        ParamDecl { span: sp(id), kind: ParamKind::Type(vec![NodeId(id)]) },
        ParamTypeDecl { id: NodeId(id), span: sp(id), name: named_of(name) },
    )
}

/// A context over a module with value parameters WIDTH (node 1, name 10)
/// and DEPTH (node 2, name 11), plus an initial empty outer environment.
fn module_context() -> (Context, svlog_elab::param_env::ParamEnv) {
    let mut ast = AstMap::default();
    ast.set(NodeId(1), value_param(1, 10));
    ast.set(NodeId(2), value_param(2, 11));
    let mut cx = Context::new(ast);
    let outer = cx.intern_param_env(ParamEnvData::default());
    (cx, outer)
}

fn module_source(
    outer: svlog_elab::param_env::ParamEnv,
    pos: Vec<(Span, Option<NodeId>)>,
    named: Vec<(Span, Spanned<Name>, Option<NodeId>)>,
) -> ParamEnvSource {
    ParamEnvSource::ModuleInst {
        module: Module { ast: NodeId(100), params: vec![NodeId(1), NodeId(2)], block_params: vec![] },
        env: outer,
        pos,
        named,
    }
}

#[test]
fn positional_and_named_arguments_bind() {
    // M #(8, .DEPTH(4)): WIDTH binds positionally to the literal node,
    // DEPTH by name; both are qualified by the caller's environment.
    let (mut cx, outer) = module_context();
    let src = module_source(
        outer,
        vec![(sp(50), Some(NodeId(50)))],
        vec![(sp(51), named_of(11), Some(NodeId(51)))],
    );
    let e = compute(&mut cx, &src).expect("resolution succeeds");
    let data = cx.param_env_data(e);
    assert_eq!(
        data.find_value(NodeId(1)),
        Some(ParamEnvBinding::Indirect(NodeEnvId::new(NodeId(50), outer)))
    );
    assert_eq!(
        data.find_value(NodeId(2)),
        Some(ParamEnvBinding::Indirect(NodeEnvId::new(NodeId(51), outer)))
    );
    assert_eq!(cx.diagnostics().len(), 0);
    // The reverse association from the instantiated node was registered.
    assert_eq!(cx.env_contexts().last(), Some(&(e, NodeId(100))));
}

#[test]
fn named_only_leaves_first_parameter_unbound() {
    // M #(.DEPTH(4)): WIDTH receives no binding at all; downstream default
    // resolution must supply it.
    let (mut cx, outer) = module_context();
    let src = module_source(outer, vec![], vec![(sp(51), named_of(11), Some(NodeId(51)))]);
    let e = compute(&mut cx, &src).expect("resolution succeeds");
    let data = cx.param_env_data(e);
    assert_eq!(data.find_value(NodeId(1)), None);
    assert_eq!(
        data.find_value(NodeId(2)),
        Some(ParamEnvBinding::Indirect(NodeEnvId::new(NodeId(51), outer)))
    );
}

#[test]
fn positional_arguments_bind_in_declaration_order() {
    // With only positional arguments, the i-th argument binds the i-th
    // declared parameter, for every i.
    let mut ast = AstMap::default();
    ast.set(NodeId(1), value_param(1, 10));
    ast.set(NodeId(2), value_param(2, 11));
    ast.set(NodeId(3), value_param(3, 12));
    let mut cx = Context::new(ast);
    let outer = cx.intern_param_env(ParamEnvData::default());
    let src = ParamEnvSource::ModuleInst {
        module: Module {
            ast: NodeId(100),
            params: vec![NodeId(1), NodeId(2)],
            block_params: vec![NodeId(3)],
        },
        env: outer,
        pos: vec![(sp(50), Some(NodeId(50))), (sp(51), Some(NodeId(51))), (sp(52), Some(NodeId(52)))],
        named: vec![],
    };
    let e = compute(&mut cx, &src).expect("resolution succeeds");
    let data = cx.param_env_data(e);
    for (param, arg) in [(1u32, 50u32), (2, 51), (3, 52)] {
        assert_eq!(
            data.find_value(NodeId(param)),
            Some(ParamEnvBinding::Indirect(NodeEnvId::new(NodeId(arg), outer)))
        );
    }
}

#[test]
fn positional_binding_wins_over_later_named_binding() {
    // M #(8, .WIDTH(3)): WIDTH is covered positionally first; lookup by
    // node returns the first-inserted binding, so the positional one wins.
    let (mut cx, outer) = module_context();
    let src = module_source(
        outer,
        vec![(sp(50), Some(NodeId(50)))],
        vec![(sp(51), named_of(10), Some(NodeId(51)))],
    );
    let e = compute(&mut cx, &src).expect("resolution succeeds");
    let data = cx.param_env_data(e);
    assert_eq!(
        data.find_value(NodeId(1)),
        Some(ParamEnvBinding::Indirect(NodeEnvId::new(NodeId(50), outer)))
    );
    // Both argument nodes still reverse-resolve to the parameter.
    assert_eq!(data.reverse_find_value(NodeId(50)), Some(NodeId(1)));
    assert_eq!(data.reverse_find_value(NodeId(51)), Some(NodeId(1)));
}

#[test]
fn resolving_twice_returns_the_identical_handle() {
    // Determinism: the same (node, outer environment, argument lists)
    // resolves to the same interned handle, and no duplicate is stored.
    let (mut cx, outer) = module_context();
    let src = module_source(
        outer,
        vec![(sp(50), Some(NodeId(50)))],
        vec![(sp(51), named_of(11), Some(NodeId(51)))],
    );
    let e1 = compute(&mut cx, &src).expect("first resolution succeeds");
    let count = cx.num_param_envs();
    let e2 = compute(&mut cx, &src).expect("second resolution succeeds");
    assert_eq!(e1, e2);
    assert_eq!(cx.num_param_envs(), count);
}

#[test]
fn excess_positional_argument_fails_with_arity_diagnostic() {
    // A third positional argument on a module with two parameters fails,
    // stating the declared count, and produces no environment.
    let (mut cx, outer) = module_context();
    let before = cx.num_param_envs();
    let src = module_source(
        outer,
        vec![(sp(50), Some(NodeId(50))), (sp(51), Some(NodeId(51))), (sp(52), Some(NodeId(52)))],
        vec![],
    );
    let r = compute(&mut cx, &src);
    assert!(r.is_err());
    assert_eq!(cx.num_param_envs(), before);
    assert_eq!(cx.diagnostics().len(), 1);
    match &cx.diagnostics()[0] {
        Diagnostic::ParamArity { node, declared, span } => {
            assert_eq!(*node, NodeId(100));
            assert_eq!(*declared, 2);
            assert_eq!(*span, sp(52));
        }
        other => panic!("unexpected diagnostic {:?}", other),
    }
}

#[test]
fn unknown_named_argument_lists_declared_names() {
    // A named argument matching no parameter fails with a diagnostic that
    // enumerates every declared name as a remediation hint.
    let (mut cx, outer) = module_context();
    let src = module_source(outer, vec![], vec![(sp(51), named_of(42), Some(NodeId(51)))]);
    let r = compute(&mut cx, &src);
    assert!(r.is_err());
    match &cx.diagnostics()[0] {
        Diagnostic::UnknownParam { node, name, declared, span } => {
            assert_eq!(*node, NodeId(100));
            assert_eq!(*name, Name(42));
            assert_eq!(declared.as_slice(), &[Name(10), Name(11)]);
            assert_eq!(*span, named_of(42).span);
        }
        other => panic!("unexpected diagnostic {:?}", other),
    }
}

#[test]
fn misclassified_parameter_node_halts_with_compiler_defect() {
    // A declared parameter that resolves to a non-parameter AST node is an
    // internal invariant violation: the site halts with a defect diagnostic.
    let mut ast = AstMap::default();
    ast.set(NodeId(1), AstNode::Port(PortDecl { span: sp(1), name: None }));
    let mut cx = Context::new(ast);
    let outer = cx.intern_param_env(ParamEnvData::default());
    let src = ParamEnvSource::ModuleInst {
        module: Module { ast: NodeId(100), params: vec![NodeId(1)], block_params: vec![] },
        env: outer,
        pos: vec![(sp(50), Some(NodeId(50)))],
        named: vec![],
    };
    let r = compute(&mut cx, &src);
    assert!(r.is_err());
    assert!(matches!(
        &cx.diagnostics()[0],
        Diagnostic::InvalidParamNode { node } if *node == NodeId(1)
    ));
}

#[test]
fn type_and_value_arguments_are_tagged_for_lowering() {
    // A type-kind match tags its argument "treat as type"; a value-kind
    // match tags its argument "treat as expression".
    let mut ast = AstMap::default();
    ast.set(NodeId(1), type_param(1, 10));
    ast.set(NodeId(2), value_param(2, 11));
    let mut cx = Context::new(ast);
    let outer = cx.intern_param_env(ParamEnvData::default());
    let src = ParamEnvSource::ModuleInst {
        module: Module { ast: NodeId(100), params: vec![NodeId(1), NodeId(2)], block_params: vec![] },
        env: outer,
        pos: vec![(sp(50), Some(NodeId(50))), (sp(51), Some(NodeId(51)))],
        named: vec![],
    };
    let e = compute(&mut cx, &src).expect("resolution succeeds");
    assert_eq!(cx.lowering_hint(NodeId(50)), Some(Hint::Type));
    assert_eq!(cx.lowering_hint(NodeId(51)), Some(Hint::Expr));
    let data = cx.param_env_data(e);
    assert_eq!(
        data.find_type(NodeId(1)),
        Some(ParamEnvBinding::Indirect(NodeEnvId::new(NodeId(50), outer)))
    );
    assert_eq!(data.find_value(NodeId(1)), None);
}

#[test]
fn interface_parameter_declarations_are_flattened_in_order() {
    // An interface's header declarations are flattened into declarator ids,
    // then the body parameters follow; positional matching runs over that
    // concatenation.
    let mut ast = AstMap::default();
    ast.set(NodeId(1), value_param(1, 10));
    ast.set(NodeId(2), value_param(2, 11));
    ast.set(NodeId(3), type_param(3, 12));
    ast.set(NodeId(4), value_param(4, 13));
    let mut cx = Context::new(ast);
    let outer = cx.intern_param_env(ParamEnvData::default());
    let src = ParamEnvSource::InterfaceInst {
        interface: Interface {
            ast: NodeId(200),
            params: vec![
                ParamDecl { span: sp(5), kind: ParamKind::Value(vec![NodeId(1), NodeId(2)]) },
                ParamDecl { span: sp(6), kind: ParamKind::Type(vec![NodeId(3)]) },
            ],
            block_params: vec![NodeId(4)],
        },
        env: outer,
        pos: vec![
            (sp(50), Some(NodeId(50))),
            (sp(51), Some(NodeId(51))),
            (sp(52), Some(NodeId(52))),
            (sp(53), Some(NodeId(53))),
        ],
        named: vec![],
    };
    let e = compute(&mut cx, &src).expect("resolution succeeds");
    let data = cx.param_env_data(e);
    assert_eq!(
        data.find_value(NodeId(1)),
        Some(ParamEnvBinding::Indirect(NodeEnvId::new(NodeId(50), outer)))
    );
    assert_eq!(
        data.find_value(NodeId(2)),
        Some(ParamEnvBinding::Indirect(NodeEnvId::new(NodeId(51), outer)))
    );
    assert_eq!(
        data.find_type(NodeId(3)),
        Some(ParamEnvBinding::Indirect(NodeEnvId::new(NodeId(52), outer)))
    );
    assert_eq!(
        data.find_value(NodeId(4)),
        Some(ParamEnvBinding::Indirect(NodeEnvId::new(NodeId(53), outer)))
    );
    assert_eq!(cx.env_contexts().last(), Some(&(e, NodeId(200))));
}

#[test]
fn positional_hole_leaves_parameter_unbound() {
    // M #(8, ) — a hole in the positional list binds nothing at that
    // position.
    let (mut cx, outer) = module_context();
    let src = module_source(outer, vec![(sp(50), Some(NodeId(50))), (sp(51), None)], vec![]);
    let e = compute(&mut cx, &src).expect("resolution succeeds");
    let data = cx.param_env_data(e);
    assert_eq!(
        data.find_value(NodeId(1)),
        Some(ParamEnvBinding::Indirect(NodeEnvId::new(NodeId(50), outer)))
    );
    assert_eq!(data.find_value(NodeId(2)), None);
}

#[test]
fn indirection_chain_reaches_ground_within_nesting_depth() {
    // Instantiating A under the root environment, then B under A's
    // environment, builds an indirection chain that grounds out after as
    // many steps as the nesting is deep.
    let mut ast = AstMap::default();
    ast.set(NodeId(1), value_param(1, 10)); // parameter P of module A
    ast.set(NodeId(2), value_param(2, 11)); // parameter Q of module B
    let mut cx = Context::new(ast);
    let root = cx.intern_param_env(ParamEnvData::default());
    let src_a = ParamEnvSource::ModuleInst {
        module: Module { ast: NodeId(100), params: vec![NodeId(1)], block_params: vec![] },
        env: root,
        pos: vec![(sp(50), Some(NodeId(50)))],
        named: vec![],
    };
    let env_a = compute(&mut cx, &src_a).expect("resolution of A succeeds");
    // Inside A, instantiate B, connecting Q to A's parameter P.
    let src_b = ParamEnvSource::ModuleInst {
        module: Module { ast: NodeId(101), params: vec![NodeId(2)], block_params: vec![] },
        env: env_a,
        pos: vec![(sp(60), Some(NodeId(1)))],
        named: vec![],
    };
    let env_b = compute(&mut cx, &src_b).expect("resolution of B succeeds");

    // Follow the chain: Q under B's environment -> P under A's environment
    // -> the literal node under the root environment, which is unbound
    // there (its own value answers).
    let step1 = cx.param_env_data(env_b).find_value(NodeId(2));
    let ne1 = match step1 {
        Some(ParamEnvBinding::Indirect(ne)) => ne,
        other => panic!("expected an indirect binding, got {:?}", other),
    };
    assert_eq!(ne1, NodeEnvId::new(NodeId(1), env_a));
    let step2 = cx.param_env_data(ne1.env()).find_value(ne1.id());
    let ne2 = match step2 {
        Some(ParamEnvBinding::Indirect(ne)) => ne,
        other => panic!("expected an indirect binding, got {:?}", other),
    };
    assert_eq!(ne2, NodeEnvId::new(NodeId(50), root));
    // Two steps for a nesting depth of two: the chain has grounded.
    assert_eq!(cx.param_env_data(ne2.env()).find_value(ne2.id()), None);
}

#[test]
fn failed_site_leaves_earlier_environments_intact() {
    // One failing site aborts only itself: environments resolved before it
    // stay interned and reachable.
    let (mut cx, outer) = module_context();
    let good = module_source(outer, vec![(sp(50), Some(NodeId(50)))], vec![]);
    let e = compute(&mut cx, &good).expect("resolution succeeds");
    let bad = module_source(outer, vec![], vec![(sp(51), named_of(42), Some(NodeId(51)))]);
    assert!(compute(&mut cx, &bad).is_err());
    let data = cx.param_env_data(e);
    assert_eq!(
        data.find_value(NodeId(1)),
        Some(ParamEnvBinding::Indirect(NodeEnvId::new(NodeId(50), outer)))
    );
}
