use std::sync::Arc;

use buck2::configured::check_compatible;
use buck2::configured::find_execution_platform_by_configuration;
use buck2::configured::CompatibleWithAttr;
use buck2::configured::ExecutionPlatform;
use buck2::configured::IncompatiblePlatformReason;
use buck2::configured::IncompatiblePlatformReasonCause;
use buck2::configured::MaybeCompatible;
use buck2::configured::NodeError;
use buck2::configured_deps::CheckVisibility;
use buck2::configured_deps::ConfiguredAttr;
use buck2::configured_deps::ConfiguredTargetNode;
use buck2::configured_deps::DepResult;
use buck2::configured_deps::ErrorsAndIncompatibilities;
use buck2::configured_deps::NodeConfiguration;
use buck2::configured_deps::PluginKindSet;
use buck2::configured_deps::PluginListElemKind;
use buck2::configured_deps::PluginLists;
use buck2::configured_deps::ResolvedTransitions;
use buck2::configured_deps::TransitionApplied;
use buck2::configured_deps::Traversal;
use buck2::configured_flow::after_transition;
use buck2::configured_flow::finish_forward_target_node;
use buck2::configured_flow::forward_node;
use buck2::configured_flow::resolve_transition_attrs;
use buck2::configured_flow::route_configured_target_node;
use buck2::configured_flow::verify_transitioned_attrs;
use buck2::configured_flow::AfterTransition;
use buck2::configured_flow::ConfiguredTargetNodeKey;
use buck2::configured_flow::ConfiguredTransitionedNodeKey;
use buck2::configured_flow::NodeAction;
use buck2::configured_flow::NodeComputation;
use buck2::configured_flow::NodeEvent;
use buck2::configured_flow::NodeRoute;
use buck2::configured_flow::ResolvedConfiguration;
use buck2::configured_flow::TargetNodeInfo;
use buck2::configured_flow::TargetToConfigure;
use buck2::configured_flow::TransitionAttrLookup;
use buck2::configured_forward::ForwardAction;
use buck2::configured_forward::ForwardComputation;
use buck2::configured_forward::ForwardEvent;
use buck2::configured_node::check_plugin_deps;
use buck2::configured_node::choose_execution_platform;
use buck2::configured_node::exec_lookups;
use buck2::configured_node::finish_configured_node;
use buck2::configured_node::gather_deps;
use buck2::configured_node::plugins_to_check;
use buck2::configured_node::resolve_execution_platform;
use buck2::configured_node::toolchain_lookups;
use buck2::configured_node::ExecutionPlatformChoice;
use buck2::configured_node::ExecutionPlatformResolution;
use buck2::configured_node::GatheredDeps;
use buck2::configured_node::NodeParts;
use buck2::configured_node::PluginTarget;
use buck2::labels::ConfigurationData;
use buck2::labels::ConfiguredProvidersLabel;
use buck2::labels::ConfiguredTargetLabel;
use buck2::labels::TargetLabel;
use buck2::toolchains::check_toolchain_node;
use buck2::toolchains::execution_platforms_for_toolchain;
use buck2::toolchains::get_execution_platform_toolchain_dep;
use buck2::toolchains::toolchain_allows;
use buck2::toolchains::ExecutionPlatformConstraints;
use buck2::toolchains::LookingUpConfiguredNodeContext;
use buck2::toolchains::PlatformCfgs;
use buck2::toolchains::ToolchainConstraints;

fn label(name: &str) -> TargetLabel {
    TargetLabel { cell: "c".to_owned(), package: "p".to_owned(), name: name.to_owned() }
}

fn cfg(name: &str) -> ConfigurationData {
    ConfigurationData::Bound(name.to_owned())
}

fn target(name: &str) -> ConfiguredTargetLabel {
    ConfiguredTargetLabel::configure(&label(name), cfg("t"))
}

fn providers(name: &str) -> ConfiguredProvidersLabel {
    ConfiguredProvidersLabel { target: target(name), providers: "".to_owned() }
}

fn node_with(name: &str, plugin_lists: PluginLists) -> Arc<ConfiguredTargetNode> {
    Arc::new(ConfiguredTargetNode {
        label: target(name),
        attrs: vec![],
        configuration: Arc::new(NodeConfiguration {
            cfg: cfg("t"),
            matching: vec![],
            platform_cfgs: PlatformCfgs::new(),
        }),
        resolved_transitions: Arc::new(ResolvedTransitions::new()),
        execution_platform: ExecutionPlatformResolution::unspecified(),
        deps: vec![],
        exec_deps: vec![],
        plugin_lists,
        forward_target: None,
    })
}

fn node(name: &str) -> Arc<ConfiguredTargetNode> {
    node_with(name, PluginLists::new())
}

fn found(n: Arc<ConfiguredTargetNode>) -> DepResult {
    DepResult { result: Ok(MaybeCompatible::Compatible(n)), visible: Ok(true) }
}

fn failed(e: &str) -> DepResult {
    DepResult { result: Err(NodeError::Other(e.to_owned())), visible: Ok(true) }
}

fn reason(name: &str) -> Arc<IncompatiblePlatformReason> {
    Arc::new(IncompatiblePlatformReason {
        target: target(name),
        cause: IncompatiblePlatformReasonCause::UnsatisfiedConfig(label("setting")),
    })
}

fn incompatible(name: &str) -> DepResult {
    DepResult { result: Ok(MaybeCompatible::Incompatible(reason(name))), visible: Ok(true) }
}

fn messages(errors: &ErrorsAndIncompatibilities) -> Vec<String> {
    errors.errs.iter().map(|e| e.message()).collect()
}

#[test]
fn messages_of_node_errors() {
    assert_eq!(
        NodeError::ToolchainDepMissingPlatform(cfg("x")).message(),
        "Can't find toolchain_dep execution platform using configuration `x`"
    );
    assert_eq!(
        NodeError::NotVisibleTo(label("a"), label("b")).message(),
        "`c//p:a` is not visible to `c//p:b`"
    );
    assert_eq!(
        NodeError::TransitionAttrIncompatibleChange(
            label("a"),
            cfg("o"),
            cfg("n"),
            "attr".to_owned(),
            "1".to_owned(),
            "2".to_owned(),
        )
        .message(),
        "Target c//p:a configuration transitioned\nold: o\nnew: n\nbut attribute: attr\n\
         resolved with old configuration to: 1\nresolved with new configuration to: 2"
    );
    assert_eq!(
        NodeError::ToolchainTransitionDep(label("a")).message(),
        "Target `c//p:a` has a transition_dep, which is not permitted on a toolchain rule"
    );
    assert_eq!(
        NodeError::UnknownPlatformTarget(label("a")).message(),
        "Unknown platform target `c//p:a`"
    );
}

#[test]
fn platform_has_the_configuration() {
    let platform = |n: &str| ExecutionPlatform::Platform { target: label(n), cfg: cfg(n) };
    let platforms = Some(vec![platform("a"), platform("b")]);
    let fallback = "fallback".to_owned();
    let find = |platforms: &Option<Vec<ExecutionPlatform>>, exec: ConfigurationData| {
        find_execution_platform_by_configuration(platforms, &fallback, &exec, &cfg("t"))
    };
    assert!(matches!(
        find(&platforms, cfg("b")),
        Ok(ExecutionPlatform::Platform { target, .. }) if target.same_as(&label("b"))
    ));
    assert!(matches!(
        find(&platforms, cfg("x")),
        Err(NodeError::ToolchainDepMissingPlatform(c)) if c.same_as(&cfg("x"))
    ));
    let legacy = find(&platforms, ConfigurationData::UnboundExec).unwrap();
    assert!(legacy.cfg().same_as(&cfg("t")));
    assert!(matches!(
        find(&None, cfg("x")),
        Ok(ExecutionPlatform::Legacy { executor_config, .. }) if executor_config == "fallback"
    ));
}

fn compatible_with(settings: &[&str]) -> Option<Result<CompatibleWithAttr, NodeError>> {
    Some(Ok(CompatibleWithAttr {
        name: "compatible".to_owned(),
        settings: Some(settings.iter().map(|s| Ok(label(s))).collect()),
        display: "[..]".to_owned(),
    }))
}

#[test]
fn compatibility_with_a_platform() {
    let t = target("t");
    let matching = vec![label("linux"), label("x86")];
    let is_compatible = |a, b| check_compatible(&t, a, b, &matching);
    assert!(matches!(is_compatible(None, None), Ok(MaybeCompatible::Compatible(()))));
    assert!(matches!(
        is_compatible(compatible_with(&["linux", "x86"]), None),
        Ok(MaybeCompatible::Compatible(()))
    ));
    assert!(matches!(
        is_compatible(compatible_with(&["linux", "arm"]), None),
        Ok(MaybeCompatible::Incompatible(r))
            if matches!(&r.cause, IncompatiblePlatformReasonCause::UnsatisfiedConfig(l)
                if l.same_as(&label("arm")))
    ));
    assert!(matches!(
        is_compatible(None, compatible_with(&["arm", "linux"])),
        Ok(MaybeCompatible::Compatible(()))
    ));
    assert!(matches!(
        is_compatible(None, compatible_with(&["arm"])),
        Ok(MaybeCompatible::Incompatible(_))
    ));
    let both = is_compatible(compatible_with(&["linux"]), compatible_with(&["linux"]));
    assert_eq!(
        both.err().unwrap().message(),
        "`c//p:t (t)` had both `target_compatible_with` and `compatible_with` attributes. \
         It should only have one."
    );
    let not_a_list = Some(Ok(CompatibleWithAttr {
        name: "target_compatible_with".to_owned(),
        settings: None,
        display: "3".to_owned(),
    }));
    assert_eq!(
        is_compatible(not_a_list, None).err().unwrap().message(),
        "expected `target_compatible_with` attribute to be a list but got `3`"
    );
}

#[test]
fn incompatible_deps_hide_errors() {
    let t = target("t");
    let mut errors = ErrorsAndIncompatibilities::default();
    assert!(errors.unpack_dep(&t, found(node("a")), CheckVisibility::Yes).is_some());
    assert!(errors.finalize::<()>().is_none());
    let mut errors = ErrorsAndIncompatibilities::default();
    assert!(errors.unpack_dep(&t, failed("first"), CheckVisibility::Yes).is_none());
    let mut hidden = found(node("b"));
    hidden.visible = Ok(false);
    assert!(errors.unpack_dep(&t, hidden, CheckVisibility::Yes).is_none());
    assert_eq!(messages(&errors), vec!["first", "`c//p:b` is not visible to `c//p:t`"]);
    let mut unchecked = found(node("b"));
    unchecked.visible = Ok(false);
    let mut list = vec![];
    errors.unpack_dep_into(&t, unchecked, CheckVisibility::No, &mut list);
    assert_eq!(list.len(), 1);
    errors.unpack_dep_into(&t, incompatible("i"), CheckVisibility::Yes, &mut list);
    assert_eq!(list.len(), 1);
    assert!(matches!(
        errors.finalize::<()>(),
        Some(Ok(MaybeCompatible::Incompatible(_)))
    ));
}

#[test]
fn dependencies_are_gathered_with_plugins() {
    let t = target("t");
    let kind = "kind".to_owned();
    let mut traversal = Traversal::new();
    traversal.dep(&providers("a"));
    traversal.dep_with_plugins(
        &providers("b"),
        PluginKindSet { kinds: vec![("kind".to_owned(), true)] },
    );
    traversal.exec_dep(&providers("e"));
    traversal.toolchain_dep(&providers("tc"));
    traversal.plugin_dep(&label("direct"), &kind);
    let mut lists = PluginLists::new();
    lists.insert(&kind, &label("inherited"), PluginListElemKind::Propagate);
    let results = vec![found(node("a")), found(node_with("b", lists))];
    let (gathered, errors) =
        gather_deps(&t, traversal, results, &vec!["kind".to_owned()], Ok(cfg("exec")))
            .ok()
            .unwrap();
    assert!(errors.finalize::<()>().is_none());
    assert_eq!(gathered.deps.len(), 2);
    assert_eq!(gathered.toolchain_deps.len(), 1);
    assert_eq!(gathered.plugin_lists.plugins.len(), 2);
    assert_eq!(gathered.exec_deps.len(), 3);
    let checked = plugins_to_check(&gathered.plugin_lists);
    assert_eq!(checked.len(), 1);
    assert!(checked[0].same_as(&label("direct")));
    let mut without = Traversal::new();
    without.plugin_dep(&label("direct"), &kind);
    let exec_error = || Err(NodeError::Other("no exec".to_owned()));
    assert!(matches!(
        gather_deps(&t, without, vec![], &vec!["kind".to_owned()], exec_error()),
        Err(NodeError::Other(e)) if e == "no exec"
    ));
    let mut unused = Traversal::new();
    unused.plugin_dep(&label("direct"), &kind);
    assert!(gather_deps(&t, unused, vec![], &vec![], exec_error()).is_ok());
}

#[test]
fn plugins_are_visible_and_no_toolchains() {
    let t = target("t");
    let plugins = vec![label("a"), label("b")];
    let good = || Ok(PluginTarget { is_toolchain_rule: false, visible: Ok(true) });
    assert!(check_plugin_deps(&t, &plugins, vec![good(), good()]).is_ok());
    let toolchain = Ok(PluginTarget { is_toolchain_rule: true, visible: Ok(true) });
    assert_eq!(
        check_plugin_deps(&t, &plugins, vec![good(), toolchain]).err().unwrap().message(),
        "Plugin dep `c//p:b` is a toolchain rule"
    );
    let hidden = Ok(PluginTarget { is_toolchain_rule: false, visible: Ok(false) });
    assert_eq!(
        check_plugin_deps(&t, &plugins, vec![hidden, good()]).err().unwrap().message(),
        "`c//p:a` is not visible to `c//p:t`"
    );
    let missing = Err(NodeError::Other("none".to_owned()));
    assert_eq!(
        check_plugin_deps(&t, &plugins, vec![missing, good()]).err().unwrap().message(),
        "looking up unconfigured target node `c//p:a`"
    );
}

#[test]
fn execution_platform_of_a_node() {
    assert!(matches!(choose_execution_platform(&target("t")), ExecutionPlatformChoice::Resolve));
    let of_parent = target("t").with_exec_cfg(cfg("exec"));
    assert!(matches!(
        choose_execution_platform(&of_parent),
        ExecutionPlatformChoice::OfParent(c) if c.same_as(&cfg("exec"))
    ));
    let unbound = ConfiguredTargetLabel::configure(&label("t"), ConfigurationData::Unbound);
    assert!(matches!(
        choose_execution_platform(&unbound),
        ExecutionPlatformChoice::Unspecified
    ));
    assert!(resolve_execution_platform(true, &"f".to_owned(), &cfg("t")).is_none());
    let legacy = resolve_execution_platform(false, &"f".to_owned(), &cfg("t")).unwrap();
    assert!(legacy.cfg().same_as(&cfg("t")));
    assert!(ExecutionPlatformResolution::unspecified()
        .cfg()
        .same_as(&ConfigurationData::Unspecified));
}

#[test]
fn toolchains_and_exec_deps_are_looked_up_for_the_platform() {
    let exec = cfg("exec");
    let toolchains = toolchain_lookups(&vec![target("tc")], &exec);
    assert!(toolchains[0].same_as(&target("tc").with_exec_cfg(cfg("exec"))));
    let execs = exec_lookups(&vec![(providers("e"), CheckVisibility::No)], &exec);
    assert!(execs[0].0.target.same_as(&label("e")));
    assert!(execs[0].0.cfg.same_as(&exec));
    assert_eq!(execs[0].1, CheckVisibility::No);
}

fn no_deps() -> GatheredDeps {
    GatheredDeps {
        deps: vec![node("d")],
        exec_deps: vec![],
        toolchain_deps: vec![],
        plugin_lists: PluginLists::new(),
    }
}

fn parts() -> NodeParts {
    NodeParts {
        attrs: vec![attr("a", "1")],
        configuration: Arc::new(NodeConfiguration {
            cfg: cfg("t"),
            matching: vec![label("setting")],
            platform_cfgs: PlatformCfgs::new(),
        }),
        transitions: Arc::new(ResolvedTransitions::new()),
    }
}

fn legacy() -> ExecutionPlatformResolution {
    resolve_execution_platform(false, &"f".to_owned(), &cfg("t")).unwrap()
}

#[test]
fn node_has_all_its_deps() {
    let label_of = target("t").with_exec_cfg(cfg("exec"));
    let finish = |toolchains, execs| {
        finish_configured_node(
            &label_of,
            parts(),
            legacy(),
            no_deps(),
            ErrorsAndIncompatibilities::default(),
            toolchains,
            execs,
        )
    };
    match finish(vec![found(node("tc"))], vec![(found(node("e")), CheckVisibility::Yes)]) {
        Ok(MaybeCompatible::Compatible(n)) => {
            assert!(n.label.same_as(&label_of));
            assert_eq!((n.deps.len(), n.exec_deps.len()), (2, 1));
            assert_eq!((n.attrs.len(), n.configuration.matching.len()), (1, 1));
            assert!(n.execution_platform.platform.is_some());
        }
        _ => panic!("the node is there"),
    }
    assert!(matches!(
        finish(vec![failed("e")], vec![]),
        Err(NodeError::Other(e)) if e == "e"
    ));
    match finish(vec![failed("e"), incompatible("i")], vec![]) {
        Ok(MaybeCompatible::Incompatible(reason)) => {
            assert!(reason.target.same_as(&target("t")));
        }
        _ => panic!("incompatible"),
    }
}

fn to_configure(platforms: &[&str], transitions: &[&str]) -> Arc<TargetToConfigure> {
    Arc::new(TargetToConfigure {
        configuration_deps: vec![label("setting")],
        platform_deps: platforms.iter().map(|p| label(p)).collect(),
        transition_deps: transitions.iter().map(|t| (*t).to_owned()).collect(),
        uses_plugins: vec![],
    })
}

fn lookup(name: &str, value: &str) -> TransitionAttrLookup {
    TransitionAttrLookup { attr: name.to_owned(), found: Ok(Some(attr(name, value))) }
}

fn settings() -> NodeEvent {
    NodeEvent::Configuration(Ok(ResolvedConfiguration {
        target_compatible_with: None,
        legacy_compatible_with: None,
        matching: vec![label("setting")],
    }))
}

#[test]
fn a_node_is_computed_step_by_step() {
    let (c, action) = NodeComputation::start(target("t"), to_configure(&["p"], &["x", "y"]));
    match action {
        NodeAction::ResolveConfiguration { cfg: asked, cell, deps } => {
            assert!(asked.same_as(&cfg("t")));
            assert_eq!((cell.as_str(), deps.len()), ("c", 1));
        }
        _ => panic!("the configuration comes first"),
    }
    let (c, action) = c.step(settings());
    assert!(matches!(action, NodeAction::GetPlatform(p) if p.same_as(&label("p"))));
    let (c, action) = c.step(NodeEvent::PlatformCfg(Ok(cfg("pc"))));
    match action {
        NodeAction::GetTransitionAttrs { transition, configuration } => {
            assert_eq!(transition, "x");
            assert_eq!(configuration.platform_cfgs.cfgs.len(), 1);
            assert_eq!(configuration.matching.len(), 1);
        }
        _ => panic!("the attributes of a transition"),
    }
    let (c, action) = c.step(NodeEvent::TransitionAttrs(Ok(vec![lookup("a", "1")])));
    assert!(matches!(action, NodeAction::GetTransitionAttrs { transition, .. } if transition == "y"));
    let (c, action) =
        c.step(NodeEvent::TransitionAttrs(Ok(vec![lookup("a", "1"), lookup("b", "2")])));
    match action {
        NodeAction::ApplyTransition { transition, cfg: from, attrs } => {
            assert_eq!((transition.as_str(), attrs.len()), ("x", 2));
            assert!(from.same_as(&cfg("t")));
        }
        _ => panic!("a transition"),
    }
    let applied = || Arc::new(TransitionApplied::Single(cfg("after")));
    let (c, _) = c.step(NodeEvent::Transition(Ok(applied())));
    let (c, action) = c.step(NodeEvent::Transition(Ok(applied())));
    assert!(
        matches!(action, NodeAction::ConfigureAttrs { transitions, .. } if transitions.list.len() == 2)
    );
    let mut traversal = Traversal::new();
    traversal.dep(&providers("d"));
    let (c, action) = c.step(NodeEvent::Attrs(Ok((vec![attr("a", "1")], traversal))));
    assert!(matches!(action, NodeAction::GatherDeps(l) if l.len() == 1 && l[0].same_as(&target("d"))));
    let (c, action) = c.step(NodeEvent::Deps(Ok(vec![found(node("d"))])));
    assert!(matches!(action, NodeAction::LookUpPlugins(p) if p.is_empty()));
    let (c, action) = c.step(NodeEvent::Plugins(vec![]));
    assert!(matches!(action, NodeAction::FindPlatform(ExecutionPlatformChoice::Resolve)));
    let (c, action) = c.step(NodeEvent::Platform(Ok(legacy())));
    assert!(matches!(action, NodeAction::LookUpDeps { .. }));
    let (_, action) = c.step(NodeEvent::LookedUp(Ok((vec![], vec![]))));
    match action {
        NodeAction::Finish(Ok(MaybeCompatible::Compatible(n))) => {
            assert_eq!((n.deps.len(), n.attrs.len()), (1, 1));
            assert_eq!(n.resolved_transitions.list.len(), 2);
            assert!(n.execution_platform.platform.is_some());
        }
        _ => panic!("the node is there"),
    }
}

#[test]
fn incompatible_targets_ask_for_nothing() {
    let (c, _) = NodeComputation::start(target("t"), to_configure(&[], &[]));
    let (_, action) = c.step(NodeEvent::Configuration(Ok(ResolvedConfiguration {
        target_compatible_with: compatible_with(&["arm"]),
        legacy_compatible_with: None,
        matching: vec![],
    })));
    assert!(matches!(action, NodeAction::Finish(Ok(MaybeCompatible::Incompatible(_)))));
    let (c, _) = NodeComputation::start(target("t"), to_configure(&[], &[]));
    let (_, action) =
        c.step(NodeEvent::Configuration(Err(NodeError::Other("bad".to_owned()))));
    match action {
        NodeAction::Finish(Err(e)) => assert_eq!(
            e.message(),
            "Error resolving configuration deps of `c//p:t (t)`"
        ),
        _ => panic!("an error"),
    }
}

fn after_apply() -> ForwardComputation {
    let (c, action) =
        ForwardComputation::start(target("n"), "tr".to_owned(), to_configure(&["p"], &[]));
    assert!(matches!(action, ForwardAction::GetPlatform(_)));
    let (c, action) = c.step(ForwardEvent::PlatformCfg(Ok(cfg("pc"))));
    assert!(matches!(action, ForwardAction::ResolveConfiguration { .. }));
    let (c, action) = c.step(ForwardEvent::Configuration(Ok(vec![])));
    assert!(
        matches!(action, ForwardAction::GetTransitionAttrs { transition, .. } if transition == "tr")
    );
    let (c, action) = c.step(ForwardEvent::TransitionAttrs(Ok(vec![lookup("a", "1")])));
    assert!(matches!(action, ForwardAction::ApplyTransition { attrs, .. } if attrs.len() == 1));
    c
}

#[test]
fn a_node_with_a_transition_is_computed_step_by_step() {
    let (c, action) = after_apply().step(ForwardEvent::Transition(Ok(cfg("t"))));
    assert!(matches!(action, ForwardAction::ComputePlain(l) if l.same_as(&target("n"))));
    let (_, action) = c.step(ForwardEvent::Node(Err(NodeError::Other("e".to_owned()))));
    assert!(matches!(action, ForwardAction::Finish(Err(NodeError::Other(e))) if e == "e"));

    let forward = |value: &str| {
        let (c, action) = after_apply().step(ForwardEvent::Transition(Ok(cfg("new"))));
        assert!(
            matches!(action, ForwardAction::ComputeTransitioned(k) if k.transitioned.cfg.same_as(&cfg("new")))
        );
        let mut n = transitioned(vec![]);
        n.forward_target = Some(Arc::new(transitioned(vec![attr("a", value)])));
        c.step(ForwardEvent::Node(Ok(MaybeCompatible::Compatible(Arc::new(n))))).1
    };
    assert!(matches!(forward("1"), ForwardAction::Finish(Ok(MaybeCompatible::Compatible(_)))));
    assert!(matches!(
        forward("2"),
        ForwardAction::Finish(Err(NodeError::TransitionAttrIncompatibleChange(..)))
    ));

    let (c, _) = ForwardComputation::start(target("n"), "tr".to_owned(), to_configure(&[], &[]));
    let (_, action) = c.step(ForwardEvent::Configuration(Err(NodeError::Other("bad".to_owned()))));
    match action {
        ForwardAction::Finish(Err(e)) => assert_eq!(
            e.message(),
            "Error resolving configuration deps of `c//p:n (t)`"
        ),
        _ => panic!("an error"),
    }
}

fn info(is_toolchain_rule: bool, has_transition_deps: bool, cfg: Option<&str>) -> TargetNodeInfo {
    TargetNodeInfo {
        label: label("n"),
        is_toolchain_rule,
        has_transition_deps,
        cfg: cfg.map(|c| c.to_owned()),
    }
}

#[test]
fn nodes_are_routed() {
    let key = ConfiguredTargetNodeKey(target("n"));
    let route = |k: &ConfiguredTargetNodeKey, i| route_configured_target_node(k, Ok(i));
    assert!(matches!(route(&key, info(false, false, None)), Ok(NodeRoute::Plain)));
    assert!(matches!(
        route(&key, info(false, false, Some("tr"))),
        Ok(NodeRoute::Transition(t)) if t == "tr"
    ));
    assert!(matches!(
        route(&key, info(true, false, None)),
        Err(NodeError::ToolchainRuleUsedAsNormalDep(_))
    ));
    let toolchain = ConfiguredTargetNodeKey(target("n").with_exec_cfg(cfg("exec")));
    assert!(matches!(route(&toolchain, info(true, false, None)), Ok(NodeRoute::Plain)));
    assert!(matches!(
        route(&toolchain, info(false, false, None)),
        Err(NodeError::NonToolchainRuleUsedAsToolchainDep(_))
    ));
    let missing = Err(NodeError::Other("none".to_owned()));
    assert_eq!(
        route_configured_target_node(&key, missing).err().unwrap().message(),
        "looking up unconfigured target node `c//p:n`"
    );
}

#[test]
fn transitions_forward_to_another_node() {
    assert!(matches!(after_transition(&target("n"), cfg("t")), AfterTransition::Same));
    let key = match after_transition(&target("n"), cfg("other")) {
        AfterTransition::Forward(key) => key,
        AfterTransition::Same => panic!("the configuration changes"),
    };
    assert_eq!(
        key.display(),
        "ConfiguredTransitionedNodeKey(c//p:n (t), c//p:n (other))"
    );
    let inner = Arc::new(ConfiguredTargetNode {
        label: ConfiguredTargetLabel::configure(&label("n"), cfg("other")),
        attrs: vec![],
        configuration: Arc::new(NodeConfiguration {
            cfg: cfg("t"),
            matching: vec![],
            platform_cfgs: PlatformCfgs::new(),
        }),
        resolved_transitions: Arc::new(ResolvedTransitions::new()),
        execution_platform: ExecutionPlatformResolution::unspecified(),
        deps: vec![],
        exec_deps: vec![],
        plugin_lists: PluginLists::new(),
        forward_target: None,
    });
    match forward_node(&key, MaybeCompatible::Compatible(inner)) {
        MaybeCompatible::Compatible(n) => {
            assert!(n.label.same_as(&target("n")));
            assert!(n.forward_target.as_ref().unwrap().label.cfg.same_as(&cfg("other")));
        }
        MaybeCompatible::Incompatible(_) => panic!("compatible"),
    }
    let key = ConfiguredTransitionedNodeKey {
        forward: target("n"),
        transitioned: ConfiguredTargetLabel::configure(&label("n"), cfg("other")),
    };
    assert!(matches!(
        forward_node(&key, MaybeCompatible::Incompatible(reason("n"))),
        MaybeCompatible::Incompatible(_)
    ));
}

fn attr(name: &str, value: &str) -> (String, Arc<ConfiguredAttr>) {
    let attr = ConfiguredAttr { value: value.to_owned(), display: value.to_owned() };
    (name.to_owned(), Arc::new(attr))
}

fn transitioned(attrs: Vec<(String, Arc<ConfiguredAttr>)>) -> ConfiguredTargetNode {
    ConfiguredTargetNode {
        label: ConfiguredTargetLabel::configure(&label("n"), cfg("new")),
        attrs,
        configuration: Arc::new(NodeConfiguration {
            cfg: cfg("t"),
            matching: vec![],
            platform_cfgs: PlatformCfgs::new(),
        }),
        resolved_transitions: Arc::new(ResolvedTransitions::new()),
        execution_platform: ExecutionPlatformResolution::unspecified(),
        deps: vec![],
        exec_deps: vec![],
        plugin_lists: PluginLists::new(),
        forward_target: None,
    }
}

#[test]
fn attributes_of_a_transition_do_not_change() {
    let before = vec![attr("a", "1")];
    let verify = |n: ConfiguredTargetNode| verify_transitioned_attrs(&before, &cfg("old"), &n);
    assert!(verify(transitioned(vec![attr("b", "2"), attr("a", "1")])).is_ok());
    assert!(matches!(
        verify(transitioned(vec![attr("a", "2")])),
        Err(NodeError::TransitionAttrIncompatibleChange(..))
    ));
    assert_eq!(
        verify(transitioned(vec![])).err().unwrap().message(),
        "Attr a was not found in transition for target c//p:n (new)"
    );
    let finish = |n| finish_forward_target_node(&before, &cfg("old"), n);
    assert!(matches!(
        finish(MaybeCompatible::Incompatible(reason("n"))),
        Ok(MaybeCompatible::Incompatible(_))
    ));
    let plain = Arc::new(transitioned(vec![attr("a", "1")]));
    assert_eq!(
        finish(MaybeCompatible::Compatible(plain)).err().unwrap().message(),
        "must be forward node"
    );
    let mut forward = transitioned(vec![]);
    forward.forward_target = Some(Arc::new(transitioned(vec![attr("a", "1")])));
    assert!(finish(MaybeCompatible::Compatible(Arc::new(forward))).is_ok());
}

#[test]
fn attributes_for_a_transition_are_distinct() {
    let lookup = |name: &str, found| TransitionAttrLookup { attr: name.to_owned(), found };
    let attrs = resolve_transition_attrs(
        &label("t"),
        vec![lookup("a", Ok(Some(attr("a", "1")))), lookup("b", Ok(None))],
    )
    .ok()
    .unwrap();
    assert_eq!(attrs.len(), 1);
    let repeated = resolve_transition_attrs(
        &label("t"),
        vec![lookup("a", Ok(Some(attr("a", "1")))), lookup("a", Ok(Some(attr("a", "2"))))],
    )
    .ok()
    .unwrap();
    assert_eq!((repeated.len(), repeated[0].1.value.as_str()), (1, "1"));
    let duplicate = resolve_transition_attrs(
        &label("t"),
        vec![lookup("a", Ok(Some(attr("a", "1")))), lookup("b", Ok(Some(attr("a", "2"))))],
    );
    assert_eq!(
        duplicate.err().unwrap().message(),
        "Found duplicated value `1` for attr `b` on target `c//p:t`"
    );
    assert!(matches!(
        resolve_transition_attrs(
            &label("t"),
            vec![lookup("a", Err(NodeError::Other("e".to_owned())))]
        ),
        Err(NodeError::Other(e)) if e == "e"
    ));
}

fn constraints(name: &str) -> ToolchainConstraints {
    ToolchainConstraints {
        exec_deps: vec![label(name)],
        exec_compatible_with: vec![],
        toolchain_allows: vec![],
    }
}

#[test]
fn toolchain_constraints_nest() {
    let t = target("tc");
    assert!(check_toolchain_node(&t, &info(true, false, None)).is_ok());
    assert!(matches!(
        check_toolchain_node(&t, &info(true, true, None)),
        Err(NodeError::ToolchainTransitionDep(l)) if l.same_as(&label("tc"))
    ));
    let own = ExecutionPlatformConstraints::new_constraints(vec![label("e")], vec![], vec![]);
    let nested = execution_platforms_for_toolchain(
        ErrorsAndIncompatibilities::default(),
        Ok(own),
        vec![Ok(constraints("inner"))],
    )
    .ok()
    .unwrap();
    assert!(nested.exec_deps[0].same_as(&label("e")));
    assert!(nested.toolchain_allows[0].exec_deps[0].same_as(&label("inner")));
    assert!(toolchain_allows(vec![Err(NodeError::Other("e".to_owned()))]).is_err());
    let mut errors = ErrorsAndIncompatibilities::default();
    errors.unpack_dep(&t, incompatible("i"), CheckVisibility::Yes);
    let refused = execution_platforms_for_toolchain(
        errors,
        Ok(ExecutionPlatformConstraints::new_constraints(vec![], vec![], vec![])),
        vec![],
    );
    assert!(matches!(refused, Err(NodeError::Incompatible(_))));
    let request = ExecutionPlatformConstraints::new_constraints(vec![label("e")], vec![], vec![])
        .one_for_cell("cell".to_owned(), vec![constraints("inner")]);
    assert_eq!(request.cell, "cell");
    assert_eq!((request.exec_deps.len(), request.toolchain_allows.len()), (1, 1));
}

#[test]
fn constraints_of_a_node() {
    let settings = Some(Ok(vec![Ok(label("linux"))]));
    let own = ExecutionPlatformConstraints::new(&no_deps(), settings).ok().unwrap();
    assert!(own.exec_compatible_with[0].same_as(&label("linux")));
    let failed = Some(Err(NodeError::Other("e".to_owned())));
    assert_eq!(
        ExecutionPlatformConstraints::new(&no_deps(), failed).err().unwrap().message(),
        "Error configuring attribute `exec_compatible_with` to resolve execution platform"
    );
    let unlabelled = Some(Ok(vec![Err("not a label".to_owned())]));
    assert_eq!(
        ExecutionPlatformConstraints::new(&no_deps(), unlabelled).err().unwrap().message(),
        "attribute `exec_compatible_with`"
    );
}

#[test]
fn platform_of_a_toolchain() {
    let t = target("tc");
    let get = |errors, platform| {
        get_execution_platform_toolchain_dep(&t, &info(true, false, None), errors, platform)
    };
    assert!(matches!(
        get(ErrorsAndIncompatibilities::default(), Ok("p")),
        Ok(MaybeCompatible::Compatible("p"))
    ));
    let mut errors = ErrorsAndIncompatibilities::default();
    errors.unpack_dep(&t, incompatible("i"), CheckVisibility::Yes);
    assert!(matches!(get(errors, Ok("p")), Ok(MaybeCompatible::Incompatible(_))));
    assert!(get_execution_platform_toolchain_dep(
        &t,
        &info(true, true, None),
        ErrorsAndIncompatibilities::default(),
        Ok("p")
    )
    .is_err());
}

#[test]
fn platform_configurations_by_label() {
    let mut cfgs = PlatformCfgs { cfgs: vec![] };
    cfgs.insert(&label("a"), cfg("1"));
    cfgs.insert(&label("b"), cfg("2"));
    cfgs.insert(&label("a"), cfg("3"));
    assert!(cfgs.platform_cfg(&label("a")).unwrap().same_as(&cfg("3")));
    assert!(cfgs.platform_cfg(&label("b")).unwrap().same_as(&cfg("2")));
    assert!(matches!(
        cfgs.platform_cfg(&label("x")),
        Err(NodeError::UnknownPlatformTarget(_))
    ));
}

#[test]
fn lookups_show_how_they_came_about() {
    let inner = LookingUpConfiguredNodeContext::new(target("a"), None);
    assert_eq!(inner.display(), "Error looking up configured node c//p:a (t)");
    let same = LookingUpConfiguredNodeContext::new(target("b"), Some(Arc::new(inner)));
    let other = ConfiguredTargetLabel::configure(&label("c"), cfg("u"));
    let outer = LookingUpConfiguredNodeContext::new(other, Some(Arc::new(same)));
    assert_eq!(outer.len, 3);
    assert_eq!(
        outer.display(),
        "Error in configured node dependency, dependency chain follows (-> indicates depends on, \
         ^ indicates same configuration as previous):\n       c//p:c (u)\n    -> c//p:b (t)\n    \
         -> c//p:a (^)\n"
    );
    let kept: Result<u8, ((), Arc<LookingUpConfiguredNodeContext>)> =
        LookingUpConfiguredNodeContext::add_context(Ok(1), target("a"));
    assert_eq!(kept.ok(), Some(1));
    let added = LookingUpConfiguredNodeContext::add_context::<u8, &str>(
        Err(("e", Some(Arc::new(outer)))),
        target("d"),
    );
    let (e, context) = added.err().unwrap();
    assert_eq!((e, context.len), ("e", 4));
    assert!(context.target.same_as(&target("d")));
}
