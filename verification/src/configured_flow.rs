//! The course of computing a configured node: the order in which other parts are asked, and
//! transitions to other configurations.
use std::sync::Arc;
use vstd::prelude::*;
use vstd::string::*;

use crate::configured;
use crate::configured::check_compatible;
use crate::configured::CompatibleWithAttr;
use crate::configured::MaybeCompatible;
use crate::configured::NodeError;
use crate::configured_deps;
use crate::configured_deps::CheckVisibility;
use crate::configured_deps::ConfiguredAttr;
use crate::configured_deps::ConfiguredTargetNode;
use crate::configured_deps::DepResult;
use crate::configured_deps::ErrorsAndIncompatibilities;
use crate::configured_deps::NodeConfiguration;
use crate::configured_deps::PluginLists;
use crate::configured_deps::ResolvedTransitions;
use crate::configured_deps::TransitionApplied;
use crate::configured_deps::Traversal;
use crate::configured_node;
use crate::configured_node::ExecutionPlatformChoice;
use crate::configured_node::ExecutionPlatformResolution;
use crate::configured_node::GatheredDeps;
use crate::configured_node::NodeParts;
use crate::configured_node::PluginTarget;
use crate::labels;
use crate::labels::ConfigurationData;
use crate::labels::ConfiguredTargetLabel;
use crate::labels::TargetLabel;
use crate::text;
use crate::text::str_eq;
use crate::toolchains;
use crate::toolchains::PlatformCfgs;

verus! {

/// What resolving the configuration of a node gives: its compatibility attributes and the
/// settings that hold.
pub struct ResolvedConfiguration {
    pub target_compatible_with: Option<Result<CompatibleWithAttr, NodeError>>,
    pub legacy_compatible_with: Option<Result<CompatibleWithAttr, NodeError>>,
    pub matching: Vec<TargetLabel>,
}

/// What configuring a target asks for: the settings and the platforms that it names, the transitions
/// of its dependencies, and the kinds of plugins that it uses.
#[derive(Debug)]
pub struct TargetToConfigure {
    pub configuration_deps: Vec<TargetLabel>,
    pub platform_deps: Vec<TargetLabel>,
    pub transition_deps: Vec<String>,
    pub uses_plugins: Vec<String>,
}

/// How far the computation of a node has come.
pub enum NodeState {
    ResolvingConfiguration,
    /// The configurations of the first `done` platforms are known.
    ComputingPlatforms { matching: Vec<TargetLabel>, cfgs: PlatformCfgs, done: usize },
    /// The attributes that the first `done` transitions depend on are known.
    ResolvingTransitionAttrs {
        configuration: Arc<NodeConfiguration>,
        attrs: Vec<(String, Arc<ConfiguredAttr>)>,
        done: usize,
    },
    /// The first `done` transitions have been applied.
    ApplyingTransitions {
        configuration: Arc<NodeConfiguration>,
        shared_attrs: Arc<Vec<(String, Arc<ConfiguredAttr>)>>,
        applied: ResolvedTransitions,
        done: usize,
    },
    ConfiguringAttrs { configuration: Arc<NodeConfiguration>, transitions: Arc<ResolvedTransitions> },
    GatheringDeps { parts: NodeParts, traversal: Traversal },
    CheckingPlugins {
        parts: NodeParts,
        gathered: GatheredDeps,
        errors: ErrorsAndIncompatibilities,
        plugins: Vec<TargetLabel>,
    },
    ResolvingPlatform {
        parts: NodeParts,
        gathered: GatheredDeps,
        errors: ErrorsAndIncompatibilities,
    },
    LookingUpDeps {
        parts: NodeParts,
        gathered: GatheredDeps,
        errors: ErrorsAndIncompatibilities,
        platform: ExecutionPlatformResolution,
    },
    Done,
}

/// The answer to what was asked for.
pub enum NodeEvent {
    Configuration(Result<ResolvedConfiguration, NodeError>),
    PlatformCfg(Result<ConfigurationData, NodeError>),
    TransitionAttrs(Result<Vec<TransitionAttrLookup>, NodeError>),
    Transition(Result<Arc<TransitionApplied>, NodeError>),
    /// The configured attributes, and what they depend on.
    Attrs(Result<(Vec<(String, Arc<ConfiguredAttr>)>, Traversal), NodeError>),
    /// What the dependencies are; or that there is a cycle.
    Deps(Result<Vec<DepResult>, NodeError>),
    Plugins(Vec<Result<PluginTarget, NodeError>>),
    Platform(Result<ExecutionPlatformResolution, NodeError>),
    /// What the toolchains and the execution dependencies are; or that there is a cycle.
    LookedUp(Result<(Vec<DepResult>, Vec<(DepResult, CheckVisibility)>), NodeError>),
}

/// What is asked for next.
pub enum NodeAction {
    /// Which settings hold in the configuration, seen from the cell.
    ResolveConfiguration { cfg: ConfigurationData, cell: String, deps: Vec<TargetLabel> },
    GetPlatform(TargetLabel),
    /// What the target has for the attributes that the transition names.
    GetTransitionAttrs { transition: String, configuration: Arc<NodeConfiguration> },
    ApplyTransition {
        transition: String,
        cfg: ConfigurationData,
        attrs: Arc<Vec<(String, Arc<ConfiguredAttr>)>>,
    },
    /// The attributes, configured while the execution configuration is not known.
    ConfigureAttrs {
        configuration: Arc<NodeConfiguration>,
        transitions: Arc<ResolvedTransitions>,
    },
    GatherDeps(Vec<ConfiguredTargetLabel>),
    LookUpPlugins(Vec<TargetLabel>),
    FindPlatform(ExecutionPlatformChoice),
    LookUpDeps {
        toolchains: Vec<ConfiguredTargetLabel>,
        exec_list: Vec<(ConfiguredTargetLabel, CheckVisibility)>,
    },
    Finish(Result<MaybeCompatible<Arc<ConfiguredTargetNode>>, NodeError>),
}

/// `event` answers what is asked for in `state`.
pub open spec fn answers(state: NodeState, event: NodeEvent) -> bool {
    match (state, event) {
        (NodeState::ResolvingConfiguration, NodeEvent::Configuration(_)) => true,
        (NodeState::ComputingPlatforms { .. }, NodeEvent::PlatformCfg(_)) => true,
        (NodeState::ResolvingTransitionAttrs { .. }, NodeEvent::TransitionAttrs(_)) => true,
        (NodeState::ApplyingTransitions { .. }, NodeEvent::Transition(_)) => true,
        (NodeState::ConfiguringAttrs { .. }, NodeEvent::Attrs(_)) => true,
        (NodeState::GatheringDeps { traversal, .. }, NodeEvent::Deps(r)) => r matches Ok(found)
            ==> found@.len() == traversal.deps@.len(),
        (NodeState::CheckingPlugins { plugins, .. }, NodeEvent::Plugins(l)) => plugins@.len()
            == l@.len(),
        (NodeState::ResolvingPlatform { .. }, NodeEvent::Platform(_)) => true,
        (NodeState::LookingUpDeps { gathered, .. }, NodeEvent::LookedUp(r)) => r matches Ok(found)
            ==> {
            &&& found.0@.len() == gathered.toolchain_deps@.len()
            &&& found.1@.len() == gathered.exec_deps@.len()
            &&& forall|i: int|
                0 <= i < found.1@.len() ==> (#[trigger] found.1@[i]).1 == gathered.exec_deps@[i].1
        },
        _ => false,
    }
}

/// The computation ends with an error.
pub open spec fn fails(next: NodeState, action: NodeAction, e: NodeError) -> bool {
    next is Done && action == NodeAction::Finish(
        Err::<MaybeCompatible<Arc<ConfiguredTargetNode>>, NodeError>(e),
    )
}

/// The computation goes on after `done` platforms: with the next, or with the transitions.
pub open spec fn asks_platform(
    label: ConfiguredTargetLabel,
    node: TargetToConfigure,
    matching: Vec<TargetLabel>,
    platforms: Seq<(TargetLabel, ConfigurationData)>,
    done: int,
    next: NodeState,
    action: NodeAction,
) -> bool {
    if done < node.platform_deps@.len() {
        &&& next matches NodeState::ComputingPlatforms { matching: m, cfgs, done: d }
        &&& m == matching
        &&& cfgs.cfgs@ == platforms
        &&& d == done
        &&& action == NodeAction::GetPlatform(node.platform_deps@[done])
    } else {
        exists|configuration: NodeConfiguration| #[trigger]
            is_configuration(configuration, label.cfg, matching, platforms)
                && asks_transition_attrs(
                label,
                node,
                configuration,
                Seq::empty(),
                0,
                next,
                action,
            )
    }
}

/// The parts of a configuration.
pub open spec fn is_configuration(
    configuration: NodeConfiguration,
    cfg: ConfigurationData,
    matching: Vec<TargetLabel>,
    platforms: Seq<(TargetLabel, ConfigurationData)>,
) -> bool {
    &&& configuration.cfg == cfg
    &&& configuration.matching == matching
    &&& configuration.platform_cfgs.cfgs@ == platforms
}

/// The computation goes on after the attributes of `done` transitions: with those of the next, or by
/// applying the transitions.
pub open spec fn asks_transition_attrs(
    label: ConfiguredTargetLabel,
    node: TargetToConfigure,
    configuration: NodeConfiguration,
    attrs: Seq<(String, Arc<ConfiguredAttr>)>,
    done: int,
    next: NodeState,
    action: NodeAction,
) -> bool {
    if done < node.transition_deps@.len() {
        &&& next matches NodeState::ResolvingTransitionAttrs { configuration: c, attrs: a, done: d }
        &&& *c == configuration
        &&& a@ == attrs
        &&& d == done
        &&& action == (NodeAction::GetTransitionAttrs {
            transition: node.transition_deps@[done],
            configuration: c,
        })
    } else {
        asks_transition(label, node, configuration, attrs, Seq::empty(), 0, next, action)
    }
}

/// The computation goes on after `done` transitions were applied: with the next, or by configuring
/// the attributes.
pub open spec fn asks_transition(
    label: ConfiguredTargetLabel,
    node: TargetToConfigure,
    configuration: NodeConfiguration,
    attrs: Seq<(String, Arc<ConfiguredAttr>)>,
    applied: Seq<(Seq<char>, Arc<TransitionApplied>)>,
    done: int,
    next: NodeState,
    action: NodeAction,
) -> bool {
    if done < node.transition_deps@.len() {
        &&& next matches NodeState::ApplyingTransitions {
            configuration: c,
            shared_attrs: a,
            applied: transitions,
            done: d,
        }
        &&& *c == configuration
        &&& a@ == attrs
        &&& transitions@ == applied
        &&& d == done
        &&& action == (NodeAction::ApplyTransition {
            transition: node.transition_deps@[done],
            cfg: label.cfg,
            attrs: a,
        })
    } else {
        &&& next matches NodeState::ConfiguringAttrs { configuration: c, transitions }
        &&& *c == configuration
        &&& transitions@ == applied
        &&& action == (NodeAction::ConfigureAttrs { configuration: c, transitions })
    }
}

/// Nothing is wrong with any of the plugins that were looked up.
pub open spec fn all_plugins_ok(lookups: Seq<Result<PluginTarget, NodeError>>) -> bool {
    forall|i: int| 0 <= i < lookups.len() ==> configured_node::plugin_ok(#[trigger] lookups[i])
}

/// `next` and `action` follow on `event` in `state`, in the computation of `label`.
pub open spec fn follows(
    label: ConfiguredTargetLabel,
    node: TargetToConfigure,
    state: NodeState,
    event: NodeEvent,
    next: NodeState,
    action: NodeAction,
) -> bool {
    match (state, event) {
        (NodeState::ResolvingConfiguration, NodeEvent::Configuration(Err(e))) => {
            &&& next is Done
            &&& action matches NodeAction::Finish(Err(error))
            &&& is_configuration_error(error, label, e)
        },
        // Compatibility is checked before any other attribute is looked at.
        (NodeState::ResolvingConfiguration, NodeEvent::Configuration(Ok(c))) => exists|
            compatible: Result<MaybeCompatible<()>, NodeError>,
        | #[trigger]
            configured::is_compatibility(
                compatible,
                label,
                c.target_compatible_with,
                c.legacy_compatible_with,
                c.matching@,
            ) && match compatible {
                Err(e) => fails(next, action, e),
                Ok(MaybeCompatible::Incompatible(reason)) => next is Done && action
                    == NodeAction::Finish(
                    Ok::<MaybeCompatible<Arc<ConfiguredTargetNode>>, NodeError>(
                        MaybeCompatible::Incompatible(reason),
                    ),
                ),
                Ok(MaybeCompatible::Compatible(_)) => asks_platform(
                    label,
                    node,
                    c.matching,
                    Seq::empty(),
                    0,
                    next,
                    action,
                ),
            },
        (
            NodeState::ComputingPlatforms { matching, cfgs, done },
            NodeEvent::PlatformCfg(r),
        ) => match r {
            Err(e) => fails(next, action, e),
            Ok(cfg) => exists|platforms: Seq<(TargetLabel, ConfigurationData)>| #[trigger]
                toolchains::platform_noted(
                    cfgs.cfgs@,
                    node.platform_deps@[done as int],
                    cfg,
                    platforms,
                ) && asks_platform(label, node, matching, platforms, done + 1, next, action),
        },
        (
            NodeState::ResolvingTransitionAttrs { configuration, attrs, done },
            NodeEvent::TransitionAttrs(r),
        ) => match r {
            Err(e) => fails(next, action, e),
            Ok(lookups) => match transition_attrs(label.target@, attrs@, lookups@) {
                Ok(after) => asks_transition_attrs(
                    label,
                    node,
                    *configuration,
                    after,
                    done + 1,
                    next,
                    action,
                ),
                Err(AttrsFailure::Lookup(e)) => fails(next, action, e),
                Err(AttrsFailure::Duplicate(m)) => {
                    &&& next is Done
                    &&& action matches NodeAction::Finish(Err(NodeError::Internal(text)))
                    &&& text@ == m
                },
            },
        },
        (
            NodeState::ApplyingTransitions { configuration, shared_attrs, applied: transitions, done },
            NodeEvent::Transition(r),
        ) => match r {
            Err(e) => fails(next, action, e),
            Ok(applied) => asks_transition(
                label,
                node,
                *configuration,
                shared_attrs@,
                configured_deps::transition_insert(
                    transitions@,
                    node.transition_deps@[done as int]@,
                    applied,
                ),
                done + 1,
                next,
                action,
            ),
        },
        (
            NodeState::ConfiguringAttrs { configuration, transitions },
            NodeEvent::Attrs(r),
        ) => match r {
            Err(e) => fails(next, action, e),
            Ok((attrs, found)) => {
                &&& next == (NodeState::GatheringDeps {
                    parts: NodeParts { attrs, configuration, transitions },
                    traversal: found,
                })
                &&& action matches NodeAction::GatherDeps(asked)
                &&& asked@.len() == found.deps@.len()
                &&& forall|i: int|
                    0 <= i < asked@.len() ==> #[trigger] asked@[i] == found.deps@[i].0.target
            },
        },
        (NodeState::GatheringDeps { parts, traversal }, NodeEvent::Deps(r)) => match r {
            Err(e) => fails(next, action, e),
            Ok(results) => {
                &&& next matches NodeState::CheckingPlugins { parts: p, gathered, errors, plugins }
                &&& p == parts
                &&& configured_node::gathers(
                    configured_node::partial_label(label),
                    traversal,
                    results@,
                    node.uses_plugins@,
                    Ok(ConfigurationData::UnboundExec),
                    Ok((gathered, errors)),
                )
                &&& configured_node::target_views(plugins@) == configured_node::direct_plugins(
                    gathered.plugin_lists@,
                )
                &&& action matches NodeAction::LookUpPlugins(asked)
                &&& asked@ == plugins@
            },
        },
        (
            NodeState::CheckingPlugins { parts, gathered, errors, plugins },
            NodeEvent::Plugins(lookups),
        ) => if all_plugins_ok(lookups@) {
            &&& next == (NodeState::ResolvingPlatform { parts, gathered, errors })
            &&& action == NodeAction::FindPlatform(
                if label.cfg is Unbound {
                    ExecutionPlatformChoice::Unspecified
                } else {
                    match label.exec_cfg {
                        Some(c) => ExecutionPlatformChoice::OfParent(c),
                        None => ExecutionPlatformChoice::Resolve,
                    }
                },
            )
        } else {
            &&& next is Done
            &&& action matches NodeAction::Finish(Err(e))
            &&& exists|i: int|
                0 <= i < lookups@.len() && configured_node::plugin_error(
                    e,
                    label,
                    plugins@[i],
                    #[trigger] lookups@[i],
                ) && forall|k: int|
                    0 <= k < i ==> configured_node::plugin_ok(#[trigger] lookups@[k])
        },
        (
            NodeState::ResolvingPlatform { parts, gathered, errors },
            NodeEvent::Platform(r),
        ) => match r {
            Err(e) => fails(next, action, e),
            Ok(platform) => {
                let cfg = configured_node::resolution_cfg(platform);
                &&& next == (NodeState::LookingUpDeps { parts, gathered, errors, platform })
                &&& action matches NodeAction::LookUpDeps { toolchains, exec_list }
                &&& toolchains@.len() == gathered.toolchain_deps@.len()
                &&& forall|i: int|
                    0 <= i < toolchains@.len() ==> #[trigger] toolchains@[i] == (
                    ConfiguredTargetLabel {
                        exec_cfg: Some(cfg),
                        ..gathered.toolchain_deps@[i]
                    })
                &&& exec_list@.len() == gathered.exec_deps@.len()
                &&& forall|i: int|
                    0 <= i < exec_list@.len() ==> #[trigger] exec_list@[i] == (
                        ConfiguredTargetLabel {
                            target: gathered.exec_deps@[i].0.target.target,
                            cfg,
                            exec_cfg: None,
                        },
                        gathered.exec_deps@[i].1,
                    )
            },
        },
        (
            NodeState::LookingUpDeps { parts, gathered, errors, platform },
            NodeEvent::LookedUp(r),
        ) => match r {
            Err(e) => fails(next, action, e),
            Ok((toolchains, exec_list)) => {
                let (s, deps) = configured_node::node_deps(
                    configured_node::partial_label(label),
                    gathered.deps@,
                    errors.errs@,
                    errors.incompats@,
                    toolchains@,
                    exec_list@,
                );
                &&& next is Done
                &&& action matches NodeAction::Finish(result)
                &&& if s.incompats.len() > 0 {
                    result matches Ok(MaybeCompatible::Incompatible(reason)) && reason
                        == s.incompats.last()
                } else if s.errs.len() > 0 {
                    result matches Err(e) && e == s.errs.last()
                } else {
                    &&& result matches Ok(MaybeCompatible::Compatible(n))
                    &&& n.label == label
                    &&& n.attrs == parts.attrs
                    &&& n.configuration == parts.configuration
                    &&& n.resolved_transitions == parts.transitions
                    &&& n.execution_platform == platform
                    &&& n.deps@ == deps
                    &&& n.exec_deps@ == s.deps
                    &&& n.plugin_lists == gathered.plugin_lists
                    &&& n.forward_target is None
                }
            },
        },
        _ => false,
    }
}

/// `error` says that the configuration of `label` could not be resolved because of `source`.
pub open spec fn is_configuration_error(
    error: NodeError,
    label: ConfiguredTargetLabel,
    source: NodeError,
) -> bool {
    &&& error matches NodeError::Context(context, cause)
    &&& *cause == source
    &&& context@ == "Error resolving configuration deps of `"@ + labels::configured_label_text(
        label@,
    ) + "`"@
}

/// Says that the configuration of `label` could not be resolved.
pub fn configuration_error(label: &ConfiguredTargetLabel, source: NodeError) -> (r: NodeError)
    ensures
        is_configuration_error(r, *label, source),
{
    let shown = label.display();
    let context = text::concat3("Error resolving configuration deps of `", shown.as_str(), "`");
    NodeError::Context(context, Box::new(source))
}

/// A copy of some labels.
pub fn clone_labels(labels: &Vec<TargetLabel>) -> (r: Vec<TargetLabel>)
    ensures
        r@ == labels@,
{
    let mut r: Vec<TargetLabel> = Vec::new();
    let mut i: usize = 0;
    while i < labels.len()
        invariant
            i <= labels@.len(),
            r@ == labels@.take(i as int),
        decreases labels@.len() - i,
    {
        r.push(labels[i].dupe());
        i = i + 1;
        assert(r@ =~= labels@.take(i as int));
    }
    assert(r@ =~= labels@);
    r
}

/// The question which settings hold for `label`.
pub open spec fn asks_configuration(
    label: ConfiguredTargetLabel,
    deps: Seq<TargetLabel>,
    cfg: ConfigurationData,
    cell: String,
    asked: Seq<TargetLabel>,
) -> bool {
    &&& cfg == label.cfg
    &&& cell == label.target.cell
    &&& asked == deps
}

/// The computation of a node without regard to a transition of the node itself.
pub struct NodeComputation {
    pub label: ConfiguredTargetLabel,
    pub node: Arc<TargetToConfigure>,
    pub state: NodeState,
}

impl NodeComputation {
    /// What is asked for is there to be asked for.
    pub open spec fn wf(&self) -> bool {
        match self.state {
            NodeState::ComputingPlatforms { done, .. } => done < self.node.platform_deps@.len(),
            NodeState::ResolvingTransitionAttrs {
                done,
                ..
            } => done < self.node.transition_deps@.len(),
            NodeState::ApplyingTransitions {
                done,
                ..
            } => done < self.node.transition_deps@.len(),
            _ => true,
        }
    }

    /// Starts to compute the node; its configuration has to be resolved first.
    pub fn start(label: ConfiguredTargetLabel, node: Arc<TargetToConfigure>) -> (r: (
        Self,
        NodeAction,
    ))
        ensures
            r.0.label == label,
            r.0.node == node,
            r.0.state is ResolvingConfiguration,
            r.0.wf(),
            r.1 matches NodeAction::ResolveConfiguration { cfg, cell, deps } && asks_configuration(
                label,
                node.configuration_deps@,
                cfg,
                cell,
                deps@,
            ),
    {
        let action = NodeAction::ResolveConfiguration {
            cfg: label.cfg.dupe(),
            cell: label.target.cell.clone(),
            deps: clone_labels(&node.configuration_deps),
        };
        (NodeComputation { label, node, state: NodeState::ResolvingConfiguration }, action)
    }

    /// Takes the answer to what was asked for, and says what to ask for next.
    pub fn step(self, event: NodeEvent) -> (r: (Self, NodeAction))
        requires
            self.wf(),
            answers(self.state, event),
        ensures
            r.0.label == self.label,
            r.0.node == self.node,
            r.0.wf(),
            follows(self.label, *self.node, self.state, event, r.0.state, r.1),
    {
        let NodeComputation { label, node, state } = self;
        match (state, event) {
            (NodeState::ResolvingConfiguration, NodeEvent::Configuration(r)) => match r {
                Err(e) => {
                    let error = configuration_error(&label, e);
                    Self::failed(label, node, error)
                },
                Ok(c) => {
                    let ResolvedConfiguration {
                        target_compatible_with,
                        legacy_compatible_with,
                        matching,
                    } = c;
                    match check_compatible(
                        &label,
                        target_compatible_with,
                        legacy_compatible_with,
                        &matching,
                    ) {
                        Err(e) => Self::failed(label, node, e),
                        Ok(MaybeCompatible::Incompatible(reason)) => (
                            NodeComputation { label, node, state: NodeState::Done },
                            NodeAction::Finish(Ok(MaybeCompatible::Incompatible(reason))),
                        ),
                        Ok(MaybeCompatible::Compatible(_)) => Self::ask_platform(
                            label,
                            node,
                            matching,
                            PlatformCfgs::new(),
                            0,
                        ),
                    }
                },
            },
            (
                NodeState::ComputingPlatforms { matching, cfgs, done },
                NodeEvent::PlatformCfg(r),
            ) => match r {
                Err(e) => Self::failed(label, node, e),
                Ok(cfg) => {
                    let mut cfgs = cfgs;
                    assert(done < node.platform_deps.len());
                    cfgs.insert(&node.platform_deps[done], cfg);
                    Self::ask_platform(label, node, matching, cfgs, done + 1)
                },
            },
            (
                NodeState::ResolvingTransitionAttrs { configuration, attrs, done },
                NodeEvent::TransitionAttrs(r),
            ) => match r {
                Err(e) => Self::failed(label, node, e),
                Ok(lookups) => match add_transition_attrs(&label.target, attrs, lookups) {
                    Err(e) => Self::failed(label, node, e),
                    Ok(attrs) => {
                        assert(done < node.transition_deps.len());
                        Self::ask_transition_attrs(label, node, configuration, attrs, done + 1)
                    },
                },
            },
            (
                NodeState::ApplyingTransitions { configuration, shared_attrs, applied: transitions, done },
                NodeEvent::Transition(r),
            ) => match r {
                Err(e) => Self::failed(label, node, e),
                Ok(applied) => {
                    let mut transitions = transitions;
                    assert(done < node.transition_deps.len());
                    transitions.insert(&node.transition_deps[done], applied);
                    Self::ask_transition(
                        label,
                        node,
                        configuration,
                        shared_attrs,
                        transitions,
                        done + 1,
                    )
                },
            },
            (
                NodeState::ConfiguringAttrs { configuration, transitions },
                NodeEvent::Attrs(r),
            ) => match r {
                Err(e) => Self::failed(label, node, e),
                Ok((attrs, traversal)) => {
                    let asked = traversed_labels(&traversal);
                    (
                        NodeComputation {
                            label,
                            node,
                            state: NodeState::GatheringDeps {
                                parts: NodeParts { attrs, configuration, transitions },
                                traversal,
                            },
                        },
                        NodeAction::GatherDeps(asked),
                    )
                },
            },
            (NodeState::GatheringDeps { parts, traversal }, NodeEvent::Deps(r)) => match r {
                Err(e) => Self::failed(label, node, e),
                Ok(results) => {
                    let partial = ConfiguredTargetLabel::configure(
                        &label.target,
                        label.cfg.dupe(),
                    );
                    match configured_node::gather_deps(
                        &partial,
                        traversal,
                        results,
                        &node.uses_plugins,
                        Ok(ConfigurationData::UnboundExec),
                    ) {
                        Err(e) => Self::failed(label, node, e),
                        Ok((gathered, errors)) => {
                            let plugins = configured_node::plugins_to_check(
                                &gathered.plugin_lists,
                            );
                            let asked = clone_labels(&plugins);
                            (
                                NodeComputation {
                                    label,
                                    node,
                                    state: NodeState::CheckingPlugins {
                                        parts,
                                        gathered,
                                        errors,
                                        plugins,
                                    },
                                },
                                NodeAction::LookUpPlugins(asked),
                            )
                        },
                    }
                },
            },
            (
                NodeState::CheckingPlugins { parts, gathered, errors, plugins },
                NodeEvent::Plugins(lookups),
            ) => {
                let ghost all = lookups@;
                match configured_node::check_plugin_deps(&label, &plugins, lookups) {
                    Err(e) => {
                        proof {
                            let i = choose|i: int|
                                0 <= i < all.len() && configured_node::plugin_error(
                                    e,
                                    label,
                                    plugins@[i],
                                    #[trigger] all[i],
                                ) && forall|k: int|
                                    0 <= k < i ==> configured_node::plugin_ok(#[trigger] all[k]);
                            assert(!configured_node::plugin_ok(all[i]));
                        }
                        Self::failed(label, node, e)
                    },
                    Ok(_) => {
                        let choice = configured_node::choose_execution_platform(&label);
                        (
                            NodeComputation {
                                label,
                                node,
                                state: NodeState::ResolvingPlatform { parts, gathered, errors },
                            },
                            NodeAction::FindPlatform(choice),
                        )
                    },
                }
            },
            (
                NodeState::ResolvingPlatform { parts, gathered, errors },
                NodeEvent::Platform(r),
            ) => match r {
                Err(e) => Self::failed(label, node, e),
                Ok(platform) => {
                    let cfg = platform.cfg();
                    let toolchains = configured_node::toolchain_lookups(
                        &gathered.toolchain_deps,
                        &cfg,
                    );
                    let exec_list = configured_node::exec_lookups(&gathered.exec_deps, &cfg);
                    (
                        NodeComputation {
                            label,
                            node,
                            state: NodeState::LookingUpDeps { parts, gathered, errors, platform },
                        },
                        NodeAction::LookUpDeps { toolchains, exec_list },
                    )
                },
            },
            (
                NodeState::LookingUpDeps { parts, gathered, errors, platform },
                NodeEvent::LookedUp(r),
            ) => match r {
                Err(e) => Self::failed(label, node, e),
                Ok((toolchains, exec_list)) => {
                    let result = configured_node::finish_configured_node(
                        &label,
                        parts,
                        platform,
                        gathered,
                        errors,
                        toolchains,
                        exec_list,
                    );
                    (
                        NodeComputation { label, node, state: NodeState::Done },
                        NodeAction::Finish(result),
                    )
                },
            },
            _ => {
                assert(false);
                (
                    NodeComputation { label, node, state: NodeState::Done },
                    NodeAction::LookUpPlugins(Vec::new()),
                )
            },
        }
    }

    fn failed(label: ConfiguredTargetLabel, node: Arc<TargetToConfigure>, e: NodeError) -> (r: (
        Self,
        NodeAction,
    ))
        ensures
            r.0.label == label,
            r.0.node == node,
            fails(r.0.state, r.1, e),
    {
        (NodeComputation { label, node, state: NodeState::Done }, NodeAction::Finish(Err(e)))
    }

    fn ask_platform(
        label: ConfiguredTargetLabel,
        node: Arc<TargetToConfigure>,
        matching: Vec<TargetLabel>,
        cfgs: PlatformCfgs,
        done: usize,
    ) -> (r: (Self, NodeAction))
        ensures
            r.0.label == label,
            r.0.node == node,
            r.0.wf(),
            asks_platform(label, *node, matching, cfgs.cfgs@, done as int, r.0.state, r.1),
    {
        if done < node.platform_deps.len() {
            let asked = node.platform_deps[done].dupe();
            (
                NodeComputation {
                    label,
                    node,
                    state: NodeState::ComputingPlatforms { matching, cfgs, done },
                },
                NodeAction::GetPlatform(asked),
            )
        } else {
            let configuration = NodeConfiguration {
                cfg: label.cfg.dupe(),
                matching,
                platform_cfgs: cfgs,
            };
            assert(is_configuration(configuration, label.cfg, matching, cfgs.cfgs@));
            let attrs: Vec<(String, Arc<ConfiguredAttr>)> = Vec::new();
            assert(attrs@ =~= Seq::empty());
            Self::ask_transition_attrs(label, node, Arc::new(configuration), attrs, 0)
        }
    }

    fn ask_transition_attrs(
        label: ConfiguredTargetLabel,
        node: Arc<TargetToConfigure>,
        configuration: Arc<NodeConfiguration>,
        attrs: Vec<(String, Arc<ConfiguredAttr>)>,
        done: usize,
    ) -> (r: (Self, NodeAction))
        ensures
            r.0.label == label,
            r.0.node == node,
            r.0.wf(),
            asks_transition_attrs(
                label,
                *node,
                *configuration,
                attrs@,
                done as int,
                r.0.state,
                r.1,
            ),
    {
        if done < node.transition_deps.len() {
            let action = NodeAction::GetTransitionAttrs {
                transition: node.transition_deps[done].clone(),
                configuration: configuration.clone(),
            };
            (
                NodeComputation {
                    label,
                    node,
                    state: NodeState::ResolvingTransitionAttrs { configuration, attrs, done },
                },
                action,
            )
        } else {
            Self::ask_transition(
                label,
                node,
                configuration,
                Arc::new(attrs),
                ResolvedTransitions::new(),
                0,
            )
        }
    }

    fn ask_transition(
        label: ConfiguredTargetLabel,
        node: Arc<TargetToConfigure>,
        configuration: Arc<NodeConfiguration>,
        attrs: Arc<Vec<(String, Arc<ConfiguredAttr>)>>,
        transitions: ResolvedTransitions,
        done: usize,
    ) -> (r: (Self, NodeAction))
        ensures
            r.0.label == label,
            r.0.node == node,
            r.0.wf(),
            asks_transition(
                label,
                *node,
                *configuration,
                attrs@,
                transitions@,
                done as int,
                r.0.state,
                r.1,
            ),
    {
        if done < node.transition_deps.len() {
            let action = NodeAction::ApplyTransition {
                transition: node.transition_deps[done].clone(),
                cfg: label.cfg.dupe(),
                attrs: attrs.clone(),
            };
            (
                NodeComputation {
                    label,
                    node,
                    state: NodeState::ApplyingTransitions {
                        configuration,
                        shared_attrs: attrs,
                        applied: transitions,
                        done,
                    },
                },
                action,
            )
        } else {
            let transitions = Arc::new(transitions);
            let action = NodeAction::ConfigureAttrs {
                configuration: configuration.clone(),
                transitions: transitions.clone(),
            };
            (
                NodeComputation {
                    label,
                    node,
                    state: NodeState::ConfiguringAttrs { configuration, transitions },
                },
                action,
            )
        }
    }
}

fn traversed_labels(traversal: &Traversal) -> (r: Vec<ConfiguredTargetLabel>)
    ensures
        r@.len() == traversal.deps@.len(),
        forall|i: int| 0 <= i < r@.len() ==> #[trigger] r@[i] == traversal.deps@[i].0.target,
{
    let mut r: Vec<ConfiguredTargetLabel> = Vec::new();
    let mut i: usize = 0;
    while i < traversal.deps.len()
        invariant
            i <= traversal.deps@.len(),
            r@.len() == i,
            forall|k: int| 0 <= k < i ==> #[trigger] r@[k] == traversal.deps@[k].0.target,
        decreases traversal.deps@.len() - i,
    {
        r.push(traversal.deps[i].0.target.dupe());
        i = i + 1;
    }
    r
}

/// A target that is not compatible is found to be so before anything but its configuration was
/// asked for.
pub proof fn law_incompatible_target_asks_for_nothing(
    label: ConfiguredTargetLabel,
    node: TargetToConfigure,
    c: ResolvedConfiguration,
    next: NodeState,
    action: NodeAction,
)
    requires
        follows(
            label,
            node,
            NodeState::ResolvingConfiguration,
            NodeEvent::Configuration(Ok(c)),
            next,
            action,
        ),
        !configured::is_compatibility(
            Ok(MaybeCompatible::Compatible(())),
            label,
            c.target_compatible_with,
            c.legacy_compatible_with,
            c.matching@,
        ),
    ensures
        next is Done,
        action is Finish,
{
}

/// Whichever the answers, an incompatible dependency makes a node incompatible even where other
/// dependencies have errors.
pub proof fn law_incompatibility_hides_errors(
    label: ConfiguredTargetLabel,
    node: TargetToConfigure,
    parts: NodeParts,
    gathered: GatheredDeps,
    errors: ErrorsAndIncompatibilities,
    platform: ExecutionPlatformResolution,
    toolchains: Vec<DepResult>,
    exec_list: Vec<(DepResult, CheckVisibility)>,
    next: NodeState,
    action: NodeAction,
)
    requires
        errors.incompats@.len() > 0,
        follows(
            label,
            node,
            NodeState::LookingUpDeps { parts, gathered, errors, platform },
            NodeEvent::LookedUp(Ok((toolchains, exec_list))),
            next,
            action,
        ),
    ensures
        action matches NodeAction::Finish(Ok(MaybeCompatible::Incompatible(_))),
{
    lemma_unpack_keeps_incompats(
        configured_node::UnpackState {
            deps: gathered.deps@,
            errs: errors.errs@,
            incompats: errors.incompats@,
        },
        configured_node::partial_label(label),
        configured_node::all_checked(toolchains@),
    );
    let s1 = configured_node::unpack_many(
        configured_node::UnpackState {
            deps: gathered.deps@,
            errs: errors.errs@,
            incompats: errors.incompats@,
        },
        configured_node::partial_label(label),
        configured_node::all_checked(toolchains@),
    );
    lemma_unpack_keeps_incompats(
        configured_node::UnpackState {
            deps: Seq::empty(),
            errs: s1.errs,
            incompats: s1.incompats,
        },
        configured_node::partial_label(label),
        exec_list@,
    );
}

proof fn lemma_unpack_keeps_incompats(
    s: configured_node::UnpackState,
    target: ConfiguredTargetLabel,
    deps: Seq<(DepResult, CheckVisibility)>,
)
    ensures
        configured_node::unpack_many(s, target, deps).incompats.len() >= s.incompats.len(),
    decreases deps.len(),
{
    if deps.len() > 0 {
        lemma_unpack_keeps_incompats(s, target, deps.drop_last());
    }
}

/// A node of the target graph, as far as configuring it goes.
pub struct TargetNodeInfo {
    pub label: TargetLabel,
    pub is_toolchain_rule: bool,
    pub has_transition_deps: bool,
    /// The transition that the rule of the target asks for.
    pub cfg: Option<String>,
}

/// Key of a configured node.
#[derive(Debug)]
pub struct ConfiguredTargetNodeKey(pub ConfiguredTargetLabel);

/// Similar to `ConfiguredTargetNodeKey`, but used when the target is transitioned to a different
/// configuration because the rule definition requires it.
#[derive(Debug)]
pub struct ConfiguredTransitionedNodeKey {
    /// Forward node label.
    pub forward: ConfiguredTargetLabel,
    /// Transitioned node label.
    pub transitioned: ConfiguredTargetLabel,
}

impl ConfiguredTransitionedNodeKey {
    /// The two labels are of the same target in different configurations.
    pub open spec fn wf(&self) -> bool {
        self.forward@.target == self.transitioned@.target && self.forward@ != self.transitioned@
    }

    /// The key as shown in messages.
    pub fn display(&self) -> (r: String)
        ensures
            r@ == "ConfiguredTransitionedNodeKey("@ + labels::configured_label_text(self.forward@)
                + ", "@ + labels::configured_label_text(self.transitioned@) + ")"@,
    {
        let f = self.forward.display();
        let t = self.transitioned.display();
        text::concat5("ConfiguredTransitionedNodeKey(", f.as_str(), ", ", t.as_str(), ")")
    }
}

/// How a node is computed.
#[derive(Debug)]
pub enum NodeRoute {
    /// By way of the transition that the rule asks for.
    Transition(String),
    /// In the configuration it was asked for in.
    Plain,
}

/// How the node `key` is computed, given its node in the target graph. A toolchain may only be
/// used as a toolchain, and nothing else may be.
pub fn route_configured_target_node(
    key: &ConfiguredTargetNodeKey,
    target_node: Result<TargetNodeInfo, NodeError>,
) -> (r: Result<NodeRoute, NodeError>)
    ensures
        match target_node {
            Err(e) => r matches Err(NodeError::Context(context, source)) && *source == e
                && context@ == "looking up unconfigured target node `"@
                + labels::target_label_text(key.0.target@) + "`"@,
            Ok(node) => if key.0.exec_cfg is None && node.is_toolchain_rule {
                r == Err::<NodeRoute, NodeError>(
                    NodeError::ToolchainRuleUsedAsNormalDep(key.0.target),
                )
            } else if key.0.exec_cfg is Some && !node.is_toolchain_rule {
                r == Err::<NodeRoute, NodeError>(
                    NodeError::NonToolchainRuleUsedAsToolchainDep(key.0.target),
                )
            } else {
                r == Ok::<NodeRoute, NodeError>(
                    match node.cfg {
                        Some(transition) => NodeRoute::Transition(transition),
                        None => NodeRoute::Plain,
                    },
                )
            },
        },
{
    match target_node {
        Err(e) => {
            let shown = key.0.target.display();
            Err(
                NodeError::Context(
                    text::concat3("looking up unconfigured target node `", shown.as_str(), "`"),
                    Box::new(e),
                ),
            )
        },
        Ok(node) => {
            if key.0.exec_cfg.is_none() && node.is_toolchain_rule {
                return Err(NodeError::ToolchainRuleUsedAsNormalDep(key.0.target.dupe()));
            }
            if key.0.exec_cfg.is_some() && !node.is_toolchain_rule {
                return Err(NodeError::NonToolchainRuleUsedAsToolchainDep(key.0.target.dupe()));
            }
            match node.cfg {
                Some(transition) => Ok(NodeRoute::Transition(transition)),
                None => Ok(NodeRoute::Plain),
            }
        },
    }
}

/// Where a transition leads: to the same label, or to another one, to which a node has to
/// forward.
#[derive(Debug)]
pub enum AfterTransition {
    Same,
    Forward(ConfiguredTransitionedNodeKey),
}

/// Where the transition of the node `label` to the configuration `cfg` leads.
pub fn after_transition(label: &ConfiguredTargetLabel, cfg: ConfigurationData) -> (r:
    AfterTransition)
    ensures
        ({
            let transitioned = ConfiguredTargetLabel {
                target: label.target,
                cfg,
                exec_cfg: None,
            };
            if transitioned@ == label@ {
                r is Same
            } else {
                r matches AfterTransition::Forward(key) && key.forward == *label
                    && key.transitioned == transitioned && key.wf()
            }
        }),
{
    let transitioned = ConfiguredTargetLabel::configure(&label.target, cfg);
    if transitioned.same_as(label) {
        AfterTransition::Same
    } else {
        AfterTransition::Forward(
            ConfiguredTransitionedNodeKey { forward: label.dupe(), transitioned },
        )
    }
}

fn clone_plugin_lists(lists: &PluginLists) -> (r: PluginLists)
    ensures
        r@ == lists@,
{
    let mut r = PluginLists { plugins: Vec::new() };
    let mut i: usize = 0;
    while i < lists.plugins.len()
        invariant
            i <= lists.plugins@.len(),
            r.plugins@.len() == i,
            forall|k: int| 0 <= k < i ==> (#[trigger] r.plugins@[k])@ == lists.plugins@[k]@,
        decreases lists.plugins@.len() - i,
    {
        let p = &lists.plugins[i];
        r.plugins.push(
            configured_deps::Plugin {
                kind: p.kind.clone(),
                target: p.target.dupe(),
                elem_kind: p.elem_kind,
            },
        );
        i = i + 1;
    }
    assert(r@ =~= lists@);
    r
}

/// The node that forwards to the transitioned one. It is in no need of settings, and nothing is
/// executed for it. Where the transitioned node is incompatible, so is this.
pub fn forward_node(
    key: &ConfiguredTransitionedNodeKey,
    transitioned: MaybeCompatible<Arc<ConfiguredTargetNode>>,
) -> (r: MaybeCompatible<Arc<ConfiguredTargetNode>>)
    requires
        key.wf(),
    ensures
        match transitioned {
            MaybeCompatible::Incompatible(reason) => r
                == MaybeCompatible::<Arc<ConfiguredTargetNode>>::Incompatible(reason),
            MaybeCompatible::Compatible(node) => {
                &&& r matches MaybeCompatible::Compatible(forward)
                &&& forward.label == key.forward
                &&& forward.forward_target == Some(node)
                &&& forward.deps@ == seq![node]
                &&& forward.exec_deps@.len() == 0
                &&& forward.configuration.cfg == key.forward.cfg
                &&& forward.configuration.matching@.len() == 0
                &&& forward.configuration.platform_cfgs.cfgs@.len() == 0
                &&& forward.resolved_transitions@.len() == 0
                &&& forward.execution_platform.platform is None
                &&& forward.plugin_lists@ == node.plugin_lists@
            },
        },
{
    match transitioned {
        MaybeCompatible::Incompatible(reason) => MaybeCompatible::Incompatible(reason),
        MaybeCompatible::Compatible(node) => {
            let mut deps: Vec<Arc<ConfiguredTargetNode>> = Vec::new();
            deps.push(node.clone());
            assert(deps@ =~= seq![node]);
            let plugin_lists = clone_plugin_lists(&node.plugin_lists);
            MaybeCompatible::Compatible(
                Arc::new(
                    ConfiguredTargetNode {
                        label: key.forward.dupe(),
                        attrs: Vec::new(),
                        configuration: Arc::new(
                            NodeConfiguration {
                                cfg: key.forward.cfg.dupe(),
                                matching: Vec::new(),
                                platform_cfgs: PlatformCfgs::new(),
                            },
                        ),
                        resolved_transitions: Arc::new(ResolvedTransitions::new()),
                        execution_platform: ExecutionPlatformResolution::unspecified(),
                        deps,
                        exec_deps: Vec::new(),
                        plugin_lists,
                        forward_target: Some(node),
                    },
                ),
            )
        },
    }
}

/// Where an attribute is found among `attrs`: the first position of its name.
pub open spec fn attr_at(attrs: Seq<(String, Arc<ConfiguredAttr>)>, name: Seq<char>, i: int)
    -> bool {
    &&& 0 <= i < attrs.len()
    &&& attrs[i].0@ == name
    &&& forall|k: int| 0 <= k < i ==> (#[trigger] attrs[k]).0@ != name
}

/// There is an attribute called `name`.
pub open spec fn has_attr(attrs: Seq<(String, Arc<ConfiguredAttr>)>, name: Seq<char>) -> bool {
    exists|i: int| 0 <= i < attrs.len() && (#[trigger] attrs[i]).0@ == name
}

fn find_attr(attrs: &Vec<(String, Arc<ConfiguredAttr>)>, name: &str) -> (r: Option<usize>)
    ensures
        match r {
            Some(i) => attr_at(attrs@, name@, i as int),
            None => !has_attr(attrs@, name@),
        },
{
    let mut i: usize = 0;
    while i < attrs.len()
        invariant
            i <= attrs@.len(),
            forall|k: int| 0 <= k < i ==> (#[trigger] attrs@[k]).0@ != name@,
        decreases attrs@.len() - i,
    {
        if str_eq(attrs[i].0.as_str(), name) {
            return Some(i);
        }
        i = i + 1;
    }
    None
}

/// The attribute has the same value in the node as before the transition.
pub open spec fn attr_unchanged(
    pre: (String, Arc<ConfiguredAttr>),
    node: ConfiguredTargetNode,
) -> bool {
    exists|i: int| #[trigger]
        attr_at(node.attrs@, pre.0@, i) && node.attrs@[i].1.value@ == pre.1.value@
}

/// `e` says how the attribute changed by the transition.
pub open spec fn attr_change_error(
    e: NodeError,
    pre: (String, Arc<ConfiguredAttr>),
    pre_cfg: ConfigurationData,
    node: ConfiguredTargetNode,
) -> bool {
    if has_attr(node.attrs@, pre.0@) {
        exists|i: int| #[trigger]
            attr_at(node.attrs@, pre.0@, i) && node.attrs@[i].1.value@ != pre.1.value@ && e
                == NodeError::TransitionAttrIncompatibleChange(
                node.label.target,
                pre_cfg,
                node.label.cfg,
                pre.0,
                pre.1.display,
                node.attrs@[i].1.display,
            )
    } else {
        e matches NodeError::Internal(m) && m@ == "Attr "@ + pre.0@
            + " was not found in transition for target "@ + labels::configured_label_text(
            node.label@,
        )
    }
}

/// Checks that the attributes that a transition depends on are the same after it as before. The
/// first that is not is reported.
pub fn verify_transitioned_attrs(
    pre_transition_attrs: &Vec<(String, Arc<ConfiguredAttr>)>,
    pre_transition_config: &ConfigurationData,
    node: &ConfiguredTargetNode,
) -> (r: Result<(), NodeError>)
    ensures
        match r {
            Ok(_) => forall|i: int|
                0 <= i < pre_transition_attrs@.len() ==> attr_unchanged(
                    #[trigger] pre_transition_attrs@[i],
                    *node,
                ),
            Err(e) => exists|i: int|
                0 <= i < pre_transition_attrs@.len() && attr_change_error(
                    e,
                    #[trigger] pre_transition_attrs@[i],
                    *pre_transition_config,
                    *node,
                ) && forall|k: int|
                    0 <= k < i ==> attr_unchanged(#[trigger] pre_transition_attrs@[k], *node),
        },
{
    let mut i: usize = 0;
    while i < pre_transition_attrs.len()
        invariant
            i <= pre_transition_attrs@.len(),
            forall|k: int|
                0 <= k < i ==> attr_unchanged(#[trigger] pre_transition_attrs@[k], *node),
        decreases pre_transition_attrs@.len() - i,
    {
        let pre = &pre_transition_attrs[i];
        match find_attr(&node.attrs, pre.0.as_str()) {
            None => {
                let shown = node.label.display();
                let e = NodeError::Internal(
                    text::concat4(
                        "Attr ",
                        pre.0.as_str(),
                        " was not found in transition for target ",
                        shown.as_str(),
                    ),
                );
                assert(attr_change_error(
                    e,
                    pre_transition_attrs@[i as int],
                    *pre_transition_config,
                    *node,
                ));
                return Err(e);
            },
            Some(j) => {
                let now = &node.attrs[j].1;
                if !str_eq(now.value.as_str(), pre.1.value.as_str()) {
                    let e = NodeError::TransitionAttrIncompatibleChange(
                        node.label.target.dupe(),
                        pre_transition_config.dupe(),
                        node.label.cfg.dupe(),
                        pre.0.clone(),
                        pre.1.display.clone(),
                        now.display.clone(),
                    );
                    assert(has_attr(node.attrs@, pre.0@));
                    assert(attr_at(node.attrs@, pre.0@, j as int));
                    assert(attr_change_error(
                        e,
                        pre_transition_attrs@[i as int],
                        *pre_transition_config,
                        *node,
                    ));
                    return Err(e);
                }
                assert(attr_unchanged(pre_transition_attrs@[i as int], *node));
            },
        }
        i = i + 1;
    }
    Ok(())
}

/// The node that was computed by way of a transition, once it is known that the attributes that
/// the transition depends on have not changed.
pub fn finish_forward_target_node(
    attrs: &Vec<(String, Arc<ConfiguredAttr>)>,
    cfg: &ConfigurationData,
    configured: MaybeCompatible<Arc<ConfiguredTargetNode>>,
) -> (r: Result<MaybeCompatible<Arc<ConfiguredTargetNode>>, NodeError>)
    ensures
        match configured {
            MaybeCompatible::Incompatible(_) => r == Ok::<
                MaybeCompatible<Arc<ConfiguredTargetNode>>,
                NodeError,
            >(configured),
            MaybeCompatible::Compatible(node) => match node.forward_target {
                None => r matches Err(NodeError::Internal(m)) && m@ == "must be forward node"@,
                Some(forward) => match r {
                    Ok(out) => out == configured && forall|i: int|
                        0 <= i < attrs@.len() ==> attr_unchanged(#[trigger] attrs@[i], *forward),
                    Err(e) => exists|i: int|
                        0 <= i < attrs@.len() && attr_change_error(
                            e,
                            #[trigger] attrs@[i],
                            *cfg,
                            *forward,
                        ) && forall|k: int|
                            0 <= k < i ==> attr_unchanged(#[trigger] attrs@[k], *forward),
                },
            },
        },
{
    match &configured {
        MaybeCompatible::Incompatible(_) => {},
        MaybeCompatible::Compatible(node) => match &node.forward_target {
            None => {
                return Err(NodeError::Internal("must be forward node".to_owned()));
            },
            Some(forward) => match verify_transitioned_attrs(attrs, cfg, forward) {
                Err(e) => {
                    return Err(e);
                },
                Ok(_) => {},
            },
        },
    }
    Ok(configured)
}

/// What a node has for an attribute that a transition asks for: its configured form under its
/// name, nothing, or an error.
pub struct TransitionAttrLookup {
    pub attr: String,
    pub found: Result<Option<(String, Arc<ConfiguredAttr>)>, NodeError>,
}

/// The attributes that the transitions of a target depend on, each once, as far as the target has
/// them. `lookups` are the attributes that the transitions name, in order, with what the target
/// has for them.
pub fn resolve_transition_attrs(
    target: &TargetLabel,
    lookups: Vec<TransitionAttrLookup>,
) -> (r: Result<Vec<(String, Arc<ConfiguredAttr>)>, NodeError>)
    ensures
        match transition_attrs(target@, Seq::empty(), lookups@) {
            Ok(attrs) => r matches Ok(v) && v@ == attrs,
            Err(AttrsFailure::Lookup(e)) => r == Err::<
                Vec<(String, Arc<ConfiguredAttr>)>,
                NodeError,
            >(e),
            Err(AttrsFailure::Duplicate(m)) => r matches Err(NodeError::Internal(text)) && text@
                == m,
        },
{
    let known: Vec<(String, Arc<ConfiguredAttr>)> = Vec::new();
    assert(known@ =~= Seq::empty());
    add_transition_attrs(target, known, lookups)
}

/// The attributes `known`, with those added that one more transition of the target depends on.
pub fn add_transition_attrs(
    target: &TargetLabel,
    known: Vec<(String, Arc<ConfiguredAttr>)>,
    lookups: Vec<TransitionAttrLookup>,
) -> (r: Result<Vec<(String, Arc<ConfiguredAttr>)>, NodeError>)
    ensures
        match transition_attrs(target@, known@, lookups@) {
            Ok(attrs) => r matches Ok(v) && v@ == attrs,
            Err(AttrsFailure::Lookup(e)) => r == Err::<
                Vec<(String, Arc<ConfiguredAttr>)>,
                NodeError,
            >(e),
            Err(AttrsFailure::Duplicate(m)) => r matches Err(NodeError::Internal(text)) && text@
                == m,
        },
{
    let ghost all = lookups@;
    let ghost start = known@;
    let mut result = known;
    assert(all.take(0) =~= Seq::empty());
    for lookup in it: lookups
        invariant
            it.seq() == all,
            start == known@,
            transition_attrs(target@, start, all.take(it.index() as int)) == Ok::<
                Seq<(String, Arc<ConfiguredAttr>)>,
                AttrsFailure,
            >(result@),
    {
        let ghost i = it.index() as int;
        proof {
            let next = all.take(i + 1);
            assert(next.drop_last() =~= all.take(i));
            assert(next.last() == lookup);
        }
        let TransitionAttrLookup { attr, found } = lookup;
        if find_attr(&result, attr.as_str()).is_none() {
            match found {
                Err(e) => {
                    proof {
                        lemma_transition_attrs_failure(target@, start, all, i + 1);
                    }
                    return Err(e);
                },
                Ok(None) => {},
                Ok(Some((name, value))) => {
                    match find_attr(&result, name.as_str()) {
                        Some(j) => {
                            let t = target.display();
                            let mut m = text::concat5(
                                "Found duplicated value `",
                                result[j].1.display.as_str(),
                                "` for attr `",
                                attr.as_str(),
                                "` on target `",
                            );
                            m.append(t.as_str());
                            m.append("`");
                            proof {
                                assert(has_attr(result@, name@));
                                assert(attr_at(result@, name@, j as int));
                                let k = choose|k: int| attr_at(result@, name@, k);
                                assert(k == j) by {
                                    if k < j {
                                        assert(result@[k].0@ != name@);
                                    }
                                    if j < k {
                                        assert(result@[j as int].0@ != name@);
                                    }
                                }
                                lemma_transition_attrs_failure(target@, start, all, i + 1);
                            }
                            return Err(NodeError::Internal(m));
                        },
                        None => {},
                    }
                    result.push((name, value));
                },
            }
        } else {
            assert(has_attr(result@, attr@));
        }
    }
    assert(all.take(all.len() as int) =~= all);
    Ok(result)
}

/// Why the attributes of transitions could not be resolved.
pub enum AttrsFailure {
    Lookup(NodeError),
    /// An attribute came out twice; the message.
    Duplicate(Seq<char>),
}

/// The attributes that the transitions of a target depend on, where those of some transitions are
/// `start`.
pub open spec fn transition_attrs(
    target: labels::TargetLabelView,
    start: Seq<(String, Arc<ConfiguredAttr>)>,
    lookups: Seq<TransitionAttrLookup>,
) -> Result<Seq<(String, Arc<ConfiguredAttr>)>, AttrsFailure>
    decreases lookups.len(),
{
    if lookups.len() == 0 {
        Ok(start)
    } else {
        match transition_attrs(target, start, lookups.drop_last()) {
            Err(e) => Err(e),
            Ok(before) => {
                let lookup = lookups.last();
                if has_attr(before, lookup.attr@) {
                    // Several transitions may refer to the same attribute.
                    Ok(before)
                } else {
                    match lookup.found {
                        Err(e) => Err(AttrsFailure::Lookup(e)),
                        Ok(None) => Ok(before),
                        Ok(Some((name, value))) => if has_attr(before, name@) {
                            let i = choose|i: int| attr_at(before, name@, i);
                            Err(
                                AttrsFailure::Duplicate(
                                    "Found duplicated value `"@ + before[i].1.display@
                                        + "` for attr `"@ + lookup.attr@ + "` on target `"@
                                        + labels::target_label_text(target) + "`"@,
                                ),
                            )
                        } else {
                            Ok(before.push((name, value)))
                        },
                    }
                }
            },
        }
    }
}

proof fn lemma_transition_attrs_failure(
    target: labels::TargetLabelView,
    start: Seq<(String, Arc<ConfiguredAttr>)>,
    lookups: Seq<TransitionAttrLookup>,
    n: int,
)
    requires
        0 <= n <= lookups.len(),
        transition_attrs(target, start, lookups.take(n)) is Err,
    ensures
        transition_attrs(target, start, lookups) == transition_attrs(target, start, lookups.take(n)),
    decreases lookups.len(),
{
    if n == lookups.len() {
        assert(lookups.take(n) =~= lookups);
    } else {
        assert(lookups.drop_last().take(n) =~= lookups.take(n));
        lemma_transition_attrs_failure(target, start, lookups.drop_last(), n);
    }
}

/// Every platform that a target names is looked up, in order, and noted with its configuration,
/// before anything else is asked for.
pub proof fn law_every_platform_is_looked_up(
    label: ConfiguredTargetLabel,
    node: TargetToConfigure,
    matching: Vec<TargetLabel>,
    cfgs: PlatformCfgs,
    done: usize,
    r: Result<ConfigurationData, NodeError>,
    next: NodeState,
    action: NodeAction,
)
    requires
        done < node.platform_deps@.len(),
        follows(
            label,
            node,
            NodeState::ComputingPlatforms { matching, cfgs, done },
            NodeEvent::PlatformCfg(r),
            next,
            action,
        ),
    ensures
        r is Err ==> next is Done && action == NodeAction::Finish(
            Err::<MaybeCompatible<Arc<ConfiguredTargetNode>>, NodeError>(r->Err_0),
        ),
        r is Ok && done + 1 < node.platform_deps@.len() ==> {
            &&& action == NodeAction::GetPlatform(node.platform_deps@[done + 1])
            &&& next is ComputingPlatforms
            &&& next->ComputingPlatforms_matching == matching
            &&& next->ComputingPlatforms_done == done + 1
            &&& toolchains::platform_noted(
                cfgs.cfgs@,
                node.platform_deps@[done as int],
                r->Ok_0,
                next->ComputingPlatforms_cfgs.cfgs@,
            )
        },
        r is Ok && done + 1 == node.platform_deps@.len() ==> !(action is GetPlatform)
            && !(action is Finish),
{
}

/// The attributes of every transition are looked up, in order, before any transition is applied.
pub proof fn law_every_transition_is_prepared(
    label: ConfiguredTargetLabel,
    node: TargetToConfigure,
    configuration: Arc<NodeConfiguration>,
    attrs: Vec<(String, Arc<ConfiguredAttr>)>,
    done: usize,
    r: Result<Vec<TransitionAttrLookup>, NodeError>,
    next: NodeState,
    action: NodeAction,
)
    requires
        done < node.transition_deps@.len(),
        follows(
            label,
            node,
            NodeState::ResolvingTransitionAttrs { configuration, attrs, done },
            NodeEvent::TransitionAttrs(r),
            next,
            action,
        ),
    ensures
        r is Err ==> next is Done && action == NodeAction::Finish(
            Err::<MaybeCompatible<Arc<ConfiguredTargetNode>>, NodeError>(r->Err_0),
        ),
        r is Ok && transition_attrs(label.target@, attrs@, r->Ok_0@) is Err ==> next is Done
            && action is Finish,
        r is Ok && transition_attrs(label.target@, attrs@, r->Ok_0@) is Ok && done + 1
            < node.transition_deps@.len() ==> {
            &&& action is GetTransitionAttrs
            &&& action->GetTransitionAttrs_transition == node.transition_deps@[done + 1]
            &&& *action->GetTransitionAttrs_configuration == *configuration
            &&& next is ResolvingTransitionAttrs
            &&& next->ResolvingTransitionAttrs_done == done + 1
            &&& next->ResolvingTransitionAttrs_attrs@ == transition_attrs(
                label.target@,
                attrs@,
                r->Ok_0@,
            )->Ok_0
        },
        r is Ok && transition_attrs(label.target@, attrs@, r->Ok_0@) is Ok && done + 1
            == node.transition_deps@.len() ==> {
            &&& action is ApplyTransition
            &&& action->ApplyTransition_transition == node.transition_deps@[0]
            &&& action->ApplyTransition_cfg == label.cfg
            &&& action->ApplyTransition_attrs@ == transition_attrs(
                label.target@,
                attrs@,
                r->Ok_0@,
            )->Ok_0
        },
{
}

/// Every transition is applied, in order, to the configuration of the target, and where it leads is
/// noted under its name; then the attributes are configured.
pub proof fn law_every_transition_is_applied(
    label: ConfiguredTargetLabel,
    node: TargetToConfigure,
    configuration: Arc<NodeConfiguration>,
    shared_attrs: Arc<Vec<(String, Arc<ConfiguredAttr>)>>,
    applied: ResolvedTransitions,
    done: usize,
    r: Result<Arc<TransitionApplied>, NodeError>,
    next: NodeState,
    action: NodeAction,
)
    requires
        done < node.transition_deps@.len(),
        follows(
            label,
            node,
            NodeState::ApplyingTransitions { configuration, shared_attrs, applied, done },
            NodeEvent::Transition(r),
            next,
            action,
        ),
    ensures
        r is Err ==> next is Done && action == NodeAction::Finish(
            Err::<MaybeCompatible<Arc<ConfiguredTargetNode>>, NodeError>(r->Err_0),
        ),
        r is Ok && done + 1 < node.transition_deps@.len() ==> {
            &&& action is ApplyTransition
            &&& action->ApplyTransition_transition == node.transition_deps@[done + 1]
            &&& action->ApplyTransition_cfg == label.cfg
            &&& action->ApplyTransition_attrs@ == shared_attrs@
            &&& next is ApplyingTransitions
            &&& next->ApplyingTransitions_done == done + 1
            &&& next->ApplyingTransitions_applied@.contains(
                (node.transition_deps@[done as int]@, r->Ok_0),
            )
        },
        r is Ok && done + 1 == node.transition_deps@.len() ==> {
            &&& action is ConfigureAttrs
            &&& *action->ConfigureAttrs_configuration == *configuration
            &&& action->ConfigureAttrs_transitions@.contains(
                (node.transition_deps@[done as int]@, r->Ok_0),
            )
        },
{
    if r is Ok {
        configured_deps::law_transition_leads_to_one_place(
            applied@,
            node.transition_deps@[done as int]@,
            r->Ok_0,
            0,
        );
    }
}

/// What the attributes depend on is looked up, all of it and in order; the attributes and the
/// configuration are kept for the node.
pub proof fn law_every_dependency_is_looked_up(
    label: ConfiguredTargetLabel,
    node: TargetToConfigure,
    configuration: Arc<NodeConfiguration>,
    transitions: Arc<ResolvedTransitions>,
    r: Result<(Vec<(String, Arc<ConfiguredAttr>)>, Traversal), NodeError>,
    next: NodeState,
    action: NodeAction,
    i: int,
)
    requires
        follows(
            label,
            node,
            NodeState::ConfiguringAttrs { configuration, transitions },
            NodeEvent::Attrs(r),
            next,
            action,
        ),
    ensures
        r is Err ==> next is Done && action == NodeAction::Finish(
            Err::<MaybeCompatible<Arc<ConfiguredTargetNode>>, NodeError>(r->Err_0),
        ),
        r is Ok ==> {
            let found = r->Ok_0.1;
            &&& action is GatherDeps
            &&& action->GatherDeps_0@.len() == found.deps@.len()
            &&& 0 <= i < found.deps@.len() ==> action->GatherDeps_0@[i]
                == found.deps@[i].0.target
            &&& next is GatheringDeps
            &&& next->GatheringDeps_parts.attrs == r->Ok_0.0
            &&& next->GatheringDeps_parts.configuration == configuration
            &&& next->GatheringDeps_parts.transitions == transitions
            &&& next->GatheringDeps_traversal == found
        },
{
}

/// A dependency that is not visible to the target, that could not be looked up or that is not
/// compatible is noted as such once the dependencies are known; each of the others is a dependency
/// of the node.
pub proof fn law_what_is_gathered(
    label: ConfiguredTargetLabel,
    node: TargetToConfigure,
    parts: NodeParts,
    traversal: Traversal,
    results: Vec<DepResult>,
    next: NodeState,
    action: NodeAction,
    i: int,
)
    requires
        results@.len() == traversal.deps@.len(),
        0 <= i < results@.len(),
        follows(
            label,
            node,
            NodeState::GatheringDeps { parts, traversal },
            NodeEvent::Deps(Ok(results)),
            next,
            action,
        ),
    ensures
        next is CheckingPlugins,
        next->CheckingPlugins_parts == parts,
        ({
            let deps = next->CheckingPlugins_gathered.deps@;
            let errs = next->CheckingPlugins_errors.errs@;
            let incompats = next->CheckingPlugins_errors.incompats@;
            &&& deps.len() + errs.len() + incompats.len() == results@.len()
            &&& match results@[i].result {
                Err(e) => errs.contains(e),
                Ok(MaybeCompatible::Incompatible(_)) => incompats.len() > 0,
                Ok(MaybeCompatible::Compatible(n)) => match results@[i].visible {
                    Ok(true) => deps.contains(n),
                    Ok(false) => errs.contains(
                        NodeError::NotVisibleTo(n.label.target, label.target),
                    ),
                    Err(e) => errs.contains(e),
                },
            }
        }),
        next->CheckingPlugins_gathered.toolchain_deps == traversal.toolchain_deps,
{
    let gathered = next->CheckingPlugins_gathered;
    let errors = next->CheckingPlugins_errors;
    configured_node::law_dependencies_are_checked(
        configured_node::partial_label(label),
        traversal,
        results@,
        node.uses_plugins@,
        Ok(ConfigurationData::UnboundExec),
        Ok((gathered, errors)),
    );
}

/// A node goes on to its execution platform exactly where every plugin that it depends on was
/// found, is no toolchain rule and is visible. The platform is none where nothing is executed, that
/// of the parent for a toolchain, and one that fits the constraints otherwise.
pub proof fn law_plugins_come_before_the_platform(
    label: ConfiguredTargetLabel,
    node: TargetToConfigure,
    parts: NodeParts,
    gathered: GatheredDeps,
    errors: ErrorsAndIncompatibilities,
    plugins: Vec<TargetLabel>,
    lookups: Vec<Result<PluginTarget, NodeError>>,
    next: NodeState,
    action: NodeAction,
    i: int,
)
    requires
        plugins@.len() == lookups@.len(),
        follows(
            label,
            node,
            NodeState::CheckingPlugins { parts, gathered, errors, plugins },
            NodeEvent::Plugins(lookups),
            next,
            action,
        ),
    ensures
        0 <= i < lookups@.len() && lookups@[i] is Err ==> action is Finish,
        0 <= i < lookups@.len() && lookups@[i] is Ok && lookups@[i]->Ok_0.is_toolchain_rule
            ==> action is Finish,
        0 <= i < lookups@.len() && lookups@[i] is Ok && lookups@[i]->Ok_0.visible != Ok::<
            bool,
            NodeError,
        >(true) ==> action is Finish,
        action is Finish ==> action->Finish_0 is Err,
        action is Finish ==> exists|k: int|
            0 <= k < lookups@.len() && ((#[trigger] lookups@[k]) is Err
                || lookups@[k]->Ok_0.is_toolchain_rule || lookups@[k]->Ok_0.visible != Ok::<
                bool,
                NodeError,
            >(true)),
        !(action is Finish) ==> {
            &&& action is FindPlatform
            &&& label.cfg is Unbound ==> action->FindPlatform_0 is Unspecified
            &&& !(label.cfg is Unbound) && label.exec_cfg is None ==> action->FindPlatform_0
                is Resolve
            &&& !(label.cfg is Unbound) && label.exec_cfg is Some ==> action->FindPlatform_0
                == ExecutionPlatformChoice::OfParent(label.exec_cfg->0)
            &&& next == (NodeState::ResolvingPlatform { parts, gathered, errors })
        },
{
    if 0 <= i < lookups@.len() && !configured_node::plugin_ok(lookups@[i]) {
        assert(!all_plugins_ok(lookups@));
    }
}

/// Once its execution platform is known, every toolchain is looked up with that platform as its
/// execution configuration, and every execution dependency in that configuration.
pub proof fn law_toolchains_are_looked_up_for_the_platform(
    label: ConfiguredTargetLabel,
    node: TargetToConfigure,
    parts: NodeParts,
    gathered: GatheredDeps,
    errors: ErrorsAndIncompatibilities,
    platform: ExecutionPlatformResolution,
    next: NodeState,
    action: NodeAction,
    i: int,
)
    requires
        follows(
            label,
            node,
            NodeState::ResolvingPlatform { parts, gathered, errors },
            NodeEvent::Platform(Ok(platform)),
            next,
            action,
        ),
    ensures
        action is LookUpDeps,
        action->toolchains@.len() == gathered.toolchain_deps@.len(),
        action->exec_list@.len() == gathered.exec_deps@.len(),
        0 <= i < gathered.toolchain_deps@.len() ==> {
            let asked = action->toolchains@[i];
            &&& asked.target == gathered.toolchain_deps@[i].target
            &&& asked.cfg == gathered.toolchain_deps@[i].cfg
            &&& asked.exec_cfg == Some(configured_node::resolution_cfg(platform))
        },
        0 <= i < gathered.exec_deps@.len() ==> {
            let asked = action->exec_list@[i];
            &&& asked.0.target == gathered.exec_deps@[i].0.target.target
            &&& asked.0.cfg == configured_node::resolution_cfg(platform)
            &&& asked.0.exec_cfg is None
            &&& asked.1 == gathered.exec_deps@[i].1
        },
        platform.platform is None ==> configured_node::resolution_cfg(platform) is Unspecified,
        next == (NodeState::LookingUpDeps { parts, gathered, errors, platform }),
{
}

/// A node is made only where nothing is wrong with any dependency. It then has the label that was
/// asked for, its attributes and configuration, the dependencies that were gathered followed by its
/// toolchains, and its execution dependencies, all of them compatible and visible as far as that is
/// checked.
pub proof fn law_node_is_made_of_checked_dependencies(
    label: ConfiguredTargetLabel,
    node: TargetToConfigure,
    parts: NodeParts,
    gathered: GatheredDeps,
    errors: ErrorsAndIncompatibilities,
    platform: ExecutionPlatformResolution,
    toolchain_results: Vec<DepResult>,
    exec_list: Vec<(DepResult, CheckVisibility)>,
    next: NodeState,
    action: NodeAction,
    i: int,
)
    requires
        follows(
            label,
            node,
            NodeState::LookingUpDeps { parts, gathered, errors, platform },
            NodeEvent::LookedUp(Ok((toolchain_results, exec_list))),
            next,
            action,
        ),
    ensures
        action is Finish,
        errors.incompats@.len() > 0 || errors.errs@.len() > 0 ==> !(action->Finish_0 is Ok
            && action->Finish_0->Ok_0 is Compatible),
        action->Finish_0 is Ok && action->Finish_0->Ok_0 is Compatible ==> {
            let n = action->Finish_0->Ok_0->Compatible_0;
            &&& n.label == label
            &&& n.attrs == parts.attrs
            &&& n.configuration == parts.configuration
            &&& n.resolved_transitions == parts.transitions
            &&& n.execution_platform == platform
            &&& n.plugin_lists == gathered.plugin_lists
            &&& n.forward_target is None
            &&& n.deps@.len() == gathered.deps@.len() + toolchain_results@.len()
            &&& 0 <= i < gathered.deps@.len() ==> n.deps@[i] == gathered.deps@[i]
            &&& 0 <= i < toolchain_results@.len() ==> toolchain_results@[i].result == Ok::<
                MaybeCompatible<Arc<ConfiguredTargetNode>>,
                NodeError,
            >(MaybeCompatible::Compatible(n.deps@[gathered.deps@.len() + i]))
                && toolchain_results@[i].visible == Ok::<bool, NodeError>(true)
            &&& n.exec_deps@.len() == exec_list@.len()
            &&& 0 <= i < exec_list@.len() ==> exec_list@[i].0.result == Ok::<
                MaybeCompatible<Arc<ConfiguredTargetNode>>,
                NodeError,
            >(MaybeCompatible::Compatible(n.exec_deps@[i])) && (exec_list@[i].1
                == CheckVisibility::Yes ==> exec_list@[i].0.visible == Ok::<bool, NodeError>(true))
        },
{
    let target = configured_node::partial_label(label);
    let s = configured_node::node_deps(
        target,
        gathered.deps@,
        errors.errs@,
        errors.incompats@,
        toolchain_results@,
        exec_list@,
    ).0;
    if s.errs.len() == 0 && s.incompats.len() == 0 {
        configured_node::law_dependencies_stand_in_order(
            target,
            gathered.deps@,
            errors.errs@,
            errors.incompats@,
            toolchain_results@,
            exec_list@,
            i,
        );
    }
}

/// The attributes that transitions depend on. Those that were known stay, in order; an attribute
/// that is looked up and that the target has is there afterwards, once; and nothing else is.
pub proof fn law_attributes_of_transitions(
    target: labels::TargetLabelView,
    start: Seq<(String, Arc<ConfiguredAttr>)>,
    lookups: Seq<TransitionAttrLookup>,
    i: int,
)
    requires
        transition_attrs(target, start, lookups) is Ok,
    ensures
        ({
            let after = transition_attrs(target, start, lookups)->Ok_0;
            &&& after.len() >= start.len()
            &&& 0 <= i < start.len() ==> after[i] == start[i]
            &&& start.len() <= i < after.len() ==> exists|k: int|
                0 <= k < lookups.len() && (#[trigger] lookups[k]).found == Ok::<
                    Option<(String, Arc<ConfiguredAttr>)>,
                    NodeError,
                >(Some(after[i]))
            &&& 0 <= i < lookups.len() && !has_attr(start, lookups[i].attr@) && (forall|k: int|
                0 <= k < i ==> !((#[trigger] lookups[k]).found is Ok
                    && lookups[k].found->Ok_0 is Some && (lookups[k].found->Ok_0->0).0@
                    == lookups[i].attr@)) ==> lookups[i].found is Ok && (lookups[i].found->Ok_0
                matches Some(pair) ==> after.contains(pair))
        }),
    decreases lookups.len(),
{
    let after = transition_attrs(target, start, lookups)->Ok_0;
    if lookups.len() > 0 {
        let init = lookups.drop_last();
        let last = lookups.len() - 1;
        let before = transition_attrs(target, start, init)->Ok_0;
        law_attributes_of_transitions(target, start, init, i);
        assert(lookups[last] == lookups.last());
        assert(forall|k: int| 0 <= k < last ==> #[trigger] init[k] == lookups[k]);
        if start.len() <= i < after.len() {
            if i < before.len() {
                let k = choose|k: int|
                    0 <= k < init.len() && (#[trigger] init[k]).found == Ok::<
                        Option<(String, Arc<ConfiguredAttr>)>,
                        NodeError,
                    >(Some(before[i]));
                assert(lookups[k] == init[k]);
            } else {
                assert(lookups[last].found is Ok);
            }
        }
        if 0 <= i < lookups.len() && !has_attr(start, lookups[i].attr@) && (forall|k: int|
            0 <= k < i ==> !((#[trigger] lookups[k]).found is Ok
                && lookups[k].found->Ok_0 is Some && (lookups[k].found->Ok_0->0).0@
                == lookups[i].attr@)) {
            if i < last {
                assert forall|k: int| 0 <= k < i implies !((#[trigger] init[k]).found is Ok
                    && init[k].found->Ok_0 is Some && (init[k].found->Ok_0->0).0@
                    == init[i].attr@) by {
                    assert(init[k] == lookups[k]);
                }
                if let Some(pair) = lookups[i].found->Ok_0 {
                    let n = choose|n: int| 0 <= n < before.len() && before[n] == pair;
                    assert(after[n] == pair);
                }
            } else {
                if has_attr(before, lookups[last].attr@) {
                    let n = choose|n: int|
                        0 <= n < before.len() && (#[trigger] before[n]).0@
                            == lookups[last].attr@;
                    law_attributes_of_transitions(target, start, init, n);
                    if n < start.len() {
                        assert(start[n].0@ == lookups[last].attr@);
                        assert(has_attr(start, lookups[last].attr@));
                    } else {
                        let k = choose|k: int|
                            0 <= k < init.len() && (#[trigger] init[k]).found == Ok::<
                                Option<(String, Arc<ConfiguredAttr>)>,
                                NodeError,
                            >(Some(before[n]));
                        assert(lookups[k] == init[k]);
                    }
                    assert(false);
                }
                if let Some(pair) = lookups[last].found->Ok_0 {
                    assert(after[before.len() as int] == pair);
                }
            }
        }
    }
}

/// An attribute counts as unchanged only where the node has it, at the first place of its name, with
/// the same value.
pub proof fn law_unchanged_attributes_have_the_same_value(
    pre: (String, Arc<ConfiguredAttr>),
    node: ConfiguredTargetNode,
)
    ensures
        attr_unchanged(pre, node) ==> exists|i: int|
            0 <= i < node.attrs@.len() && (#[trigger] node.attrs@[i]).0@ == pre.0@
                && node.attrs@[i].1.value@ == pre.1.value@ && forall|k: int|
                0 <= k < i ==> (#[trigger] node.attrs@[k]).0@ != pre.0@,
{
    if attr_unchanged(pre, node) {
        let i = choose|i: int| #[trigger]
            attr_at(node.attrs@, pre.0@, i) && node.attrs@[i].1.value@ == pre.1.value@;
        assert(node.attrs@[i].0@ == pre.0@);
    }
}

/// A configuration that cannot be resolved is reported for the label, with the reason.
pub proof fn law_failed_configuration_is_reported(
    label: ConfiguredTargetLabel,
    node: TargetToConfigure,
    e: NodeError,
    next: NodeState,
    action: NodeAction,
)
    requires
        follows(
            label,
            node,
            NodeState::ResolvingConfiguration,
            NodeEvent::Configuration(Err(e)),
            next,
            action,
        ),
    ensures
        next is Done,
        action is Finish,
        action->Finish_0 is Err,
        action->Finish_0->Err_0 is Context,
        *action->Finish_0->Err_0->Context_1 == e,
        action->Finish_0->Err_0->Context_0@ == "Error resolving configuration deps of `"@
            + labels::configured_label_text(label@) + "`"@,
{
}

} // verus!
