//! The course of computing a node whose rule asks for a transition: what the transition depends on
//! is resolved in the configuration that was asked for, and the node then forwards to the one in the
//! configuration that the transition leads to.
use std::sync::Arc;
use vstd::prelude::*;
use vstd::string::*;

use crate::configured::MaybeCompatible;
use crate::configured::NodeError;
use crate::configured_deps::ConfiguredAttr;
use crate::configured_deps::ConfiguredTargetNode;
use crate::configured_deps::NodeConfiguration;
use crate::configured_flow;
use crate::configured_flow::after_transition;
use crate::configured_flow::configuration_error;
use crate::configured_flow::finish_forward_target_node;
use crate::configured_flow::resolve_transition_attrs;
use crate::configured_flow::AfterTransition;
use crate::configured_flow::AttrsFailure;
use crate::configured_flow::ConfiguredTransitionedNodeKey;
use crate::configured_flow::TargetToConfigure;
use crate::configured_flow::TransitionAttrLookup;
use crate::labels;
use crate::labels::ConfigurationData;
use crate::labels::ConfiguredTargetLabel;
use crate::labels::TargetLabel;
use crate::toolchains;
use crate::toolchains::PlatformCfgs;

verus! {

/// How far the computation has come.
pub enum ForwardState {
    /// The configurations of the first `done` platforms are known.
    ComputingPlatforms { cfgs: PlatformCfgs, done: usize },
    ResolvingConfiguration { known_cfgs: PlatformCfgs },
    ResolvingTransitionAttrs { configuration: Arc<NodeConfiguration> },
    ApplyingTransition {
        configuration: Arc<NodeConfiguration>,
        attrs: Arc<Vec<(String, Arc<ConfiguredAttr>)>>,
    },
    /// The transition leads nowhere else.
    ComputingPlain,
    ComputingTransitioned {
        configuration: Arc<NodeConfiguration>,
        attrs: Arc<Vec<(String, Arc<ConfiguredAttr>)>>,
    },
    Done,
}

/// The answer to what was asked for.
pub enum ForwardEvent {
    PlatformCfg(Result<ConfigurationData, NodeError>),
    /// The settings that hold.
    Configuration(Result<Vec<TargetLabel>, NodeError>),
    TransitionAttrs(Result<Vec<TransitionAttrLookup>, NodeError>),
    /// The one configuration that the transition leads to.
    Transition(Result<ConfigurationData, NodeError>),
    Node(Result<MaybeCompatible<Arc<ConfiguredTargetNode>>, NodeError>),
}

/// What is asked for next.
pub enum ForwardAction {
    GetPlatform(TargetLabel),
    /// Which settings hold in the configuration, seen from the cell.
    ResolveConfiguration { cfg: ConfigurationData, cell: String, deps: Vec<TargetLabel> },
    /// What the target has for the attributes that the transition names.
    GetTransitionAttrs { transition: String, configuration: Arc<NodeConfiguration> },
    ApplyTransition {
        transition: String,
        cfg: ConfigurationData,
        attrs: Arc<Vec<(String, Arc<ConfiguredAttr>)>>,
    },
    /// The node itself, without regard to its transition.
    ComputePlain(ConfiguredTargetLabel),
    /// The node that forwards to the transitioned one.
    ComputeTransitioned(ConfiguredTransitionedNodeKey),
    Finish(Result<MaybeCompatible<Arc<ConfiguredTargetNode>>, NodeError>),
}

/// `event` answers what is asked for in `state`.
pub open spec fn forward_answers(state: ForwardState, event: ForwardEvent) -> bool {
    match (state, event) {
        (ForwardState::ComputingPlatforms { .. }, ForwardEvent::PlatformCfg(_)) => true,
        (ForwardState::ResolvingConfiguration { .. }, ForwardEvent::Configuration(_)) => true,
        (ForwardState::ResolvingTransitionAttrs { .. }, ForwardEvent::TransitionAttrs(_)) => true,
        (ForwardState::ApplyingTransition { .. }, ForwardEvent::Transition(_)) => true,
        (ForwardState::ComputingPlain, ForwardEvent::Node(_)) => true,
        (ForwardState::ComputingTransitioned { .. }, ForwardEvent::Node(_)) => true,
        _ => false,
    }
}

/// The computation ends with an error.
pub open spec fn forward_fails(next: ForwardState, action: ForwardAction, e: NodeError) -> bool {
    next is Done && action == ForwardAction::Finish(
        Err::<MaybeCompatible<Arc<ConfiguredTargetNode>>, NodeError>(e),
    )
}

/// The computation goes on after `done` platforms: with the next, or with the configuration.
pub open spec fn forward_asks_platform(
    label: ConfiguredTargetLabel,
    node: TargetToConfigure,
    platforms: Seq<(TargetLabel, ConfigurationData)>,
    done: int,
    next: ForwardState,
    action: ForwardAction,
) -> bool {
    if done < node.platform_deps@.len() {
        &&& next matches ForwardState::ComputingPlatforms { cfgs, done: d }
        &&& cfgs.cfgs@ == platforms
        &&& d == done
        &&& action == ForwardAction::GetPlatform(node.platform_deps@[done])
    } else {
        &&& next matches ForwardState::ResolvingConfiguration { known_cfgs }
        &&& known_cfgs.cfgs@ == platforms
        &&& action matches ForwardAction::ResolveConfiguration { cfg, cell, deps }
        &&& configured_flow::asks_configuration(
            label,
            node.configuration_deps@,
            cfg,
            cell,
            deps@,
        )
    }
}

/// What comes of the node that forwards to the transitioned one: the attributes that the transition
/// depends on must be the same in the two.
pub open spec fn is_forward_result(
    attrs: Seq<(String, Arc<ConfiguredAttr>)>,
    cfg: ConfigurationData,
    configured: MaybeCompatible<Arc<ConfiguredTargetNode>>,
    r: Result<MaybeCompatible<Arc<ConfiguredTargetNode>>, NodeError>,
) -> bool {
    match configured {
        MaybeCompatible::Incompatible(_) => r == Ok::<
            MaybeCompatible<Arc<ConfiguredTargetNode>>,
            NodeError,
        >(configured),
        MaybeCompatible::Compatible(node) => match node.forward_target {
            None => r matches Err(NodeError::Internal(m)) && m@ == "must be forward node"@,
            Some(forward) => match r {
                Ok(out) => out == configured && forall|i: int|
                    0 <= i < attrs.len() ==> configured_flow::attr_unchanged(
                        #[trigger] attrs[i],
                        *forward,
                    ),
                Err(e) => exists|i: int|
                    0 <= i < attrs.len() && configured_flow::attr_change_error(
                        e,
                        #[trigger] attrs[i],
                        cfg,
                        *forward,
                    ) && forall|k: int|
                        0 <= k < i ==> configured_flow::attr_unchanged(
                            #[trigger] attrs[k],
                            *forward,
                        ),
            },
        },
    }
}

/// `next` and `action` follow on `event` in `state`, in the computation of `label` by way of
/// `transition`.
pub open spec fn forward_follows(
    label: ConfiguredTargetLabel,
    transition: String,
    node: TargetToConfigure,
    state: ForwardState,
    event: ForwardEvent,
    next: ForwardState,
    action: ForwardAction,
) -> bool {
    match (state, event) {
        (
            ForwardState::ComputingPlatforms { cfgs, done },
            ForwardEvent::PlatformCfg(r),
        ) => match r {
            Err(e) => forward_fails(next, action, e),
            Ok(cfg) => exists|platforms: Seq<(TargetLabel, ConfigurationData)>| #[trigger]
                toolchains::platform_noted(
                    cfgs.cfgs@,
                    node.platform_deps@[done as int],
                    cfg,
                    platforms,
                ) && forward_asks_platform(label, node, platforms, done + 1, next, action),
        },
        (
            ForwardState::ResolvingConfiguration { known_cfgs },
            ForwardEvent::Configuration(r),
        ) => match r {
            Err(e) => {
                &&& next is Done
                &&& action matches ForwardAction::Finish(Err(error))
                &&& configured_flow::is_configuration_error(error, label, e)
            },
            Ok(matching) => {
                &&& next matches ForwardState::ResolvingTransitionAttrs { configuration }
                &&& *configuration == (NodeConfiguration {
                    cfg: label.cfg,
                    matching,
                    platform_cfgs: known_cfgs,
                })
                &&& action == (ForwardAction::GetTransitionAttrs { transition, configuration })
            },
        },
        (
            ForwardState::ResolvingTransitionAttrs { configuration },
            ForwardEvent::TransitionAttrs(r),
        ) => match r {
            Err(e) => forward_fails(next, action, e),
            Ok(lookups) => match configured_flow::transition_attrs(
                label.target@,
                Seq::empty(),
                lookups@,
            ) {
                Ok(resolved) => {
                    &&& next matches ForwardState::ApplyingTransition { configuration: c, attrs }
                    &&& c == configuration
                    &&& attrs@ == resolved
                    &&& action == (ForwardAction::ApplyTransition {
                        transition,
                        cfg: label.cfg,
                        attrs,
                    })
                },
                Err(AttrsFailure::Lookup(e)) => forward_fails(next, action, e),
                Err(AttrsFailure::Duplicate(m)) => {
                    &&& next is Done
                    &&& action matches ForwardAction::Finish(Err(NodeError::Internal(text)))
                    &&& text@ == m
                },
            },
        },
        (
            ForwardState::ApplyingTransition { configuration, attrs },
            ForwardEvent::Transition(r),
        ) => match r {
            Err(e) => forward_fails(next, action, e),
            Ok(cfg) => {
                let transitioned = ConfiguredTargetLabel {
                    target: label.target,
                    cfg,
                    exec_cfg: None,
                };
                if transitioned@ == label@ {
                    next is ComputingPlain && action == ForwardAction::ComputePlain(label)
                } else {
                    &&& next == (ForwardState::ComputingTransitioned { configuration, attrs })
                    &&& action == ForwardAction::ComputeTransitioned(
                        ConfiguredTransitionedNodeKey { forward: label, transitioned },
                    )
                }
            },
        },
        (ForwardState::ComputingPlain, ForwardEvent::Node(r)) => next is Done && action
            == ForwardAction::Finish(r),
        (
            ForwardState::ComputingTransitioned { configuration, attrs },
            ForwardEvent::Node(r),
        ) => match r {
            Err(e) => forward_fails(next, action, e),
            Ok(configured) => {
                &&& next is Done
                &&& action matches ForwardAction::Finish(result)
                &&& is_forward_result(attrs@, configuration.cfg, configured, result)
            },
        },
        _ => false,
    }
}

/// The computation of a node by way of the transition that its rule asks for.
pub struct ForwardComputation {
    pub label: ConfiguredTargetLabel,
    pub transition: String,
    pub node: Arc<TargetToConfigure>,
    pub state: ForwardState,
}

impl ForwardComputation {
    /// What is asked for is there to be asked for.
    pub open spec fn wf(&self) -> bool {
        self.state matches ForwardState::ComputingPlatforms { done, .. } ==> done
            < self.node.platform_deps@.len()
    }

    /// Starts to compute the node: first come the platforms that it names.
    pub fn start(
        label: ConfiguredTargetLabel,
        transition: String,
        node: Arc<TargetToConfigure>,
    ) -> (r: (Self, ForwardAction))
        ensures
            r.0.label == label,
            r.0.transition == transition,
            r.0.node == node,
            r.0.wf(),
            forward_asks_platform(label, *node, Seq::empty(), 0, r.0.state, r.1),
    {
        Self::ask_platform(label, transition, node, PlatformCfgs::new(), 0)
    }

    fn ask_platform(
        label: ConfiguredTargetLabel,
        transition: String,
        node: Arc<TargetToConfigure>,
        cfgs: PlatformCfgs,
        done: usize,
    ) -> (r: (Self, ForwardAction))
        ensures
            r.0.label == label,
            r.0.transition == transition,
            r.0.node == node,
            r.0.wf(),
            forward_asks_platform(label, *node, cfgs.cfgs@, done as int, r.0.state, r.1),
    {
        if done < node.platform_deps.len() {
            let asked = node.platform_deps[done].dupe();
            (
                ForwardComputation {
                    label,
                    transition,
                    node,
                    state: ForwardState::ComputingPlatforms { cfgs, done },
                },
                ForwardAction::GetPlatform(asked),
            )
        } else {
            let action = ForwardAction::ResolveConfiguration {
                cfg: label.cfg.dupe(),
                cell: label.target.cell.clone(),
                deps: configured_flow::clone_labels(&node.configuration_deps),
            };
            (
                ForwardComputation {
                    label,
                    transition,
                    node,
                    state: ForwardState::ResolvingConfiguration { known_cfgs: cfgs },
                },
                action,
            )
        }
    }

    fn finished(
        label: ConfiguredTargetLabel,
        transition: String,
        node: Arc<TargetToConfigure>,
        result: Result<MaybeCompatible<Arc<ConfiguredTargetNode>>, NodeError>,
    ) -> (r: (Self, ForwardAction))
        ensures
            r.0.label == label,
            r.0.transition == transition,
            r.0.node == node,
            r.0.state is Done,
            r.1 == ForwardAction::Finish(result),
    {
        (
            ForwardComputation { label, transition, node, state: ForwardState::Done },
            ForwardAction::Finish(result),
        )
    }

    /// Takes the answer to what was asked for, and says what to ask for next.
    pub fn step(self, event: ForwardEvent) -> (r: (Self, ForwardAction))
        requires
            self.wf(),
            forward_answers(self.state, event),
        ensures
            r.0.label == self.label,
            r.0.transition == self.transition,
            r.0.node == self.node,
            r.0.wf(),
            forward_follows(
                self.label,
                self.transition,
                *self.node,
                self.state,
                event,
                r.0.state,
                r.1,
            ),
    {
        let ForwardComputation { label, transition, node, state } = self;
        match (state, event) {
            (
                ForwardState::ComputingPlatforms { cfgs, done },
                ForwardEvent::PlatformCfg(r),
            ) => match r {
                Err(e) => Self::finished(label, transition, node, Err(e)),
                Ok(cfg) => {
                    let mut cfgs = cfgs;
                    assert(done < node.platform_deps.len());
                    cfgs.insert(&node.platform_deps[done], cfg);
                    Self::ask_platform(label, transition, node, cfgs, done + 1)
                },
            },
            (
                ForwardState::ResolvingConfiguration { known_cfgs },
                ForwardEvent::Configuration(r),
            ) => match r {
                Err(e) => {
                    let error = configuration_error(&label, e);
                    Self::finished(label, transition, node, Err(error))
                },
                Ok(matching) => {
                    let configuration = Arc::new(
                        NodeConfiguration {
                            cfg: label.cfg.dupe(),
                            matching,
                            platform_cfgs: known_cfgs,
                        },
                    );
                    let action = ForwardAction::GetTransitionAttrs {
                        transition: transition.clone(),
                        configuration: configuration.clone(),
                    };
                    (
                        ForwardComputation {
                            label,
                            transition,
                            node,
                            state: ForwardState::ResolvingTransitionAttrs { configuration },
                        },
                        action,
                    )
                },
            },
            (
                ForwardState::ResolvingTransitionAttrs { configuration },
                ForwardEvent::TransitionAttrs(r),
            ) => match r {
                Err(e) => Self::finished(label, transition, node, Err(e)),
                Ok(lookups) => match resolve_transition_attrs(&label.target, lookups) {
                    Err(e) => Self::finished(label, transition, node, Err(e)),
                    Ok(resolved) => {
                        let attrs = Arc::new(resolved);
                        let action = ForwardAction::ApplyTransition {
                            transition: transition.clone(),
                            cfg: label.cfg.dupe(),
                            attrs: attrs.clone(),
                        };
                        (
                            ForwardComputation {
                                label,
                                transition,
                                node,
                                state: ForwardState::ApplyingTransition { configuration, attrs },
                            },
                            action,
                        )
                    },
                },
            },
            (
                ForwardState::ApplyingTransition { configuration, attrs },
                ForwardEvent::Transition(r),
            ) => match r {
                Err(e) => Self::finished(label, transition, node, Err(e)),
                Ok(cfg) => match after_transition(&label, cfg) {
                    AfterTransition::Same => {
                        let asked = label.dupe();
                        (
                            ForwardComputation {
                                label,
                                transition,
                                node,
                                state: ForwardState::ComputingPlain,
                            },
                            ForwardAction::ComputePlain(asked),
                        )
                    },
                    AfterTransition::Forward(key) => (
                        ForwardComputation {
                            label,
                            transition,
                            node,
                            state: ForwardState::ComputingTransitioned { configuration, attrs },
                        },
                        ForwardAction::ComputeTransitioned(key),
                    ),
                },
            },
            (ForwardState::ComputingPlain, ForwardEvent::Node(r)) => Self::finished(
                label,
                transition,
                node,
                r,
            ),
            (
                ForwardState::ComputingTransitioned { configuration, attrs },
                ForwardEvent::Node(r),
            ) => match r {
                Err(e) => Self::finished(label, transition, node, Err(e)),
                Ok(configured) => {
                    let result = finish_forward_target_node(
                        &attrs,
                        &configuration.cfg,
                        configured,
                    );
                    Self::finished(label, transition, node, result)
                },
            },
            _ => {
                assert(false);
                Self::finished(label, transition, node, Err(NodeError::Internal(String::new())))
            },
        }
    }
}

/// A transition that leads to the label it started from makes no node that forwards, and one that
/// leads elsewhere asks for the node of the same target there.
pub proof fn law_transition_keeps_the_target(
    label: ConfiguredTargetLabel,
    transition: String,
    node: TargetToConfigure,
    configuration: Arc<NodeConfiguration>,
    attrs: Arc<Vec<(String, Arc<ConfiguredAttr>)>>,
    cfg: ConfigurationData,
    next: ForwardState,
    action: ForwardAction,
)
    requires
        forward_follows(
            label,
            transition,
            node,
            ForwardState::ApplyingTransition { configuration, attrs },
            ForwardEvent::Transition(Ok(cfg)),
            next,
            action,
        ),
    ensures
        match action {
            ForwardAction::ComputePlain(l) => l == label && label.cfg@ == cfg@,
            ForwardAction::ComputeTransitioned(key) => key.wf() && key.forward == label
                && key.transitioned.cfg == cfg,
            _ => false,
        },
{
}

/// Every platform that a target names is looked up, in order, and noted; then it is asked which
/// settings hold in the configuration from which the transition starts.
pub proof fn law_every_platform_comes_before_the_transition(
    label: ConfiguredTargetLabel,
    transition: String,
    node: TargetToConfigure,
    cfgs: PlatformCfgs,
    done: usize,
    r: Result<ConfigurationData, NodeError>,
    next: ForwardState,
    action: ForwardAction,
)
    requires
        done < node.platform_deps@.len(),
        forward_follows(
            label,
            transition,
            node,
            ForwardState::ComputingPlatforms { cfgs, done },
            ForwardEvent::PlatformCfg(r),
            next,
            action,
        ),
    ensures
        r is Err ==> next is Done && action == ForwardAction::Finish(
            Err::<MaybeCompatible<Arc<ConfiguredTargetNode>>, NodeError>(r->Err_0),
        ),
        r is Ok && done + 1 < node.platform_deps@.len() ==> {
            &&& action == ForwardAction::GetPlatform(node.platform_deps@[done + 1])
            &&& next is ComputingPlatforms
            &&& next->done == done + 1
            &&& toolchains::platform_noted(
                cfgs.cfgs@,
                node.platform_deps@[done as int],
                r->Ok_0,
                next->cfgs.cfgs@,
            )
        },
        r is Ok && done + 1 == node.platform_deps@.len() ==> {
            &&& action is ResolveConfiguration
            &&& action->ResolveConfiguration_cfg == label.cfg
            &&& action->ResolveConfiguration_cell == label.target.cell
            &&& action->ResolveConfiguration_deps@ == node.configuration_deps@
            &&& next is ResolvingConfiguration
            &&& toolchains::platform_noted(
                cfgs.cfgs@,
                node.platform_deps@[done as int],
                r->Ok_0,
                next->known_cfgs.cfgs@,
            )
        },
{
}

/// A transition is applied to the configuration of the target, with the attributes that it depends
/// on; what went wrong before that ends the computation.
pub proof fn law_transition_gets_its_attributes(
    label: ConfiguredTargetLabel,
    transition: String,
    node: TargetToConfigure,
    configuration: Arc<NodeConfiguration>,
    r: Result<Vec<TransitionAttrLookup>, NodeError>,
    next: ForwardState,
    action: ForwardAction,
)
    requires
        forward_follows(
            label,
            transition,
            node,
            ForwardState::ResolvingTransitionAttrs { configuration },
            ForwardEvent::TransitionAttrs(r),
            next,
            action,
        ),
    ensures
        r is Err ==> next is Done && action == ForwardAction::Finish(
            Err::<MaybeCompatible<Arc<ConfiguredTargetNode>>, NodeError>(r->Err_0),
        ),
        r is Ok ==> (action is ApplyTransition <==> configured_flow::transition_attrs(
            label.target@,
            Seq::empty(),
            r->Ok_0@,
        ) is Ok),
        action is ApplyTransition ==> action->ApplyTransition_transition == transition
            && action->ApplyTransition_cfg == label.cfg && action->ApplyTransition_attrs@
            == configured_flow::transition_attrs(label.target@, Seq::empty(), r->Ok_0@)->Ok_0,
        !(action is ApplyTransition) ==> next is Done && action is Finish
            && action->Finish_0 is Err,
{
}

/// Once the transitioned node is known, it is the result only where every attribute that the
/// transition depends on is the same in it as before; a node that is incompatible is the result as
/// it is, and one that does not forward is an error.
pub proof fn law_transition_may_not_change_its_attributes(
    label: ConfiguredTargetLabel,
    transition: String,
    node: TargetToConfigure,
    configuration: Arc<NodeConfiguration>,
    attrs: Arc<Vec<(String, Arc<ConfiguredAttr>)>>,
    r: Result<MaybeCompatible<Arc<ConfiguredTargetNode>>, NodeError>,
    next: ForwardState,
    action: ForwardAction,
    i: int,
)
    requires
        forward_follows(
            label,
            transition,
            node,
            ForwardState::ComputingTransitioned { configuration, attrs },
            ForwardEvent::Node(r),
            next,
            action,
        ),
    ensures
        next is Done,
        action is Finish,
        action->Finish_0 is Ok ==> action->Finish_0 == r,
        r is Err || r->Ok_0 is Incompatible ==> action->Finish_0 == r,
        r is Ok && r->Ok_0 is Compatible && r->Ok_0->Compatible_0.forward_target is None
            ==> action->Finish_0 is Err,
        r is Ok && r->Ok_0 is Compatible && r->Ok_0->Compatible_0.forward_target is Some && 0 <= i
            < attrs@.len() && !configured_flow::attr_unchanged(
            attrs@[i],
            *r->Ok_0->Compatible_0.forward_target->0,
        ) ==> action->Finish_0 is Err,
{
}

/// Once the settings that hold are known, the transition is asked for its attributes, in the
/// configuration of the label with the platforms that were found; where they cannot be found out,
/// that is reported for the label.
pub proof fn law_settings_come_before_the_attributes(
    label: ConfiguredTargetLabel,
    transition: String,
    node: TargetToConfigure,
    known_cfgs: PlatformCfgs,
    r: Result<Vec<TargetLabel>, NodeError>,
    next: ForwardState,
    action: ForwardAction,
)
    requires
        forward_follows(
            label,
            transition,
            node,
            ForwardState::ResolvingConfiguration { known_cfgs },
            ForwardEvent::Configuration(r),
            next,
            action,
        ),
    ensures
        r is Ok ==> {
            &&& next is ResolvingTransitionAttrs
            &&& next->ResolvingTransitionAttrs_configuration.cfg == label.cfg
            &&& next->ResolvingTransitionAttrs_configuration.matching == r->Ok_0
            &&& next->ResolvingTransitionAttrs_configuration.platform_cfgs == known_cfgs
            &&& action is GetTransitionAttrs
            &&& action->GetTransitionAttrs_transition == transition
            &&& action->GetTransitionAttrs_configuration
                == next->ResolvingTransitionAttrs_configuration
        },
        r is Err ==> {
            &&& next is Done
            &&& action is Finish
            &&& action->Finish_0 is Err
            &&& action->Finish_0->Err_0 is Context
            &&& *action->Finish_0->Err_0->Context_1 == r->Err_0
            &&& action->Finish_0->Err_0->Context_0@ == "Error resolving configuration deps of `"@
                + labels::configured_label_text(label@) + "`"@
        },
{
}

/// A transition that leads to the configuration where it started is none; any other leads to the
/// target in the configuration that the transition gave.
pub proof fn law_where_a_transition_leads(
    label: ConfiguredTargetLabel,
    transition: String,
    node: TargetToConfigure,
    configuration: Arc<NodeConfiguration>,
    attrs: Arc<Vec<(String, Arc<ConfiguredAttr>)>>,
    r: Result<ConfigurationData, NodeError>,
    next: ForwardState,
    action: ForwardAction,
)
    requires
        forward_follows(
            label,
            transition,
            node,
            ForwardState::ApplyingTransition { configuration, attrs },
            ForwardEvent::Transition(r),
            next,
            action,
        ),
    ensures
        r is Err ==> next is Done && action == ForwardAction::Finish(
            Err::<MaybeCompatible<Arc<ConfiguredTargetNode>>, NodeError>(r->Err_0),
        ),
        r is Ok && r->Ok_0@ == label.cfg@ && label.exec_cfg is None ==> next is ComputingPlain
            && action == ForwardAction::ComputePlain(label),
        r is Ok && r->Ok_0@ != label.cfg@ ==> {
            &&& next is ComputingTransitioned
            &&& next->ComputingTransitioned_configuration == configuration
            &&& next->ComputingTransitioned_attrs == attrs
            &&& action is ComputeTransitioned
            &&& action->ComputeTransitioned_0.forward == label
            &&& action->ComputeTransitioned_0.transitioned.target == label.target
            &&& action->ComputeTransitioned_0.transitioned.cfg == r->Ok_0
            &&& action->ComputeTransitioned_0.transitioned.exec_cfg is None
        },
{
}

/// A node that needs no transition is what it was computed as.
pub proof fn law_plain_node_is_kept(
    label: ConfiguredTargetLabel,
    transition: String,
    node: TargetToConfigure,
    r: Result<MaybeCompatible<Arc<ConfiguredTargetNode>>, NodeError>,
    next: ForwardState,
    action: ForwardAction,
)
    requires
        forward_follows(
            label,
            transition,
            node,
            ForwardState::ComputingPlain,
            ForwardEvent::Node(r),
            next,
            action,
        ),
    ensures
        next is Done,
        action == ForwardAction::Finish(r),
{
}

} // verus!
