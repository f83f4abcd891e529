//! Configured target nodes: compatibility, execution platforms, and the dependencies of a node.
use std::sync::Arc;
use vstd::prelude::*;
use vstd::string::*;

use crate::labels;
use crate::labels::position_of_target;
use crate::labels::ConfigurationData;
use crate::labels::ConfiguredTargetLabel;
use crate::labels::TargetLabel;
use crate::text;

verus! {

/// Why a configured node could not be computed.
#[derive(Debug)]
pub enum NodeError {
    /// An attribute that has to be a list is not one: its name and what it is.
    TargetCompatibleNotList(String, String),
    BothTargetCompatibleWith(String),
    /// Target, old and new configuration, attribute, and what it was and is resolved to.
    TransitionAttrIncompatibleChange(
        TargetLabel,
        ConfigurationData,
        ConfigurationData,
        String,
        String,
        String,
    ),
    ToolchainDepMissingPlatform(ConfigurationData),
    NonToolchainRuleUsedAsToolchainDep(TargetLabel),
    ToolchainRuleUsedAsNormalDep(TargetLabel),
    ToolchainTransitionDep(TargetLabel),
    PluginDepIsToolchainRule(TargetLabel),
    /// A dependency, and the target that it is not visible to.
    NotVisibleTo(TargetLabel, TargetLabel),
    UnknownPlatformTarget(TargetLabel),
    /// A target that has to be compatible is not.
    Incompatible(Arc<IncompatiblePlatformReason>),
    /// Something that cannot happen.
    Internal(String),
    /// An error of another part, and what was going on when it occurred.
    Context(String, Box<NodeError>),
    /// An error of another part.
    Other(String),
}

/// The message shown for an error.
pub open spec fn error_text(e: NodeError) -> Seq<char>
    decreases e,
{
    match e {
        NodeError::TargetCompatibleNotList(name, value) => "expected `"@ + name@
            + "` attribute to be a list but got `"@ + value@ + "`"@,
        NodeError::BothTargetCompatibleWith(label) => "`"@ + label@
            + "` had both `target_compatible_with` and `compatible_with` attributes. It should only have one."@,
        NodeError::TransitionAttrIncompatibleChange(
            target,
            old_cfg,
            new_cfg,
            attr,
            old_value,
            new_value,
        ) => "Target "@ + labels::target_label_text(target@) + " configuration transitioned\nold: "@
            + labels::configuration_text(old_cfg@) + "\nnew: "@ + labels::configuration_text(
            new_cfg@,
        ) + "\nbut attribute: "@ + attr@ + "\nresolved with old configuration to: "@ + old_value@
            + "\nresolved with new configuration to: "@ + new_value@,
        NodeError::ToolchainDepMissingPlatform(cfg) =>
            "Can't find toolchain_dep execution platform using configuration `"@
                + labels::configuration_text(cfg@) + "`"@,
        NodeError::NonToolchainRuleUsedAsToolchainDep(t) => "Target `"@
            + labels::target_label_text(t@)
            + "` was used as a toolchain_dep, but is not a toolchain rule"@,
        NodeError::ToolchainRuleUsedAsNormalDep(t) => "Target `"@ + labels::target_label_text(t@)
            + "` was used not as a toolchain_dep, but is a toolchain rule"@,
        NodeError::ToolchainTransitionDep(t) => "Target `"@ + labels::target_label_text(t@)
            + "` has a transition_dep, which is not permitted on a toolchain rule"@,
        NodeError::PluginDepIsToolchainRule(t) => "Plugin dep `"@ + labels::target_label_text(t@)
            + "` is a toolchain rule"@,
        NodeError::NotVisibleTo(dep, target) => "`"@ + labels::target_label_text(dep@)
            + "` is not visible to `"@ + labels::target_label_text(target@) + "`"@,
        NodeError::UnknownPlatformTarget(t) => "Unknown platform target `"@
            + labels::target_label_text(t@) + "`"@,
        NodeError::Incompatible(reason) => "Target `"@ + labels::configured_label_text(
            reason.target@,
        ) + "` is incompatible"@,
        NodeError::Internal(m) => m@,
        NodeError::Context(context, _) => context@,
        NodeError::Other(m) => m@,
    }
}

impl NodeError {
    /// The message shown for the error.
    pub fn message(&self) -> (r: String)
        ensures
            r@ == error_text(*self),
    {
        match self {
            NodeError::TargetCompatibleNotList(name, value) => text::concat5(
                "expected `",
                name.as_str(),
                "` attribute to be a list but got `",
                value.as_str(),
                "`",
            ),
            NodeError::BothTargetCompatibleWith(label) => text::concat3(
                "`",
                label.as_str(),
                "` had both `target_compatible_with` and `compatible_with` attributes. It should only have one.",
            ),
            NodeError::TransitionAttrIncompatibleChange(
                target,
                old_cfg,
                new_cfg,
                attr,
                old_value,
                new_value,
            ) => {
                let t = target.display();
                let o = old_cfg.display();
                let n = new_cfg.display();
                let mut s = text::concat5(
                    "Target ",
                    t.as_str(),
                    " configuration transitioned\nold: ",
                    o.as_str(),
                    "\nnew: ",
                );
                s.append(n.as_str());
                s.append("\nbut attribute: ");
                s.append(attr.as_str());
                s.append("\nresolved with old configuration to: ");
                s.append(old_value.as_str());
                s.append("\nresolved with new configuration to: ");
                s.append(new_value.as_str());
                s
            },
            NodeError::ToolchainDepMissingPlatform(cfg) => {
                let c = cfg.display();
                text::concat3(
                    "Can't find toolchain_dep execution platform using configuration `",
                    c.as_str(),
                    "`",
                )
            },
            NodeError::NonToolchainRuleUsedAsToolchainDep(t) => {
                let t = t.display();
                text::concat3(
                    "Target `",
                    t.as_str(),
                    "` was used as a toolchain_dep, but is not a toolchain rule",
                )
            },
            NodeError::ToolchainRuleUsedAsNormalDep(t) => {
                let t = t.display();
                text::concat3(
                    "Target `",
                    t.as_str(),
                    "` was used not as a toolchain_dep, but is a toolchain rule",
                )
            },
            NodeError::ToolchainTransitionDep(t) => {
                let t = t.display();
                text::concat3(
                    "Target `",
                    t.as_str(),
                    "` has a transition_dep, which is not permitted on a toolchain rule",
                )
            },
            NodeError::PluginDepIsToolchainRule(t) => {
                let t = t.display();
                text::concat3("Plugin dep `", t.as_str(), "` is a toolchain rule")
            },
            NodeError::NotVisibleTo(dep, target) => {
                let d = dep.display();
                let t = target.display();
                text::concat5("`", d.as_str(), "` is not visible to `", t.as_str(), "`")
            },
            NodeError::UnknownPlatformTarget(t) => {
                let t = t.display();
                text::concat3("Unknown platform target `", t.as_str(), "`")
            },
            NodeError::Incompatible(reason) => {
                let t = reason.target.display();
                text::concat3("Target `", t.as_str(), "` is incompatible")
            },
            NodeError::Internal(m) => m.clone(),
            NodeError::Context(context, _) => context.clone(),
            NodeError::Other(m) => m.clone(),
        }
    }
}

/// A platform on which actions run.
#[derive(Debug)]
pub enum ExecutionPlatform {
    /// A registered platform with its configuration.
    Platform { target: TargetLabel, cfg: ConfigurationData },
    /// The only platform where none are registered: the fallback executor, in the configuration
    /// of the target itself.
    Legacy { executor_config: String, cfg: ConfigurationData },
}

/// The configuration of a platform.
pub open spec fn platform_cfg(p: ExecutionPlatform) -> ConfigurationData {
    match p {
        ExecutionPlatform::Platform { cfg, .. } => cfg,
        ExecutionPlatform::Legacy { cfg, .. } => cfg,
    }
}

impl ExecutionPlatform {
    /// The configuration of the platform.
    pub fn cfg(&self) -> (r: &ConfigurationData)
        ensures
            *r == platform_cfg(*self),
    {
        match self {
            ExecutionPlatform::Platform { cfg, .. } => cfg,
            ExecutionPlatform::Legacy { cfg, .. } => cfg,
        }
    }

    /// Another handle on the same platform.
    pub fn dupe(&self) -> (r: Self)
        ensures
            r == *self,
    {
        match self {
            ExecutionPlatform::Platform { target, cfg } => ExecutionPlatform::Platform {
                target: target.dupe(),
                cfg: cfg.dupe(),
            },
            ExecutionPlatform::Legacy { executor_config, cfg } => ExecutionPlatform::Legacy {
                executor_config: executor_config.clone(),
                cfg: cfg.dupe(),
            },
        }
    }
}

/// `i` is the first of `platforms` with the configuration `cfg`.
pub open spec fn first_with_cfg(
    platforms: Seq<ExecutionPlatform>,
    cfg: ConfigurationData,
    i: int,
) -> bool {
    &&& 0 <= i < platforms.len()
    &&& platform_cfg(platforms[i])@ == cfg@
    &&& forall|k: int| 0 <= k < i ==> platform_cfg(#[trigger] platforms[k])@ != cfg@
}

/// The execution platform with the configuration `exec_cfg`: the first such candidate. Where no
/// platforms are registered, or the execution configuration is not known, it is the fallback
/// executor in the configuration `cfg`.
pub fn find_execution_platform_by_configuration(
    platforms: &Option<Vec<ExecutionPlatform>>,
    fallback_executor_config: &String,
    exec_cfg: &ConfigurationData,
    cfg: &ConfigurationData,
) -> (r: Result<ExecutionPlatform, NodeError>)
    ensures
        match *platforms {
            Some(candidates) if !(exec_cfg is UnboundExec) => match r {
                Ok(p) => exists|i: int|
                    first_with_cfg(candidates@, *exec_cfg, i) && p == #[trigger] candidates@[i],
                Err(e) => {
                    &&& e == NodeError::ToolchainDepMissingPlatform(*exec_cfg)
                    &&& forall|i: int|
                        0 <= i < candidates@.len() ==> platform_cfg(#[trigger] candidates@[i])@
                            != exec_cfg@
                },
            },
            _ => r == Ok::<ExecutionPlatform, NodeError>(
                ExecutionPlatform::Legacy { executor_config: *fallback_executor_config, cfg: *cfg },
            ),
        },
{
    match platforms {
        Some(candidates) => {
            if !matches!(exec_cfg, ConfigurationData::UnboundExec) {
                let mut i: usize = 0;
                while i < candidates.len()
                    invariant
                        *platforms == Some(*candidates),
                        !(exec_cfg is UnboundExec),
                        i <= candidates@.len(),
                        forall|k: int|
                            0 <= k < i ==> platform_cfg(#[trigger] candidates@[k])@ != exec_cfg@,
                    decreases candidates@.len() - i,
                {
                    if candidates[i].cfg().same_as(exec_cfg) {
                        assert(first_with_cfg(candidates@, *exec_cfg, i as int));
                        let found = candidates[i].dupe();
                        assert(found == candidates@[i as int]);
                        return Ok(found);
                    }
                    i = i + 1;
                }
                return Err(NodeError::ToolchainDepMissingPlatform(exec_cfg.dupe()));
            }
        },
        None => {},
    }
    Ok(
        ExecutionPlatform::Legacy {
            executor_config: fallback_executor_config.clone(),
            cfg: cfg.dupe(),
        },
    )
}

/// A value that may be incompatible with the configuration it was asked for in.
#[derive(Debug)]
pub enum MaybeCompatible<T> {
    Incompatible(Arc<IncompatiblePlatformReason>),
    Compatible(T),
}

/// Why a target cannot be built in its configuration.
#[derive(Debug)]
pub struct IncompatiblePlatformReason {
    pub target: ConfiguredTargetLabel,
    pub cause: IncompatiblePlatformReasonCause,
}

#[derive(Debug)]
pub enum IncompatiblePlatformReasonCause {
    /// A setting that the target asks for does not hold.
    UnsatisfiedConfig(TargetLabel),
    /// A dependency is incompatible.
    Dependency(Arc<IncompatiblePlatformReason>),
}

/// A configured attribute that should be a list of settings.
#[derive(Debug)]
pub struct CompatibleWithAttr {
    pub name: String,
    /// The settings; none where the attribute is not a list. An item that is not a setting is an
    /// error.
    pub settings: Option<Vec<Result<TargetLabel, String>>>,
    /// The value as it is shown.
    pub display: String,
}

/// A configured attribute of a target that should be a list of settings, as far as it asks for
/// anything: an attribute that is absent or an empty list does not. An attribute that could not
/// be configured is an error.
pub fn unpack_target_compatible_with_attr(
    attr: Option<Result<CompatibleWithAttr, NodeError>>,
    attr_name: &str,
) -> (r: Result<Option<Vec<Result<TargetLabel, String>>>, NodeError>)
    ensures
        match attr {
            None => r matches Ok(None),
            Some(Err(e)) => r matches Err(NodeError::Context(context, source)) && *source == e
                && context@ == "Error configuring attribute `"@ + attr_name@ + "`"@,
            Some(Ok(a)) => match a.settings {
                None => r == Err::<Option<Vec<Result<TargetLabel, String>>>, NodeError>(
                    NodeError::TargetCompatibleNotList(a.name, a.display),
                ),
                Some(list) => if list@.len() == 0 {
                    r matches Ok(None)
                } else {
                    r == Ok::<Option<Vec<Result<TargetLabel, String>>>, NodeError>(Some(list))
                },
            },
        },
{
    match attr {
        None => Ok(None),
        Some(Err(e)) => Err(
            NodeError::Context(
                text::concat3("Error configuring attribute `", attr_name, "`"),
                Box::new(e),
            ),
        ),
        Some(Ok(a)) => {
            let CompatibleWithAttr { name, settings, display } = a;
            match settings {
                Some(list) => if list.len() == 0 {
                    Ok(None)
                } else {
                    Ok(Some(list))
                },
                None => Err(NodeError::TargetCompatibleNotList(name, display)),
            }
        },
    }
}

/// `setting` is one of the settings that hold.
pub open spec fn holds(matching: Seq<TargetLabel>, setting: TargetLabel) -> bool {
    exists|i: int| 0 <= i < matching.len() && (#[trigger] matching[i])@ == setting@
}

/// All items of `settings` are settings.
pub open spec fn all_settings(settings: Seq<Result<TargetLabel, String>>) -> bool {
    forall|i: int| 0 <= i < settings.len() ==> (#[trigger] settings[i]) is Ok
}

/// Setting number `i` is the first that does not hold.
pub open spec fn first_unsatisfied(
    settings: Seq<Result<TargetLabel, String>>,
    matching: Seq<TargetLabel>,
    i: int,
) -> bool {
    &&& 0 <= i < settings.len()
    &&& !holds(matching, settings[i]->Ok_0)
    &&& forall|k: int| 0 <= k < i ==> holds(matching, (#[trigger] settings[k])->Ok_0)
}

/// One of the settings holds.
pub open spec fn any_holds(
    settings: Seq<Result<TargetLabel, String>>,
    matching: Seq<TargetLabel>,
) -> bool {
    exists|i: int| 0 <= i < settings.len() && holds(matching, (#[trigger] settings[i])->Ok_0)
}

/// What comes of checking a list of settings: whether any holds, and the first that does not.
fn check_compatibility(
    settings: &Vec<Result<TargetLabel, String>>,
    matching: &Vec<TargetLabel>,
) -> (r: Result<(bool, Option<TargetLabel>), String>)
    ensures
        match r {
            Err(e) => exists|i: int|
                0 <= i < settings@.len() && #[trigger] settings@[i] == Err::<TargetLabel, String>(e)
                    && forall|k: int| 0 <= k < i ==> (#[trigger] settings@[k]) is Ok,
            Ok((any, first)) => {
                &&& all_settings(settings@)
                &&& any == any_holds(settings@, matching@)
                &&& match first {
                    Some(l) => exists|i: int|
                        first_unsatisfied(settings@, matching@, i) && l == (
                        #[trigger] settings@[i])->Ok_0,
                    None => forall|i: int|
                        0 <= i < settings@.len() ==> holds(
                            matching@,
                            (#[trigger] settings@[i])->Ok_0,
                        ),
                }
            },
        },
{
    let mut any = false;
    let mut first: Option<TargetLabel> = None;
    let mut i: usize = 0;
    while i < settings.len()
        invariant
            i <= settings@.len(),
            forall|k: int| 0 <= k < i ==> (#[trigger] settings@[k]) is Ok,
            any == exists|k: int|
                0 <= k < i && holds(matching@, (#[trigger] settings@[k])->Ok_0),
            match first {
                Some(l) => exists|k: int|
                    k < i && first_unsatisfied(settings@, matching@, k) && l == (
                    #[trigger] settings@[k])->Ok_0,
                None => forall|k: int|
                    0 <= k < i ==> holds(matching@, (#[trigger] settings@[k])->Ok_0),
            },
        decreases settings@.len() - i,
    {
        match &settings[i] {
            Err(e) => {
                return Err(e.clone());
            },
            Ok(label) => {
                assert(settings@[i as int]->Ok_0 == *label);
                if position_of_target(matching, label).is_some() {
                    assert(holds(matching@, *label));
                    any = true;
                } else {
                    assert(!holds(matching@, *label));
                    if first.is_none() {
                        first = Some(label.dupe());
                        assert(first_unsatisfied(settings@, matching@, i as int));
                    }
                }
            },
        }
        i = i + 1;
    }
    Ok((any, first))
}

/// Whether a target can be built in a configuration in which the settings `matching` hold. With
/// `target_compatible_with` all of its settings have to hold; with `compatible_with` one of them
/// has to. A target may not have both.
pub fn check_compatible(
    target_label: &ConfiguredTargetLabel,
    target_compatible_with: Option<Result<CompatibleWithAttr, NodeError>>,
    legacy_compatible_with: Option<Result<CompatibleWithAttr, NodeError>>,
    matching: &Vec<TargetLabel>,
) -> (r: Result<MaybeCompatible<()>, NodeError>)
    ensures
        is_compatibility(
            r,
            *target_label,
            target_compatible_with,
            legacy_compatible_with,
            matching@,
        ),
{
    let all = match unpack_target_compatible_with_attr(
        target_compatible_with,
        "target_compatible_with",
    ) {
        Ok(a) => a,
        Err(e) => {
            return Err(e);
        },
    };
    let any = match unpack_target_compatible_with_attr(legacy_compatible_with, "compatible_with") {
        Ok(a) => a,
        Err(e) => {
            return Err(e);
        },
    };
    let unsatisfied = match (all, any) {
        (None, None) => {
            return Ok(MaybeCompatible::Compatible(()));
        },
        (Some(_), Some(_)) => {
            return Err(NodeError::BothTargetCompatibleWith(target_label.display()));
        },
        (Some(settings), None) => match check_compatibility(&settings, matching) {
            Err(e) => {
                return Err(
                    NodeError::Context(
                        "attribute `target_compatible_with`".to_owned(),
                        Box::new(NodeError::Other(e)),
                    ),
                );
            },
            Ok((_, None)) => {
                return Ok(MaybeCompatible::Compatible(()));
            },
            Ok((_, Some(label))) => label,
        },
        (None, Some(settings)) => match check_compatibility(&settings, matching) {
            Err(e) => {
                return Err(
                    NodeError::Context(
                        "attribute `compatible_with`".to_owned(),
                        Box::new(NodeError::Other(e)),
                    ),
                );
            },
            Ok((true, _)) => {
                return Ok(MaybeCompatible::Compatible(()));
            },
            Ok((false, None)) => {
                assert(holds(matching@, settings@[0]->Ok_0));
                return Ok(MaybeCompatible::Compatible(()));
            },
            Ok((false, Some(label))) => {
                assert(exists|i: int|
                    first_unsatisfied(settings@, matching@, i) && label == (
                    #[trigger] settings@[i])->Ok_0);
                assert(!holds(matching@, settings@[0]->Ok_0));
                assert(first_unsatisfied(settings@, matching@, 0));
                label
            },
        },
    };
    Ok(
        MaybeCompatible::Incompatible(
            Arc::new(
                IncompatiblePlatformReason {
                    target: target_label.dupe(),
                    cause: IncompatiblePlatformReasonCause::UnsatisfiedConfig(unsatisfied),
                },
            ),
        ),
    )
}

/// The list of settings that a configured attribute asks for, if it does.
pub open spec fn asked_for(attr: Option<Result<CompatibleWithAttr, NodeError>>) -> Option<
    Seq<Result<TargetLabel, String>>,
> {
    match attr {
        Some(Ok(a)) => match a.settings {
            Some(list) if list@.len() > 0 => Some(list@),
            _ => None,
        },
        _ => None,
    }
}

/// The attribute could be configured and is a list, or is absent.
pub open spec fn well_typed(attr: Option<Result<CompatibleWithAttr, NodeError>>) -> bool {
    match attr {
        None => true,
        Some(Err(_)) => false,
        Some(Ok(a)) => a.settings is Some,
    }
}

/// `e` says why the attribute is not well typed.
pub open spec fn typing_error(
    e: NodeError,
    attr: Option<Result<CompatibleWithAttr, NodeError>>,
    attr_name: Seq<char>,
) -> bool {
    match attr {
        Some(Err(source)) => e matches NodeError::Context(context, s) && *s == source && context@
            == "Error configuring attribute `"@ + attr_name + "`"@,
        Some(Ok(a)) => e == NodeError::TargetCompatibleNotList(a.name, a.display),
        None => false,
    }
}

/// `r` says that the target is incompatible because `setting` does not hold.
pub open spec fn is_unsatisfied(
    r: Result<MaybeCompatible<()>, NodeError>,
    target: ConfiguredTargetLabel,
    setting: TargetLabel,
) -> bool {
    r matches Ok(MaybeCompatible::Incompatible(reason)) && reason.target == target && reason.cause
        == IncompatiblePlatformReasonCause::UnsatisfiedConfig(setting)
}

/// `r` is the answer to whether the target can be built where the settings `matching` hold.
pub open spec fn is_compatibility(
    r: Result<MaybeCompatible<()>, NodeError>,
    target: ConfiguredTargetLabel,
    all_attr: Option<Result<CompatibleWithAttr, NodeError>>,
    any_attr: Option<Result<CompatibleWithAttr, NodeError>>,
    matching: Seq<TargetLabel>,
) -> bool {
    if !well_typed(all_attr) {
        r matches Err(e) && typing_error(e, all_attr, "target_compatible_with"@)
    } else if !well_typed(any_attr) {
        r matches Err(e) && typing_error(e, any_attr, "compatible_with"@)
    } else {
        match (asked_for(all_attr), asked_for(any_attr)) {
            (None, None) => r == Ok::<MaybeCompatible<()>, NodeError>(
                MaybeCompatible::Compatible(()),
            ),
            (Some(_), Some(_)) => r
                matches Err(NodeError::BothTargetCompatibleWith(l)) && l@
                == labels::configured_label_text(target@),
            (Some(settings), None) => if !all_settings(settings) {
                r matches Err(NodeError::Context(c, e)) && c@
                    == "attribute `target_compatible_with`"@ && bad_setting(*e, settings)
            } else if forall|i: int|
                0 <= i < settings.len() ==> holds(matching, (#[trigger] settings[i])->Ok_0) {
                r == Ok::<MaybeCompatible<()>, NodeError>(MaybeCompatible::Compatible(()))
            } else {
                exists|i: int|
                    first_unsatisfied(settings, matching, i) && is_unsatisfied(
                        r,
                        target,
                        (#[trigger] settings[i])->Ok_0,
                    )
            },
            (None, Some(settings)) => if !all_settings(settings) {
                r matches Err(NodeError::Context(c, e)) && c@ == "attribute `compatible_with`"@
                    && bad_setting(*e, settings)
            } else if any_holds(settings, matching) {
                r == Ok::<MaybeCompatible<()>, NodeError>(MaybeCompatible::Compatible(()))
            } else {
                is_unsatisfied(r, target, settings[0]->Ok_0)
            },
        }
    }
}

/// `e` is the error of the first item that is not a setting.
pub open spec fn bad_setting(e: NodeError, settings: Seq<Result<TargetLabel, String>>) -> bool {
    exists|i: int|
        0 <= i < settings.len() && (#[trigger] settings[i]) is Err && e == NodeError::Other(
            settings[i]->Err_0,
        ) && forall|k: int| 0 <= k < i ==> (#[trigger] settings[k]) is Ok
}

/// A setting holds where it is among those that match, by its whole label.
pub proof fn law_when_a_setting_holds(matching: Seq<TargetLabel>, setting: TargetLabel, i: int)
    ensures
        0 <= i < matching.len() && matching[i]@ == setting@ ==> holds(matching, setting),
        holds(matching, setting) ==> exists|k: int|
            0 <= k < matching.len() && (#[trigger] matching[k])@ == setting@,
        !holds(Seq::empty(), setting),
{
}

/// A target that names settings in `target_compatible_with` is compatible exactly where all of
/// them hold; where one does not, the first such is the reason.
pub proof fn law_all_settings_have_to_hold(
    r: Result<MaybeCompatible<()>, NodeError>,
    target: ConfiguredTargetLabel,
    settings: Seq<Result<TargetLabel, String>>,
    all_attr: CompatibleWithAttr,
    matching: Seq<TargetLabel>,
)
    requires
        all_attr.settings matches Some(list) && list@ == settings && settings.len() > 0,
        forall|i: int| 0 <= i < settings.len() ==> (#[trigger] settings[i]) is Ok,
        is_compatibility(r, target, Some(Ok(all_attr)), None, matching),
    ensures
        r matches Ok(MaybeCompatible::Compatible(_)) <==> forall|i: int|
            0 <= i < settings.len() ==> holds(matching, (#[trigger] settings[i])->Ok_0),
        r is Ok,
        r matches Ok(MaybeCompatible::Incompatible(reason)) ==> reason.target == target && exists|
            i: int,
        |
            0 <= i < settings.len() && reason.cause
                == IncompatiblePlatformReasonCause::UnsatisfiedConfig(
                (#[trigger] settings[i])->Ok_0,
            ) && !holds(matching, settings[i]->Ok_0) && forall|k: int|
                0 <= k < i ==> holds(matching, (#[trigger] settings[k])->Ok_0),
{
}

/// A target that names settings in `compatible_with` is compatible exactly where one of them
/// holds; where none does, the first is the reason.
pub proof fn law_one_setting_has_to_hold(
    r: Result<MaybeCompatible<()>, NodeError>,
    target: ConfiguredTargetLabel,
    settings: Seq<Result<TargetLabel, String>>,
    any_attr: CompatibleWithAttr,
    matching: Seq<TargetLabel>,
)
    requires
        any_attr.settings matches Some(list) && list@ == settings && settings.len() > 0,
        forall|i: int| 0 <= i < settings.len() ==> (#[trigger] settings[i]) is Ok,
        is_compatibility(r, target, None, Some(Ok(any_attr)), matching),
    ensures
        r matches Ok(MaybeCompatible::Compatible(_)) <==> exists|i: int, k: int|
            0 <= i < settings.len() && 0 <= k < matching.len() && (#[trigger] matching[k])@ == (
            #[trigger] settings[i])->Ok_0@,
        r is Ok,
        r matches Ok(MaybeCompatible::Incompatible(reason)) ==> reason.target == target
            && reason.cause == IncompatiblePlatformReasonCause::UnsatisfiedConfig(
            settings[0]->Ok_0,
        ),
{
    if any_holds(settings, matching) {
        let i = choose|i: int|
            0 <= i < settings.len() && holds(matching, (#[trigger] settings[i])->Ok_0);
        let k = choose|k: int|
            0 <= k < matching.len() && (#[trigger] matching[k])@ == settings[i]->Ok_0@;
        assert(matching[k]@ == settings[i]->Ok_0@);
    }
    if exists|i: int, k: int|
        0 <= i < settings.len() && 0 <= k < matching.len() && (#[trigger] matching[k])@ == (
        #[trigger] settings[i])->Ok_0@ {
        let (i, k) = choose|i: int, k: int|
            0 <= i < settings.len() && 0 <= k < matching.len() && (#[trigger] matching[k])@ == (
            #[trigger] settings[i])->Ok_0@;
        assert(holds(matching, settings[i]->Ok_0));
        assert(any_holds(settings, matching));
    }
}

/// A target that asks for nothing is compatible with everything; one that asks in both attributes
/// is an error, and so is an attribute that is no list or could not be configured.
pub proof fn law_what_compatibility_asks_for(
    r: Result<MaybeCompatible<()>, NodeError>,
    target: ConfiguredTargetLabel,
    all_attr: Option<Result<CompatibleWithAttr, NodeError>>,
    any_attr: Option<Result<CompatibleWithAttr, NodeError>>,
    matching: Seq<TargetLabel>,
)
    requires
        is_compatibility(r, target, all_attr, any_attr, matching),
    ensures
        all_attr is None && any_attr is None ==> r matches Ok(MaybeCompatible::Compatible(_)),
        all_attr matches Some(Err(_)) ==> r is Err,
        any_attr matches Some(Err(_)) ==> r is Err,
        all_attr matches Some(Ok(a)) ==> a.settings is None ==> r is Err,
        any_attr matches Some(Ok(a)) ==> a.settings is None ==> r is Err,
        all_attr matches Some(Ok(a)) ==> a.settings matches Some(l) ==> l@.len() == 0
            && any_attr is None ==> (r matches Ok(MaybeCompatible::Compatible(_))),
        all_attr matches Some(Ok(a)) ==> any_attr matches Some(Ok(b)) ==> (a.settings is Some
            && b.settings is Some && a.settings->0@.len() > 0 && b.settings->0@.len() > 0) ==> (r
            matches Err(NodeError::BothTargetCompatibleWith(_))),
{
}

/// A platform is found by its configuration: the first that has it.
pub proof fn law_first_platform_of_a_configuration(
    platforms: Seq<ExecutionPlatform>,
    cfg: ConfigurationData,
    i: int,
    j: int,
)
    requires
        first_with_cfg(platforms, cfg, i),
    ensures
        0 <= i < platforms.len(),
        match platforms[i] {
            ExecutionPlatform::Platform { cfg: c, .. } => c@ == cfg@,
            ExecutionPlatform::Legacy { cfg: c, .. } => c@ == cfg@,
        },
        first_with_cfg(platforms, cfg, j) ==> i == j,
        0 <= j < platforms.len() && platform_cfg(platforms[j])@ == cfg@ ==> i <= j,
{
}

/// A setting that is none is reported, the first of them.
pub proof fn law_first_bad_setting_is_reported(
    e: NodeError,
    settings: Seq<Result<TargetLabel, String>>,
    i: int,
)
    requires
        0 <= i < settings.len(),
        settings[i] is Err,
        forall|k: int| 0 <= k < i ==> (#[trigger] settings[k]) is Ok,
    ensures
        bad_setting(e, settings) <==> e == NodeError::Other(settings[i]->Err_0),
        !all_settings(settings),
{
    if bad_setting(e, settings) {
        let j = choose|j: int|
            0 <= j < settings.len() && (#[trigger] settings[j]) is Err && e == NodeError::Other(
                settings[j]->Err_0,
            ) && forall|k: int| 0 <= k < j ==> (#[trigger] settings[k]) is Ok;
        assert(i == j);
    }
}

/// What is not a list of settings is reported with the name and value of the attribute, and what
/// cannot be configured with the reason.
pub proof fn law_settings_have_to_be_a_list(
    attr: CompatibleWithAttr,
    source: NodeError,
    name: Seq<char>,
    e: NodeError,
)
    ensures
        well_typed(None),
        well_typed(Some(Ok(attr))) <==> attr.settings is Some,
        !well_typed(Some(Err(source))),
        typing_error(e, Some(Ok(attr)), name) ==> e == NodeError::TargetCompatibleNotList(
            attr.name,
            attr.display,
        ),
        typing_error(e, Some(Err(source)), name) ==> e is Context && *e->Context_1 == source
            && e->Context_0@ == "Error configuring attribute `"@ + name + "`"@,
        attr.settings is Some && attr.settings->0@.len() > 0 ==> asked_for(Some(Ok(attr))) == Some(
            attr.settings->0@,
        ),
        attr.settings is Some && attr.settings->0@.len() == 0 ==> asked_for(Some(Ok(attr))) is None,
        asked_for(None) is None,
{
}

/// What is wrong with targets is said of the targets that it is wrong with.
pub proof fn law_messages_name_their_targets(
    t: TargetLabel,
    u: TargetLabel,
    cfg: ConfigurationData,
    label: String,
    name: String,
    value: String,
)
    ensures
        error_text(NodeError::NotVisibleTo(t, u)) == "`"@ + labels::target_label_text(t@)
            + "` is not visible to `"@ + labels::target_label_text(u@) + "`"@,
        error_text(NodeError::NonToolchainRuleUsedAsToolchainDep(t)) == "Target `"@
            + labels::target_label_text(t@)
            + "` was used as a toolchain_dep, but is not a toolchain rule"@,
        error_text(NodeError::ToolchainRuleUsedAsNormalDep(t)) == "Target `"@
            + labels::target_label_text(t@)
            + "` was used not as a toolchain_dep, but is a toolchain rule"@,
        error_text(NodeError::ToolchainTransitionDep(t)) == "Target `"@ + labels::target_label_text(
            t@,
        ) + "` has a transition_dep, which is not permitted on a toolchain rule"@,
        error_text(NodeError::PluginDepIsToolchainRule(t)) == "Plugin dep `"@
            + labels::target_label_text(t@) + "` is a toolchain rule"@,
        error_text(NodeError::UnknownPlatformTarget(t)) == "Unknown platform target `"@
            + labels::target_label_text(t@) + "`"@,
        error_text(NodeError::ToolchainDepMissingPlatform(cfg))
            == "Can't find toolchain_dep execution platform using configuration `"@
            + labels::configuration_text(cfg@) + "`"@,
        error_text(NodeError::BothTargetCompatibleWith(label)) == "`"@ + label@
            + "` had both `target_compatible_with` and `compatible_with` attributes. It should only have one."@,
        error_text(NodeError::TargetCompatibleNotList(name, value)) == "expected `"@ + name@
            + "` attribute to be a list but got `"@ + value@ + "`"@,
{
}

/// A change that a transition may not make is reported with what was and what came of it.
pub proof fn law_message_of_a_changed_attribute(
    t: TargetLabel,
    old_cfg: ConfigurationData,
    new_cfg: ConfigurationData,
    attr: String,
    old_value: String,
    new_value: String,
)
    ensures
        error_text(
            NodeError::TransitionAttrIncompatibleChange(
                t,
                old_cfg,
                new_cfg,
                attr,
                old_value,
                new_value,
            ),
        ) == "Target "@ + labels::target_label_text(t@) + " configuration transitioned\nold: "@
            + labels::configuration_text(old_cfg@) + "\nnew: "@ + labels::configuration_text(
            new_cfg@,
        ) + "\nbut attribute: "@ + attr@ + "\nresolved with old configuration to: "@ + old_value@
            + "\nresolved with new configuration to: "@ + new_value@,
{
}

} // verus!
