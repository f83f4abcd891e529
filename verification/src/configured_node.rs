//! The computation of a configured node: what is asked for in which order, and what comes of the
//! answers.
use std::sync::Arc;
use vstd::prelude::*;
use vstd::string::*;

use crate::configured;
use crate::configured::ExecutionPlatform;
use crate::configured::IncompatiblePlatformReason;
use crate::configured::IncompatiblePlatformReasonCause;
use crate::configured::MaybeCompatible;
use crate::configured::NodeError;
use crate::configured_deps;
use crate::configured_deps::CheckVisibility;
use crate::configured_deps::ConfiguredAttr;
use crate::configured_deps::ConfiguredTargetNode;
use crate::configured_deps::DepResult;
use crate::configured_deps::ErrorsAndIncompatibilities;
use crate::configured_deps::NodeConfiguration;
use crate::configured_deps::PluginKindSet;
use crate::configured_deps::PluginListElemKind;
use crate::configured_deps::PluginLists;
use crate::configured_deps::PluginView;
use crate::configured_deps::ResolvedTransitions;
use crate::configured_deps::Traversal;
use crate::configured_deps::Unpacked;
use crate::labels;
use crate::labels::ConfigurationData;
use crate::labels::ConfigurationView;
use crate::labels::ConfiguredLabelView;
use crate::labels::ConfiguredProvidersLabel;
use crate::labels::ConfiguredTargetLabel;
use crate::labels::ProvidersLabelView;
use crate::labels::TargetLabel;
use crate::labels::TargetLabelView;
use crate::text;
use crate::text::str_eq;

verus! {

/// The dependencies of a node as far as its attributes tell.
pub struct GatheredDeps {
    pub deps: Vec<Arc<ConfiguredTargetNode>>,
    pub exec_deps: Vec<(ConfiguredProvidersLabel, CheckVisibility)>,
    pub toolchain_deps: Vec<ConfiguredTargetLabel>,
    pub plugin_lists: PluginLists,
}

/// What has come of the dependencies that were looked up.
pub struct GatherState {
    pub deps: Seq<Arc<ConfiguredTargetNode>>,
    pub plugins: Seq<PluginView>,
    pub errs: Seq<NodeError>,
    pub incompats: Seq<Arc<IncompatiblePlatformReason>>,
}

/// What comes of looking up the dependencies `deps` of `target`.
pub open spec fn gathered(
    target: ConfiguredTargetLabel,
    plugins: Seq<PluginView>,
    deps: Seq<(ConfiguredProvidersLabel, Vec<PluginKindSet>)>,
    results: Seq<DepResult>,
) -> GatherState
    decreases results.len(),
{
    if results.len() == 0 {
        GatherState {
            deps: Seq::empty(),
            plugins,
            errs: Seq::empty(),
            incompats: Seq::empty(),
        }
    } else {
        let before = gathered(target, plugins, deps, results.drop_last());
        match configured_deps::unpacked(target, results.last(), CheckVisibility::Yes) {
            Unpacked::Dep(node) => GatherState {
                deps: before.deps.push(node),
                plugins: configured_deps::with_propagated(
                    before.plugins,
                    deps[results.len() - 1].1@,
                    node.plugin_lists@,
                ),
                ..before
            },
            Unpacked::Error(e) => GatherState { errs: before.errs.push(e), ..before },
            Unpacked::Incompatible(reason) => GatherState {
                incompats: before.incompats.push(reason),
                ..before
            },
        }
    }
}

/// The label of a plugin that is used while building.
pub open spec fn plugin_label(target: TargetLabelView, exec_cfg: ConfigurationView)
    -> ProvidersLabelView {
    ProvidersLabelView {
        target: ConfiguredLabelView { target, cfg: exec_cfg, exec_cfg: None },
        providers: ""@,
    }
}

/// The execution dependencies with the plugins of one kind; the visibility of those is not
/// checked.
pub open spec fn with_plugins_of_kind(
    exec_deps: Seq<(ProvidersLabelView, CheckVisibility)>,
    plugins: Seq<PluginView>,
    kind: Seq<char>,
    exec_cfg: ConfigurationView,
) -> Seq<(ProvidersLabelView, CheckVisibility)>
    decreases plugins.len(),
{
    if plugins.len() == 0 {
        exec_deps
    } else {
        let before = with_plugins_of_kind(exec_deps, plugins.drop_last(), kind, exec_cfg);
        if plugins.last().0 == kind {
            configured_deps::exec_or_insert(
                before,
                plugin_label(plugins.last().1, exec_cfg),
                CheckVisibility::No,
            )
        } else {
            before
        }
    }
}

/// The execution dependencies with the plugins of the kinds that a node uses.
pub open spec fn with_used_plugins(
    exec_deps: Seq<(ProvidersLabelView, CheckVisibility)>,
    plugins: Seq<PluginView>,
    uses: Seq<Seq<char>>,
    exec_cfg: ConfigurationView,
) -> Seq<(ProvidersLabelView, CheckVisibility)>
    decreases uses.len(),
{
    if uses.len() == 0 {
        exec_deps
    } else {
        with_plugins_of_kind(
            with_used_plugins(exec_deps, plugins, uses.drop_last(), exec_cfg),
            plugins,
            uses.last(),
            exec_cfg,
        )
    }
}

/// A plugin of a kind that the node uses is listed.
pub open spec fn uses_a_plugin(plugins: Seq<PluginView>, uses: Seq<Seq<char>>) -> bool {
    exists|i: int, j: int|
        0 <= i < plugins.len() && 0 <= j < uses.len() && (#[trigger] plugins[i]).0
            == #[trigger] uses[j]
}

fn add_plugin_exec_deps(
    exec_deps: &mut Vec<(ConfiguredProvidersLabel, CheckVisibility)>,
    plugins: &PluginLists,
    kind: &String,
    exec_cfg: &ConfigurationData,
)
    ensures
        configured_deps::exec_dep_views(final(exec_deps)@) == with_plugins_of_kind(
            configured_deps::exec_dep_views(old(exec_deps)@),
            plugins@,
            kind@,
            exec_cfg@,
        ),
{
    let ghost before = configured_deps::exec_dep_views(exec_deps@);
    let ghost all = plugins@;
    let mut i: usize = 0;
    assert(all.take(0) =~= Seq::empty());
    while i < plugins.plugins.len()
        invariant
            all == plugins@,
            i <= plugins.plugins@.len(),
            configured_deps::exec_dep_views(exec_deps@) == with_plugins_of_kind(
                before,
                all.take(i as int),
                kind@,
                exec_cfg@,
            ),
        decreases plugins.plugins@.len() - i,
    {
        let plugin = &plugins.plugins[i];
        proof {
            let next = all.take(i + 1);
            assert(next.drop_last() =~= all.take(i as int));
            assert(next.last() == plugin@);
        }
        if str_eq(plugin.kind.as_str(), kind.as_str()) {
            let label = ConfiguredProvidersLabel {
                target: ConfiguredTargetLabel::configure(&plugin.target, exec_cfg.dupe()),
                providers: String::new(),
            };
            let ghost views = configured_deps::exec_dep_views(exec_deps@);
            proof {
                reveal_strlit("");
                assert(label.providers@ =~= ""@);
                assert(label@ == plugin_label(plugin.target@, exec_cfg@));
            }
            let mut found = false;
            let mut j: usize = 0;
            while j < exec_deps.len()
                invariant
                    views == configured_deps::exec_dep_views(exec_deps@),
                    j <= exec_deps@.len(),
                    found == exists|k: int| 0 <= k < j && (#[trigger] views[k]).0 == label@,
                decreases exec_deps@.len() - j,
            {
                assert(views[j as int].0 == exec_deps@[j as int].0@);
                if exec_deps[j].0.same_as(&label) {
                    found = true;
                }
                j = j + 1;
            }
            if !found {
                exec_deps.push((label, CheckVisibility::No));
                assert(configured_deps::exec_dep_views(exec_deps@) =~= views.push(
                    (label@, CheckVisibility::No),
                ));
            }
        }
        i = i + 1;
    }
    assert(all.take(all.len() as int) =~= all);
}

/// Whether a plugin of a kind that the node uses is listed.
fn has_used_plugin(plugins: &PluginLists, uses: &Vec<String>) -> (r: bool)
    ensures
        r == uses_a_plugin(plugins@, text::views(uses@)),
{
    let mut i: usize = 0;
    while i < plugins.plugins.len()
        invariant
            i <= plugins.plugins@.len(),
            forall|a: int, b: int|
                0 <= a < i && 0 <= b < uses@.len() ==> (#[trigger] plugins@[a]).0 != (
                #[trigger] text::views(uses@)[b]),
        decreases plugins.plugins@.len() - i,
    {
        assert(plugins@[i as int].0 == plugins.plugins@[i as int].kind@);
        if text::contains_str(uses, plugins.plugins[i].kind.as_str()) {
            proof {
                let j = choose|j: int|
                    0 <= j < text::views(uses@).len() && text::views(uses@)[j]
                        == plugins@[i as int].0;
                assert(plugins@[i as int].0 == text::views(uses@)[j]);
            }
            return true;
        }
        assert forall|b: int| 0 <= b < uses@.len() implies plugins@[i as int].0 != (
        #[trigger] text::views(uses@)[b]) by {
            assert(text::views(uses@).contains(text::views(uses@)[b]));
        }
        i = i + 1;
    }
    false
}

/// What gathering the dependencies of `target_label` gives, once they have been looked up.
pub open spec fn gathers(
    target_label: ConfiguredTargetLabel,
    traversal: Traversal,
    dep_results: Seq<DepResult>,
    uses_plugins: Seq<String>,
    exec_cfg: Result<ConfigurationData, NodeError>,
    r: Result<(GatheredDeps, ErrorsAndIncompatibilities), NodeError>,
) -> bool {
    let s = gathered(
        target_label,
        traversal.plugin_lists@,
        traversal.deps@,
        dep_results,
    );
    let uses = text::views(uses_plugins);
    match (exec_cfg, r) {
        (Err(e), Err(e2)) => uses_a_plugin(s.plugins, uses) && e2 == e,
        (cfg, Ok((deps, errors))) => {
            &&& cfg is Err ==> !uses_a_plugin(s.plugins, uses)
            &&& deps.deps@ == s.deps
            &&& deps.plugin_lists@ == s.plugins
            &&& deps.toolchain_deps == traversal.toolchain_deps
            &&& configured_deps::exec_dep_views(deps.exec_deps@) == (match cfg {
                Ok(c) => with_used_plugins(
                    configured_deps::exec_dep_views(traversal.exec_deps@),
                    s.plugins,
                    uses,
                    c@,
                ),
                Err(_) => configured_deps::exec_dep_views(traversal.exec_deps@),
            })
            &&& errors.errs@ == s.errs
            &&& errors.incompats@ == s.incompats
        },
        (Ok(_), Err(_)) => false,
    }
}

/// What comes of the attributes of `target_label` once its dependencies have been looked up.
/// `exec_cfg` is the execution configuration for plugins; that it is not known is an error only
/// where there is a plugin to use.
pub fn gather_deps(
    target_label: &ConfiguredTargetLabel,
    traversal: Traversal,
    dep_results: Vec<DepResult>,
    uses_plugins: &Vec<String>,
    exec_cfg: Result<ConfigurationData, NodeError>,
) -> (r: Result<(GatheredDeps, ErrorsAndIncompatibilities), NodeError>)
    requires
        dep_results@.len() == traversal.deps@.len(),
    ensures
        gathers(*target_label, traversal, dep_results@, uses_plugins@, exec_cfg, r),
{
    let Traversal { deps: dep_list, exec_deps, toolchain_deps, plugin_lists } = traversal;
    let mut exec_deps = exec_deps;
    let mut plugin_lists = plugin_lists;
    let ghost plugins0 = plugin_lists@;
    let ghost results = dep_results@;
    let mut deps: Vec<Arc<ConfiguredTargetNode>> = Vec::new();
    let mut errors = ErrorsAndIncompatibilities::default();
    let mut i: usize = 0;
    proof {
        assert(results.take(0) =~= Seq::empty());
        assert(errors.errs@ =~= Seq::empty());
        assert(errors.incompats@ =~= Seq::empty());
    }
    let count: usize = dep_list.len();
    for result in it: dep_results
        invariant
            it.seq() == results,
            i == it.index(),
            count == dep_list@.len(),
            results.len() == count,
            ({
                let s = gathered(*target_label, plugins0, dep_list@, results.take(i as int));
                &&& deps@ == s.deps
                &&& plugin_lists@ == s.plugins
                &&& errors.errs@ == s.errs
                &&& errors.incompats@ == s.incompats
            }),
    {
        proof {
            let next = results.take(i + 1);
            assert(next.drop_last() =~= results.take(i as int));
            assert(next.last() == result);
        }
        match errors.unpack_dep(target_label, result, CheckVisibility::Yes) {
            Some(dep) => {
                configured_deps::propagate_plugins(
                    &mut plugin_lists,
                    &dep_list[i].1,
                    &dep.plugin_lists,
                );
                deps.push(dep);
            },
            None => {},
        }
        i = i + 1;
    }
    assert(results.take(results.len() as int) =~= results);
    match exec_cfg {
        Err(e) => {
            if has_used_plugin(&plugin_lists, uses_plugins) {
                return Err(e);
            }
        },
        Ok(cfg) => {
            let ghost uses = text::views(uses_plugins@);
            let ghost exec0 = configured_deps::exec_dep_views(exec_deps@);
            let mut j: usize = 0;
            assert(uses.take(0) =~= Seq::empty());
            while j < uses_plugins.len()
                invariant
                    uses == text::views(uses_plugins@),
                    j <= uses_plugins@.len(),
                    configured_deps::exec_dep_views(exec_deps@) == with_used_plugins(
                        exec0,
                        plugin_lists@,
                        uses.take(j as int),
                        cfg@,
                    ),
                decreases uses_plugins@.len() - j,
            {
                proof {
                    let next = uses.take(j + 1);
                    assert(next.drop_last() =~= uses.take(j as int));
                    assert(next.last() == uses_plugins@[j as int]@);
                }
                add_plugin_exec_deps(&mut exec_deps, &plugin_lists, &uses_plugins[j], &cfg);
                j = j + 1;
            }
            assert(uses.take(uses.len() as int) =~= uses);
        },
    }
    Ok((GatheredDeps { deps, exec_deps, toolchain_deps, plugin_lists }, errors))
}

/// The targets of the plugins that a node itself depends on.
pub open spec fn direct_plugins(plugins: Seq<PluginView>) -> Seq<TargetLabelView>
    decreases plugins.len(),
{
    if plugins.len() == 0 {
        Seq::empty()
    } else if plugins.last().2 == PluginListElemKind::Direct {
        direct_plugins(plugins.drop_last()).push(plugins.last().1)
    } else {
        direct_plugins(plugins.drop_last())
    }
}

/// The mathematical forms of target labels.
pub open spec fn target_views(labels: Seq<TargetLabel>) -> Seq<TargetLabelView> {
    Seq::new(labels.len(), |i: int| labels[i]@)
}

/// The targets that have to be looked up to check the plugins of a node.
pub fn plugins_to_check(plugin_lists: &PluginLists) -> (r: Vec<TargetLabel>)
    ensures
        target_views(r@) == direct_plugins(plugin_lists@),
{
    let mut r: Vec<TargetLabel> = Vec::new();
    let ghost all = plugin_lists@;
    let mut i: usize = 0;
    proof {
        assert(all.take(0) =~= Seq::empty());
        assert(target_views(r@) =~= Seq::empty());
    }
    while i < plugin_lists.plugins.len()
        invariant
            all == plugin_lists@,
            i <= plugin_lists.plugins@.len(),
            target_views(r@) == direct_plugins(all.take(i as int)),
        decreases plugin_lists.plugins@.len() - i,
    {
        let plugin = &plugin_lists.plugins[i];
        let ghost before = target_views(r@);
        proof {
            let next = all.take(i + 1);
            assert(next.drop_last() =~= all.take(i as int));
            assert(next.last() == plugin@);
        }
        if plugin.elem_kind == PluginListElemKind::Direct {
            r.push(plugin.target.dupe());
            assert(target_views(r@) =~= before.push(plugin.target@));
        }
        i = i + 1;
    }
    assert(all.take(all.len() as int) =~= all);
    r
}

/// What is to be known of the target of a plugin.
pub struct PluginTarget {
    pub is_toolchain_rule: bool,
    /// Whether it is visible to the node that uses it.
    pub visible: Result<bool, NodeError>,
}

/// `e` is what is wrong with the plugin `plugin` of `target`, given how looking it up ended.
pub open spec fn plugin_error(
    e: NodeError,
    target: ConfiguredTargetLabel,
    plugin: TargetLabel,
    lookup: Result<PluginTarget, NodeError>,
) -> bool {
    match lookup {
        Err(source) => e matches NodeError::Context(context, s) && *s == source && context@
            == "looking up unconfigured target node `"@ + labels::target_label_text(plugin@)
            + "`"@,
        Ok(t) => if t.is_toolchain_rule {
            e == NodeError::PluginDepIsToolchainRule(plugin)
        } else {
            match t.visible {
                Err(source) => e == source,
                Ok(visible) => !visible && e == NodeError::NotVisibleTo(plugin, target.target),
            }
        },
    }
}

/// Nothing is wrong with a plugin that was looked up.
pub open spec fn plugin_ok(lookup: Result<PluginTarget, NodeError>) -> bool {
    lookup matches Ok(t) && !t.is_toolchain_rule && t.visible == Ok::<bool, NodeError>(true)
}

/// Checks the plugins that a node depends on: none may be a toolchain rule, and each has to be
/// visible. The first that is not is reported.
pub fn check_plugin_deps(
    target_label: &ConfiguredTargetLabel,
    plugins: &Vec<TargetLabel>,
    lookups: Vec<Result<PluginTarget, NodeError>>,
) -> (r: Result<(), NodeError>)
    requires
        plugins@.len() == lookups@.len(),
    ensures
        match r {
            Ok(_) => forall|i: int| 0 <= i < lookups@.len() ==> plugin_ok(#[trigger] lookups@[i]),
            Err(e) => exists|i: int|
                0 <= i < lookups@.len() && plugin_error(
                    e,
                    *target_label,
                    plugins@[i],
                    #[trigger] lookups@[i],
                ) && forall|k: int| 0 <= k < i ==> plugin_ok(#[trigger] lookups@[k]),
        },
{
    let ghost all = lookups@;
    let mut i: usize = 0;
    let count: usize = plugins.len();
    for lookup in it: lookups
        invariant
            it.seq() == all,
            i == it.index(),
            count == plugins@.len(),
            all.len() == count,
            forall|k: int| 0 <= k < i ==> plugin_ok(#[trigger] all[k]),
    {
        assert(all[i as int] == lookup);
        let plugin = &plugins[i];
        match lookup {
            Err(source) => {
                let shown = plugin.display();
                return Err(
                    NodeError::Context(
                        text::concat3(
                            "looking up unconfigured target node `",
                            shown.as_str(),
                            "`",
                        ),
                        Box::new(source),
                    ),
                );
            },
            Ok(t) => {
                if t.is_toolchain_rule {
                    return Err(NodeError::PluginDepIsToolchainRule(plugin.dupe()));
                }
                match t.visible {
                    Err(source) => {
                        return Err(source);
                    },
                    Ok(visible) => {
                        if !visible {
                            return Err(
                                NodeError::NotVisibleTo(
                                    plugin.dupe(),
                                    target_label.target.dupe(),
                                ),
                            );
                        }
                    },
                }
            },
        }
        i = i + 1;
    }
    Ok(())
}

/// Which execution platform a node gets.
pub enum ExecutionPlatformChoice {
    /// None: in the unbound configuration nothing is executed.
    Unspecified,
    /// The one of the node that uses this one as a toolchain, by its configuration.
    OfParent(ConfigurationData),
    /// One that satisfies the constraints of the node.
    Resolve,
}

/// Which execution platform the node `target_label` gets.
pub fn choose_execution_platform(target_label: &ConfiguredTargetLabel) -> (r:
    ExecutionPlatformChoice)
    ensures
        r == (if target_label.cfg is Unbound {
            ExecutionPlatformChoice::Unspecified
        } else {
            match target_label.exec_cfg {
                Some(c) => ExecutionPlatformChoice::OfParent(c),
                None => ExecutionPlatformChoice::Resolve,
            }
        }),
{
    if target_label.cfg.is_unbound() {
        ExecutionPlatformChoice::Unspecified
    } else {
        match &target_label.exec_cfg {
            Some(c) => ExecutionPlatformChoice::OfParent(c.dupe()),
            None => ExecutionPlatformChoice::Resolve,
        }
    }
}

/// The execution platform that was found for a node, if there is one.
#[derive(Debug)]
pub struct ExecutionPlatformResolution {
    pub platform: Option<ExecutionPlatform>,
}

/// The configuration of the execution platform of a node.
pub open spec fn resolution_cfg(r: ExecutionPlatformResolution) -> ConfigurationData {
    match r.platform {
        Some(p) => configured::platform_cfg(p),
        None => ConfigurationData::Unspecified,
    }
}

impl ExecutionPlatformResolution {
    /// No execution platform.
    pub fn unspecified() -> (r: Self)
        ensures
            r.platform is None,
    {
        ExecutionPlatformResolution { platform: None }
    }

    /// The configuration of the execution platform.
    pub fn cfg(&self) -> (r: ConfigurationData)
        ensures
            r == resolution_cfg(*self),
    {
        match &self.platform {
            Some(p) => p.cfg().dupe(),
            None => ConfigurationData::Unspecified,
        }
    }
}

/// Asks for the execution platform of a node: without registered platforms it is the fallback
/// executor in the configuration of the node; otherwise the constraints of the node decide.
pub fn resolve_execution_platform(
    has_platforms: bool,
    fallback_executor_config: &String,
    cfg: &ConfigurationData,
) -> (r: Option<ExecutionPlatformResolution>)
    ensures
        has_platforms ==> r is None,
        !has_platforms ==> r == Some(
            ExecutionPlatformResolution {
                platform: Some(
                    ExecutionPlatform::Legacy {
                        executor_config: *fallback_executor_config,
                        cfg: *cfg,
                    },
                ),
            },
        ),
{
    if has_platforms {
        None
    } else {
        Some(
            ExecutionPlatformResolution {
                platform: Some(
                    ExecutionPlatform::Legacy {
                        executor_config: fallback_executor_config.clone(),
                        cfg: cfg.dupe(),
                    },
                ),
            },
        )
    }
}

/// The toolchains to look up, now that the execution configuration is known.
pub fn toolchain_lookups(
    toolchain_deps: &Vec<ConfiguredTargetLabel>,
    exec_cfg: &ConfigurationData,
) -> (r: Vec<ConfiguredTargetLabel>)
    ensures
        r@.len() == toolchain_deps@.len(),
        forall|i: int|
            0 <= i < r@.len() ==> #[trigger] r@[i] == (ConfiguredTargetLabel {
                exec_cfg: Some(*exec_cfg),
                ..toolchain_deps@[i]
            }),
{
    let mut r: Vec<ConfiguredTargetLabel> = Vec::new();
    let mut i: usize = 0;
    while i < toolchain_deps.len()
        invariant
            i <= toolchain_deps@.len(),
            r@.len() == i,
            forall|k: int|
                0 <= k < i ==> #[trigger] r@[k] == (ConfiguredTargetLabel {
                    exec_cfg: Some(*exec_cfg),
                    ..toolchain_deps@[k]
                }),
        decreases toolchain_deps@.len() - i,
    {
        r.push(toolchain_deps[i].with_exec_cfg(exec_cfg.dupe()));
        i = i + 1;
    }
    r
}

/// The execution dependencies to look up, now that the execution configuration is known.
pub fn exec_lookups(
    exec_deps: &Vec<(ConfiguredProvidersLabel, CheckVisibility)>,
    exec_cfg: &ConfigurationData,
) -> (r: Vec<(ConfiguredTargetLabel, CheckVisibility)>)
    ensures
        r@.len() == exec_deps@.len(),
        forall|i: int|
            0 <= i < r@.len() ==> #[trigger] r@[i] == (
                ConfiguredTargetLabel {
                    target: exec_deps@[i].0.target.target,
                    cfg: *exec_cfg,
                    exec_cfg: None,
                },
                exec_deps@[i].1,
            ),
{
    let mut r: Vec<(ConfiguredTargetLabel, CheckVisibility)> = Vec::new();
    let mut i: usize = 0;
    while i < exec_deps.len()
        invariant
            i <= exec_deps@.len(),
            r@.len() == i,
            forall|k: int|
                0 <= k < i ==> #[trigger] r@[k] == (
                    ConfiguredTargetLabel {
                        target: exec_deps@[k].0.target.target,
                        cfg: *exec_cfg,
                        exec_cfg: None,
                    },
                    exec_deps@[k].1,
                ),
        decreases exec_deps@.len() - i,
    {
        let label = ConfiguredTargetLabel::configure(
            &exec_deps[i].0.target.target,
            exec_cfg.dupe(),
        );
        r.push((label, exec_deps[i].1));
        i = i + 1;
    }
    r
}

/// What has come of dependencies that were looked up: the dependencies so far, the errors and the
/// incompatibilities.
pub struct UnpackState {
    pub deps: Seq<Arc<ConfiguredTargetNode>>,
    pub errs: Seq<NodeError>,
    pub incompats: Seq<Arc<IncompatiblePlatformReason>>,
}

/// What has come of one more dependency.
pub open spec fn unpack_one(
    s: UnpackState,
    target: ConfiguredTargetLabel,
    dep: DepResult,
    check: CheckVisibility,
) -> UnpackState {
    match configured_deps::unpacked(target, dep, check) {
        Unpacked::Dep(node) => UnpackState { deps: s.deps.push(node), ..s },
        Unpacked::Error(e) => UnpackState { errs: s.errs.push(e), ..s },
        Unpacked::Incompatible(r) => UnpackState { incompats: s.incompats.push(r), ..s },
    }
}

/// What has come of more dependencies.
pub open spec fn unpack_many(
    s: UnpackState,
    target: ConfiguredTargetLabel,
    deps: Seq<(DepResult, CheckVisibility)>,
) -> UnpackState
    decreases deps.len(),
{
    if deps.len() == 0 {
        s
    } else {
        unpack_one(
            unpack_many(s, target, deps.drop_last()),
            target,
            deps.last().0,
            deps.last().1,
        )
    }
}

fn unpack_all_into(
    errors: &mut ErrorsAndIncompatibilities,
    target_label: &ConfiguredTargetLabel,
    results: Vec<(DepResult, CheckVisibility)>,
    list: &mut Vec<Arc<ConfiguredTargetNode>>,
)
    ensures
        ({
            let s = unpack_many(
                UnpackState {
                    deps: old(list)@,
                    errs: old(errors).errs@,
                    incompats: old(errors).incompats@,
                },
                *target_label,
                results@,
            );
            &&& final(list)@ == s.deps
            &&& final(errors).errs@ == s.errs
            &&& final(errors).incompats@ == s.incompats
        }),
{
    let ghost s0 = UnpackState {
        deps: list@,
        errs: errors.errs@,
        incompats: errors.incompats@,
    };
    let ghost all = results@;
    assert(all.take(0) =~= Seq::empty());
    for item in it: results
        invariant
            it.seq() == all,
            ({
                let s = unpack_many(s0, *target_label, all.take(it.index() as int));
                &&& list@ == s.deps
                &&& errors.errs@ == s.errs
                &&& errors.incompats@ == s.incompats
            }),
    {
        proof {
            let i = it.index() as int;
            let next = all.take(i + 1);
            assert(next.drop_last() =~= all.take(i));
            assert(next.last() == item);
        }
        let (dep, check) = item;
        errors.unpack_dep_into(target_label, dep, check, list);
    }
    assert(all.take(all.len() as int) =~= all);
}

/// The deps of toolchains, whose visibility is always checked.
pub open spec fn all_checked(results: Seq<DepResult>) -> Seq<(DepResult, CheckVisibility)> {
    Seq::new(results.len(), |i: int| (results[i], CheckVisibility::Yes))
}

/// What has come of all dependencies of a node: first the ones gathered before, then the
/// toolchains, which are added to them; the execution dependencies are a list of their own.
pub open spec fn node_deps(
    target: ConfiguredTargetLabel,
    deps: Seq<Arc<ConfiguredTargetNode>>,
    errs: Seq<NodeError>,
    incompats: Seq<Arc<IncompatiblePlatformReason>>,
    toolchains: Seq<DepResult>,
    exec_list: Seq<(DepResult, CheckVisibility)>,
) -> (UnpackState, Seq<Arc<ConfiguredTargetNode>>) {
    let s1 = unpack_many(
        UnpackState { deps, errs, incompats },
        target,
        all_checked(toolchains),
    );
    let s2 = unpack_many(
        UnpackState { deps: Seq::empty(), errs: s1.errs, incompats: s1.incompats },
        target,
        exec_list,
    );
    (s2, s1.deps)
}

/// What is settled of a node before its dependencies are looked up.
pub struct NodeParts {
    pub attrs: Vec<(String, Arc<ConfiguredAttr>)>,
    pub configuration: Arc<NodeConfiguration>,
    pub transitions: Arc<ResolvedTransitions>,
}

/// The label without the execution configuration of its user. Dependencies are of the target in its
/// own configuration.
pub open spec fn partial_label(label: ConfiguredTargetLabel) -> ConfiguredTargetLabel {
    ConfiguredTargetLabel { exec_cfg: None, ..label }
}

/// The node, once all its dependencies have been looked up. An incompatible dependency makes the
/// node incompatible, whatever errors there are; otherwise an error is reported.
pub fn finish_configured_node(
    target_label: &ConfiguredTargetLabel,
    parts: NodeParts,
    platform: ExecutionPlatformResolution,
    gathered_deps: GatheredDeps,
    errors: ErrorsAndIncompatibilities,
    toolchain_results: Vec<DepResult>,
    exec_results: Vec<(DepResult, CheckVisibility)>,
) -> (r: Result<MaybeCompatible<Arc<ConfiguredTargetNode>>, NodeError>)
    ensures
        ({
            let (s, deps) = node_deps(
                partial_label(*target_label),
                gathered_deps.deps@,
                errors.errs@,
                errors.incompats@,
                toolchain_results@,
                exec_results@,
            );
            if s.incompats.len() > 0 {
                r matches Ok(MaybeCompatible::Incompatible(reason)) && reason == s.incompats.last()
            } else if s.errs.len() > 0 {
                r matches Err(e) && e == s.errs.last()
            } else {
                &&& r matches Ok(MaybeCompatible::Compatible(node))
                &&& node.label == *target_label
                &&& node.attrs == parts.attrs
                &&& node.configuration == parts.configuration
                &&& node.resolved_transitions == parts.transitions
                &&& node.execution_platform == platform
                &&& node.deps@ == deps
                &&& node.exec_deps@ == s.deps
                &&& node.plugin_lists == gathered_deps.plugin_lists
                &&& node.forward_target is None
            }
        }),
{
    let partial = ConfiguredTargetLabel::configure(&target_label.target, target_label.cfg.dupe());
    let GatheredDeps { deps, exec_deps: _, toolchain_deps: _, plugin_lists } = gathered_deps;
    let mut deps = deps;
    let mut errors = errors;
    let ghost toolchains = toolchain_results@;
    let mut checked: Vec<(DepResult, CheckVisibility)> = Vec::new();
    for dep in it: toolchain_results
        invariant
            it.seq() == toolchains,
            checked@.len() == it.index(),
            forall|k: int|
                0 <= k < checked@.len() ==> #[trigger] checked@[k] == (
                    toolchains[k],
                    CheckVisibility::Yes,
                ),
    {
        assert(toolchains[it.index() as int] == dep);
        checked.push((dep, CheckVisibility::Yes));
    }
    assert(checked@ =~= all_checked(toolchains));
    unpack_all_into(&mut errors, &partial, checked, &mut deps);
    let mut exec_deps: Vec<Arc<ConfiguredTargetNode>> = Vec::new();
    assert(exec_deps@ =~= Seq::empty());
    unpack_all_into(&mut errors, &partial, exec_results, &mut exec_deps);
    match errors.finalize() {
        Some(ret) => ret,
        None => Ok(
            MaybeCompatible::Compatible(
                Arc::new(
                    ConfiguredTargetNode {
                        label: target_label.dupe(),
                        attrs: parts.attrs,
                        configuration: parts.configuration,
                        resolved_transitions: parts.transitions,
                        execution_platform: platform,
                        deps,
                        exec_deps,
                        plugin_lists,
                        forward_target: None,
                    },
                ),
            ),
        ),
    }
}

/// A node was found, and it is compatible.
spec fn is_compatible(dep: DepResult) -> bool {
    dep.result matches Ok(MaybeCompatible::Compatible(_))
}

/// The node that was found.
spec fn found_node(dep: DepResult) -> Arc<ConfiguredTargetNode> {
    dep.result->Ok_0->Compatible_0
}

proof fn lemma_gathered(
    target: ConfiguredTargetLabel,
    plugins: Seq<PluginView>,
    deps: Seq<(ConfiguredProvidersLabel, Vec<PluginKindSet>)>,
    results: Seq<DepResult>,
)
    ensures
        ({
            let s = gathered(target, plugins, deps, results);
            &&& s.deps.len() + s.errs.len() + s.incompats.len() == results.len()
            &&& forall|n: int|
                0 <= n < s.deps.len() ==> exists|i: int|
                    0 <= i < results.len() && is_compatible(#[trigger] results[i]) && found_node(
                        results[i],
                    ) == #[trigger] s.deps[n] && results[i].visible == Ok::<bool, NodeError>(true)
            &&& forall|i: int|
                0 <= i < results.len() ==> {
                    let d = #[trigger] results[i];
                    match d.result {
                        Err(e) => s.errs.contains(e),
                        Ok(MaybeCompatible::Incompatible(reason)) => exists|n: int|
                            0 <= n < s.incompats.len() && (#[trigger] s.incompats[n]).target
                                == target && s.incompats[n].cause
                                == IncompatiblePlatformReasonCause::Dependency(reason),
                        Ok(MaybeCompatible::Compatible(node)) => match d.visible {
                            Ok(true) => s.deps.contains(node),
                            Ok(false) => s.errs.contains(
                                NodeError::NotVisibleTo(node.label.target, target.target),
                            ),
                            Err(e) => s.errs.contains(e),
                        },
                    }
                }
            &&& s.errs.len() == 0 && s.incompats.len() == 0 ==> s.deps =~= Seq::new(
                results.len(),
                |i: int| found_node(results[i]),
            )
        }),
    decreases results.len(),
{
    let s = gathered(target, plugins, deps, results);
    if results.len() > 0 {
        let init = results.drop_last();
        let last = results.len() - 1;
        let b = gathered(target, plugins, deps, init);
        lemma_gathered(target, plugins, deps, init);
        assert(results[last] == results.last());
        assert forall|n: int| 0 <= n < s.deps.len() implies exists|i: int|
            0 <= i < results.len() && is_compatible(#[trigger] results[i]) && found_node(
                results[i],
            ) == #[trigger] s.deps[n] && results[i].visible == Ok::<bool, NodeError>(true) by {
            if n < b.deps.len() {
                assert(b.deps[n] == s.deps[n]);
                let i = choose|i: int|
                    0 <= i < init.len() && is_compatible(#[trigger] init[i]) && found_node(init[i])
                        == b.deps[n] && init[i].visible == Ok::<bool, NodeError>(true);
                assert(results[i] == init[i]);
            } else {
                assert(is_compatible(results[last]));
            }
        }
        assert forall|i: int| 0 <= i < results.len() implies ({
            let d = #[trigger] results[i];
            match d.result {
                Err(e) => s.errs.contains(e),
                Ok(MaybeCompatible::Incompatible(reason)) => exists|n: int|
                    0 <= n < s.incompats.len() && (#[trigger] s.incompats[n]).target == target
                        && s.incompats[n].cause == IncompatiblePlatformReasonCause::Dependency(
                        reason,
                    ),
                Ok(MaybeCompatible::Compatible(node)) => match d.visible {
                    Ok(true) => s.deps.contains(node),
                    Ok(false) => s.errs.contains(
                        NodeError::NotVisibleTo(node.label.target, target.target),
                    ),
                    Err(e) => s.errs.contains(e),
                },
            }
        }) by {
            let d = results[i];
            lemma_contains_pushed(b.errs, s.errs);
            lemma_contains_pushed(b.deps, s.deps);
            if i < last {
                assert(d == init[i]);
                if let Ok(MaybeCompatible::Incompatible(reason)) = d.result {
                    let n = choose|n: int|
                        0 <= n < b.incompats.len() && (#[trigger] b.incompats[n]).target == target
                            && b.incompats[n].cause == IncompatiblePlatformReasonCause::Dependency(
                            reason,
                        );
                    assert(s.incompats[n] == b.incompats[n]);
                }
            } else {
                match configured_deps::unpacked(target, d, CheckVisibility::Yes) {
                    Unpacked::Dep(node) => assert(s.deps[s.deps.len() - 1] == node),
                    Unpacked::Error(e) => assert(s.errs[s.errs.len() - 1] == e),
                    Unpacked::Incompatible(reason) => {
                        assert(s.incompats[s.incompats.len() - 1] == reason);
                        assert(reason.target == target);
                    },
                }
            }
        }
    }
}

proof fn lemma_contains_pushed<T>(before: Seq<T>, after: Seq<T>)
    requires
        before == after || (after.len() == before.len() + 1 && before =~= after.drop_last()),
    ensures
        forall|x: T| before.contains(x) ==> #[trigger] after.contains(x),
{
    assert forall|x: T| before.contains(x) implies #[trigger] after.contains(x) by {
        let i = choose|i: int| 0 <= i < before.len() && before[i] == x;
        assert(after[i] == x);
    }
}

/// A dependency is taken where it was found, is compatible and is visible to the target, and
/// nowhere else. One that is not visible, and one that could not be looked up, is an error; one
/// that is not compatible makes the target incompatible for that reason. Each gives one of those.
pub proof fn law_dependencies_are_checked(
    target_label: ConfiguredTargetLabel,
    traversal: Traversal,
    dep_results: Seq<DepResult>,
    uses_plugins: Seq<String>,
    exec_cfg: Result<ConfigurationData, NodeError>,
    r: Result<(GatheredDeps, ErrorsAndIncompatibilities), NodeError>,
)
    requires
        dep_results.len() == traversal.deps@.len(),
        gathers(target_label, traversal, dep_results, uses_plugins, exec_cfg, r),
        r is Ok,
    ensures
        ({
            let deps = r->Ok_0.0.deps@;
            let errs = r->Ok_0.1.errs@;
            let incompats = r->Ok_0.1.incompats@;
            &&& deps.len() + errs.len() + incompats.len() == dep_results.len()
            &&& forall|n: int|
                0 <= n < deps.len() ==> exists|i: int|
                    0 <= i < dep_results.len() && (#[trigger] dep_results[i]).result == Ok::<
                        MaybeCompatible<Arc<ConfiguredTargetNode>>,
                        NodeError,
                    >(MaybeCompatible::Compatible(#[trigger] deps[n])) && dep_results[i].visible
                        == Ok::<bool, NodeError>(true)
            &&& forall|i: int|
                0 <= i < dep_results.len() ==> {
                    let d = #[trigger] dep_results[i];
                    match d.result {
                        Err(e) => errs.contains(e),
                        Ok(MaybeCompatible::Incompatible(reason)) => exists|n: int|
                            0 <= n < incompats.len() && (#[trigger] incompats[n]).target
                                == target_label && incompats[n].cause
                                == IncompatiblePlatformReasonCause::Dependency(reason),
                        Ok(MaybeCompatible::Compatible(node)) => match d.visible {
                            Ok(true) => deps.contains(node),
                            Ok(false) => errs.contains(
                                NodeError::NotVisibleTo(node.label.target, target_label.target),
                            ),
                            Err(e) => errs.contains(e),
                        },
                    }
                }
            &&& errs.len() == 0 && incompats.len() == 0 ==> forall|i: int|
                0 <= i < dep_results.len() ==> (#[trigger] dep_results[i]).result == Ok::<
                    MaybeCompatible<Arc<ConfiguredTargetNode>>,
                    NodeError,
                >(MaybeCompatible::Compatible(deps[i]))
        }),
{
    lemma_gathered(target_label, traversal.plugin_lists@, traversal.deps@, dep_results);
    let s = gathered(target_label, traversal.plugin_lists@, traversal.deps@, dep_results);
    assert forall|n: int| 0 <= n < s.deps.len() implies exists|i: int|
        0 <= i < dep_results.len() && (#[trigger] dep_results[i]).result == Ok::<
            MaybeCompatible<Arc<ConfiguredTargetNode>>,
            NodeError,
        >(MaybeCompatible::Compatible(#[trigger] s.deps[n])) && dep_results[i].visible == Ok::<
            bool,
            NodeError,
        >(true) by {
        let i = choose|i: int|
            0 <= i < dep_results.len() && is_compatible(#[trigger] dep_results[i]) && found_node(
                dep_results[i],
            ) == s.deps[n] && dep_results[i].visible == Ok::<bool, NodeError>(true);
        assert(dep_results[i].result is Ok);
    }
    if s.errs.len() == 0 && s.incompats.len() == 0 {
        assert forall|i: int| 0 <= i < dep_results.len() implies (#[trigger] dep_results[i]).result
            == Ok::<MaybeCompatible<Arc<ConfiguredTargetNode>>, NodeError>(
            MaybeCompatible::Compatible(s.deps[i]),
        ) by {
            let d = dep_results[i];
            assert(s.deps[i] == found_node(d));
        }
    }
}

/// The dependency was found, is compatible and, where that is checked, is visible.
pub open spec fn may_be_used(dep: (DepResult, CheckVisibility), node: Arc<ConfiguredTargetNode>)
    -> bool {
    &&& dep.0.result == Ok::<MaybeCompatible<Arc<ConfiguredTargetNode>>, NodeError>(
        MaybeCompatible::Compatible(node),
    )
    &&& dep.1 == CheckVisibility::Yes ==> dep.0.visible == Ok::<bool, NodeError>(true)
}

/// What is wrong with a dependency that may not be used is among the errors or the
/// incompatibilities.
pub open spec fn is_reported(
    dep: (DepResult, CheckVisibility),
    target: ConfiguredTargetLabel,
    errs: Seq<NodeError>,
    incompats: Seq<Arc<IncompatiblePlatformReason>>,
) -> bool {
    match dep.0.result {
        Err(e) => errs.contains(e),
        Ok(MaybeCompatible::Incompatible(reason)) => exists|n: int|
            0 <= n < incompats.len() && (#[trigger] incompats[n]).target == target
                && incompats[n].cause == IncompatiblePlatformReasonCause::Dependency(reason),
        Ok(MaybeCompatible::Compatible(node)) => dep.1 == CheckVisibility::Yes
            && match dep.0.visible {
            Ok(visible) => !visible && errs.contains(
                NodeError::NotVisibleTo(node.label.target, target.target),
            ),
            Err(e) => errs.contains(e),
        },
    }
}

proof fn lemma_unpack_grows(
    s: UnpackState,
    target: ConfiguredTargetLabel,
    deps: Seq<(DepResult, CheckVisibility)>,
)
    ensures
        ({
            let r = unpack_many(s, target, deps);
            &&& r.deps.len() + r.errs.len() + r.incompats.len() == s.deps.len() + s.errs.len()
                + s.incompats.len() + deps.len()
            &&& s.deps.len() <= r.deps.len() && r.deps.take(s.deps.len() as int) =~= s.deps
            &&& s.errs.len() <= r.errs.len() && r.errs.take(s.errs.len() as int) =~= s.errs
            &&& s.incompats.len() <= r.incompats.len() && r.incompats.take(
                s.incompats.len() as int,
            ) =~= s.incompats
        }),
    decreases deps.len(),
{
    let r = unpack_many(s, target, deps);
    if deps.len() > 0 {
        let b = unpack_many(s, target, deps.drop_last());
        lemma_unpack_grows(s, target, deps.drop_last());
        assert(r.deps.take(s.deps.len() as int) =~= b.deps.take(s.deps.len() as int));
        assert(r.errs.take(s.errs.len() as int) =~= b.errs.take(s.errs.len() as int));
        assert(r.incompats.take(s.incompats.len() as int) =~= b.incompats.take(
            s.incompats.len() as int,
        ));
    }
}

proof fn lemma_report_stays(
    dep: (DepResult, CheckVisibility),
    target: ConfiguredTargetLabel,
    a: UnpackState,
    b: UnpackState,
)
    requires
        is_reported(dep, target, a.errs, a.incompats),
        a.errs.len() <= b.errs.len(),
        a.errs =~= b.errs.take(a.errs.len() as int),
        a.incompats.len() <= b.incompats.len(),
        a.incompats =~= b.incompats.take(a.incompats.len() as int),
    ensures
        is_reported(dep, target, b.errs, b.incompats),
{
    lemma_contains_taken(a.errs, b.errs);
    if let Ok(MaybeCompatible::Incompatible(reason)) = dep.0.result {
        let n = choose|n: int|
            0 <= n < a.incompats.len() && (#[trigger] a.incompats[n]).target == target
                && a.incompats[n].cause == IncompatiblePlatformReasonCause::Dependency(reason);
        assert(b.incompats.take(a.incompats.len() as int)[n] == b.incompats[n]);
    }
}

/// One more dependency is used or reported.
proof fn lemma_unpack_one(
    s: UnpackState,
    target: ConfiguredTargetLabel,
    dep: (DepResult, CheckVisibility),
)
    ensures
        ({
            let r = unpack_one(s, target, dep.0, dep.1);
            if r.deps.len() > s.deps.len() {
                may_be_used(dep, r.deps[s.deps.len() as int])
            } else {
                is_reported(dep, target, r.errs, r.incompats)
            }
        }),
{
    let r = unpack_one(s, target, dep.0, dep.1);
    match configured_deps::unpacked(target, dep.0, dep.1) {
        Unpacked::Dep(node) => {},
        Unpacked::Error(e) => assert(r.errs[r.errs.len() - 1] == e),
        Unpacked::Incompatible(reason) => {
            assert(r.incompats[r.incompats.len() - 1] == reason);
            assert(reason.target == target);
        },
    }
}

/// Dependency number `i` is used or reported.
proof fn lemma_unpack_each(
    s: UnpackState,
    target: ConfiguredTargetLabel,
    deps: Seq<(DepResult, CheckVisibility)>,
    i: int,
)
    requires
        0 <= i < deps.len(),
    ensures
        ({
            let r = unpack_many(s, target, deps);
            ||| exists|n: int|
                s.deps.len() <= n < r.deps.len() && may_be_used(deps[i], #[trigger] r.deps[n])
            ||| is_reported(deps[i], target, r.errs, r.incompats)
        }),
    decreases deps.len(),
{
    let r = unpack_many(s, target, deps);
    let init = deps.drop_last();
    let last = deps.len() - 1;
    let b = unpack_many(s, target, init);
    lemma_unpack_grows(s, target, init);
    assert(r.deps.len() >= b.deps.len() && r.deps.take(b.deps.len() as int) =~= b.deps);
    assert(r.errs.len() >= b.errs.len() && r.errs.take(b.errs.len() as int) =~= b.errs);
    assert(r.incompats.len() >= b.incompats.len() && r.incompats.take(b.incompats.len() as int)
        =~= b.incompats);
    if i < last {
        assert(init[i] == deps[i]);
        lemma_unpack_each(s, target, init, i);
        if is_reported(deps[i], target, b.errs, b.incompats) {
            lemma_report_stays(deps[i], target, b, r);
        } else {
            let n = choose|n: int|
                s.deps.len() <= n < b.deps.len() && may_be_used(deps[i], #[trigger] b.deps[n]);
            assert(r.deps.take(b.deps.len() as int)[n] == r.deps[n]);
        }
    } else {
        lemma_unpack_one(b, target, deps[i]);
        if r.deps.len() > b.deps.len() {
            assert(may_be_used(deps[i], r.deps[b.deps.len() as int]));
        }
    }
}

/// Dependency number `n` of the result, if it is a new one, may be used.
proof fn lemma_unpack_used(
    s: UnpackState,
    target: ConfiguredTargetLabel,
    deps: Seq<(DepResult, CheckVisibility)>,
    n: int,
)
    requires
        s.deps.len() <= n < unpack_many(s, target, deps).deps.len(),
    ensures
        exists|i: int|
            0 <= i < deps.len() && may_be_used(
                #[trigger] deps[i],
                unpack_many(s, target, deps).deps[n],
            ),
    decreases deps.len(),
{
    let r = unpack_many(s, target, deps);
    let init = deps.drop_last();
    let last = deps.len() - 1;
    let b = unpack_many(s, target, init);
    if n < b.deps.len() {
        lemma_unpack_used(s, target, init, n);
        assert(b.deps[n] == r.deps[n]);
        let i = choose|i: int| 0 <= i < init.len() && may_be_used(#[trigger] init[i], b.deps[n]);
        assert(deps[i] == init[i]);
    } else {
        lemma_unpack_one(b, target, deps[last]);
        assert(may_be_used(deps[last], r.deps[n]));
    }
}

/// Where nothing is wrong, the dependencies stand one after another.
proof fn lemma_unpack_clean(
    s: UnpackState,
    target: ConfiguredTargetLabel,
    deps: Seq<(DepResult, CheckVisibility)>,
    i: int,
)
    requires
        0 <= i < deps.len(),
        unpack_many(s, target, deps).errs.len() == s.errs.len(),
        unpack_many(s, target, deps).incompats.len() == s.incompats.len(),
    ensures
        unpack_many(s, target, deps).deps.len() == s.deps.len() + deps.len(),
        may_be_used(deps[i], unpack_many(s, target, deps).deps[s.deps.len() + i]),
    decreases deps.len(),
{
    let r = unpack_many(s, target, deps);
    let init = deps.drop_last();
    let last = deps.len() - 1;
    let b = unpack_many(s, target, init);
    lemma_unpack_grows(s, target, init);
    lemma_unpack_grows(s, target, deps);
    lemma_unpack_one(b, target, deps[last]);
    if i < last {
        assert(init[i] == deps[i]);
        lemma_unpack_clean(s, target, init, i);
        assert(b.deps[s.deps.len() + i] == r.deps[s.deps.len() + i]);
    }
}

/// The toolchains of a node come after the dependencies that were gathered, and its execution
/// dependencies are a list of their own. All of them were found and are compatible; toolchains are
/// visible to the node, and so is each execution dependency for which that is checked. If anything
/// is wrong with one of them, that is reported.
pub proof fn law_all_dependencies_are_checked(
    target: ConfiguredTargetLabel,
    deps: Seq<Arc<ConfiguredTargetNode>>,
    errs: Seq<NodeError>,
    incompats: Seq<Arc<IncompatiblePlatformReason>>,
    toolchains: Seq<DepResult>,
    exec_list: Seq<(DepResult, CheckVisibility)>,
)
    ensures
        ({
            let (s, all) = node_deps(target, deps, errs, incompats, toolchains, exec_list);
            &&& s.errs.len() >= errs.len() && s.errs.take(errs.len() as int) == errs
            &&& s.incompats.len() >= incompats.len() && s.incompats.take(incompats.len() as int)
                == incompats
            &&& forall|i: int|
                0 <= i < toolchains.len() ==> all.contains(
                    (#[trigger] toolchains[i]).result->Ok_0->Compatible_0,
                ) && toolchains[i].visible == Ok::<bool, NodeError>(true) || is_reported(
                    (toolchains[i], CheckVisibility::Yes),
                    target,
                    s.errs,
                    s.incompats,
                )
            &&& forall|i: int|
                0 <= i < exec_list.len() ==> (exists|n: int|
                    0 <= n < s.deps.len() && may_be_used(
                        #[trigger] exec_list[i],
                        #[trigger] s.deps[n],
                    )) || is_reported(exec_list[i], target, s.errs, s.incompats)
            &&& forall|n: int|
                0 <= n < s.deps.len() ==> exists|i: int|
                    0 <= i < exec_list.len() && may_be_used(
                        #[trigger] exec_list[i],
                        #[trigger] s.deps[n],
                    )
            &&& s.errs.len() == errs.len() && s.incompats.len() == incompats.len() ==> {
                &&& all.len() == deps.len() + toolchains.len()
                &&& all.take(deps.len() as int) == deps
                &&& forall|i: int|
                    0 <= i < toolchains.len() ==> (#[trigger] toolchains[i]).result == Ok::<
                        MaybeCompatible<Arc<ConfiguredTargetNode>>,
                        NodeError,
                    >(MaybeCompatible::Compatible(all[deps.len() + i]))
                        && toolchains[i].visible == Ok::<bool, NodeError>(true)
                &&& s.deps.len() == exec_list.len()
                &&& forall|i: int|
                    0 <= i < exec_list.len() ==> may_be_used(
                        #[trigger] exec_list[i],
                        s.deps[i],
                    )
            }
        }),
{
    let s0 = UnpackState { deps, errs, incompats };
    let checked = all_checked(toolchains);
    lemma_unpack_grows(s0, target, checked);
    let s1 = unpack_many(s0, target, checked);
    let s2 = UnpackState { deps: Seq::empty(), errs: s1.errs, incompats: s1.incompats };
    lemma_unpack_grows(s2, target, exec_list);
    let s = unpack_many(s2, target, exec_list);
    assert(s.errs.take(errs.len() as int) =~= s.errs.take(s1.errs.len() as int).take(
        errs.len() as int,
    ));
    assert(s.incompats.take(incompats.len() as int) =~= s.incompats.take(
        s1.incompats.len() as int,
    ).take(incompats.len() as int));
    assert forall|i: int| 0 <= i < toolchains.len() implies s1.deps.contains(
        (#[trigger] toolchains[i]).result->Ok_0->Compatible_0,
    ) && toolchains[i].visible == Ok::<bool, NodeError>(true) || is_reported(
        (toolchains[i], CheckVisibility::Yes),
        target,
        s.errs,
        s.incompats,
    ) by {
        let d = checked[i];
        lemma_unpack_each(s0, target, checked, i);
        assert(d == (toolchains[i], CheckVisibility::Yes));
        if exists|n: int| deps.len() <= n < s1.deps.len() && may_be_used(d, #[trigger] s1.deps[n]) {
            let n = choose|n: int|
                deps.len() <= n < s1.deps.len() && may_be_used(d, #[trigger] s1.deps[n]);
            assert(s1.deps[n] == toolchains[i].result->Ok_0->Compatible_0);
        } else {
            lemma_report_stays(d, target, s1, s);
        }
    }
    assert forall|n: int| 0 <= n < s.deps.len() implies exists|i: int|
        0 <= i < exec_list.len() && may_be_used(#[trigger] exec_list[i], #[trigger] s.deps[n]) by {
        lemma_unpack_used(s2, target, exec_list, n);
    }
    assert forall|i: int| 0 <= i < exec_list.len() implies (exists|n: int|
        0 <= n < s.deps.len() && may_be_used(#[trigger] exec_list[i], #[trigger] s.deps[n]))
        || is_reported(exec_list[i], target, s.errs, s.incompats) by {
        lemma_unpack_each(s2, target, exec_list, i);
    }
    if s.errs.len() == errs.len() && s.incompats.len() == incompats.len() {
        assert forall|i: int| 0 <= i < toolchains.len() implies (#[trigger] toolchains[i]).result
            == Ok::<MaybeCompatible<Arc<ConfiguredTargetNode>>, NodeError>(
            MaybeCompatible::Compatible(s1.deps[deps.len() + i]),
        ) && toolchains[i].visible == Ok::<bool, NodeError>(true) by {
            lemma_unpack_clean(s0, target, checked, i);
            assert(checked[i] == (toolchains[i], CheckVisibility::Yes));
        }
        assert forall|i: int| 0 <= i < exec_list.len() implies may_be_used(
            #[trigger] exec_list[i],
            s.deps[i],
        ) by {
            lemma_unpack_clean(s2, target, exec_list, i);
            assert(s.deps[i] == s.deps[s2.deps.len() + i]);
        }
    }
}

proof fn lemma_contains_taken<T>(before: Seq<T>, after: Seq<T>)
    requires
        before.len() <= after.len(),
        before =~= after.take(before.len() as int),
    ensures
        forall|x: T| before.contains(x) ==> #[trigger] after.contains(x),
{
    assert forall|x: T| before.contains(x) implies #[trigger] after.contains(x) by {
        let i = choose|i: int| 0 <= i < before.len() && before[i] == x;
        assert(after[i] == x);
    }
}

/// The plugins that have to be looked up are the targets of all plugins that the node itself
/// depends on, and no others.
pub proof fn law_direct_plugins_are_checked(plugins: Seq<PluginView>, target: TargetLabelView)
    ensures
        direct_plugins(plugins).contains(target) <==> exists|i: int|
            0 <= i < plugins.len() && (#[trigger] plugins[i]).1 == target && plugins[i].2
                == PluginListElemKind::Direct,
    decreases plugins.len(),
{
    if plugins.len() > 0 {
        let init = plugins.drop_last();
        law_direct_plugins_are_checked(init, target);
        let r = direct_plugins(plugins);
        let b = direct_plugins(init);
        let last = plugins.len() - 1;
        if r.contains(target) {
            let n = choose|n: int| 0 <= n < r.len() && r[n] == target;
            if n < b.len() && r != b {
                assert(b[n] == target);
            }
            if b.contains(target) {
                let i = choose|i: int|
                    0 <= i < init.len() && (#[trigger] init[i]).1 == target && init[i].2
                        == PluginListElemKind::Direct;
                assert(plugins[i] == init[i]);
            } else {
                assert(plugins[last].1 == target);
            }
        }
        if exists|i: int|
            0 <= i < plugins.len() && (#[trigger] plugins[i]).1 == target && plugins[i].2
                == PluginListElemKind::Direct {
            let i = choose|i: int|
                0 <= i < plugins.len() && (#[trigger] plugins[i]).1 == target && plugins[i].2
                    == PluginListElemKind::Direct;
            if i < last {
                assert(init[i] == plugins[i]);
                let n = choose|n: int| 0 <= n < b.len() && b[n] == target;
                assert(r[n] == target);
            } else {
                assert(r[r.len() - 1] == target);
            }
        }
    }
}

/// The execution dependencies that were there stay, in order; each plugin of a kind that is used
/// is one of them afterwards, in the execution configuration; and whatever else is added is such a
/// plugin, whose visibility is not checked.
pub proof fn law_used_plugins_are_execution_dependencies(
    exec_deps: Seq<(ProvidersLabelView, CheckVisibility)>,
    plugins: Seq<PluginView>,
    uses: Seq<Seq<char>>,
    exec_cfg: ConfigurationView,
    i: int,
    u: int,
)
    ensures
        ({
            let after = with_used_plugins(exec_deps, plugins, uses, exec_cfg);
            &&& after.len() >= exec_deps.len()
            &&& after.take(exec_deps.len() as int) =~= exec_deps
            &&& 0 <= i < plugins.len() && 0 <= u < uses.len() && plugins[i].0 == uses[u]
                ==> exists|n: int|
                0 <= n < after.len() && (#[trigger] after[n]).0 == (ProvidersLabelView {
                    target: ConfiguredLabelView {
                        target: plugins[i].1,
                        cfg: exec_cfg,
                        exec_cfg: None,
                    },
                    providers: ""@,
                })
            &&& forall|n: int|
                exec_deps.len() <= n < after.len() ==> (#[trigger] after[n]).1
                    == CheckVisibility::No && is_used_plugin(plugins, uses, exec_cfg, after[n].0)
        }),
    decreases uses.len(),
{
    let after = with_used_plugins(exec_deps, plugins, uses, exec_cfg);
    if uses.len() > 0 {
        let init = uses.drop_last();
        let last = uses.len() - 1;
        let before = with_used_plugins(exec_deps, plugins, init, exec_cfg);
        law_used_plugins_are_execution_dependencies(exec_deps, plugins, init, exec_cfg, i, u);
        lemma_plugins_of_kind(before, plugins, uses.last(), exec_cfg, i);
        assert(uses[last] == uses.last());
        assert(after.take(exec_deps.len() as int) =~= before.take(exec_deps.len() as int)) by {
            assert(after.take(before.len() as int).take(exec_deps.len() as int) =~= after.take(
                exec_deps.len() as int,
            ));
        }
        if 0 <= i < plugins.len() && 0 <= u < last && plugins[i].0 == uses[u] {
            assert(init[u] == uses[u]);
            let n = choose|n: int|
                0 <= n < before.len() && (#[trigger] before[n]).0 == plugin_label(
                    plugins[i].1,
                    exec_cfg,
                );
            assert(after.take(before.len() as int)[n] == after[n]);
        }
        assert forall|n: int| exec_deps.len() <= n < after.len() implies (#[trigger] after[n]).1
            == CheckVisibility::No && is_used_plugin(plugins, uses, exec_cfg, after[n].0) by {
            if n < before.len() {
                assert(after.take(before.len() as int)[n] == after[n]);
                assert(before[n] == after[n]);
                let (p, v) = choose|p: int, v: int|
                    0 <= p < plugins.len() && 0 <= v < init.len() && (#[trigger] plugins[p]).0 == (
                    #[trigger] init[v]) && after[n].0 == plugin_label(plugins[p].1, exec_cfg);
                assert(uses[v] == init[v]);
                assert(plugins[p].0 == uses[v]);
            } else {
                let p = choose|p: int|
                    0 <= p < plugins.len() && (#[trigger] plugins[p]).0 == uses[last]
                        && after[n].0 == plugin_label(plugins[p].1, exec_cfg);
                assert(plugins[p].0 == uses[last]);
            }
        }
    }
}

/// The label is the one of a listed plugin of a kind that is used.
pub open spec fn is_used_plugin(
    plugins: Seq<PluginView>,
    uses: Seq<Seq<char>>,
    exec_cfg: ConfigurationView,
    label: ProvidersLabelView,
) -> bool {
    exists|p: int, u: int|
        0 <= p < plugins.len() && 0 <= u < uses.len() && (#[trigger] plugins[p]).0 == (
        #[trigger] uses[u]) && label == (ProvidersLabelView {
            target: ConfiguredLabelView { target: plugins[p].1, cfg: exec_cfg, exec_cfg: None },
            providers: ""@,
        })
}

proof fn lemma_plugins_of_kind(
    exec_deps: Seq<(ProvidersLabelView, CheckVisibility)>,
    plugins: Seq<PluginView>,
    kind: Seq<char>,
    exec_cfg: ConfigurationView,
    i: int,
)
    ensures
        ({
            let after = with_plugins_of_kind(exec_deps, plugins, kind, exec_cfg);
            &&& after.len() >= exec_deps.len()
            &&& after.take(exec_deps.len() as int) =~= exec_deps
            &&& 0 <= i < plugins.len() && plugins[i].0 == kind ==> exists|n: int|
                0 <= n < after.len() && (#[trigger] after[n]).0 == plugin_label(
                    plugins[i].1,
                    exec_cfg,
                )
            &&& forall|n: int|
                exec_deps.len() <= n < after.len() ==> (#[trigger] after[n]).1
                    == CheckVisibility::No && exists|p: int|
                    0 <= p < plugins.len() && (#[trigger] plugins[p]).0 == kind && after[n].0
                        == plugin_label(plugins[p].1, exec_cfg)
        }),
    decreases plugins.len(),
{
    let after = with_plugins_of_kind(exec_deps, plugins, kind, exec_cfg);
    if plugins.len() > 0 {
        let init = plugins.drop_last();
        let last = plugins.len() - 1;
        let before = with_plugins_of_kind(exec_deps, init, kind, exec_cfg);
        lemma_plugins_of_kind(exec_deps, init, kind, exec_cfg, i);
        assert(plugins[last] == plugins.last());
        assert(after.take(exec_deps.len() as int) =~= before.take(exec_deps.len() as int));
        if 0 <= i < last && plugins[i].0 == kind {
            assert(init[i] == plugins[i]);
            let n = choose|n: int|
                0 <= n < before.len() && (#[trigger] before[n]).0 == plugin_label(
                    plugins[i].1,
                    exec_cfg,
                );
            assert(after[n] == before[n]);
        }
        if i == last && plugins[i].0 == kind {
            let label = plugin_label(plugins[i].1, exec_cfg);
            if configured_deps::has_exec_dep(before, label) {
                let n = choose|n: int| 0 <= n < before.len() && (#[trigger] before[n]).0 == label;
                assert(after[n].0 == label);
            } else {
                assert(after[before.len() as int].0 == label);
            }
        }
        assert forall|n: int| exec_deps.len() <= n < after.len() implies (#[trigger] after[n]).1
            == CheckVisibility::No && exists|p: int|
            0 <= p < plugins.len() && (#[trigger] plugins[p]).0 == kind && after[n].0
                == plugin_label(plugins[p].1, exec_cfg) by {
            if n < before.len() {
                assert(before[n] == after[n]);
                let p = choose|p: int|
                    0 <= p < init.len() && (#[trigger] init[p]).0 == kind && before[n].0
                        == plugin_label(init[p].1, exec_cfg);
                assert(plugins[p] == init[p]);
            } else {
                assert(plugins[last].0 == kind);
            }
        }
    }
}

/// The plugins of a target are those of its attributes with what each dependency that is used
/// brings along: one more dependency that is used brings along what its own list says, and one that
/// is not used brings along nothing.
pub proof fn law_plugins_come_from_used_dependencies(
    target: ConfiguredTargetLabel,
    plugins: Seq<PluginView>,
    deps: Seq<(ConfiguredProvidersLabel, Vec<PluginKindSet>)>,
    results: Seq<DepResult>,
)
    requires
        0 < results.len(),
    ensures
        ({
            let d = results.last();
            let before = gathered(target, plugins, deps, results.drop_last()).plugins;
            let after = gathered(target, plugins, deps, results).plugins;
            &&& gathered(target, plugins, deps, Seq::empty()).plugins == plugins
            &&& d.result is Ok && d.result->Ok_0 is Compatible && d.visible == Ok::<
                bool,
                NodeError,
            >(true) ==> after == configured_deps::with_propagated(
                before,
                deps[results.len() - 1].1@,
                d.result->Ok_0->Compatible_0.plugin_lists@,
            )
            &&& !(d.result is Ok && d.result->Ok_0 is Compatible && d.visible == Ok::<
                bool,
                NodeError,
            >(true)) ==> after == before
        }),
{
}

/// Where nothing is wrong with any dependency of a node, nothing was wrong before, and the
/// dependencies stand in order: those gathered before, then the toolchains; and the execution
/// dependencies by themselves.
pub proof fn law_dependencies_stand_in_order(
    target: ConfiguredTargetLabel,
    deps: Seq<Arc<ConfiguredTargetNode>>,
    errs: Seq<NodeError>,
    incompats: Seq<Arc<IncompatiblePlatformReason>>,
    toolchains: Seq<DepResult>,
    exec_list: Seq<(DepResult, CheckVisibility)>,
    i: int,
)
    requires
        node_deps(target, deps, errs, incompats, toolchains, exec_list).0.errs.len() == 0,
        node_deps(target, deps, errs, incompats, toolchains, exec_list).0.incompats.len() == 0,
    ensures
        errs.len() == 0,
        incompats.len() == 0,
        ({
            let (s, all) = node_deps(target, deps, errs, incompats, toolchains, exec_list);
            &&& all.len() == deps.len() + toolchains.len()
            &&& 0 <= i < deps.len() ==> all[i] == deps[i]
            &&& 0 <= i < toolchains.len() ==> toolchains[i].result == Ok::<
                MaybeCompatible<Arc<ConfiguredTargetNode>>,
                NodeError,
            >(MaybeCompatible::Compatible(all[deps.len() + i])) && toolchains[i].visible == Ok::<
                bool,
                NodeError,
            >(true)
            &&& s.deps.len() == exec_list.len()
            &&& 0 <= i < exec_list.len() ==> exec_list[i].0.result == Ok::<
                MaybeCompatible<Arc<ConfiguredTargetNode>>,
                NodeError,
            >(MaybeCompatible::Compatible(s.deps[i])) && (exec_list[i].1 == CheckVisibility::Yes
                ==> exec_list[i].0.visible == Ok::<bool, NodeError>(true))
        }),
{
    law_all_dependencies_are_checked(target, deps, errs, incompats, toolchains, exec_list);
    let (s, all) = node_deps(target, deps, errs, incompats, toolchains, exec_list);
    if 0 <= i < deps.len() {
        assert(all.take(deps.len() as int)[i] == all[i]);
    }
    if 0 <= i < exec_list.len() {
        assert(may_be_used(exec_list[i], s.deps[i]));
    }
    if 0 <= i < toolchains.len() {
        assert(toolchains[i].result is Ok);
    }
}

/// A label without its execution platform is otherwise the same.
pub proof fn law_label_without_its_platform(label: ConfiguredTargetLabel)
    ensures
        partial_label(label).target == label.target,
        partial_label(label).cfg == label.cfg,
        partial_label(label).exec_cfg is None,
{
}

/// Gathering keeps the toolchains as they were, lists the plugins and what is wrong with all
/// dependencies, and fails only where a plugin is used and its configuration is not known.
pub proof fn law_what_gathering_keeps(
    target: ConfiguredTargetLabel,
    traversal: Traversal,
    results: Seq<DepResult>,
    uses_plugins: Seq<String>,
    exec_cfg: Result<ConfigurationData, NodeError>,
    r: Result<(GatheredDeps, ErrorsAndIncompatibilities), NodeError>,
)
    requires
        gathers(target, traversal, results, uses_plugins, exec_cfg, r),
    ensures
        exec_cfg is Ok ==> r is Ok,
        r is Err ==> exec_cfg is Err && r->Err_0 == exec_cfg->Err_0,
        r is Ok ==> {
            let all = gathered(target, traversal.plugin_lists@, traversal.deps@, results);
            &&& r->Ok_0.0.toolchain_deps == traversal.toolchain_deps
            &&& r->Ok_0.0.plugin_lists@ == all.plugins
            &&& r->Ok_0.0.deps@ == all.deps
            &&& r->Ok_0.1.errs@ == all.errs
            &&& r->Ok_0.1.incompats@ == all.incompats
        },
        exec_cfg is Err && r is Ok ==> configured_deps::exec_dep_views(r->Ok_0.0.exec_deps@)
            == configured_deps::exec_dep_views(traversal.exec_deps@),
{
}

/// Without an execution configuration, gathering fails exactly if a plugin of a kind that the target
/// uses is on the list; with one, the used plugins are execution dependencies in it.
pub proof fn law_when_plugins_need_a_configuration(
    target: ConfiguredTargetLabel,
    traversal: Traversal,
    results: Seq<DepResult>,
    uses_plugins: Seq<String>,
    exec_cfg: Result<ConfigurationData, NodeError>,
    r: Result<(GatheredDeps, ErrorsAndIncompatibilities), NodeError>,
    i: int,
    u: int,
)
    requires
        gathers(target, traversal, results, uses_plugins, exec_cfg, r),
        0 <= u < uses_plugins.len(),
    ensures
        r is Ok && 0 <= i < r->Ok_0.0.plugin_lists@.len() && r->Ok_0.0.plugin_lists@[i].0
            == uses_plugins[u]@ ==> exec_cfg is Ok && exists|n: int|
            0 <= n < r->Ok_0.0.exec_deps@.len() && (#[trigger] r->Ok_0.0.exec_deps@[n]).0@ == (
            ProvidersLabelView {
                target: ConfiguredLabelView {
                    target: r->Ok_0.0.plugin_lists@[i].1,
                    cfg: exec_cfg->Ok_0@,
                    exec_cfg: None,
                },
                providers: ""@,
            }),
        r is Err ==> exists|p: int, k: int|
            #![trigger gathered(
                target,
                traversal.plugin_lists@,
                traversal.deps@,
                results,
            ).plugins[p], uses_plugins[k]]
            {
                let plugins = gathered(
                    target,
                    traversal.plugin_lists@,
                    traversal.deps@,
                    results,
                ).plugins;
                0 <= p < plugins.len() && 0 <= k < uses_plugins.len() && plugins[p].0
                    == uses_plugins[k]@
            },
{
    let plugins = gathered(target, traversal.plugin_lists@, traversal.deps@, results).plugins;
    let uses = text::views(uses_plugins);
    assert(uses[u] == uses_plugins[u]@);
    if r is Ok && 0 <= i < plugins.len() && plugins[i].0 == uses[u] {
        assert(uses_a_plugin(plugins, uses));
        let before = configured_deps::exec_dep_views(traversal.exec_deps@);
        law_used_plugins_are_execution_dependencies(
            before,
            plugins,
            uses,
            exec_cfg->Ok_0@,
            i,
            u,
        );
        let after = configured_deps::exec_dep_views(r->Ok_0.0.exec_deps@);
        let n = choose|n: int|
            0 <= n < after.len() && (#[trigger] after[n]).0 == (ProvidersLabelView {
                target: ConfiguredLabelView {
                    target: plugins[i].1,
                    cfg: exec_cfg->Ok_0@,
                    exec_cfg: None,
                },
                providers: ""@,
            });
        assert(after[n].0 == r->Ok_0.0.exec_deps@[n].0@);
    }
    if r is Err {
        let (p, k) = choose|p: int, k: int|
            0 <= p < plugins.len() && 0 <= k < uses.len() && (#[trigger] plugins[p]).0
                == #[trigger] uses[k];
        assert(uses[k] == uses_plugins[k]@);
        assert(plugins[p].0 == uses_plugins[k]@);
    }
}

} // verus!
