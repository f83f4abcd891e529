//! The dependencies of a configured node: how they are collected from attributes, what they bring
//! along, and what is wrong with them.
use std::sync::Arc;
use vstd::prelude::*;
use vstd::string::*;

use crate::configured::IncompatiblePlatformReason;
use crate::configured::IncompatiblePlatformReasonCause;
use crate::configured::MaybeCompatible;
use crate::configured::NodeError;
use crate::configured_node::ExecutionPlatformResolution;
use crate::labels::ConfigurationData;
use crate::labels::ConfiguredLabelView;
use crate::labels::ConfiguredProvidersLabel;
use crate::labels::ConfiguredTargetLabel;
use crate::labels::ProvidersLabelView;
use crate::labels::TargetLabel;
use crate::labels::TargetLabelView;
use crate::text::str_eq;
use crate::toolchains::PlatformCfgs;

verus! {

/// Whether the visibility of a dependency is checked.
#[derive(Clone, Copy, Debug, PartialEq, Eq, Structural)]
pub enum CheckVisibility {
    Yes,
    No,
}

/// How a plugin came to be in the list of a node.
#[derive(Clone, Copy, Debug, PartialEq, Eq, Structural)]
pub enum PluginListElemKind {
    /// The node itself depends on the plugin.
    Direct,
    /// The plugin came from a dependency, and is handed on.
    Propagate,
    /// The plugin came from a dependency, and is not handed on.
    NoPropagate,
}

/// The mathematical form of a plugin: its kind, its target and how it came to be listed.
pub type PluginView = (Seq<char>, TargetLabelView, PluginListElemKind);

/// One plugin of a node.
#[derive(Debug)]
pub struct Plugin {
    pub kind: String,
    pub target: TargetLabel,
    pub elem_kind: PluginListElemKind,
}

impl View for Plugin {
    type V = PluginView;

    open spec fn view(&self) -> PluginView {
        (self.kind@, self.target@, self.elem_kind)
    }
}

/// The plugins of a node; a target is listed once for each kind.
#[derive(Debug)]
pub struct PluginLists {
    pub plugins: Vec<Plugin>,
}

impl View for PluginLists {
    type V = Seq<PluginView>;

    open spec fn view(&self) -> Seq<PluginView> {
        Seq::new(self.plugins@.len(), |i: int| self.plugins@[i]@)
    }
}

/// The list after a plugin was put into it: one that is listed already only changes how it came
/// to be listed.
pub open spec fn plugin_insert(
    list: Seq<PluginView>,
    kind: Seq<char>,
    target: TargetLabelView,
    elem_kind: PluginListElemKind,
) -> Seq<PluginView>
    decreases list.len(),
{
    if list.len() == 0 {
        seq![(kind, target, elem_kind)]
    } else if list[0].0 == kind && list[0].1 == target {
        list.update(0, (kind, target, elem_kind))
    } else {
        seq![list[0]] + plugin_insert(list.drop_first(), kind, target, elem_kind)
    }
}

proof fn lemma_plugin_insert(
    list: Seq<PluginView>,
    kind: Seq<char>,
    target: TargetLabelView,
    elem_kind: PluginListElemKind,
    at: int,
)
    requires
        0 <= at <= list.len(),
        forall|k: int|
            0 <= k < at ==> !((#[trigger] list[k]).0 == kind && list[k].1 == target),
        at < list.len() ==> list[at].0 == kind && list[at].1 == target,
    ensures
        at < list.len() ==> plugin_insert(list, kind, target, elem_kind) == list.update(
            at,
            (kind, target, elem_kind),
        ),
        at == list.len() ==> plugin_insert(list, kind, target, elem_kind) == list.push(
            (kind, target, elem_kind),
        ),
    decreases list.len(),
{
    if list.len() == 0 {
        assert(list.push((kind, target, elem_kind)) =~= seq![(kind, target, elem_kind)]);
    } else if at > 0 {
        let rest = list.drop_first();
        assert forall|k: int| 0 <= k < at - 1 implies !((#[trigger] rest[k]).0 == kind && rest[k].1
            == target) by {
            assert(rest[k] == list[k + 1]);
        }
        lemma_plugin_insert(rest, kind, target, elem_kind, at - 1);
        if at < list.len() {
            assert(list.update(at, (kind, target, elem_kind)) =~= seq![list[0]] + rest.update(
                at - 1,
                (kind, target, elem_kind),
            ));
        } else {
            assert(list.push((kind, target, elem_kind)) =~= seq![list[0]] + rest.push(
                (kind, target, elem_kind),
            ));
        }
    }
}

impl PluginLists {
    pub fn new() -> (r: Self)
        ensures
            r@ == Seq::<PluginView>::empty(),
    {
        let r = PluginLists { plugins: Vec::new() };
        assert(r@ =~= Seq::<PluginView>::empty());
        r
    }

    /// Puts a plugin into the list.
    pub fn insert(&mut self, kind: &String, target: &TargetLabel, elem_kind: PluginListElemKind)
        ensures
            final(self)@ == plugin_insert(old(self)@, kind@, target@, elem_kind),
    {
        let ghost list = self@;
        let mut i: usize = 0;
        while i < self.plugins.len()
            invariant
                self@ == list,
                list == old(self)@,
                i <= self.plugins@.len(),
                forall|k: int|
                    0 <= k < i ==> !((#[trigger] list[k]).0 == kind@ && list[k].1 == target@),
            decreases self.plugins@.len() - i,
        {
            if str_eq(self.plugins[i].kind.as_str(), kind.as_str())
                && self.plugins[i].target.same_as(target) {
                let plugin = &mut self.plugins[i];
                plugin.elem_kind = elem_kind;
                proof {
                    lemma_plugin_insert(list, kind@, target@, elem_kind, i as int);
                    assert(self@ =~= list.update(i as int, (kind@, target@, elem_kind)));
                }
                return ;
            }
            assert(list[i as int] == self.plugins@[i as int]@);
            i = i + 1;
        }
        self.plugins.push(Plugin { kind: kind.clone(), target: target.dupe(), elem_kind });
        proof {
            lemma_plugin_insert(list, kind@, target@, elem_kind, list.len() as int);
            assert(self@ =~= list.push((kind@, target@, elem_kind)));
        }
    }
}

/// For some kinds of plugins, whether those of a dependency are handed on.
#[derive(Debug)]
pub struct PluginKindSet {
    pub kinds: Vec<(String, bool)>,
}

/// What the set says of `kind`.
pub open spec fn kind_get(kinds: Seq<(String, bool)>, kind: Seq<char>) -> Option<bool>
    decreases kinds.len(),
{
    if kinds.len() == 0 {
        None
    } else if kinds[0].0@ == kind {
        Some(kinds[0].1)
    } else {
        kind_get(kinds.drop_first(), kind)
    }
}

impl PluginKindSet {
    pub fn get(&self, kind: &String) -> (r: Option<bool>)
        ensures
            r == kind_get(self.kinds@, kind@),
    {
        let mut i: usize = 0;
        assert(self.kinds@.skip(0) =~= self.kinds@);
        while i < self.kinds.len()
            invariant
                i <= self.kinds@.len(),
                kind_get(self.kinds@, kind@) == kind_get(self.kinds@.skip(i as int), kind@),
            decreases self.kinds@.len() - i,
        {
            assert(self.kinds@.skip(i as int)[0] == self.kinds@[i as int]);
            assert(self.kinds@.skip(i as int).drop_first() =~= self.kinds@.skip(i + 1));
            if str_eq(self.kinds[i].0.as_str(), kind.as_str()) {
                return Some(self.kinds[i].1);
            }
            i = i + 1;
        }
        None
    }
}

/// Whether plugins of `kind` come along from a dependency that is used with `sets`, and whether
/// they are then handed on: they are if one of the sets says so.
pub open spec fn should_propagate(sets: Seq<PluginKindSet>, kind: Seq<char>) -> Option<bool>
    decreases sets.len(),
{
    if sets.len() == 0 {
        None
    } else {
        match (should_propagate(sets.drop_last(), kind), kind_get(sets.last().kinds@, kind)) {
            (None, x) => x,
            (Some(a), None) => Some(a),
            (Some(a), Some(b)) => Some(a || b),
        }
    }
}

fn compute_should_propagate(sets: &Vec<PluginKindSet>, kind: &String) -> (r: Option<bool>)
    ensures
        r == should_propagate(sets@, kind@),
{
    let mut r: Option<bool> = None;
    let mut i: usize = 0;
    assert(sets@.take(0) =~= Seq::empty());
    while i < sets.len()
        invariant
            i <= sets@.len(),
            r == should_propagate(sets@.take(i as int), kind@),
        decreases sets@.len() - i,
    {
        proof {
            let next = sets@.take(i + 1);
            assert(next.drop_last() =~= sets@.take(i as int));
            assert(next.last() == sets@[i as int]);
        }
        let own = sets[i].get(kind);
        r = match (r, own) {
            (None, x) => x,
            (Some(a), None) => Some(a),
            (Some(a), Some(b)) => Some(a || b),
        };
        i = i + 1;
    }
    assert(sets@.take(sets@.len() as int) =~= sets@);
    r
}

/// The list after the plugins of a dependency came along. Those that are not handed on stay
/// behind.
pub open spec fn with_propagated(
    list: Seq<PluginView>,
    sets: Seq<PluginKindSet>,
    from_dep: Seq<PluginView>,
) -> Seq<PluginView>
    decreases from_dep.len(),
{
    if from_dep.len() == 0 {
        list
    } else {
        let before = with_propagated(list, sets, from_dep.drop_last());
        let (kind, target, elem_kind) = from_dep.last();
        match should_propagate(sets, kind) {
            Some(on) if elem_kind != PluginListElemKind::NoPropagate => plugin_insert(
                before,
                kind,
                target,
                if on {
                    PluginListElemKind::Propagate
                } else {
                    PluginListElemKind::NoPropagate
                },
            ),
            _ => before,
        }
    }
}

pub(crate) fn propagate_plugins(
    lists: &mut PluginLists,
    sets: &Vec<PluginKindSet>,
    from_dep: &PluginLists,
)
    ensures
        final(lists)@ == with_propagated(old(lists)@, sets@, from_dep@),
{
    let ghost list0 = lists@;
    let ghost all = from_dep@;
    let mut i: usize = 0;
    assert(all.take(0) =~= Seq::empty());
    while i < from_dep.plugins.len()
        invariant
            all == from_dep@,
            i <= from_dep.plugins@.len(),
            lists@ == with_propagated(list0, sets@, all.take(i as int)),
        decreases from_dep.plugins@.len() - i,
    {
        let plugin = &from_dep.plugins[i];
        proof {
            let next = all.take(i + 1);
            assert(next.drop_last() =~= all.take(i as int));
            assert(next.last() == plugin@);
        }
        match compute_should_propagate(sets, &plugin.kind) {
            Some(on) => {
                if plugin.elem_kind != PluginListElemKind::NoPropagate {
                    let elem_kind = if on {
                        PluginListElemKind::Propagate
                    } else {
                        PluginListElemKind::NoPropagate
                    };
                    lists.insert(&plugin.kind, &plugin.target, elem_kind);
                }
            },
            None => {},
        }
        i = i + 1;
    }
    assert(all.take(all.len() as int) =~= all);
}

/// A configured attribute: its value in a form that can be compared, and as it is shown.
#[derive(Debug)]
pub struct ConfiguredAttr {
    pub value: String,
    pub display: String,
}

/// The configuration in which a node is configured, the settings that hold in it, and the
/// configurations of the platforms that the node names.
#[derive(Debug)]
pub struct NodeConfiguration {
    pub cfg: ConfigurationData,
    pub matching: Vec<TargetLabel>,
    pub platform_cfgs: PlatformCfgs,
}

/// Where a transition leads: to one configuration, or to several that are told apart by names.
#[derive(Debug)]
pub enum TransitionApplied {
    Single(ConfigurationData),
    Split(Vec<(String, ConfigurationData)>),
}

/// Where the transitions of a node lead, each by its name.
#[derive(Debug)]
pub struct ResolvedTransitions {
    pub list: Vec<(String, Arc<TransitionApplied>)>,
}

impl View for ResolvedTransitions {
    type V = Seq<(Seq<char>, Arc<TransitionApplied>)>;

    open spec fn view(&self) -> Seq<(Seq<char>, Arc<TransitionApplied>)> {
        Seq::new(self.list@.len(), |i: int| (self.list@[i].0@, self.list@[i].1))
    }
}

/// The transitions after `id` was found to lead to `applied`: one that is known keeps its place.
pub open spec fn transition_insert(
    list: Seq<(Seq<char>, Arc<TransitionApplied>)>,
    id: Seq<char>,
    applied: Arc<TransitionApplied>,
) -> Seq<(Seq<char>, Arc<TransitionApplied>)>
    decreases list.len(),
{
    if list.len() == 0 {
        seq![(id, applied)]
    } else if list[0].0 == id {
        list.update(0, (id, applied))
    } else {
        seq![list[0]] + transition_insert(list.drop_first(), id, applied)
    }
}

proof fn lemma_transition_insert(
    list: Seq<(Seq<char>, Arc<TransitionApplied>)>,
    id: Seq<char>,
    applied: Arc<TransitionApplied>,
    at: int,
)
    requires
        0 <= at <= list.len(),
        forall|k: int| 0 <= k < at ==> (#[trigger] list[k]).0 != id,
        at < list.len() ==> list[at].0 == id,
    ensures
        at < list.len() ==> transition_insert(list, id, applied) == list.update(at, (id, applied)),
        at == list.len() ==> transition_insert(list, id, applied) == list.push((id, applied)),
    decreases list.len(),
{
    if list.len() == 0 {
        assert(list.push((id, applied)) =~= seq![(id, applied)]);
    } else if at > 0 {
        let rest = list.drop_first();
        assert forall|k: int| 0 <= k < at - 1 implies (#[trigger] rest[k]).0 != id by {
            assert(rest[k] == list[k + 1]);
        }
        lemma_transition_insert(rest, id, applied, at - 1);
        if at < list.len() {
            assert(list.update(at, (id, applied)) =~= seq![list[0]] + rest.update(
                at - 1,
                (id, applied),
            ));
        } else {
            assert(list.push((id, applied)) =~= seq![list[0]] + rest.push((id, applied)));
        }
    }
}

impl ResolvedTransitions {
    pub fn new() -> (r: Self)
        ensures
            r@ == Seq::<(Seq<char>, Arc<TransitionApplied>)>::empty(),
    {
        let r = ResolvedTransitions { list: Vec::new() };
        assert(r@ =~= Seq::<(Seq<char>, Arc<TransitionApplied>)>::empty());
        r
    }

    /// Notes where a transition leads.
    pub fn insert(&mut self, id: &String, applied: Arc<TransitionApplied>)
        ensures
            final(self)@ == transition_insert(old(self)@, id@, applied),
    {
        let ghost list = self@;
        let mut i: usize = 0;
        while i < self.list.len()
            invariant
                self@ == list,
                list == old(self)@,
                i <= self.list@.len(),
                forall|k: int| 0 <= k < i ==> (#[trigger] list[k]).0 != id@,
            decreases self.list@.len() - i,
        {
            assert(list[i as int] == (self.list@[i as int].0@, self.list@[i as int].1));
            if str_eq(self.list[i].0.as_str(), id.as_str()) {
                proof {
                    lemma_transition_insert(list, id@, applied, i as int);
                }
                let ghost before = self.list@;
                let entry = &mut self.list[i];
                entry.1 = applied;
                proof {
                    assert(self.list@ =~= before.update(
                        i as int,
                        (before[i as int].0, applied),
                    ));
                    assert(self@ =~= list.update(i as int, (id@, applied)));
                }
                return ;
            }
            i = i + 1;
        }
        proof {
            lemma_transition_insert(list, id@, applied, i as int);
        }
        self.list.push((id.clone(), applied));
        assert(self@ =~= list.push((id@, applied)));
    }
}

/// A configured node.
#[derive(Debug)]
pub struct ConfiguredTargetNode {
    pub label: ConfiguredTargetLabel,
    pub attrs: Vec<(String, Arc<ConfiguredAttr>)>,
    pub configuration: Arc<NodeConfiguration>,
    pub resolved_transitions: Arc<ResolvedTransitions>,
    pub execution_platform: ExecutionPlatformResolution,
    pub deps: Vec<Arc<ConfiguredTargetNode>>,
    pub exec_deps: Vec<Arc<ConfiguredTargetNode>>,
    pub plugin_lists: PluginLists,
    /// The node that this one stands for, where it only forwards to another configuration.
    pub forward_target: Option<Arc<ConfiguredTargetNode>>,
}

/// What looking up a dependency gave, and whether it is visible to the target.
pub struct DepResult {
    pub result: Result<MaybeCompatible<Arc<ConfiguredTargetNode>>, NodeError>,
    pub visible: Result<bool, NodeError>,
}

/// What becomes of a dependency.
pub enum Unpacked {
    Dep(Arc<ConfiguredTargetNode>),
    Error(NodeError),
    Incompatible(Arc<IncompatiblePlatformReason>),
}

/// What becomes of a dependency of `target`.
pub open spec fn unpacked(
    target: ConfiguredTargetLabel,
    dep: DepResult,
    check: CheckVisibility,
) -> Unpacked {
    match dep.result {
        Err(e) => Unpacked::Error(e),
        Ok(MaybeCompatible::Incompatible(reason)) => Unpacked::Incompatible(
            Arc::new(
                IncompatiblePlatformReason {
                    target,
                    cause: IncompatiblePlatformReasonCause::Dependency(reason),
                },
            ),
        ),
        Ok(MaybeCompatible::Compatible(node)) => match (check, dep.visible) {
            (CheckVisibility::No, _) => Unpacked::Dep(node),
            (CheckVisibility::Yes, Ok(true)) => Unpacked::Dep(node),
            (CheckVisibility::Yes, Ok(false)) => Unpacked::Error(
                NodeError::NotVisibleTo(node.label.target, target.target),
            ),
            (CheckVisibility::Yes, Err(e)) => Unpacked::Error(e),
        },
    }
}

/// The errors and incompatibilities of dependencies.
pub struct ErrorsAndIncompatibilities {
    pub errs: Vec<NodeError>,
    pub incompats: Vec<Arc<IncompatiblePlatformReason>>,
}

impl Default for ErrorsAndIncompatibilities {
    fn default() -> (r: Self)
        ensures
            r.errs@.len() == 0,
            r.incompats@.len() == 0,
    {
        ErrorsAndIncompatibilities { errs: Vec::new(), incompats: Vec::new() }
    }
}

impl ErrorsAndIncompatibilities {
    /// The dependency, or a note of what is wrong with it.
    pub fn unpack_dep(
        &mut self,
        target_label: &ConfiguredTargetLabel,
        dep: DepResult,
        check_visibility: CheckVisibility,
    ) -> (r: Option<Arc<ConfiguredTargetNode>>)
        ensures
            match unpacked(*target_label, dep, check_visibility) {
                Unpacked::Dep(node) => r == Some(node) && *final(self) == *old(self),
                Unpacked::Error(e) => r is None && final(self).errs@ == old(self).errs@.push(e)
                    && final(self).incompats == old(self).incompats,
                Unpacked::Incompatible(reason) => r is None && final(self).incompats@ == old(self).incompats@.push(reason) && final(self).errs == old(self).errs,
            },
    {
        let DepResult { result, visible } = dep;
        match result {
            Err(e) => {
                self.errs.push(e);
                None
            },
            Ok(MaybeCompatible::Incompatible(reason)) => {
                self.incompats.push(
                    Arc::new(
                        IncompatiblePlatformReason {
                            target: target_label.dupe(),
                            cause: IncompatiblePlatformReasonCause::Dependency(reason),
                        },
                    ),
                );
                None
            },
            Ok(MaybeCompatible::Compatible(node)) => {
                if check_visibility == CheckVisibility::No {
                    return Some(node);
                }
                match visible {
                    Ok(true) => Some(node),
                    Ok(false) => {
                        self.errs.push(
                            NodeError::NotVisibleTo(
                                node.label.target.dupe(),
                                target_label.target.dupe(),
                            ),
                        );
                        None
                    },
                    Err(e) => {
                        self.errs.push(e);
                        None
                    },
                }
            },
        }
    }

    /// Adds the dependency to `list`, or a note of what is wrong with it to the errors.
    pub fn unpack_dep_into(
        &mut self,
        target_label: &ConfiguredTargetLabel,
        dep: DepResult,
        check_visibility: CheckVisibility,
        list: &mut Vec<Arc<ConfiguredTargetNode>>,
    )
        ensures
            match unpacked(*target_label, dep, check_visibility) {
                Unpacked::Dep(node) => final(list)@ == old(list)@.push(node) && *final(self)
                    == *old(self),
                Unpacked::Error(e) => final(list)@ == old(list)@ && final(self).errs@ == old(self).errs@.push(e) && final(self).incompats == old(self).incompats,
                Unpacked::Incompatible(reason) => final(list)@ == old(list)@ && final(self).incompats@ == old(self).incompats@.push(reason) && final(self).errs == old(self).errs,
            },
    {
        match self.unpack_dep(target_label, dep, check_visibility) {
            Some(node) => {
                list.push(node);
            },
            None => {},
        }
    }

    /// The incompatibility or the error to report, if there is any. Incompatibilities come before
    /// errors, and the last one is reported.
    pub fn finalize<T>(self) -> (r: Option<Result<MaybeCompatible<T>, NodeError>>)
        ensures
            r == (if self.incompats@.len() > 0 {
                Some(
                    Ok::<MaybeCompatible<T>, NodeError>(
                        MaybeCompatible::Incompatible(self.incompats@.last()),
                    ),
                )
            } else if self.errs@.len() > 0 {
                Some(Err::<MaybeCompatible<T>, NodeError>(self.errs@.last()))
            } else {
                None
            }),
    {
        let mut this = self;
        match this.incompats.pop() {
            Some(incompat) => {
                return Some(Ok(MaybeCompatible::Incompatible(incompat)));
            },
            None => {},
        }
        match this.errs.pop() {
            Some(e) => Some(Err(e)),
            None => None,
        }
    }
}

/// What the attributes of a target mention.
pub struct Traversal {
    /// The dependencies, each once, and the plugin kinds they are used with.
    pub deps: Vec<(ConfiguredProvidersLabel, Vec<PluginKindSet>)>,
    pub exec_deps: Vec<(ConfiguredProvidersLabel, CheckVisibility)>,
    pub toolchain_deps: Vec<ConfiguredTargetLabel>,
    pub plugin_lists: PluginLists,
}

/// The labels of dependencies with plugin kinds.
pub open spec fn dep_labels(deps: Seq<(ConfiguredProvidersLabel, Vec<PluginKindSet>)>) -> Seq<
    ProvidersLabelView,
> {
    Seq::new(deps.len(), |i: int| deps[i].0@)
}

/// The labels of execution dependencies, and whether their visibility is checked.
pub open spec fn exec_dep_views(deps: Seq<(ConfiguredProvidersLabel, CheckVisibility)>) -> Seq<
    (ProvidersLabelView, CheckVisibility),
> {
    Seq::new(deps.len(), |i: int| (deps[i].0@, deps[i].1))
}

/// The mathematical forms of configured labels.
pub open spec fn label_views(labels: Seq<ConfiguredTargetLabel>) -> Seq<ConfiguredLabelView> {
    Seq::new(labels.len(), |i: int| labels[i]@)
}

/// The first position of `label` among execution dependencies.
pub open spec fn exec_position(
    deps: Seq<(ProvidersLabelView, CheckVisibility)>,
    label: ProvidersLabelView,
    i: int,
) -> bool {
    &&& 0 <= i < deps.len()
    &&& deps[i].0 == label
    &&& forall|k: int| 0 <= k < i ==> (#[trigger] deps[k]).0 != label
}

/// `label` is among the execution dependencies.
pub open spec fn has_exec_dep(
    deps: Seq<(ProvidersLabelView, CheckVisibility)>,
    label: ProvidersLabelView,
) -> bool {
    exists|i: int| 0 <= i < deps.len() && (#[trigger] deps[i]).0 == label
}

/// The execution dependencies after `label` was added unless it was there.
pub open spec fn exec_or_insert(
    deps: Seq<(ProvidersLabelView, CheckVisibility)>,
    label: ProvidersLabelView,
    check: CheckVisibility,
) -> Seq<(ProvidersLabelView, CheckVisibility)> {
    if has_exec_dep(deps, label) {
        deps
    } else {
        deps.push((label, check))
    }
}

fn find_exec_dep(
    deps: &Vec<(ConfiguredProvidersLabel, CheckVisibility)>,
    label: &ConfiguredProvidersLabel,
) -> (r: Option<usize>)
    ensures
        match r {
            Some(i) => exec_position(exec_dep_views(deps@), label@, i as int),
            None => !has_exec_dep(exec_dep_views(deps@), label@),
        },
{
    let mut i: usize = 0;
    let ghost views = exec_dep_views(deps@);
    while i < deps.len()
        invariant
            views == exec_dep_views(deps@),
            i <= deps@.len(),
            forall|k: int| 0 <= k < i ==> (#[trigger] views[k]).0 != label@,
        decreases deps@.len() - i,
    {
        assert(views[i as int] == (deps@[i as int].0@, deps@[i as int].1));
        if deps[i].0.same_as(label) {
            return Some(i);
        }
        i = i + 1;
    }
    None
}

impl Traversal {
    pub fn new() -> (r: Self)
        ensures
            r.deps@.len() == 0,
            r.exec_deps@.len() == 0,
            r.toolchain_deps@.len() == 0,
            r.plugin_lists@.len() == 0,
            r.wf(),
    {
        Traversal {
            deps: Vec::new(),
            exec_deps: Vec::new(),
            toolchain_deps: Vec::new(),
            plugin_lists: PluginLists::new(),
        }
    }

    /// Nothing is listed twice.
    pub open spec fn wf(&self) -> bool {
        &&& dep_labels(self.deps@).no_duplicates()
        &&& label_views(self.toolchain_deps@).no_duplicates()
        &&& forall|i: int, j: int|
            0 <= i < j < self.exec_deps@.len() ==> (#[trigger] self.exec_deps@[i]).0@ != (
            #[trigger] self.exec_deps@[j]).0@
    }

    fn dep_index(&mut self, dep: &ConfiguredProvidersLabel) -> (r: usize)
        requires
            old(self).wf(),
        ensures
            final(self).wf(),
            r < final(self).deps@.len(),
            final(self).deps@[r as int].0@ == dep@,
            final(self).exec_deps == old(self).exec_deps,
            final(self).toolchain_deps == old(self).toolchain_deps,
            final(self).plugin_lists == old(self).plugin_lists,
            if dep_labels(old(self).deps@).contains(dep@) {
                final(self).deps == old(self).deps
            } else {
                &&& r == old(self).deps@.len()
                &&& final(self).deps@.drop_last() == old(self).deps@
                &&& final(self).deps@.len() == old(self).deps@.len() + 1
                &&& final(self).deps@.last().0 == *dep
                &&& final(self).deps@.last().1@.len() == 0
            },
    {
        let ghost before = self.deps@;
        let mut i: usize = 0;
        while i < self.deps.len()
            invariant
                *self == *old(self),
                self.wf(),
                i <= self.deps@.len(),
                forall|k: int| 0 <= k < i ==> (#[trigger] self.deps@[k]).0@ != dep@,
            decreases self.deps@.len() - i,
        {
            if self.deps[i].0.same_as(dep) {
                assert(dep_labels(self.deps@)[i as int] == dep@);
                return i;
            }
            i = i + 1;
        }
        self.deps.push((dep.dupe(), Vec::new()));
        proof {
            assert(self.deps@.drop_last() =~= before);
            assert(!dep_labels(before).contains(dep@));
            let labels = dep_labels(self.deps@);
            assert forall|a: int, b: int|
                0 <= a < labels.len() && 0 <= b < labels.len() && a != b implies labels[a]
                != labels[b] by {
                if a < before.len() {
                    assert(dep_labels(before)[a] == labels[a]);
                }
                if b < before.len() {
                    assert(dep_labels(before)[b] == labels[b]);
                }
            }
        }
        i
    }

    /// A dependency.
    pub fn dep(&mut self, dep: &ConfiguredProvidersLabel)
        requires
            old(self).wf(),
        ensures
            final(self).wf(),
            final(self).exec_deps == old(self).exec_deps,
            final(self).toolchain_deps == old(self).toolchain_deps,
            final(self).plugin_lists == old(self).plugin_lists,
            if dep_labels(old(self).deps@).contains(dep@) {
                final(self).deps == old(self).deps
            } else {
                &&& final(self).deps@.drop_last() == old(self).deps@
                &&& final(self).deps@.len() == old(self).deps@.len() + 1
                &&& final(self).deps@.last().0 == *dep
                &&& final(self).deps@.last().1@.len() == 0
            },
    {
        let _at: usize = self.dep_index(dep);
    }

    /// A dependency that brings plugins along.
    pub fn dep_with_plugins(&mut self, dep: &ConfiguredProvidersLabel, plugin_kinds: PluginKindSet)
        requires
            old(self).wf(),
        ensures
            final(self).wf(),
            final(self).exec_deps == old(self).exec_deps,
            final(self).toolchain_deps == old(self).toolchain_deps,
            final(self).plugin_lists == old(self).plugin_lists,
            dep_labels(final(self).deps@) == (if dep_labels(old(self).deps@).contains(dep@) {
                dep_labels(old(self).deps@)
            } else {
                dep_labels(old(self).deps@).push(dep@)
            }),
            forall|i: int|
                0 <= i < final(self).deps@.len() ==> (#[trigger] final(self).deps@[i]).1@ == ({
                    let before = if i < old(self).deps@.len() {
                        old(self).deps@[i].1@
                    } else {
                        Seq::<PluginKindSet>::empty()
                    };
                    if dep_labels(final(self).deps@)[i] == dep@ {
                        before.push(plugin_kinds)
                    } else {
                        before
                    }
                }),
    {
        let ghost deps0 = self.deps@;
        let i: usize = self.dep_index(dep);
        let ghost deps1 = self.deps@;
        let entry = &mut self.deps[i];
        entry.1.push(plugin_kinds);
        proof {
            let labels0 = dep_labels(deps0);
            let labels1 = dep_labels(deps1);
            let labels2 = dep_labels(self.deps@);
            assert(labels2 =~= labels1);
            if !labels0.contains(dep@) {
                assert(labels1 =~= labels0.push(dep@));
                assert forall|k: int| 0 <= k < deps0.len() implies deps1[k] == deps0[k] by {
                    assert(deps1.drop_last()[k] == deps1[k]);
                }
            }
            assert forall|k: int| 0 <= k < self.deps@.len() implies (
            #[trigger] self.deps@[k]).1@ == ({
                let before = if k < deps0.len() {
                    deps0[k].1@
                } else {
                    Seq::<PluginKindSet>::empty()
                };
                if labels2[k] == dep@ {
                    before.push(plugin_kinds)
                } else {
                    before
                }
            }) by {
                assert(labels1[i as int] == dep@);
                if k != i {
                    assert(labels1[k] != labels1[i as int]);
                }
                if k >= deps0.len() {
                    assert(deps1[k].1@ =~= Seq::<PluginKindSet>::empty());
                }
            }
        }
    }

    /// A dependency that is used while building.
    pub fn exec_dep(&mut self, dep: &ConfiguredProvidersLabel)
        requires
            old(self).wf(),
        ensures
            final(self).wf(),
            final(self).deps == old(self).deps,
            final(self).toolchain_deps == old(self).toolchain_deps,
            final(self).plugin_lists == old(self).plugin_lists,
            has_exec_dep(exec_dep_views(old(self).exec_deps@), dep@) ==> exists|i: int|
                #[trigger] exec_position(exec_dep_views(old(self).exec_deps@), dep@, i)
                    && exec_dep_views(final(self).exec_deps@) == exec_dep_views(
                    old(self).exec_deps@,
                ).update(i, (dep@, CheckVisibility::Yes)),
            !has_exec_dep(exec_dep_views(old(self).exec_deps@), dep@) ==> exec_dep_views(
                final(self).exec_deps@,
            ) == exec_dep_views(old(self).exec_deps@).push((dep@, CheckVisibility::Yes)),
    {
        let ghost before = exec_dep_views(self.exec_deps@);
        match find_exec_dep(&self.exec_deps, dep) {
            Some(i) => {
                let entry = &mut self.exec_deps[i];
                entry.1 = CheckVisibility::Yes;
                assert(exec_dep_views(self.exec_deps@) =~= before.update(
                    i as int,
                    (dep@, CheckVisibility::Yes),
                ));
            },
            None => {
                proof {
                    assert forall|k: int| 0 <= k < self.exec_deps@.len() implies (
                    #[trigger] self.exec_deps@[k]).0@ != dep@ by {
                        assert(before[k].0 == self.exec_deps@[k].0@);
                    }
                }
                self.exec_deps.push((dep.dupe(), CheckVisibility::Yes));
                assert(exec_dep_views(self.exec_deps@) =~= before.push(
                    (dep@, CheckVisibility::Yes),
                ));
            },
        }
    }

    /// A toolchain. Its execution configuration is not known yet.
    pub fn toolchain_dep(&mut self, dep: &ConfiguredProvidersLabel)
        requires
            old(self).wf(),
        ensures
            final(self).wf(),
            final(self).deps == old(self).deps,
            final(self).exec_deps == old(self).exec_deps,
            final(self).plugin_lists == old(self).plugin_lists,
            ({
                let before = label_views(old(self).toolchain_deps@);
                let label = ConfiguredLabelView { exec_cfg: None, ..dep.target@ };
                label_views(final(self).toolchain_deps@) == (if before.contains(label) {
                    before
                } else {
                    before.push(label)
                })
            }),
    {
        let label = dep.target.without_exec_cfg();
        let ghost before = label_views(self.toolchain_deps@);
        let mut i: usize = 0;
        while i < self.toolchain_deps.len()
            invariant
                *self == *old(self),
                self.wf(),
                label@ == (ConfiguredLabelView { exec_cfg: None, ..dep.target@ }),
                i <= self.toolchain_deps@.len(),
                forall|k: int| 0 <= k < i ==> (#[trigger] self.toolchain_deps@[k])@ != label@,
            decreases self.toolchain_deps@.len() - i,
        {
            if self.toolchain_deps[i].same_as(&label) {
                assert(label_views(self.toolchain_deps@)[i as int] == label@);
                return ;
            }
            i = i + 1;
        }
        self.toolchain_deps.push(label);
        proof {
            let after = label_views(self.toolchain_deps@);
            assert(after =~= before.push(label@));
            assert(!before.contains(label@));
            assert forall|a: int, b: int|
                0 <= a < after.len() && 0 <= b < after.len() && a != b implies after[a]
                != after[b] by {
                if a < before.len() {
                    assert(before[a] == after[a]);
                }
                if b < before.len() {
                    assert(before[b] == after[b]);
                }
            }
        }
    }

    /// A plugin.
    pub fn plugin_dep(&mut self, dep: &TargetLabel, kind: &String)
        requires
            old(self).wf(),
        ensures
            final(self).wf(),
            final(self).deps == old(self).deps,
            final(self).exec_deps == old(self).exec_deps,
            final(self).toolchain_deps == old(self).toolchain_deps,
            final(self).plugin_lists@ == plugin_insert(
                old(self).plugin_lists@,
                kind@,
                dep@,
                PluginListElemKind::Direct,
            ),
    {
        self.plugin_lists.insert(kind, dep, PluginListElemKind::Direct);
    }
}

/// Putting a plugin into a list leaves all others as they are and where they are; the plugin is
/// there afterwards with the given kind of listing, at its old place or at the end.
pub proof fn law_plugin_is_listed_once_for_a_kind(
    list: Seq<PluginView>,
    kind: Seq<char>,
    target: TargetLabelView,
    elem_kind: PluginListElemKind,
    i: int,
)
    ensures
        ({
            let after = plugin_insert(list, kind, target, elem_kind);
            &&& after.contains((kind, target, elem_kind))
            &&& list.len() <= after.len() <= list.len() + 1
            &&& 0 <= i < list.len() ==> after[i].0 == list[i].0 && after[i].1 == list[i].1
            &&& 0 <= i < list.len() && !(list[i].0 == kind && list[i].1 == target) ==> after[i]
                == list[i]
            &&& (exists|k: int|
                0 <= k < list.len() && (#[trigger] list[k]).0 == kind && list[k].1 == target)
                <==> after.len() == list.len()
        }),
    decreases list.len(),
{
    let after = plugin_insert(list, kind, target, elem_kind);
    if list.len() == 0 {
        assert(after[0] == (kind, target, elem_kind));
    } else if list[0].0 == kind && list[0].1 == target {
        assert(after[0] == (kind, target, elem_kind));
    } else {
        let rest = list.drop_first();
        let tail = plugin_insert(rest, kind, target, elem_kind);
        law_plugin_is_listed_once_for_a_kind(rest, kind, target, elem_kind, i - 1);
        let n = choose|n: int| 0 <= n < tail.len() && tail[n] == (kind, target, elem_kind);
        assert(after[n + 1] == (kind, target, elem_kind));
        if exists|k: int|
            0 <= k < rest.len() && (#[trigger] rest[k]).0 == kind && rest[k].1 == target {
            let k = choose|k: int|
                0 <= k < rest.len() && (#[trigger] rest[k]).0 == kind && rest[k].1 == target;
            assert(list[k + 1].0 == kind);
        }
        if exists|k: int|
            0 <= k < list.len() && (#[trigger] list[k]).0 == kind && list[k].1 == target {
            let k = choose|k: int|
                0 <= k < list.len() && (#[trigger] list[k]).0 == kind && list[k].1 == target;
            assert(rest[k - 1] == list[k]);
        }
        if 0 < i < list.len() {
            assert(rest[i - 1] == list[i]);
            assert(after[i] == tail[i - 1]);
        }
    }
}

/// What a set says of a kind of plugins is what its first entry for that kind says.
pub proof fn law_first_entry_for_a_kind(kinds: Seq<(String, bool)>, kind: Seq<char>, i: int)
    ensures
        kind_get(kinds, kind) is None <==> forall|k: int|
            0 <= k < kinds.len() ==> (#[trigger] kinds[k]).0@ != kind,
        0 <= i < kinds.len() && kinds[i].0@ == kind && (forall|k: int|
            0 <= k < i ==> (#[trigger] kinds[k]).0@ != kind) ==> kind_get(kinds, kind) == Some(
            kinds[i].1,
        ),
    decreases kinds.len(),
{
    if kinds.len() > 0 {
        let rest = kinds.drop_first();
        law_first_entry_for_a_kind(rest, kind, i - 1);
        assert(forall|k: int| 0 <= k < rest.len() ==> #[trigger] rest[k] == kinds[k + 1]);
        if kind_get(kinds, kind) is None {
            assert forall|k: int| 0 <= k < kinds.len() implies (#[trigger] kinds[k]).0@
                != kind by {
                if k > 0 {
                    assert(rest[k - 1].0@ != kind);
                }
            }
        }
        if forall|k: int| 0 <= k < kinds.len() ==> (#[trigger] kinds[k]).0@ != kind {
            assert forall|k: int| 0 <= k < rest.len() implies (#[trigger] rest[k]).0@ != kind by {
                assert(kinds[k + 1].0@ != kind);
            }
        }
    }
}

/// Plugins of a kind come along where one of the sets names the kind, and are handed on where one
/// of them says so.
pub proof fn law_when_plugins_come_along(sets: Seq<PluginKindSet>, kind: Seq<char>)
    ensures
        should_propagate(sets, kind) is None <==> forall|i: int|
            0 <= i < sets.len() ==> kind_get((#[trigger] sets[i]).kinds@, kind) is None,
        should_propagate(sets, kind) == Some(true) <==> exists|i: int|
            0 <= i < sets.len() && kind_get((#[trigger] sets[i]).kinds@, kind) == Some(true),
    decreases sets.len(),
{
    if sets.len() > 0 {
        let init = sets.drop_last();
        let last = sets.len() - 1;
        law_when_plugins_come_along(init, kind);
        assert(sets[last] == sets.last());
        assert(forall|i: int| 0 <= i < last ==> #[trigger] init[i] == sets[i]);
        if should_propagate(sets, kind) is None {
            assert forall|i: int| 0 <= i < sets.len() implies kind_get(
                (#[trigger] sets[i]).kinds@,
                kind,
            ) is None by {
                if i < last {
                    assert(kind_get(init[i].kinds@, kind) is None);
                }
            }
        }
        if forall|i: int| 0 <= i < sets.len() ==> kind_get((#[trigger] sets[i]).kinds@, kind) is None {
            assert forall|i: int| 0 <= i < init.len() implies kind_get(
                (#[trigger] init[i]).kinds@,
                kind,
            ) is None by {
                assert(kind_get(sets[i].kinds@, kind) is None);
            }
        }
        if should_propagate(init, kind) == Some(true) {
            let i = choose|i: int|
                0 <= i < init.len() && kind_get((#[trigger] init[i]).kinds@, kind) == Some(true);
            assert(kind_get(sets[i].kinds@, kind) == Some(true));
        }
        if exists|i: int|
            0 <= i < sets.len() && kind_get((#[trigger] sets[i]).kinds@, kind) == Some(true) {
            let i = choose|i: int|
                0 <= i < sets.len() && kind_get((#[trigger] sets[i]).kinds@, kind) == Some(true);
            if i < last {
                assert(kind_get(init[i].kinds@, kind) == Some(true));
            }
        }
    }
}

/// A plugin that a dependency hands on and whose kind comes along is listed afterwards; a plugin
/// that was listed stays listed, in its place; and nothing else is listed.
pub proof fn law_plugins_of_a_dependency_come_along(
    list: Seq<PluginView>,
    sets: Seq<PluginKindSet>,
    from_dep: Seq<PluginView>,
    i: int,
)
    ensures
        ({
            let after = with_propagated(list, sets, from_dep);
            &&& after.len() >= list.len()
            &&& 0 <= i < list.len() ==> after[i].0 == list[i].0 && after[i].1 == list[i].1
            &&& 0 <= i < list.len() && !comes_along(sets, from_dep, list[i].0, list[i].1)
                ==> after[i] == list[i]
            &&& 0 <= i < from_dep.len() && from_dep[i].2 != PluginListElemKind::NoPropagate
                && should_propagate(sets, from_dep[i].0) is Some ==> exists|n: int|
                0 <= n < after.len() && (#[trigger] after[n]).0 == from_dep[i].0 && after[n].1
                    == from_dep[i].1 && after[n].2 == (if should_propagate(sets, from_dep[i].0)
                    == Some(true) {
                    PluginListElemKind::Propagate
                } else {
                    PluginListElemKind::NoPropagate
                })
            &&& list.len() <= i < after.len() ==> comes_along(
                sets,
                from_dep,
                after[i].0,
                after[i].1,
            )
        }),
    decreases from_dep.len(),
{
    let after = with_propagated(list, sets, from_dep);
    if from_dep.len() > 0 {
        let init = from_dep.drop_last();
        let last = from_dep.len() - 1;
        let before = with_propagated(list, sets, init);
        law_plugins_of_a_dependency_come_along(list, sets, init, i);
        let (kind, target, elem_kind) = from_dep[last];
        assert(from_dep.last() == from_dep[last]);
        assert(forall|k: int| 0 <= k < last ==> #[trigger] init[k] == from_dep[k]);
        assert forall|k: Seq<char>, t: TargetLabelView|
            comes_along(sets, init, k, t) implies #[trigger] comes_along(sets, from_dep, k, t) by {
            let n = choose|n: int|
                0 <= n < init.len() && (#[trigger] init[n]).0 == k && init[n].1 == t && init[n].2
                    != PluginListElemKind::NoPropagate;
            assert(from_dep[n].0 == k);
        }
        let goes = elem_kind != PluginListElemKind::NoPropagate && should_propagate(sets, kind)
            is Some;
        if goes {
            let on = should_propagate(sets, kind) == Some(true);
            let how = if on {
                PluginListElemKind::Propagate
            } else {
                PluginListElemKind::NoPropagate
            };
            assert(after == plugin_insert(before, kind, target, how));
            assert(from_dep[last].0 == kind);
            assert(comes_along(sets, from_dep, kind, target));
            law_plugin_is_listed_once_for_a_kind(before, kind, target, how, i);
            let n = choose|n: int| 0 <= n < after.len() && after[n] == (kind, target, how);
            assert(after[n].0 == kind);
            if before.len() <= i < after.len() {
                if n < before.len() {
                    law_plugin_is_listed_once_for_a_kind(before, kind, target, how, n);
                    assert(before[n].0 == kind && before[n].1 == target);
                    assert(false);
                }
            }
            if 0 <= i < last && from_dep[i].2 != PluginListElemKind::NoPropagate
                && should_propagate(sets, from_dep[i].0) is Some {
                let m = choose|m: int|
                    0 <= m < before.len() && (#[trigger] before[m]).0 == from_dep[i].0
                        && before[m].1 == from_dep[i].1 && before[m].2 == (if should_propagate(
                        sets,
                        from_dep[i].0,
                    ) == Some(true) {
                        PluginListElemKind::Propagate
                    } else {
                        PluginListElemKind::NoPropagate
                    });
                law_plugin_is_listed_once_for_a_kind(before, kind, target, how, m);
                if before[m].0 == kind && before[m].1 == target {
                    assert(after[n].0 == from_dep[i].0);
                } else {
                    assert(after[m] == before[m]);
                }
            }
            if list.len() <= i < before.len() {
                assert(after[i].0 == before[i].0);
            }
        } else {
            assert(after == before);
        }
    }
}

/// Among `from_dep` is the plugin, handed on, and its kind comes along.
pub open spec fn comes_along(
    sets: Seq<PluginKindSet>,
    from_dep: Seq<PluginView>,
    kind: Seq<char>,
    target: TargetLabelView,
) -> bool {
    should_propagate(sets, kind) is Some && exists|n: int|
        0 <= n < from_dep.len() && (#[trigger] from_dep[n]).0 == kind && from_dep[n].1 == target
            && from_dep[n].2 != PluginListElemKind::NoPropagate
}

/// Noting where a transition leads leaves all others as they are; the transition leads there
/// afterwards, at its old place or at the end.
pub proof fn law_transition_leads_to_one_place(
    list: Seq<(Seq<char>, Arc<TransitionApplied>)>,
    id: Seq<char>,
    applied: Arc<TransitionApplied>,
    i: int,
)
    ensures
        ({
            let after = transition_insert(list, id, applied);
            &&& after.contains((id, applied))
            &&& list.len() <= after.len() <= list.len() + 1
            &&& 0 <= i < list.len() ==> after[i].0 == list[i].0
            &&& 0 <= i < list.len() && list[i].0 != id ==> after[i] == list[i]
            &&& (exists|k: int| 0 <= k < list.len() && (#[trigger] list[k]).0 == id)
                <==> after.len() == list.len()
        }),
    decreases list.len(),
{
    let after = transition_insert(list, id, applied);
    if list.len() == 0 {
        assert(after[0] == (id, applied));
    } else if list[0].0 == id {
        assert(after[0] == (id, applied));
    } else {
        let rest = list.drop_first();
        let tail = transition_insert(rest, id, applied);
        law_transition_leads_to_one_place(rest, id, applied, i - 1);
        let n = choose|n: int| 0 <= n < tail.len() && tail[n] == (id, applied);
        assert(after[n + 1] == (id, applied));
        if exists|k: int| 0 <= k < rest.len() && (#[trigger] rest[k]).0 == id {
            let k = choose|k: int| 0 <= k < rest.len() && (#[trigger] rest[k]).0 == id;
            assert(list[k + 1].0 == id);
        }
        if exists|k: int| 0 <= k < list.len() && (#[trigger] list[k]).0 == id {
            let k = choose|k: int| 0 <= k < list.len() && (#[trigger] list[k]).0 == id;
            assert(rest[k - 1] == list[k]);
        }
        if 0 < i < list.len() {
            assert(rest[i - 1] == list[i]);
            assert(after[i] == tail[i - 1]);
        }
    }
}

/// What becomes of a dependency. One that could not be looked up is that error. One that is not
/// compatible makes the target incompatible because of it. Any other is used, unless visibility is
/// checked and it is not visible, or that cannot be told.
pub proof fn law_what_becomes_of_a_dependency(
    target: ConfiguredTargetLabel,
    dep: DepResult,
    check: CheckVisibility,
    node: Arc<ConfiguredTargetNode>,
)
    ensures
        unpacked(target, dep, check) == Unpacked::Dep(node) <==> dep.result == Ok::<
            MaybeCompatible<Arc<ConfiguredTargetNode>>,
            NodeError,
        >(MaybeCompatible::Compatible(node)) && (check == CheckVisibility::No || dep.visible == Ok::<
            bool,
            NodeError,
        >(true)),
        dep.result is Err ==> unpacked(target, dep, check) == Unpacked::Error(dep.result->Err_0),
        unpacked(target, dep, check) is Incompatible <==> dep.result is Ok
            && dep.result->Ok_0 is Incompatible,
        unpacked(target, dep, check) is Incompatible ==> unpacked(
            target,
            dep,
            check,
        )->Incompatible_0.target == target && unpacked(target, dep, check)->Incompatible_0.cause
            == IncompatiblePlatformReasonCause::Dependency(dep.result->Ok_0->Incompatible_0),
        dep.result is Ok && dep.result->Ok_0 is Compatible && check == CheckVisibility::Yes
            && dep.visible is Err ==> unpacked(target, dep, check) == Unpacked::Error(
            dep.visible->Err_0,
        ),
        dep.result is Ok && dep.result->Ok_0 is Compatible && check == CheckVisibility::Yes
            && dep.visible == Ok::<bool, NodeError>(false) ==> unpacked(target, dep, check)
            == Unpacked::Error(
            NodeError::NotVisibleTo(
                dep.result->Ok_0->Compatible_0.label.target,
                target.target,
            ),
        ),
{
}

/// An execution dependency is listed once, as it was found first; every one is listed.
pub proof fn law_execution_dependency_is_listed_once(
    deps: Seq<(ProvidersLabelView, CheckVisibility)>,
    label: ProvidersLabelView,
    check: CheckVisibility,
    i: int,
)
    ensures
        0 <= i < deps.len() ==> exec_or_insert(deps, label, check)[i] == deps[i],
        0 <= i < deps.len() && deps[i].0 == label ==> exec_or_insert(deps, label, check) == deps,
        (forall|k: int| 0 <= k < deps.len() ==> (#[trigger] deps[k]).0 != label) ==> exec_or_insert(
            deps,
            label,
            check,
        ) == deps + seq![(label, check)],
        exec_position(deps, label, i) ==> deps[i].0 == label && 0 <= i < deps.len(),
{
    assert(deps.push((label, check)) =~= deps + seq![(label, check)]);
}

} // verus!
