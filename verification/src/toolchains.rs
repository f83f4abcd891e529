//! Constraints on execution platforms, toolchains among them, and the context of errors in the
//! configured graph.
use std::sync::Arc;
use vstd::prelude::*;
use vstd::string::*;

use crate::configured;
use crate::configured::MaybeCompatible;
use crate::configured::NodeError;
use crate::configured_deps::ErrorsAndIncompatibilities;
use crate::configured_flow::TargetNodeInfo;
use crate::configured_node::GatheredDeps;
use crate::labels;
use crate::labels::ConfigurationData;
use crate::labels::ConfiguredLabelView;
use crate::labels::ConfiguredTargetLabel;
use crate::labels::TargetLabel;
use crate::text;

verus! {

/// What an execution platform has to satisfy for a toolchain to be usable there.
#[derive(Debug)]
pub struct ToolchainConstraints {
    pub exec_deps: Vec<TargetLabel>,
    pub exec_compatible_with: Vec<TargetLabel>,
    pub toolchain_allows: Vec<ToolchainConstraints>,
}

/// What an execution platform has to satisfy for a target to be built there.
#[derive(Debug)]
pub struct ExecutionPlatformConstraints {
    pub exec_deps: Vec<TargetLabel>,
    pub toolchain_deps: Vec<ConfiguredTargetLabel>,
    pub exec_compatible_with: Vec<TargetLabel>,
}

/// The search for an execution platform for a target of the given cell.
#[derive(Debug)]
pub struct PlatformRequest {
    pub cell: String,
    pub exec_compatible_with: Vec<TargetLabel>,
    pub exec_deps: Vec<TargetLabel>,
    pub toolchain_allows: Vec<ToolchainConstraints>,
}

fn clone_configured_labels(labels: &Vec<ConfiguredTargetLabel>) -> (r: Vec<ConfiguredTargetLabel>)
    ensures
        r@ == labels@,
{
    let mut r: Vec<ConfiguredTargetLabel> = Vec::new();
    let mut i: usize = 0;
    while i < labels.len()
        invariant
            i <= labels@.len(),
            r@ == labels@.take(i as int),
        decreases labels@.len() - i,
    {
        r.push(labels[i].dupe());
        i = i + 1;
        assert(r@ =~= labels@.take(i as int));
    }
    assert(r@ =~= labels@);
    r
}

fn all_labels(settings: Vec<Result<TargetLabel, String>>) -> (r: Result<Vec<TargetLabel>, String>)
    ensures
        match r {
            Ok(labels) => {
                &&& configured::all_settings(settings@)
                &&& labels@.len() == settings@.len()
                &&& forall|i: int|
                    0 <= i < labels@.len() ==> #[trigger] labels@[i] == settings@[i]->Ok_0
            },
            Err(e) => configured::bad_setting(NodeError::Other(e), settings@),
        },
{
    let ghost all = settings@;
    let mut r: Vec<TargetLabel> = Vec::new();
    for s in it: settings
        invariant
            it.seq() == all,
            r@.len() == it.index(),
            forall|i: int| 0 <= i < r@.len() ==> (#[trigger] all[i]) is Ok,
            forall|i: int| 0 <= i < r@.len() ==> #[trigger] r@[i] == all[i]->Ok_0,
    {
        assert(all[it.index() as int] == s);
        match s {
            Ok(label) => {
                r.push(label);
            },
            Err(e) => {
                return Err(e);
            },
        }
    }
    Ok(r)
}

impl ExecutionPlatformConstraints {
    pub fn new_constraints(
        exec_deps: Vec<TargetLabel>,
        toolchain_deps: Vec<ConfiguredTargetLabel>,
        exec_compatible_with: Vec<TargetLabel>,
    ) -> (r: Self)
        ensures
            r.exec_deps == exec_deps,
            r.toolchain_deps == toolchain_deps,
            r.exec_compatible_with == exec_compatible_with,
    {
        ExecutionPlatformConstraints { exec_deps, toolchain_deps, exec_compatible_with }
    }

    /// The constraints of a target: what its `exec_compatible_with` attribute asks for, and that
    /// its execution dependencies and toolchains can be used. `attr` is the configured attribute;
    /// a target may not have it.
    pub fn new(
        gathered_deps: &GatheredDeps,
        attr: Option<Result<Vec<Result<TargetLabel, String>>, NodeError>>,
    ) -> (r: Result<Self, NodeError>)
        ensures
            match attr {
                Some(Err(e)) => r matches Err(NodeError::Context(context, source)) && *source == e
                    && context@
                    == "Error configuring attribute `exec_compatible_with` to resolve execution platform"@,
                Some(Ok(settings)) if !configured::all_settings(settings@) => r
                    matches Err(NodeError::Context(context, source)) && context@
                    == "attribute `exec_compatible_with`"@ && configured::bad_setting(
                    *source,
                    settings@,
                ),
                _ => {
                    &&& r matches Ok(c)
                    &&& match attr {
                        Some(Ok(settings)) => {
                            &&& c.exec_compatible_with@.len() == settings@.len()
                            &&& forall|i: int|
                                0 <= i < settings@.len() ==> #[trigger] c.exec_compatible_with@[i]
                                    == settings@[i]->Ok_0
                        },
                        _ => c.exec_compatible_with@.len() == 0,
                    }
                    &&& c.toolchain_deps@ == gathered_deps.toolchain_deps@
                    &&& c.exec_deps@.len() == gathered_deps.exec_deps@.len()
                    &&& forall|i: int|
                        0 <= i < c.exec_deps@.len() ==> #[trigger] c.exec_deps@[i]
                            == gathered_deps.exec_deps@[i].0.target.target
                },
            },
    {
        let exec_compatible_with = match attr {
            None => Vec::new(),
            Some(Err(e)) => {
                return Err(
                    NodeError::Context(
                        "Error configuring attribute `exec_compatible_with` to resolve execution platform".to_owned(),
                        Box::new(e),
                    ),
                );
            },
            Some(Ok(settings)) => match all_labels(settings) {
                Ok(labels) => labels,
                Err(e) => {
                    return Err(
                        NodeError::Context(
                            "attribute `exec_compatible_with`".to_owned(),
                            Box::new(NodeError::Other(e)),
                        ),
                    );
                },
            },
        };
        let mut exec_deps: Vec<TargetLabel> = Vec::new();
        let mut i: usize = 0;
        while i < gathered_deps.exec_deps.len()
            invariant
                i <= gathered_deps.exec_deps@.len(),
                exec_deps@.len() == i,
                forall|k: int|
                    0 <= k < i ==> #[trigger] exec_deps@[k]
                        == gathered_deps.exec_deps@[k].0.target.target,
            decreases gathered_deps.exec_deps@.len() - i,
        {
            exec_deps.push(gathered_deps.exec_deps[i].0.target.target.dupe());
            i = i + 1;
        }
        let toolchain_deps = clone_configured_labels(&gathered_deps.toolchain_deps);
        Ok(Self::new_constraints(exec_deps, toolchain_deps, exec_compatible_with))
    }

    /// The search for an execution platform for a target of `cell`, given what the toolchains
    /// allow.
    pub fn one_for_cell(self, cell: String, toolchain_allows: Vec<ToolchainConstraints>) -> (r:
        PlatformRequest)
        ensures
            r.cell == cell,
            r.exec_compatible_with == self.exec_compatible_with,
            r.exec_deps == self.exec_deps,
            r.toolchain_allows == toolchain_allows,
    {
        PlatformRequest {
            cell,
            exec_compatible_with: self.exec_compatible_with,
            exec_deps: self.exec_deps,
            toolchain_allows,
        }
    }
}

/// What the toolchains of a target allow, in order; the first error is reported.
pub fn toolchain_allows(results: Vec<Result<ToolchainConstraints, NodeError>>) -> (r: Result<
    Vec<ToolchainConstraints>,
    NodeError,
>)
    ensures
        match r {
            Ok(allows) => {
                &&& allows@.len() == results@.len()
                &&& forall|i: int|
                    0 <= i < results@.len() ==> #[trigger] results@[i] == Ok::<
                        ToolchainConstraints,
                        NodeError,
                    >(allows@[i])
            },
            Err(e) => exists|i: int|
                0 <= i < results@.len() && #[trigger] results@[i] == Err::<
                    ToolchainConstraints,
                    NodeError,
                >(e) && forall|k: int| 0 <= k < i ==> (#[trigger] results@[k]) is Ok,
        },
{
    let ghost all = results@;
    let mut allows: Vec<ToolchainConstraints> = Vec::new();
    for x in it: results
        invariant
            it.seq() == all,
            allows@.len() == it.index(),
            forall|i: int|
                0 <= i < allows@.len() ==> #[trigger] all[i] == Ok::<
                    ToolchainConstraints,
                    NodeError,
                >(allows@[i]),
    {
        assert(all[it.index() as int] == x);
        match x {
            Ok(t) => {
                allows.push(t);
            },
            Err(e) => {
                return Err(e);
            },
        }
    }
    Ok(allows)
}

/// A toolchain may not have dependencies with transitions.
pub fn check_toolchain_node(target: &ConfiguredTargetLabel, node: &TargetNodeInfo) -> (r: Result<
    (),
    NodeError,
>)
    ensures
        r == (if node.has_transition_deps {
            Err::<(), NodeError>(NodeError::ToolchainTransitionDep(target.target))
        } else {
            Ok(())
        }),
{
    if node.has_transition_deps {
        Err(NodeError::ToolchainTransitionDep(target.target.dupe()))
    } else {
        Ok(())
    }
}

/// The constraints of a toolchain, once its dependencies have been gathered. An incompatible
/// dependency is an error here.
pub fn execution_platforms_for_toolchain(
    errors: ErrorsAndIncompatibilities,
    constraints: Result<ExecutionPlatformConstraints, NodeError>,
    toolchain_results: Vec<Result<ToolchainConstraints, NodeError>>,
) -> (r: Result<ToolchainConstraints, NodeError>)
    ensures
        if errors.incompats@.len() > 0 {
            r == Err::<ToolchainConstraints, NodeError>(
                NodeError::Incompatible(errors.incompats@.last()),
            )
        } else if errors.errs@.len() > 0 {
            r == Err::<ToolchainConstraints, NodeError>(errors.errs@.last())
        } else {
            match constraints {
                Err(e) => r == Err::<ToolchainConstraints, NodeError>(e),
                Ok(c) => match r {
                    Ok(t) => {
                        &&& t.exec_deps == c.exec_deps
                        &&& t.exec_compatible_with == c.exec_compatible_with
                        &&& t.toolchain_allows@.len() == toolchain_results@.len()
                        &&& forall|i: int|
                            0 <= i < toolchain_results@.len() ==> #[trigger] toolchain_results@[i]
                                == Ok::<ToolchainConstraints, NodeError>(t.toolchain_allows@[i])
                    },
                    Err(e) => exists|i: int|
                        0 <= i < toolchain_results@.len() && #[trigger] toolchain_results@[i]
                            == Err::<ToolchainConstraints, NodeError>(e) && forall|k: int|
                            0 <= k < i ==> (#[trigger] toolchain_results@[k]) is Ok,
                },
            }
        },
{
    match errors.finalize::<()>() {
        Some(Err(e)) => {
            return Err(e);
        },
        Some(Ok(MaybeCompatible::Incompatible(reason))) => {
            return Err(NodeError::Incompatible(reason));
        },
        Some(Ok(MaybeCompatible::Compatible(_))) => {},
        None => {},
    }
    let constraints = match constraints {
        Ok(c) => c,
        Err(e) => {
            return Err(e);
        },
    };
    match toolchain_allows(toolchain_results) {
        Err(e) => Err(e),
        Ok(allows) => Ok(
            ToolchainConstraints {
                exec_deps: constraints.exec_deps,
                exec_compatible_with: constraints.exec_compatible_with,
                toolchain_allows: allows,
            },
        ),
    }
}

/// The execution platform of a target that is used as a toolchain, given what was found for its
/// dependencies and the platform that its constraints lead to.
pub fn get_execution_platform_toolchain_dep<P>(
    target: &ConfiguredTargetLabel,
    node: &TargetNodeInfo,
    errors: ErrorsAndIncompatibilities,
    platform: Result<P, NodeError>,
) -> (r: Result<MaybeCompatible<P>, NodeError>)
    requires
        node.is_toolchain_rule,
    ensures
        r == (if node.has_transition_deps {
            Err::<MaybeCompatible<P>, NodeError>(NodeError::ToolchainTransitionDep(target.target))
        } else if errors.incompats@.len() > 0 {
            Ok(MaybeCompatible::Incompatible(errors.incompats@.last()))
        } else if errors.errs@.len() > 0 {
            Err(errors.errs@.last())
        } else {
            match platform {
                Ok(p) => Ok(MaybeCompatible::Compatible(p)),
                Err(e) => Err(e),
            }
        }),
{
    match check_toolchain_node(target, node) {
        Err(e) => {
            return Err(e);
        },
        Ok(_) => {},
    }
    match errors.finalize::<P>() {
        Some(ret) => {
            return ret;
        },
        None => {},
    }
    match platform {
        Ok(p) => Ok(MaybeCompatible::Compatible(p)),
        Err(e) => Err(e),
    }
}

/// The configurations of the platforms that a target refers to.
#[derive(Debug)]
pub struct PlatformCfgs {
    pub cfgs: Vec<(TargetLabel, ConfigurationData)>,
}

/// Where a platform is found.
pub open spec fn platform_at(
    cfgs: Seq<(TargetLabel, ConfigurationData)>,
    label: TargetLabel,
    i: int,
) -> bool {
    &&& 0 <= i < cfgs.len()
    &&& cfgs[i].0@ == label@
    &&& forall|k: int| 0 <= k < i ==> (#[trigger] cfgs[k]).0@ != label@
}

/// `after` is `before` with the configuration of a platform noted: one that is known already is
/// replaced in its place.
pub open spec fn platform_noted(
    before: Seq<(TargetLabel, ConfigurationData)>,
    label: TargetLabel,
    cfg: ConfigurationData,
    after: Seq<(TargetLabel, ConfigurationData)>,
) -> bool {
    &&& (forall|k: int| 0 <= k < before.len() ==> (#[trigger] before[k]).0@ != label@) ==> after
        == before.push((label, cfg))
    &&& forall|i: int| #[trigger]
        platform_at(before, label, i) ==> after == before.update(i, (before[i].0, cfg))
}

impl PlatformCfgs {
    pub fn new() -> (r: Self)
        ensures
            r.cfgs@ == Seq::<(TargetLabel, ConfigurationData)>::empty(),
    {
        PlatformCfgs { cfgs: Vec::new() }
    }

    fn position(&self, label: &TargetLabel) -> (r: Option<usize>)
        ensures
            match r {
                Some(i) => platform_at(self.cfgs@, *label, i as int),
                None => forall|k: int|
                    0 <= k < self.cfgs@.len() ==> (#[trigger] self.cfgs@[k]).0@ != label@,
            },
    {
        let mut i: usize = 0;
        while i < self.cfgs.len()
            invariant
                i <= self.cfgs@.len(),
                forall|k: int| 0 <= k < i ==> (#[trigger] self.cfgs@[k]).0@ != label@,
            decreases self.cfgs@.len() - i,
        {
            if self.cfgs[i].0.same_as(label) {
                return Some(i);
            }
            i = i + 1;
        }
        None
    }

    /// Notes the configuration of a platform; one that is known already is replaced.
    pub fn insert(&mut self, label: &TargetLabel, cfg: ConfigurationData)
        ensures
            platform_noted(old(self).cfgs@, *label, cfg, final(self).cfgs@),
    {
        match self.position(label) {
            Some(i) => {
                let ghost before = self.cfgs@;
                let entry = &mut self.cfgs[i];
                entry.1 = cfg;
                proof {
                    assert(self.cfgs@ =~= before.update(i as int, (before[i as int].0, cfg)));
                    assert forall|j: int| #[trigger] platform_at(before, *label, j) implies j
                        == i by {
                        if j < i {
                            assert(before[j].0@ != label@);
                        }
                        if i < j {
                            assert(before[i as int].0@ != label@);
                        }
                    }
                }
            },
            None => {
                self.cfgs.push((label.dupe(), cfg));
            },
        }
    }

    /// The configuration of a platform; an unknown one is an error.
    pub fn platform_cfg(&self, label: &TargetLabel) -> (r: Result<ConfigurationData, NodeError>)
        ensures
            match r {
                Ok(c) => exists|i: int| #[trigger]
                    platform_at(self.cfgs@, *label, i) && c == self.cfgs@[i].1,
                Err(e) => {
                    &&& e == NodeError::UnknownPlatformTarget(*label)
                    &&& forall|k: int|
                        0 <= k < self.cfgs@.len() ==> (#[trigger] self.cfgs@[k]).0@ != label@
                },
            },
    {
        match self.position(label) {
            Some(i) => {
                assert(platform_at(self.cfgs@, *label, i as int));
                Ok(self.cfgs[i].1.dupe())
            },
            None => Err(NodeError::UnknownPlatformTarget(label.dupe())),
        }
    }
}

/// The nodes that were being looked up when an error occurred, the outermost first.
#[derive(Debug)]
pub struct LookingUpConfiguredNodeContext {
    pub target: ConfiguredTargetLabel,
    pub len: usize,
    pub rest: Option<Arc<LookingUpConfiguredNodeContext>>,
}

/// The labels in the chain of a context.
pub open spec fn chain(c: LookingUpConfiguredNodeContext) -> Seq<ConfiguredLabelView>
    decreases c,
{
    match c.rest {
        Some(rest) => seq![c.target@] + chain(*rest),
        None => seq![c.target@],
    }
}

/// The line of one label in a chain; its configuration is not repeated where it is that of the
/// one before.
pub open spec fn chain_line(l: ConfiguredLabelView, first: bool, same_cfg: bool) -> Seq<char> {
    "    "@ + (if first {
        "   "@
    } else {
        "-> "@
    }) + labels::target_label_text(l.target) + " ("@ + (if same_cfg {
        "^"@
    } else {
        labels::configuration_text(l.cfg)
    }) + ")\n"@
}

/// The lines of the first `n` labels of a chain.
pub open spec fn chain_lines(labels: Seq<ConfiguredLabelView>, n: nat) -> Seq<char>
    decreases n,
{
    if n == 0 {
        Seq::empty()
    } else {
        let i = n - 1;
        chain_lines(labels, i as nat) + chain_line(
            labels[i],
            i == 0,
            i > 0 && labels[i].cfg == labels[i - 1].cfg,
        )
    }
}

/// How a context is shown.
pub open spec fn context_text(labels: Seq<ConfiguredLabelView>) -> Seq<char> {
    if labels.len() == 1 {
        "Error looking up configured node "@ + labels::configured_label_text(labels[0])
    } else {
        "Error in configured node dependency, dependency chain follows (-> indicates depends on, ^ indicates same configuration as previous):\n"@
            + chain_lines(labels, labels.len())
    }
}

impl LookingUpConfiguredNodeContext {
    /// The length is that of the chain.
    pub open spec fn wf(&self) -> bool {
        self.len == chain(*self).len()
    }

    /// The context of `target`, for the sake of which `parent` was looked up.
    pub fn new(
        target: ConfiguredTargetLabel,
        parent: Option<Arc<LookingUpConfiguredNodeContext>>,
    ) -> (r: Self)
        requires
            parent matches Some(p) ==> p.wf() && p.len < usize::MAX,
        ensures
            r.wf(),
            chain(r) == (match parent {
                Some(p) => seq![target@] + chain(*p),
                None => seq![target@],
            }),
    {
        match parent {
            Some(p) => LookingUpConfiguredNodeContext { target, len: p.len + 1, rest: Some(p) },
            None => LookingUpConfiguredNodeContext { target, len: 1, rest: None },
        }
    }

    /// Says of an error that it occurred while `target` was being looked up. An error that has
    /// such a context has its chain extended.
    pub fn add_context<T, E>(
        res: Result<T, (E, Option<Arc<LookingUpConfiguredNodeContext>>)>,
        target: ConfiguredTargetLabel,
    ) -> (r: Result<T, (E, Arc<LookingUpConfiguredNodeContext>)>)
        requires
            res matches Err((_, Some(p))) ==> p.wf() && p.len < usize::MAX,
        ensures
            match res {
                Ok(v) => r == Ok::<T, (E, Arc<LookingUpConfiguredNodeContext>)>(v),
                Err((e, parent)) => {
                    &&& r matches Err((e2, c))
                    &&& e2 == e
                    &&& c.wf()
                    &&& chain(*c) == (match parent {
                        Some(p) => seq![target@] + chain(*p),
                        None => seq![target@],
                    })
                },
            },
    {
        match res {
            Ok(v) => Ok(v),
            Err((e, parent)) => Err(
                (e, Arc::new(LookingUpConfiguredNodeContext::new(target, parent))),
            ),
        }
    }

    /// The context as shown.
    pub fn display(&self) -> (r: String)
        requires
            self.wf(),
        ensures
            r@ == context_text(chain(*self)),
    {
        if self.len == 1 {
            let shown = self.target.display();
            proof {
                match &self.rest {
                    Some(rest) => {
                        lemma_chain_nonempty(&**rest);
                    },
                    None => {},
                }
                assert(chain(*self)[0] == self.target@);
            }
            return text::concat2("Error looking up configured node ", shown.as_str());
        }
        let ghost all = chain(*self);
        let mut out =
            "Error in configured node dependency, dependency chain follows (-> indicates depends on, ^ indicates same configuration as previous):\n".to_owned();
        let ghost head = out@;
        let mut curr: &LookingUpConfiguredNodeContext = self;
        let mut prev: Option<&LookingUpConfiguredNodeContext> = None;
        let ghost mut n: nat = 0;
        proof {
            assert(all.skip(0) =~= all);
            assert(head + chain_lines(all, 0) =~= head);
        }
        loop
            invariant_except_break
                n < all.len(),
                chain(*curr) == all.skip(n as int),
                n == 0 <==> prev is None,
                prev matches Some(p) ==> p.target@ == all[n - 1],
                out@ == head + chain_lines(all, n),
            ensures
                out@ == head + chain_lines(all, all.len()),
            decreases *curr,
        {
            proof {
                assert(chain(*curr)[0] == curr.target@);
                assert(all[n as int] == curr.target@);
            }
            let ghost before = out@;
            out.append("    ");
            let same_cfg = match prev {
                None => {
                    out.append("   ");
                    false
                },
                Some(p) => {
                    out.append("-> ");
                    curr.target.cfg.same_as(&p.target.cfg)
                },
            };
            let shown = curr.target.target.display();
            out.append(shown.as_str());
            out.append(" (");
            if same_cfg {
                out.append("^");
            } else {
                let cfg = curr.target.cfg.display();
                out.append(cfg.as_str());
            }
            out.append(")\n");
            proof {
                let line = chain_line(
                    all[n as int],
                    n == 0,
                    n > 0 && all[n as int].cfg == all[n - 1].cfg,
                );
                assert(out@ =~= before + line);
                assert(chain_lines(all, n + 1) == chain_lines(all, n) + line);
                assert(out@ =~= head + chain_lines(all, n + 1));
            }
            prev = Some(curr);
            match &curr.rest {
                Some(rest) => {
                    proof {
                        lemma_chain_nonempty(&**rest);
                        assert(chain(**rest) =~= chain(*curr).skip(1));
                        assert(all.skip(n as int).skip(1) =~= all.skip((n + 1) as int));
                        n = n + 1;
                    }
                    curr = &**rest;
                },
                None => {
                    proof {
                        assert(all.skip(n as int).len() == 1);
                    }
                    break;
                },
            }
        }
        out
    }
}

proof fn lemma_chain_nonempty(c: &LookingUpConfiguredNodeContext)
    ensures
        chain(*c).len() >= 1,
    decreases c,
{
}

/// Once the configuration of a platform is noted, it is what is found for that platform; what is
/// found for any other platform stays.
pub proof fn law_noted_platform_is_found(
    before: Seq<(TargetLabel, ConfigurationData)>,
    label: TargetLabel,
    cfg: ConfigurationData,
    after: Seq<(TargetLabel, ConfigurationData)>,
    other: TargetLabel,
    j: int,
)
    requires
        platform_noted(before, label, cfg, after),
    ensures
        exists|i: int| #[trigger] platform_at(after, label, i) && after[i].1 == cfg,
        other@ != label@ && platform_at(before, other, j) ==> platform_at(after, other, j)
            && after[j] == before[j],
        other@ != label@ && platform_at(after, other, j) ==> platform_at(before, other, j),
{
    if forall|k: int| 0 <= k < before.len() ==> (#[trigger] before[k]).0@ != label@ {
        assert(platform_at(after, label, before.len() as int));
    } else {
        lemma_platform_position(before, label);
        let i = choose|i: int| #[trigger] platform_at(before, label, i);
        assert(after == before.update(i, (before[i].0, cfg)));
        assert(forall|k: int| 0 <= k < before.len() ==> (#[trigger] after[k]).0 == before[k].0);
        assert(platform_at(after, label, i));
    }
    if platform_at(after, other, j) && other@ != label@ {
        assert forall|k: int| 0 <= k < j implies (#[trigger] before[k]).0@ != other@ by {
            assert(after[k].0@ != other@);
        }
    }
}

proof fn lemma_platform_position(cfgs: Seq<(TargetLabel, ConfigurationData)>, label: TargetLabel)
    requires
        exists|k: int| 0 <= k < cfgs.len() && (#[trigger] cfgs[k]).0@ == label@,
    ensures
        exists|i: int| #[trigger] platform_at(cfgs, label, i),
    decreases cfgs.len(),
{
    let init = cfgs.drop_last();
    let k = choose|k: int| 0 <= k < cfgs.len() && (#[trigger] cfgs[k]).0@ == label@;
    if exists|n: int| 0 <= n < init.len() && (#[trigger] init[n]).0@ == label@ {
        lemma_platform_position(init, label);
        let i = choose|i: int| #[trigger] platform_at(init, label, i);
        assert(cfgs[i] == init[i]);
        assert forall|m: int| 0 <= m < i implies (#[trigger] cfgs[m]).0@ != label@ by {
            assert(init[m] == cfgs[m]);
        }
        assert(platform_at(cfgs, label, i));
    } else {
        assert forall|m: int| 0 <= m < k implies (#[trigger] cfgs[m]).0@ != label@ by {
            assert(init[m] == cfgs[m]);
        }
        assert(platform_at(cfgs, label, k));
    }
}

/// The lines of a dependency chain: one for each label, in order; the first is indented, the others
/// follow an arrow; and a configuration that is the same as the one before is shown as such.
pub proof fn law_every_label_of_a_chain_is_shown(labels: Seq<ConfiguredLabelView>, i: int)
    requires
        0 <= i < labels.len(),
    ensures
        chain_lines(labels, 0).len() == 0,
        chain_lines(labels, (i + 1) as nat) == chain_lines(labels, i as nat) + ("    "@ + (if i
            == 0 {
            "   "@
        } else {
            "-> "@
        }) + labels::target_label_text(labels[i].target) + " ("@ + (if i > 0 && labels[i].cfg
            == labels[i - 1].cfg {
            "^"@
        } else {
            labels::configuration_text(labels[i].cfg)
        }) + ")\n"@),
{
}

/// A context lists the label that failed first, then all labels for the sake of which it was looked
/// up.
pub proof fn law_context_lists_all_labels(c: LookingUpConfiguredNodeContext, i: int)
    ensures
        chain(c).len() > 0,
        chain(c)[0] == c.target@,
        c.rest is None ==> chain(c).len() == 1,
        c.rest is Some ==> chain(c).len() == chain(*c.rest->0).len() + 1,
        c.rest is Some && 0 <= i < chain(*c.rest->0).len() ==> chain(c)[i + 1] == chain(
            *c.rest->0,
        )[i],
{
}

} // verus!
