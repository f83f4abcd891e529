//! The analysis of an anonymous target, step by step.
//!
//! Each step asks for one thing that only the interpreter or the rest of the build can do, and is
//! told what came of it.
use std::sync::Arc;
use vstd::prelude::*;
use vstd::string::*;

use crate::action_key::BaseDeferredKey;
use crate::analysis::AnalysisResult;
use crate::analysis::DeferredTable;
use crate::analysis::PromiseArtifactId;
use crate::analysis::ProviderCollection;
use crate::anon_targets::PromiseArtifactResolveError;
use crate::anon_targets::PromiseOutcome;
use crate::anon_targets;
use crate::configured::ExecutionPlatform;
use crate::configured_node::ExecutionPlatformResolution;
use crate::labels::ConfigurationData;
use crate::text;

verus! {

/// The target that is analysed.
pub struct AnonSubject {
    /// How the target is shown.
    pub target: String,
    pub rule_type: String,
    /// The configuration of the execution platform of the parent.
    pub exec_cfg: ConfigurationData,
    /// How many attributes the target has.
    pub attrs: usize,
}

/// An analysis begins.
#[derive(Debug)]
pub struct AnalysisStart {
    pub target: String,
    pub rule: String,
}

/// An analysis has ended.
#[derive(Debug)]
pub struct AnalysisEnd {
    pub target: String,
    pub rule: String,
    /// Anonymous targets are not profiled.
    pub profile: Option<String>,
    pub declared_actions: Option<u64>,
    pub declared_artifacts: Option<u64>,
}

/// Why an analysis failed.
#[derive(Debug)]
pub enum AnonAnalysisError {
    /// What was asked for failed.
    Failed(String),
    Promise(PromiseArtifactResolveError),
}

/// How far an analysis is. Values of attributes are of type `V`, artifacts of type `T`.
pub enum AnonStage<V, T> {
    Dependents,
    DependentAnalyses,
    Platform,
    RuleSpec(ExecutionPlatformResolution),
    Evaluator,
    /// These attributes have been resolved, in order.
    Attrs(Vec<V>),
    Rule,
    Promises,
    Providers,
    Mappings,
    /// So many functions are to be evaluated, and these gave their artifacts.
    Fulfil(usize, Vec<(PromiseArtifactId, Arc<T>)>),
    Finalize(Vec<(PromiseArtifactId, Arc<T>)>),
    Done,
}

/// What came of what was asked for.
pub enum AnonEvent<V, T, P, D> {
    Settled(Result<(), String>),
    Platform(Result<ExecutionPlatform, String>),
    Attr(Result<V, String>),
    /// How many artifacts the rule promises.
    Mappings(Result<usize, String>),
    Mapping(PromiseOutcome<T>),
    Finalized {
        declared_actions: u64,
        declared_artifacts: u64,
        result: Result<(ProviderCollection<P>, DeferredTable<D>), String>,
    },
}

/// What is asked for next.
pub enum AnonRequest<V, T, P, D, F> {
    /// Find what the attributes depend on.
    GetDependents,
    /// Analyse what the attributes depend on.
    GetAnalyses,
    /// Find the execution platform with this configuration.
    FindPlatform(ConfigurationData),
    /// Find the implementation of a rule.
    GetRuleSpec(String),
    /// Report the start, and make an evaluator under a name, for an execution platform.
    Begin { start: AnalysisStart, name: String, exec_resolution: ExecutionPlatformResolution },
    /// Resolve attribute number so-and-so.
    ResolveAttr(usize),
    /// Call the implementation with the values of the attributes, and no plugins.
    Invoke(Vec<V>),
    /// Run the promises that the implementation made, under a name.
    RunPromises(String),
    /// Take what the implementation returned as providers.
    TakeProviders,
    /// List the functions of the promised artifacts.
    ListMappings,
    /// Call function number so-and-so on the providers.
    EvaluateMapping(usize),
    /// Freeze what was declared.
    Freeze,
    /// Report the end, if the start was reported, and hand out the result.
    Finish {
        result: Result<AnalysisResult<P, D, F, T>, AnonAnalysisError>,
        end: Option<AnalysisEnd>,
    },
}

/// An event that can come at a stage.
pub open spec fn answers<V, T, P, D>(
    stage: AnonStage<V, T>,
    event: AnonEvent<V, T, P, D>,
) -> bool {
    match stage {
        AnonStage::Platform => event is Platform,
        AnonStage::Attrs(_) => event is Attr,
        AnonStage::Mappings => event is Mappings,
        AnonStage::Fulfil(_, _) => event is Mapping,
        AnonStage::Finalize(_) => event is Finalized,
        AnonStage::Done => false,
        _ => event is Settled,
    }
}

/// The start of the analysis has been reported.
pub open spec fn has_begun<V, T>(stage: AnonStage<V, T>) -> bool {
    match stage {
        AnonStage::Dependents => false,
        AnonStage::DependentAnalyses => false,
        AnonStage::Platform => false,
        AnonStage::RuleSpec(_) => false,
        _ => true,
    }
}

/// The event for the end of an analysis that declared so much.
pub open spec fn end_of(
    subject: AnonSubject,
    declared_actions: Option<u64>,
    declared_artifacts: Option<u64>,
) -> AnalysisEnd {
    AnalysisEnd {
        target: subject.target,
        rule: subject.rule_type,
        profile: None,
        declared_actions,
        declared_artifacts,
    }
}

/// The analysis ends with an error; the end is reported if the start was.
pub open spec fn ends_with<V, T, P, D, F>(
    subject: AnonSubject,
    begun: bool,
    e: AnonAnalysisError,
    next: AnonStage<V, T>,
    request: AnonRequest<V, T, P, D, F>,
) -> bool {
    &&& next is Done
    &&& request is Finish
    &&& request->result == Err::<AnalysisResult<P, D, F, T>, AnonAnalysisError>(e)
    &&& request->end == (if begun {
        Some(end_of(subject, None, None))
    } else {
        None
    })
}

/// After the attributes `values`, the next is resolved, or the rule is called.
pub open spec fn goes_on_resolving<V, T, P, D, F>(
    subject: AnonSubject,
    values: Seq<V>,
    next: AnonStage<V, T>,
    request: AnonRequest<V, T, P, D, F>,
) -> bool {
    if values.len() < subject.attrs {
        &&& next matches AnonStage::Attrs(v)
        &&& v@ == values
        &&& request == AnonRequest::<V, T, P, D, F>::ResolveAttr(values.len() as usize)
    } else {
        &&& next is Rule
        &&& request matches AnonRequest::Invoke(v)
        &&& v@ == values
    }
}

/// After the artifacts `map`, the next function of `count` is called, or all is frozen.
pub open spec fn goes_on_fulfilling<V, T, P, D, F>(
    count: usize,
    map: Seq<(PromiseArtifactId, Arc<T>)>,
    next: AnonStage<V, T>,
    request: AnonRequest<V, T, P, D, F>,
) -> bool {
    if map.len() < count {
        &&& next matches AnonStage::Fulfil(n, m)
        &&& n == count
        &&& m@ == map
        &&& request == AnonRequest::<V, T, P, D, F>::EvaluateMapping(map.len() as usize)
    } else {
        &&& next matches AnonStage::Finalize(m)
        &&& m@ == map
        &&& request is Freeze
    }
}

/// The stage and the request that follow an event.
pub open spec fn follows<V, T, P, D, F>(
    subject: AnonSubject,
    stage: AnonStage<V, T>,
    event: AnonEvent<V, T, P, D>,
    next: AnonStage<V, T>,
    request: AnonRequest<V, T, P, D, F>,
) -> bool {
    let begun = has_begun(stage);
    match (stage, event) {
        (_, AnonEvent::Settled(Err(e))) => ends_with(
            subject,
            begun,
            AnonAnalysisError::Failed(e),
            next,
            request,
        ),
        (AnonStage::Dependents, _) => next is DependentAnalyses && request is GetAnalyses,
        (AnonStage::DependentAnalyses, _) => next is Platform && request == AnonRequest::<
            V,
            T,
            P,
            D,
            F,
        >::FindPlatform(subject.exec_cfg),
        (AnonStage::Platform, AnonEvent::Platform(Ok(p))) => {
            &&& next == AnonStage::<V, T>::RuleSpec(
                ExecutionPlatformResolution { platform: Some(p) },
            )
            &&& request == AnonRequest::<V, T, P, D, F>::GetRuleSpec(subject.rule_type)
        },
        (AnonStage::Platform, AnonEvent::Platform(Err(e))) => ends_with(
            subject,
            begun,
            AnonAnalysisError::Failed(e),
            next,
            request,
        ),
        (AnonStage::RuleSpec(resolution), _) => {
            &&& next is Evaluator
            &&& request matches AnonRequest::Begin { start, name, exec_resolution }
            &&& start == (AnalysisStart { target: subject.target, rule: subject.rule_type })
            &&& name@ == "anon_analysis:"@ + subject.target@
            &&& exec_resolution == resolution
        },
        (AnonStage::Evaluator, _) => goes_on_resolving(subject, Seq::empty(), next, request),
        (AnonStage::Attrs(values), AnonEvent::Attr(Ok(v))) => goes_on_resolving(
            subject,
            values@.push(v),
            next,
            request,
        ),
        (AnonStage::Attrs(_), AnonEvent::Attr(Err(e))) => ends_with(
            subject,
            begun,
            AnonAnalysisError::Failed(e),
            next,
            request,
        ),
        (AnonStage::Rule, _) => {
            &&& next is Promises
            &&& request matches AnonRequest::RunPromises(name)
            &&& name@ == "anon_analysis$promises:"@ + subject.target@
        },
        (AnonStage::Promises, _) => next is Providers && request is TakeProviders,
        (AnonStage::Providers, _) => next is Mappings && request is ListMappings,
        (AnonStage::Mappings, AnonEvent::Mappings(Ok(count))) => goes_on_fulfilling(
            count,
            Seq::empty(),
            next,
            request,
        ),
        (AnonStage::Mappings, AnonEvent::Mappings(Err(e))) => ends_with(
            subject,
            begun,
            AnonAnalysisError::Failed(e),
            next,
            request,
        ),
        (AnonStage::Fulfil(count, map), AnonEvent::Mapping(outcome)) => match outcome {
            PromiseOutcome::Artifact(artifact) => {
                let id = PromiseArtifactId {
                    owner: BaseDeferredKey::AnonTarget(subject.target),
                    id: map@.len() as usize,
                };
                goes_on_fulfilling(count, map@.push((id, artifact)), next, request)
            },
            _ => ends_with(
                subject,
                begun,
                AnonAnalysisError::Promise(anon_targets::outcome_error(outcome)),
                next,
                request,
            ),
        },
        (
            AnonStage::Finalize(map),
            AnonEvent::Finalized { declared_actions, declared_artifacts, result },
        ) => match result {
            Ok((providers, deferred)) => {
                &&& next is Done
                &&& request is Finish
                &&& request->result == Ok::<AnalysisResult<P, D, F, T>, AnonAnalysisError>(
                    AnalysisResult {
                        provider_collection: providers,
                        deferred,
                        profile_data: None,
                        promise_artifact_map: map,
                        num_declared_actions: declared_actions,
                        num_declared_artifacts: declared_artifacts,
                    },
                )
                &&& request->end == Some(
                    end_of(subject, Some(declared_actions), Some(declared_artifacts)),
                )
            },
            Err(e) => ends_with(subject, begun, AnonAnalysisError::Failed(e), next, request),
        },
        _ => true,
    }
}

/// The event for the end of an analysis.
fn end_event(
    subject: &AnonSubject,
    declared_actions: Option<u64>,
    declared_artifacts: Option<u64>,
) -> (r: AnalysisEnd)
    ensures
        r == end_of(*subject, declared_actions, declared_artifacts),
{
    AnalysisEnd {
        target: subject.target.clone(),
        rule: subject.rule_type.clone(),
        profile: None,
        declared_actions,
        declared_artifacts,
    }
}

fn end_with<V, T, P, D, F>(subject: &AnonSubject, begun: bool, e: AnonAnalysisError) -> (r: (
    AnonStage<V, T>,
    AnonRequest<V, T, P, D, F>,
))
    ensures
        ends_with(*subject, begun, e, r.0, r.1),
{
    let end = if begun {
        Some(end_event(subject, None, None))
    } else {
        None
    };
    (AnonStage::Done, AnonRequest::Finish { result: Err(e), end })
}

fn go_on_resolving<V, T, P, D, F>(subject: &AnonSubject, values: Vec<V>) -> (r: (
    AnonStage<V, T>,
    AnonRequest<V, T, P, D, F>,
))
    ensures
        goes_on_resolving(*subject, values@, r.0, r.1),
{
    let n: usize = values.len();
    if n < subject.attrs {
        (AnonStage::Attrs(values), AnonRequest::ResolveAttr(n))
    } else {
        (AnonStage::Rule, AnonRequest::Invoke(values))
    }
}

fn go_on_fulfilling<V, T, P, D, F>(count: usize, map: Vec<(PromiseArtifactId, Arc<T>)>) -> (r: (
    AnonStage<V, T>,
    AnonRequest<V, T, P, D, F>,
))
    ensures
        goes_on_fulfilling(count, map@, r.0, r.1),
{
    let n: usize = map.len();
    if n < count {
        (AnonStage::Fulfil(count, map), AnonRequest::EvaluateMapping(n))
    } else {
        (AnonStage::Finalize(map), AnonRequest::Freeze)
    }
}

/// The first stage of an analysis, and what is asked for first.
pub fn start_analysis<V, T, P, D, F>() -> (r: (AnonStage<V, T>, AnonRequest<V, T, P, D, F>))
    ensures
        r.0 is Dependents,
        r.1 is GetDependents,
{
    (AnonStage::Dependents, AnonRequest::GetDependents)
}

/// What follows an event.
pub fn step_analysis<V, T, P, D, F>(
    subject: &AnonSubject,
    stage: AnonStage<V, T>,
    event: AnonEvent<V, T, P, D>,
) -> (r: (AnonStage<V, T>, AnonRequest<V, T, P, D, F>))
    requires
        answers(stage, event),
    ensures
        follows(*subject, stage, event, r.0, r.1),
{
    match (stage, event) {
        (AnonStage::Dependents, AnonEvent::Settled(Ok(_))) => (
            AnonStage::DependentAnalyses,
            AnonRequest::GetAnalyses,
        ),
        (AnonStage::DependentAnalyses, AnonEvent::Settled(Ok(_))) => (
            AnonStage::Platform,
            AnonRequest::FindPlatform(subject.exec_cfg.dupe()),
        ),
        (AnonStage::Platform, AnonEvent::Platform(Ok(p))) => (
            AnonStage::RuleSpec(ExecutionPlatformResolution { platform: Some(p) }),
            AnonRequest::GetRuleSpec(subject.rule_type.clone()),
        ),
        (AnonStage::Platform, AnonEvent::Platform(Err(e))) => end_with(
            subject,
            false,
            AnonAnalysisError::Failed(e),
        ),
        (AnonStage::RuleSpec(exec_resolution), AnonEvent::Settled(Ok(_))) => {
            let start = AnalysisStart {
                target: subject.target.clone(),
                rule: subject.rule_type.clone(),
            };
            let name = text::concat2("anon_analysis:", subject.target.as_str());
            (AnonStage::Evaluator, AnonRequest::Begin { start, name, exec_resolution })
        },
        (AnonStage::Evaluator, AnonEvent::Settled(Ok(_))) => go_on_resolving(subject, Vec::new()),
        (AnonStage::Attrs(values), AnonEvent::Attr(Ok(v))) => {
            let mut values = values;
            values.push(v);
            go_on_resolving(subject, values)
        },
        (AnonStage::Attrs(_), AnonEvent::Attr(Err(e))) => end_with(
            subject,
            true,
            AnonAnalysisError::Failed(e),
        ),
        (AnonStage::Rule, AnonEvent::Settled(Ok(_))) => (
            AnonStage::Promises,
            AnonRequest::RunPromises(
                text::concat2("anon_analysis$promises:", subject.target.as_str()),
            ),
        ),
        (AnonStage::Promises, AnonEvent::Settled(Ok(_))) => (
            AnonStage::Providers,
            AnonRequest::TakeProviders,
        ),
        (AnonStage::Providers, AnonEvent::Settled(Ok(_))) => (
            AnonStage::Mappings,
            AnonRequest::ListMappings,
        ),
        (AnonStage::Mappings, AnonEvent::Mappings(Ok(count))) => go_on_fulfilling(
            count,
            Vec::new(),
        ),
        (AnonStage::Mappings, AnonEvent::Mappings(Err(e))) => end_with(
            subject,
            true,
            AnonAnalysisError::Failed(e),
        ),
        (AnonStage::Fulfil(count, map), AnonEvent::Mapping(outcome)) => match outcome {
            PromiseOutcome::Artifact(artifact) => {
                let mut map = map;
                let id = PromiseArtifactId::new(
                    BaseDeferredKey::AnonTarget(subject.target.clone()),
                    map.len(),
                );
                map.push((id, artifact));
                go_on_fulfilling(count, map)
            },
            PromiseOutcome::Failed(e) => end_with(
                subject,
                true,
                AnonAnalysisError::Promise(PromiseArtifactResolveError::Evaluation(e)),
            ),
            PromiseOutcome::NotAnArtifact(repr) => end_with(
                subject,
                true,
                AnonAnalysisError::Promise(PromiseArtifactResolveError::NotAnArtifact(repr)),
            ),
        },
        (
            AnonStage::Finalize(map),
            AnonEvent::Finalized { declared_actions, declared_artifacts, result },
        ) => match result {
            Ok((providers, deferred)) => {
                let end = end_event(subject, Some(declared_actions), Some(declared_artifacts));
                let result = AnalysisResult::new(
                    providers,
                    deferred,
                    None,
                    map,
                    declared_actions,
                    declared_artifacts,
                );
                (AnonStage::Done, AnonRequest::Finish { result: Ok(result), end: Some(end) })
            },
            Err(e) => end_with(subject, true, AnonAnalysisError::Failed(e)),
        },
        (stage, AnonEvent::Settled(Err(e))) => {
            let begun = !matches!(
                stage,
                AnonStage::Dependents | AnonStage::DependentAnalyses | AnonStage::Platform
                    | AnonStage::RuleSpec(_)
            );
            end_with(subject, begun, AnonAnalysisError::Failed(e))
        },
        (_, _) => (AnonStage::Done, AnonRequest::GetDependents),
    }
}

/// The end of an analysis is reported exactly where its start was, and it says how much was
/// declared exactly where the analysis succeeded.
pub proof fn law_end_is_reported_with_start<V, T, P, D, F>(
    subject: AnonSubject,
    stage: AnonStage<V, T>,
    event: AnonEvent<V, T, P, D>,
    next: AnonStage<V, T>,
    request: AnonRequest<V, T, P, D, F>,
)
    requires
        answers(stage, event),
        follows(subject, stage, event, next, request),
    ensures
        request is Finish ==> {
            &&& request->end is Some <==> has_begun(stage)
            &&& request->end matches Some(end) ==> {
                &&& end.declared_actions is Some <==> request->result is Ok
                &&& end.declared_artifacts is Some <==> request->result is Ok
            }
        },
        request is Finish ==> request->result is Ok ==> has_begun(stage),
        !(request is Finish) ==> (has_begun(next) <==> (has_begun(stage) || request is Begin)),
{
}

/// The artifacts of an analysis are those that the functions of the rule gave, numbered in order.
pub proof fn law_promises_are_numbered_in_order<V, T, P, D, F>(
    subject: AnonSubject,
    count: usize,
    map: Vec<(PromiseArtifactId, Arc<T>)>,
    artifact: Arc<T>,
    next: AnonStage<V, T>,
    request: AnonRequest<V, T, P, D, F>,
)
    requires
        follows(
            subject,
            AnonStage::Fulfil(count, map),
            AnonEvent::<V, T, P, D>::Mapping(PromiseOutcome::Artifact(artifact)),
            next,
            request,
        ),
        forall|k: int|
            0 <= k < map@.len() ==> (#[trigger] map@[k]).0 == (PromiseArtifactId {
                owner: BaseDeferredKey::AnonTarget(subject.target),
                id: k as usize,
            }),
    ensures
        ({
            let after = match next {
                AnonStage::Fulfil(_, m) => m@,
                AnonStage::Finalize(m) => m@,
                _ => Seq::empty(),
            };
            &&& after.len() == map@.len() + 1
            &&& after.last().1 == artifact
            &&& forall|k: int|
                0 <= k < after.len() ==> (#[trigger] after[k]).0 == (PromiseArtifactId {
                    owner: BaseDeferredKey::AnonTarget(subject.target),
                    id: k as usize,
                })
        }),
{
}

/// Before an anonymous target is analysed, what it depends on is, and its platform and rule are
/// found, in this order; only then the analysis begins, on that platform and under the name of the
/// target.
pub proof fn law_what_comes_before_an_analysis<V, T, P, D, F>(
    subject: AnonSubject,
    p: ExecutionPlatform,
    resolution: ExecutionPlatformResolution,
    next: AnonStage<V, T>,
    request: AnonRequest<V, T, P, D, F>,
)
    ensures
        follows(
            subject,
            AnonStage::Dependents,
            AnonEvent::<V, T, P, D>::Settled(Ok(())),
            next,
            request,
        ) ==> next is DependentAnalyses && request is GetAnalyses,
        follows(
            subject,
            AnonStage::DependentAnalyses,
            AnonEvent::<V, T, P, D>::Settled(Ok(())),
            next,
            request,
        ) ==> next is Platform && request is FindPlatform && request->FindPlatform_0
            == subject.exec_cfg,
        follows(
            subject,
            AnonStage::Platform,
            AnonEvent::<V, T, P, D>::Platform(Ok(p)),
            next,
            request,
        ) ==> next is RuleSpec && next->RuleSpec_0.platform == Some(p) && request is GetRuleSpec
            && request->GetRuleSpec_0 == subject.rule_type,
        follows(
            subject,
            AnonStage::RuleSpec(resolution),
            AnonEvent::<V, T, P, D>::Settled(Ok(())),
            next,
            request,
        ) ==> {
            &&& next is Evaluator
            &&& request is Begin
            &&& request->start.target == subject.target
            &&& request->start.rule == subject.rule_type
            &&& request->name@ == "anon_analysis:"@ + subject.target@
            &&& request->exec_resolution == resolution
        },
{
}

/// Every attribute is resolved, one after another, and the rule is called with all their values in
/// order.
pub proof fn law_every_attribute_is_resolved<V, T, P, D, F>(
    subject: AnonSubject,
    values: Vec<V>,
    v: V,
    next: AnonStage<V, T>,
    request: AnonRequest<V, T, P, D, F>,
)
    ensures
        follows(
            subject,
            AnonStage::Evaluator,
            AnonEvent::<V, T, P, D>::Settled(Ok(())),
            next,
            request,
        ) ==> if subject.attrs == 0 {
            next is Rule && request is Invoke && request->Invoke_0@.len() == 0
        } else {
            next is Attrs && next->Attrs_0@.len() == 0 && request is ResolveAttr
                && request->ResolveAttr_0 == 0
        },
        values@.len() + 1 < subject.attrs && follows(
            subject,
            AnonStage::Attrs(values),
            AnonEvent::<V, T, P, D>::Attr(Ok(v)),
            next,
            request,
        ) ==> next is Attrs && next->Attrs_0@ == values@ + seq![v] && request is ResolveAttr
            && request->ResolveAttr_0 == values@.len() + 1,
        values@.len() + 1 >= subject.attrs && follows(
            subject,
            AnonStage::Attrs(values),
            AnonEvent::<V, T, P, D>::Attr(Ok(v)),
            next,
            request,
        ) ==> next is Rule && request is Invoke && request->Invoke_0@ == values@ + seq![v],
{
    assert(values@.push(v) =~= values@ + seq![v]);
}

/// After the rule its promises run, then the providers are taken and the artifacts that were
/// promised are found, all of them, before everything is frozen.
pub proof fn law_what_comes_after_the_rule<V, T, P, D, F>(
    subject: AnonSubject,
    count: usize,
    map: Vec<(PromiseArtifactId, Arc<T>)>,
    artifact: Arc<T>,
    next: AnonStage<V, T>,
    request: AnonRequest<V, T, P, D, F>,
)
    ensures
        follows(
            subject,
            AnonStage::Rule,
            AnonEvent::<V, T, P, D>::Settled(Ok(())),
            next,
            request,
        ) ==> next is Promises && request is RunPromises && request->RunPromises_0@
            == "anon_analysis$promises:"@ + subject.target@,
        follows(
            subject,
            AnonStage::Promises,
            AnonEvent::<V, T, P, D>::Settled(Ok(())),
            next,
            request,
        ) ==> next is Providers && request is TakeProviders,
        follows(
            subject,
            AnonStage::Providers,
            AnonEvent::<V, T, P, D>::Settled(Ok(())),
            next,
            request,
        ) ==> next is Mappings && request is ListMappings,
        follows(
            subject,
            AnonStage::Mappings,
            AnonEvent::<V, T, P, D>::Mappings(Ok(count)),
            next,
            request,
        ) ==> if count == 0 {
            next is Finalize && request is Freeze
        } else {
            next is Fulfil && next->Fulfil_0 == count && next->Fulfil_1@.len() == 0
                && request is EvaluateMapping && request->EvaluateMapping_0 == 0
        },
        follows(
            subject,
            AnonStage::Fulfil(count, map),
            AnonEvent::<V, T, P, D>::Mapping(PromiseOutcome::Artifact(artifact)),
            next,
            request,
        ) ==> if map@.len() + 1 < count {
            next is Fulfil && next->Fulfil_0 == count && request is EvaluateMapping
                && request->EvaluateMapping_0 == map@.len() + 1
        } else {
            next is Finalize && request is Freeze
        },
{
}

/// The result of an analysis holds what was frozen and promised, and how much was declared.
pub proof fn law_what_an_analysis_gives<V, T, P, D, F>(
    subject: AnonSubject,
    map: Vec<(PromiseArtifactId, Arc<T>)>,
    declared_actions: u64,
    declared_artifacts: u64,
    providers: ProviderCollection<P>,
    deferred: DeferredTable<D>,
    next: AnonStage<V, T>,
    request: AnonRequest<V, T, P, D, F>,
)
    requires
        follows(
            subject,
            AnonStage::Finalize(map),
            AnonEvent::<V, T, P, D>::Finalized {
                declared_actions,
                declared_artifacts,
                result: Ok((providers, deferred)),
            },
            next,
            request,
        ),
    ensures
        next is Done,
        request is Finish,
        request->result is Ok,
        request->result->Ok_0.provider_collection == providers,
        request->result->Ok_0.deferred == deferred,
        request->result->Ok_0.promise_artifact_map == map,
        request->result->Ok_0.profile_data is None,
        request->result->Ok_0.num_declared_actions == declared_actions,
        request->result->Ok_0.num_declared_artifacts == declared_artifacts,
        request->end is Some,
        request->end->0.target == subject.target,
        request->end->0.rule == subject.rule_type,
        request->end->0.declared_actions == Some(declared_actions),
        request->end->0.declared_artifacts == Some(declared_artifacts),
{
}

/// Whatever fails ends the analysis with its reason.
pub proof fn law_failure_ends_an_analysis<V, T, P, D, F>(
    subject: AnonSubject,
    stage: AnonStage<V, T>,
    event: AnonEvent<V, T, P, D>,
    reason: String,
    next: AnonStage<V, T>,
    request: AnonRequest<V, T, P, D, F>,
)
    requires
        answers(stage, event),
        follows(subject, stage, event, next, request),
        ({
            ||| event == AnonEvent::<V, T, P, D>::Settled(Err(reason))
            ||| event == AnonEvent::<V, T, P, D>::Platform(Err(reason))
            ||| event == AnonEvent::<V, T, P, D>::Attr(Err(reason))
            ||| event == AnonEvent::<V, T, P, D>::Mappings(Err(reason))
            ||| event is Finalized && event->result == Err::<
                (ProviderCollection<P>, DeferredTable<D>),
                String,
            >(reason)
        }),
    ensures
        next is Done,
        request is Finish,
        request->result is Err,
        request->result->Err_0 == AnonAnalysisError::Failed(reason),
{
}

} // verus!
