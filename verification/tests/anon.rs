use std::sync::Arc;

use buck2::action_key::ActionIndex;
use buck2::action_key::ActionKey;
use buck2::action_key::BaseDeferredKey;
use buck2::action_key::DeferredHolderKey;
use buck2::analysis::DeferredTable;
use buck2::analysis::PromiseArtifactId;
use buck2::analysis::ProviderCollection;
use buck2::anon_analysis::start_analysis;
use buck2::anon_analysis::step_analysis;
use buck2::anon_analysis::AnonAnalysisError;
use buck2::anon_analysis::AnonEvent;
use buck2::anon_analysis::AnonRequest;
use buck2::anon_analysis::AnonStage;
use buck2::anon_analysis::AnonSubject;
use buck2::anon_targets::get_artifact_from_anon_target_analysis;
use buck2::anon_targets::get_fulfilled_promise_artifacts;
use buck2::anon_targets::promise_owner;
use buck2::anon_targets::AnonArgument;
use buck2::anon_targets::AnonKeyError;
use buck2::anon_targets::AnonTargetKey;
use buck2::anon_targets::AnonTargetsError;
use buck2::anon_targets::AnonTargetsRegistry;
use buck2::anon_targets::AttributeSpec;
use buck2::anon_targets::NameValue;
use buck2::anon_targets::PromiseArtifactResolveError;
use buck2::anon_targets::PromiseOutcome;
use buck2::configured::ExecutionPlatform;
use buck2::labels::ConfigurationData;
use buck2::labels::TargetLabel;

fn parse_target_label(x: &str) -> Result<TargetLabel, AnonKeyError> {
    AnonTargetKey::<u32>::parse_target_label(&x.to_owned())
}

#[test]
fn anon_target_name() {
    assert_eq!(parse_target_label("//foo:bar").unwrap().display(), "anon//foo:bar");
    assert_eq!(
        parse_target_label("cell//foo/bar:baz").unwrap().display(),
        "cell//foo/bar:baz"
    );
    assert!(parse_target_label("foo").is_err());
    assert!(parse_target_label("//foo:").is_err());
}

#[test]
fn labels_have_cells_packages_and_names() {
    assert_eq!(parse_target_label("@cell//foo:bar").unwrap().display(), "cell//foo:bar");
    assert_eq!(parse_target_label("//:bar").unwrap().display(), "anon//:bar");
    assert_eq!(parse_target_label("foo:bar").unwrap().display(), "anon//foo:bar");
    assert_eq!(parse_target_label("//foo/:bar").unwrap().display(), "anon//foo:bar");
    for bad in ["//foo//bar:baz", "//./foo:bar", "//foo/..:bar", "//foo:b*r", "//foo/...", ""] {
        assert!(matches!(
            parse_target_label(bad),
            Err(AnonKeyError::Targets(AnonTargetsError::NotTargetLabel(s))) if s == bad
        ));
    }
    assert!(matches!(
        parse_target_label("foo"),
        Err(AnonKeyError::AmbiguousPattern(s)) if s == "foo"
    ));
}

fn arg(key: &str, coerced: Result<u32, &str>) -> AnonArgument<u32> {
    AnonArgument {
        key: key.to_owned(),
        as_name: NameValue::Other { typ: "int".to_owned(), value: "1".to_owned() },
        coerced: coerced.map_err(|e| e.to_owned()),
    }
}

fn name_arg(value: NameValue) -> AnonArgument<u32> {
    AnonArgument { key: "name".to_owned(), as_name: value, coerced: Ok(0) }
}

fn spec(name: &str, default: Option<Result<u32, &str>>) -> AttributeSpec<u32> {
    AttributeSpec {
        name: name.to_owned(),
        default: default.map(|d| d.map_err(|e| e.to_owned())),
    }
}

fn new_key(
    specs: Vec<AttributeSpec<u32>>,
    arguments: Vec<AnonArgument<u32>>,
) -> Result<AnonTargetKey<u32>, AnonKeyError> {
    AnonTargetKey::new(
        ConfigurationData::Bound("exec".to_owned()),
        &"my_rule".to_owned(),
        specs,
        &vec!["name".to_owned(), "visibility".to_owned()],
        arguments,
    )
}

#[test]
fn key_has_values_defaults_and_a_name() {
    let key = new_key(
        vec![spec("visibility", None), spec("a", None), spec("b", Some(Ok(7)))],
        vec![arg("a", Ok(1))],
    )
    .unwrap();
    assert_eq!(key.0.attrs, vec![("a".to_owned(), 1), ("b".to_owned(), 7)]);
    assert_eq!(key.0.name.display(), "anon//:my_rule");
    assert_eq!(key.0.rule_type, "my_rule");

    let key = new_key(
        vec![spec("a", None)],
        vec![arg("a", Ok(1)), name_arg(NameValue::Str("//x:y".to_owned())), arg("a", Ok(2))],
    )
    .unwrap();
    assert_eq!(key.0.attrs, vec![("a".to_owned(), 2)]);
    assert_eq!(key.0.name.display(), "anon//x:y");
}

#[test]
fn each_reason_to_refuse_a_key() {
    let error = |specs, arguments| new_key(specs, arguments).err().unwrap();
    assert!(matches!(
        error(vec![], vec![arg("visibility", Ok(1))]),
        AnonKeyError::Targets(AnonTargetsError::InternalAttribute(s)) if s == "visibility"
    ));
    assert!(matches!(
        error(vec![], vec![arg("a", Ok(1))]),
        AnonKeyError::Targets(AnonTargetsError::UnknownAttribute(s)) if s == "a"
    ));
    assert!(matches!(
        error(vec![spec("a", None)], vec![]),
        AnonKeyError::Targets(AnonTargetsError::MissingAttribute(s)) if s == "a"
    ));
    assert!(matches!(
        error(vec![], vec![name_arg(NameValue::Other {
            typ: "int".to_owned(),
            value: "3".to_owned()
        })]),
        AnonKeyError::Targets(AnonTargetsError::InvalidNameType { typ, value })
            if typ == "int" && value == "3"
    ));
    assert!(matches!(
        error(vec![spec("a", Some(Err("bad default")))], vec![]),
        AnonKeyError::Default(e) if e == "bad default"
    ));
    let e = error(vec![spec("a", None)], vec![arg("a", Err("not an int"))]);
    assert_eq!(e.context(), Some("Error coercing attribute `a`".to_owned()));
    assert!(matches!(
        AnonTargetKey::<u32>::create_name(&"a b".to_owned()),
        Err(AnonKeyError::InvalidTargetName(s)) if s == "a b"
    ));
}

#[test]
fn messages_of_anon_targets_errors() {
    assert_eq!(
        AnonTargetsError::InvalidNameType { typ: "int".to_owned(), value: "3".to_owned() }
            .message(),
        "Invalid `name` attribute, must be a label or a string, got `3` of type `int`"
    );
    assert_eq!(
        AnonTargetsError::NotTargetLabel("x".to_owned()).message(),
        "`name` attribute must be a valid target label, got `x`"
    );
    assert_eq!(
        AnonTargetsError::InternalAttribute("x".to_owned()).message(),
        "Internal attribute `x` not allowed as argument to `anon_targets`"
    );
    assert_eq!(
        AnonTargetsError::UnknownAttribute("x".to_owned()).message(),
        "Unknown attribute `x`"
    );
    assert_eq!(
        AnonTargetsError::MissingAttribute("x".to_owned()).message(),
        "Missing attribute `x`"
    );
    assert_eq!(
        AnonTargetsError::AssertNoPromisesFailed.message(),
        "Not allowed to call `anon_targets` in this context"
    );
    assert_eq!(
        AnonTargetsError::QueryMacroNotSupported.message(),
        "Query macros are not supported"
    );
}

#[test]
fn registry_collects_promises() {
    let mut registry: AnonTargetsRegistry<&str, ()> = AnonTargetsRegistry::new(());
    assert!(registry.assert_no_promises().is_ok());
    assert!(registry.take_promises().is_none());
    registry.register_one(1, "x");
    registry.register_one(2, "y");
    assert!(matches!(
        registry.assert_no_promises(),
        Err(AnonTargetsError::AssertNoPromisesFailed)
    ));
    assert_eq!(registry.take_promises(), Some(vec![(1, "x"), (2, "y")]));
    assert!(registry.assert_no_promises().is_ok());
    let artifact = registry.register_artifact(Some("here".to_owned()), &"t".to_owned(), 3);
    assert_eq!(artifact.id.id, 3);
    let all = registry.consumer_analysis_artifacts();
    assert_eq!(all.len(), 1);
    assert!(all[0].id.same_as(&artifact.id));
    assert_eq!(all[0].location, Some("here".to_owned()));
}

#[test]
fn fulfilled_promises_are_found_by_number() {
    let target = "anon//:t".to_owned();
    let map = get_fulfilled_promise_artifacts(
        &target,
        vec![
            PromiseOutcome::Artifact(Arc::new("a")),
            PromiseOutcome::Artifact(Arc::new("b")),
        ],
    )
    .unwrap();
    let id = |n| PromiseArtifactId::new(BaseDeferredKey::AnonTarget(target.clone()), n);
    assert_eq!(*get_artifact_from_anon_target_analysis(&id(1), &map).unwrap(), "b");
    assert!(matches!(
        get_artifact_from_anon_target_analysis(&id(2), &map),
        Err(PromiseArtifactResolveError::NotFoundInAnalysis(i)) if i.id == 2
    ));
    assert_eq!(promise_owner(&id(0)).unwrap(), &target);
    let other = PromiseArtifactId::new(BaseDeferredKey::TargetLabel("//x:y".to_owned()), 0);
    assert!(matches!(
        promise_owner(&other),
        Err(PromiseArtifactResolveError::OwnerIsNotAnonTarget(_, _))
    ));
    assert!(matches!(
        get_fulfilled_promise_artifacts::<&str>(
            &target,
            vec![
                PromiseOutcome::NotAnArtifact("3".to_owned()),
                PromiseOutcome::Failed("later".to_owned()),
            ],
        ),
        Err(PromiseArtifactResolveError::NotAnArtifact(s)) if s == "3"
    ));
}

type Stage = AnonStage<u32, &'static str>;
type Event = AnonEvent<u32, &'static str, (), ()>;
type Step = (Stage, AnonRequest<u32, &'static str, (), (), ()>);

fn subject() -> AnonSubject {
    AnonSubject {
        target: "anon//:t".to_owned(),
        rule_type: "my_rule".to_owned(),
        exec_cfg: ConfigurationData::Bound("exec".to_owned()),
        attrs: 2,
    }
}

fn step(stage: Stage, event: Event) -> Step {
    step_analysis(&subject(), stage, event)
}

fn settled() -> Event {
    AnonEvent::Settled(Ok(()))
}

fn providers() -> ProviderCollection<()> {
    ProviderCollection { default: Arc::new(()), named: vec![] }
}

#[test]
fn analysis_runs_to_its_result() {
    let (stage, request): Step = start_analysis();
    assert!(matches!(request, AnonRequest::GetDependents));
    let (stage, request) = step(stage, settled());
    assert!(matches!(request, AnonRequest::GetAnalyses));
    let (stage, request) = step(stage, settled());
    assert!(matches!(request, AnonRequest::FindPlatform(_)));
    let platform = ExecutionPlatform::Platform {
        target: TargetLabel {
            cell: "c".to_owned(),
            package: "p".to_owned(),
            name: "exec".to_owned(),
        },
        cfg: ConfigurationData::Bound("exec".to_owned()),
    };
    let (stage, request) = step(stage, AnonEvent::Platform(Ok(platform)));
    assert!(matches!(request, AnonRequest::GetRuleSpec(r) if r == "my_rule"));
    let (stage, request) = step(stage, settled());
    match request {
        AnonRequest::Begin { start, name, exec_resolution } => {
            assert_eq!(start.target, "anon//:t");
            assert_eq!(start.rule, "my_rule");
            assert_eq!(name, "anon_analysis:anon//:t");
            assert!(exec_resolution.platform.is_some());
        }
        _ => panic!("the analysis begins"),
    }
    let (stage, request) = step(stage, settled());
    assert!(matches!(request, AnonRequest::ResolveAttr(0)));
    let (stage, request) = step(stage, AnonEvent::Attr(Ok(10)));
    assert!(matches!(request, AnonRequest::ResolveAttr(1)));
    let (stage, request) = step(stage, AnonEvent::Attr(Ok(11)));
    assert!(matches!(request, AnonRequest::Invoke(v) if v == vec![10, 11]));
    let (stage, request) = step(stage, settled());
    assert!(matches!(
        request,
        AnonRequest::RunPromises(n) if n == "anon_analysis$promises:anon//:t"
    ));
    let (stage, request) = step(stage, settled());
    assert!(matches!(request, AnonRequest::TakeProviders));
    let (stage, request) = step(stage, settled());
    assert!(matches!(request, AnonRequest::ListMappings));
    let (stage, request) = step(stage, AnonEvent::Mappings(Ok(1)));
    assert!(matches!(request, AnonRequest::EvaluateMapping(0)));
    let (stage, request) =
        step(stage, AnonEvent::Mapping(PromiseOutcome::Artifact(Arc::new("out"))));
    assert!(matches!(request, AnonRequest::Freeze));
    let (stage, request) = step(
        stage,
        AnonEvent::Finalized {
            declared_actions: 4,
            declared_artifacts: 5,
            result: Ok((providers(), DeferredTable { deferreds: vec![] })),
        },
    );
    assert!(matches!(stage, AnonStage::Done));
    match request {
        AnonRequest::Finish { result: Ok(result), end: Some(end) } => {
            assert_eq!(result.num_declared_actions, 4);
            assert_eq!(result.num_declared_artifacts, 5);
            assert_eq!(*result.promise_artifact_map()[0].1, "out");
            assert!(result.profile_data.is_none());
            assert_eq!((end.declared_actions, end.declared_artifacts), (Some(4), Some(5)));
            assert_eq!(end.profile, None);
        }
        _ => panic!("the analysis succeeds"),
    }
}

#[test]
fn failed_analysis_is_ended_only_if_begun() {
    let (_, request) = step(AnonStage::Dependents, AnonEvent::Settled(Err("x".to_owned())));
    assert!(matches!(
        request,
        AnonRequest::Finish { result: Err(AnonAnalysisError::Failed(e)), end: None } if e == "x"
    ));
    let (_, request) = step(AnonStage::Platform, AnonEvent::Platform(Err("y".to_owned())));
    assert!(matches!(request, AnonRequest::Finish { end: None, .. }));
    let (_, request) = step(AnonStage::Attrs(vec![]), AnonEvent::Attr(Err("z".to_owned())));
    match request {
        AnonRequest::Finish { result: Err(AnonAnalysisError::Failed(e)), end: Some(end) } => {
            assert_eq!(e, "z");
            assert_eq!((end.declared_actions, end.declared_artifacts), (None, None));
        }
        _ => panic!("the end is reported"),
    }
    let (_, request) = step(
        AnonStage::Fulfil(1, vec![]),
        AnonEvent::Mapping(PromiseOutcome::NotAnArtifact("3".to_owned())),
    );
    assert!(matches!(
        request,
        AnonRequest::Finish {
            result: Err(AnonAnalysisError::Promise(PromiseArtifactResolveError::NotAnArtifact(s))),
            end: Some(_),
        } if s == "3"
    ));
}

#[test]
fn action_keys() {
    let owner = || BaseDeferredKey::TargetLabel("cell//p:t".to_owned());
    let key = ActionKey::new(DeferredHolderKey::Base(owner()), ActionIndex::new(7));
    assert_eq!(key.action_key(), "7");
    assert_eq!(key.display(), "(target: `cell//p:t`, id: `7`)");
    assert_eq!(key.action_index(), ActionIndex::new(7));
    let dynamic = ActionKey::unchecked_new(
        DeferredHolderKey::DynamicLambda(owner(), "2".to_owned()),
        ActionIndex::new(12),
    );
    assert_eq!(dynamic.action_key(), "2_12");
    assert!(dynamic.owner().same_as(&owner()));
    assert!(matches!(dynamic.holder_key(), DeferredHolderKey::DynamicLambda(_, _)));
    let proto = dynamic.as_proto();
    assert_eq!((proto.id, proto.key), (12, "2_12".to_owned()));
}
