use std::collections::HashMap;
use std::sync::Arc;

use buck2::action_key::BaseDeferredKey;
use buck2::action_key::DeferredHolderKey;
use buck2::analysis::AnalysisExtraValue;
use buck2::analysis::AnalysisResult;
use buck2::analysis::DeferredId;
use buck2::analysis::DeferredTable;
use buck2::analysis::ExtraValue;
use buck2::analysis::Frozen;
use buck2::analysis::FrozenAnalysisExtraValue;
use buck2::analysis::LookupError;
use buck2::analysis::Module;
use buck2::analysis::ProviderCollection;
use buck2::artifact_groups::AnalysisValueStorage;
use buck2::artifact_groups::ArtifactGroupRegistry;
use buck2::bxl_result::BxlResult;
use buck2::keep_going::HasKeepGoing;
use buck2::keep_going::JoinStep;
use buck2::keep_going::Joining;
use buck2::keep_going::KeepGoing;
use buck2::keep_going::KeepGoingCollectable;
use buck2::keep_going::SmallItems;
use buck2::keep_going::UserComputationData;
use buck2::lambda_params::DynamicLambdaParams;
use buck2::lambda_params::FreezeOutcomes;
use buck2::lambda_params::FrozenPlugins;
use buck2::late_bindings::init_late_bindings;
use buck2::late_bindings::LateBinding;
use buck2::late_bindings::LateBindings;
use buck2::materialize::materialize_artifact_group;
use buck2::materialize::materialize_error;
use buck2::materialize::BaseArtifactKind;
use buck2::materialize::ConvertMaterializationContext;
use buck2::materialize::MaterializationContext;
use buck2::materialize::Materializations;
use buck2::materialize::RequestMap;
use buck2::platform_info::PlatformConfiguration;
use buck2::platform_info::PlatformInfo;
use buck2::validation_spec::register_validation_spec;
use buck2::validation_spec::StarlarkString;
use buck2::validation_spec::ValidationArtifact;
use buck2::validation_spec::ValidationSpecError;

fn group() -> Vec<BaseArtifactKind> {
    vec![
        BaseArtifactKind::Build(1),
        BaseArtifactKind::Source(2),
        BaseArtifactKind::Build(3),
        BaseArtifactKind::Build(1),
    ]
}

#[test]
fn built_artifacts_are_requested_once() {
    let mut context = ConvertMaterializationContext::from(Materializations::Default);
    let request = materialize_artifact_group(&group(), &mut context).unwrap();
    assert_eq!((request.artifacts, request.force), (vec![1, 3], false));
    let request = materialize_artifact_group(&group(), &mut context).unwrap();
    assert_eq!(request.artifacts, Vec::<u64>::new());
    let mut known = dashmap::DashMap::new();
    let mut context = Materializations::Skip.with_existing_map(&mut known);
    assert!(materialize_artifact_group(&group(), &mut context).is_none());
    known.insert(3u64, ());
    let mut context = Materializations::Materialize.with_existing_map(&mut known);
    let request = materialize_artifact_group(&group(), &mut context).unwrap();
    assert_eq!((request.artifacts, request.force), (vec![1], true));
    let mut context = Materializations::Default.with_existing_map(&mut known);
    let request = materialize_artifact_group(&group(), &mut context).unwrap();
    assert_eq!((request.artifacts, request.force), (vec![], false));
    assert_eq!(known.len(), 2);
    match MaterializationContext::force_materializations() {
        MaterializationContext::Materialize { map: RequestMap::Own(map), force } => {
            assert!(force);
            assert!(map.is_empty());
        }
        _ => panic!("nothing is skipped"),
    }
    assert_eq!(materialize_error("x"), "Failed to materialize artifacts: x");
}

fn results() -> Vec<Result<u64, &'static str>> {
    vec![Ok(1), Err("a"), Ok(2), Err("b"), Ok(3)]
}

#[test]
fn nothing_is_awaited_after_an_error() {
    let start = |keep_going| Joining::<Vec<u64>, &str>::start(keep_going, 5);
    let joining = match start(false).step(Ok(1)) {
        JoinStep::GoOn(joining) => joining,
        JoinStep::Stop(_) => panic!("a good result"),
    };
    assert!(matches!(joining.step(Err::<u64, _>("a")), JoinStep::Stop("a")));
    let joining = match start(true).step(Err::<u64, _>("a")) {
        JoinStep::GoOn(joining) => joining,
        JoinStep::Stop(_) => panic!("it goes on"),
    };
    match joining.step(Ok(2)) {
        JoinStep::GoOn(joining) => assert_eq!(joining.finish(), Err("a")),
        JoinStep::Stop(_) => panic!("it goes on"),
    }
    assert_eq!(start(false).finish(), Ok(vec![]));
}

#[test]
fn keep_going_keeps_the_last_error() {
    let stopped: Result<Vec<u64>, &str> = KeepGoing::try_join_all(false, results());
    assert_eq!(stopped, Err("a"));
    let went_on: Result<Vec<u64>, &str> = KeepGoing::try_join_all(true, results());
    assert_eq!(went_on, Err("b"));
    let good: Vec<Result<u64, &str>> = vec![Ok(3), Ok(1), Ok(3)];
    assert_eq!(KeepGoing::try_join_all::<Vec<u64>, _, _>(true, good.clone()), Ok(vec![3, 1, 3]));
    let mut data = UserComputationData { keep_going: None };
    data.set_keep_going(false);
    assert!(!data.get_keep_going());
    assert_eq!(KeepGoing::try_compute_join_all::<Vec<u64>, _, _>(&data, results()), Err("a"));
    data.set_keep_going(true);
    assert_eq!(KeepGoing::try_compute_join_all::<Vec<u64>, _, _>(&data, results()), Err("b"));
    assert_eq!(KeepGoing::try_compute_join_all::<Vec<u64>, _, _>(&data, good), Ok(vec![3, 1, 3]));
}

#[test]
fn results_are_collected_in_every_collection() {
    let pairs = || -> Vec<Result<(u64, u64), ()>> { vec![Ok((7, 1)), Ok((5, 2)), Ok((7, 3))] };
    let map: HashMap<u64, u64> = KeepGoing::try_join_all(false, pairs()).unwrap();
    assert_eq!((map.len(), map[&7], map[&5]), (2, 3, 2));
    let ordered: indexmap::IndexMap<u64, u64> = KeepGoing::try_join_all(false, pairs()).unwrap();
    let entries: Vec<(u64, u64)> = ordered.into_iter().collect();
    assert_eq!(entries, vec![(7, 3), (5, 2)]);
    let items: Vec<Result<u64, ()>> = vec![Ok(4), Ok(2), Ok(4)];
    let small: SmallItems = KeepGoing::try_join_all(false, items).unwrap();
    assert_eq!(small.into_items(), vec![4, 2, 4]);
    assert!(<Vec<u64> as KeepGoingCollectable<u64>>::with_capacity(usize::MAX).is_empty());
    let mut one = <SmallItems as KeepGoingCollectable<u64>>::with_capacity(0);
    one.push(9);
    assert_eq!(one.into_items(), vec![9]);
}

fn deferreds() -> DeferredTable<&'static str> {
    DeferredTable { deferreds: vec!["d0", "d1"] }
}

#[test]
fn bxl_results_with_and_without_artifacts() {
    let none: BxlResult<&str, (), &str, u8> =
        BxlResult::new("out", "err", indexmap::IndexSet::new(), deferreds(), 4);
    assert!(matches!(none, BxlResult::NoBuilds { .. }));
    assert!(none.get_artifacts_opt().is_none());
    assert!(none.get_build_result_opt().is_none());
    assert!(matches!(none.lookup_deferred(DeferredId(0)), Err(LookupError::NothingBuilt)));
    assert_eq!(*none.analysis_values(), 4);
    let mut set = indexmap::IndexSet::new();
    for a in [5u64, 3, 5] {
        set.insert(a);
    }
    let some: BxlResult<&str, (), &str, u8> = BxlResult::new("out", "err", set, deferreds(), 4);
    assert_eq!(some.get_artifacts_opt(), Some(&vec![5, 3]));
    assert_eq!(some.get_build_result_opt(), Some(&vec![]));
    assert_eq!((*some.get_output_loc(), *some.get_error_loc()), ("out", "err"));
    assert_eq!(*some.lookup_deferred(DeferredId(1)).unwrap(), "d1");
    assert!(matches!(
        some.lookup_deferred(DeferredId(2)),
        Err(LookupError::NoSuchDeferred(2))
    ));
}

#[test]
fn analysis_results_are_looked_up() {
    let providers = ProviderCollection {
        default: Arc::new("default"),
        named: vec![("n".to_owned(), Arc::new("named"))],
    };
    let result: AnalysisResult<&str, &str, u8, u8> =
        AnalysisResult::new(providers, deferreds(), Some(Arc::new(1)), vec![], 2, 3);
    assert_eq!(*result.lookup_inner(&"n".to_owned()).unwrap(), "named");
    assert!(matches!(
        result.lookup_inner(&"x".to_owned()),
        Err(LookupError::NoSuchProvider(n)) if n == "x"
    ));
    assert_eq!(*result.providers().default, "default");
    assert_eq!(*result.lookup_deferred(DeferredId(0)).unwrap(), "d0");
    assert_eq!(result.iter_deferreds().len(), 2);
    assert_eq!(result.testing_deferred().deferreds.len(), 2);
    assert_eq!((result.num_declared_actions, result.num_declared_artifacts), (2, 3));
}

#[test]
fn extra_value_of_a_module() {
    let mut module: Module<AnalysisExtraValue<u8, u8>> = Module { extra_value: None };
    assert!(matches!(AnalysisExtraValue::get(&module), Ok(None)));
    {
        let value = AnalysisExtraValue::get_or_init(&mut module).unwrap();
        assert!(value.provider_collection.is_none());
        value.provider_collection = Some(1);
    }
    let again = AnalysisExtraValue::get_or_init(&mut module).unwrap();
    assert_eq!(again.provider_collection, Some(1));
    let frozen = again.freeze::<&str, &str>(Some(Frozen::Value("p")), None).ok().unwrap();
    assert_eq!((frozen.provider_collection, frozen.analysis_value_storage), (Some("p"), None));
    assert!(again.freeze::<&str, &str>(Some(Frozen::Error("e".to_owned())), None).is_err());
    module.extra_value = Some(ExtraValue::Other);
    assert!(matches!(AnalysisExtraValue::get(&module), Err(LookupError::Internal(_))));
    assert!(AnalysisExtraValue::get_or_init(&mut module).is_err());
    let frozen: Module<FrozenAnalysisExtraValue<u8, u8>> = Module { extra_value: None };
    assert!(matches!(FrozenAnalysisExtraValue::get(&frozen), Err(LookupError::Internal(_))));
}

#[test]
fn transitive_sets_are_numbered() {
    let registry = ArtifactGroupRegistry::new();
    let holder =
        Arc::new(DeferredHolderKey::Base(BaseDeferredKey::TargetLabel("//a:b".to_owned())));
    let mut storage = AnalysisValueStorage { transitive_sets: vec![] };
    let key = registry.next_key(&holder, &storage).unwrap();
    assert_eq!(key.index, 0);
    assert!(key.holder.owner().same_as(holder.owner()));
    assert_eq!(*registry.create_transitive_set(&mut storage, Ok(Arc::new("s"))).unwrap(), "s");
    assert_eq!(registry.next_key(&holder, &storage).unwrap().index, 1);
    assert_eq!(
        registry.create_transitive_set(&mut storage, Err("bad".to_owned())),
        Err("bad".to_owned())
    );
    assert_eq!(storage.transitive_sets.len(), 1);
    assert!(registry.ensure_bound().is_ok());
}

#[test]
fn lambda_parameters_are_frozen() {
    let params = DynamicLambdaParams { attributes: Some(1), plugins: Some(2), lambda: 3, arg: None };
    let outcomes = |plugins, lambda: Result<&'static str, String>| FreezeOutcomes {
        attributes: Some(Ok("a")),
        plugins: Some(plugins),
        lambda,
        arg: None,
    };
    let frozen = params.freeze(outcomes(Ok(FrozenPlugins::Plugins("p")), Ok("l"))).unwrap();
    assert_eq!(frozen.attributes(), Some(&"a"));
    assert_eq!(frozen.plugins(), Ok(Some(&"p")));
    assert_eq!(frozen.lambda(), &"l");
    assert_eq!(frozen.arg(), None);
    let other = params.freeze(outcomes(Ok(FrozenPlugins::Other("o")), Ok("l"))).unwrap();
    assert_eq!(other.plugins(), Err("plugins must be AnalysisPlugins"));
    let failed =
        params.freeze(outcomes(Err("first".to_owned()), Err("second".to_owned()))).err().unwrap();
    assert_eq!(failed, "first");
}

#[test]
fn late_bindings_are_made_once() {
    let mut once = LateBindings { bound: false };
    let made = init_late_bindings(&mut once);
    assert_eq!(made.len(), 5);
    assert!(matches!(made[0], LateBinding::AuditDepFiles));
    assert!(matches!(made[4], LateBinding::ActionImplGlobals));
    assert!(init_late_bindings(&mut once).is_empty());
}

#[test]
fn platform_survives_configuration_and_back() {
    let info = PlatformInfo { label: "//p:x".to_owned(), configuration: Arc::new(5) };
    let cfg = info.to_configuration(Ok(Arc::new(5)), None).unwrap();
    let back = PlatformInfo::from_configuration(&cfg).unwrap();
    assert_eq!((back.label, *back.configuration), ("//p:x".to_owned(), 5));
    assert_eq!(
        info.to_configuration(Err("bad constraint".to_owned()), None).err(),
        Some("bad constraint".to_owned())
    );
    assert_eq!(
        info.to_configuration(Ok(Arc::new(5)), Some("bad label".to_owned())).err(),
        Some("bad label".to_owned())
    );
    let special: PlatformConfiguration<u8> = PlatformConfiguration::Special("unbound".to_owned());
    assert!(PlatformInfo::from_configuration(&special).is_err());
}

fn artifact(is_source: Result<bool, &str>) -> ValidationArtifact {
    ValidationArtifact {
        display: "<artifact>".to_owned(),
        is_source: is_source.map_err(|e| e.to_owned()),
    }
}

fn starlark_string(text: &str) -> StarlarkString {
    StarlarkString { text: text.to_owned(), repr: format!("{:?}", text) }
}

#[test]
fn validation_specs_have_a_name_and_a_built_result() {
    let spec = register_validation_spec(starlark_string("n"), artifact(Ok(false))).ok().unwrap();
    assert_eq!(spec.name(), "n");
    assert_eq!(spec.validation_result().display, "<artifact>");
    assert_eq!(spec.display(), "ValidationSpec(name=\"n\", validation_result=<artifact>)");
    let error = |name: &str, a| register_validation_spec(starlark_string(name), a).err().unwrap();
    let e = error("", artifact(Ok(true)));
    assert!(matches!(e, ValidationSpecError::EmptyName));
    assert_eq!(e.message(), "Name of validation spec should not be empty");
    let e = error("n", artifact(Ok(true)));
    assert!(matches!(e, ValidationSpecError::ValidationResultIsSourceArtifact));
    assert_eq!(
        e.message(),
        "Validation result artifact should be a build artifact, not a source one."
    );
    let e = error("n", artifact(Err("unbound")));
    assert!(matches!(&e, ValidationSpecError::ValidationResultIsNotBound(_)));
    assert_eq!(e.message(), "Validation result artifact should be bound.");
}
