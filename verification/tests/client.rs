use std::sync::Arc;

use buck2::config_path::default_external_config_sources;
use buck2::config_path::default_project_config_sources;
use buck2::config_path::ExternalConfigSource;
use buck2::config_path::ProjectConfigSource;
use buck2::immediate_config::is_paranoid_enabled;
use buck2::immediate_config::join_normalized;
use buck2::immediate_config::CellPathError;
use buck2::immediate_config::ConfigOutcomes;
use buck2::immediate_config::DaemonStartupConfig;
use buck2::immediate_config::ImmediateConfig;
use buck2::immediate_config::ImmediateConfigContext;
use buck2::immediate_config::ParanoidError;
use buck2::immediate_config::ParanoidFile;
use buck2::immediate_config::ProjectOutcomes;
use buck2::load_module::ComputedModules;
use buck2::load_module::InterpreterCalculation;
use buck2::load_module::LoadError;
use buck2::load_module::LoadedModule;
use buck2::load_module::StarlarkModulePath;
use buck2::paths::ProjectRelativePathBuf;
use buck2::proto_times::convert_positive_duration;
use buck2::proto_times::is_after;
use buck2::proto_times::is_in_future;
use buck2::proto_times::to_proto_duration;
use buck2::proto_times::ProtoDuration;
use buck2::proto_times::ProtoTimestamp;
use buck2::proto_times::Span;
use buck2::source_attr::cleanup_path;
use buck2::source_attr::CoercedSource;
use buck2::source_attr::SourceAttrType;
use buck2::source_attr::SourceCoercionError;
use buck2::source_attr::SourceStep;
use buck2::source_attr::SourceValue;
use buck2::starlark_profiler::FrozenHeap;
use buck2::starlark_profiler::ProfileMode;
use buck2::starlark_profiler::StarlarkProfileDataAndStats;
use buck2::starlark_profiler::StarlarkProfileModeOrInstrumentation;
use buck2::starlark_profiler::StarlarkProfiler;
use buck2::starlark_profiler::StarlarkProfilerError;
use buck2::starlark_profiler::StarlarkProfilerOrInstrumentation;
use buck2::stdio::begin_print_with_writer;
use buck2::stdio::has_written_to_stdout;
use buck2::stdio::print_with_writer;
use buck2::stdio::stdout;
use buck2::stdio::write_outcome;
use buck2::stdio::StdioError;
use buck2::stdio::StdoutState;
use buck2::stdio::WriterError;
use buck2::system_warning::check_memory_pressure;
use buck2::system_warning::check_remaining_disk_space;
use buck2::system_warning::low_disk_space_msg;
use buck2::system_warning::system_memory_exceeded_msg;
use buck2::system_warning::Snapshot;
use buck2::system_warning::SystemInfo;
use buck2::system_warning::DISK_REMEDIATION_LINK;
use buck2::system_warning::SYSTEM_MEMORY_REMEDIATION_LINK;
use buck2::win_utils::result_bool;
use buck2::win_utils::result_dword;

fn system_info() -> SystemInfo {
    SystemInfo {
        system_total_memory_bytes: Some(1000),
        memory_pressure_threshold_percent: Some(90),
        total_disk_space_bytes: Some(100_000_000_000),
        remaining_disk_space_threshold_gb: Some(10),
    }
}

fn snapshot(memory: u64, disk: u64) -> Snapshot {
    Snapshot { process_memory: Some(memory), used_disk_space_bytes: Some(disk) }
}

#[test]
fn memory_pressure_starts_at_its_threshold() {
    let info = system_info();
    let high = check_memory_pressure(Some(&snapshot(900, 0)), &info).unwrap();
    assert_eq!((high.system_total_memory, high.process_memory), (1000, 900));
    assert!(check_memory_pressure(Some(&snapshot(899, 0)), &info).is_none());
    assert!(check_memory_pressure(None, &info).is_none());
    let mut unknown = system_info();
    unknown.memory_pressure_threshold_percent = None;
    assert!(check_memory_pressure(Some(&snapshot(900, 0)), &unknown).is_none());
    assert_eq!(
        system_memory_exceeded_msg("9 GB", "10 GB", true),
        "High memory pressure: buck2 is using 9 GB out of 10 GB"
    );
    assert_eq!(
        system_memory_exceeded_msg("9 GB", "10 GB", false),
        "High memory pressure: buck2 is using 9 GB out of 10 GB: \
         https://fburl.com/buck2_mem_remediation"
    );
}

#[test]
fn disk_space_is_low_at_its_threshold() {
    let info = system_info();
    let low = check_remaining_disk_space(Some(&snapshot(0, 90_000_000_000)), &info).unwrap();
    assert_eq!((low.total_disk_space, low.used_disk_space), (100_000_000_000, 90_000_000_000));
    assert!(check_remaining_disk_space(Some(&snapshot(0, 89_999_999_999)), &info).is_none());
    assert!(check_remaining_disk_space(None, &info).is_none());
    assert_eq!(SYSTEM_MEMORY_REMEDIATION_LINK, ": https://fburl.com/buck2_mem_remediation");
    assert_eq!(DISK_REMEDIATION_LINK, ": https://fburl.com/buck2_disk_remediation");
    assert_eq!(
        low_disk_space_msg("5 GB", "100 GB", true),
        "Low disk space: only 5 GB remaining out of 100 GB"
    );
    assert_eq!(
        low_disk_space_msg("5 GB", "100 GB", false),
        "Low disk space: only 5 GB remaining out of 100 GB: \
         https://fburl.com/buck2_disk_remediation"
    );
}

#[test]
fn standard_output_is_lent_to_one_writer() {
    let mut state = StdoutState { has_written: false, locked: false };
    assert!(!has_written_to_stdout(&state));
    assert!(begin_print_with_writer::<i32>(&mut state).is_ok());
    assert!(has_written_to_stdout(&state));
    assert!(matches!(stdout::<i32>(&mut state), Err(StdioError::AlreadyLocked)));
    assert!(matches!(
        begin_print_with_writer::<i32>(&mut state),
        Err(StdioError::AlreadyLocked)
    ));
    assert!(matches!(
        print_with_writer(&mut state, Err(WriterError::Io(5))),
        Err(StdioError::ClientIo(5))
    ));
    assert!(stdout::<i32>(&mut state).is_ok());
    assert!(begin_print_with_writer::<i32>(&mut state).is_ok());
    assert!(matches!(
        print_with_writer::<i32>(&mut state, Err(WriterError::Other("x".to_owned()))),
        Err(StdioError::Other(e)) if e == "x"
    ));
    assert!(write_outcome::<i32>(Ok(())).is_ok());
    assert!(matches!(write_outcome(Err(7)), Err(StdioError::ClientIo(7))));
}

#[test]
fn results_of_windows_calls() {
    assert_eq!(result_bool(0, 5), Err(5));
    assert_eq!(result_bool(-1, 5), Ok(()));
    assert_eq!(result_dword(u32::MAX, 6), Err(6));
    assert_eq!(result_dword(0, 6), Ok(()));
}

#[test]
fn configuration_sources_in_order() {
    let unix = default_external_config_sources(false);
    assert_eq!(unix.len(), 4);
    assert!(matches!(unix[0], ExternalConfigSource::GlobalFolder("/etc/buckconfig.d")));
    assert!(matches!(unix[1], ExternalConfigSource::GlobalFile("/etc/buckconfig")));
    assert!(matches!(unix[2], ExternalConfigSource::UserFolder(".buckconfig.d")));
    assert!(matches!(unix[3], ExternalConfigSource::UserFile(".buckconfig.local")));
    let windows = default_external_config_sources(true);
    assert!(matches!(
        windows[0],
        ExternalConfigSource::GlobalFolder("C:\\ProgramData\\buckconfig.d")
    ));
    let project = default_project_config_sources();
    assert!(matches!(project[0], ProjectConfigSource::CellRelativeFolder(".buckconfig.d")));
    assert!(matches!(project[2], ProjectConfigSource::CellRelativeFile(".buckconfig.local")));
}

#[test]
fn durations_in_messages() {
    let d = |seconds, nanos| ProtoDuration { seconds, nanos };
    assert_eq!(
        convert_positive_duration(&d(3, 500_000_000)),
        Ok(Span { seconds: 3, nanos: 500_000_000 })
    );
    assert_eq!(
        convert_positive_duration(&d(3, 1_500_000_000)),
        Ok(Span { seconds: 4, nanos: 500_000_000 })
    );
    assert_eq!(
        convert_positive_duration(&d(-1, 2)),
        Err("received invalid timeout: `Duration { seconds: -1, nanos: 2 }`".to_owned())
    );
    assert!(convert_positive_duration(&d(1, -2)).is_err());
    assert_eq!(to_proto_duration(&Span::from_millis(1500)), Some(d(1, 500_000_000)));
    assert_eq!(to_proto_duration(&Span::from_secs(u64::MAX)), None);
}

#[test]
fn points_of_time_in_messages() {
    let t = ProtoTimestamp { seconds: 100, nanos: 0 };
    assert_eq!(is_in_future(&t, 99_000_000_000), Some(true));
    assert_eq!(is_in_future(&t, 101_000_000_000), Some(false));
    let before = ProtoTimestamp { seconds: -100, nanos: 0 };
    assert_eq!(is_in_future(&before, -101_000_000_000), Some(true));
    assert_eq!(is_in_future(&before, 0), Some(false));
    assert_eq!(is_after(Some(5), 5), Some(false));
    assert_eq!(is_after(Some(5), 4), Some(true));
    assert_eq!(is_after(None, 4), None);
}

#[test]
fn caution_is_switched_on_for_a_time() {
    let info = |seconds| ParanoidFile::Info {
        expires_at: Some(ProtoTimestamp { seconds, nanos: 0 }),
    };
    let now = 50_000_000_000;
    assert_eq!(is_paranoid_enabled(Ok(Some(true)), ParanoidFile::Invalid, now), Ok(true));
    assert_eq!(is_paranoid_enabled(Ok(Some(false)), info(100), now), Ok(false));
    assert_eq!(is_paranoid_enabled(Ok(None), info(100), now), Ok(true));
    assert_eq!(is_paranoid_enabled(Ok(None), info(10), now), Ok(false));
    assert_eq!(is_paranoid_enabled(Ok(None), ParanoidFile::NoFile, now), Ok(false));
    assert_eq!(
        is_paranoid_enabled(Err(()), ParanoidFile::NoFile, now),
        Err(ParanoidError::Variable)
    );
    assert_eq!(
        is_paranoid_enabled(Ok(None), ParanoidFile::Unreadable, now),
        Err(ParanoidError::Unreadable)
    );
    assert_eq!(
        is_paranoid_enabled(Ok(None), ParanoidFile::Invalid, now),
        Err(ParanoidError::InvalidData)
    );
    assert_eq!(
        is_paranoid_enabled(Ok(None), ParanoidFile::Info { expires_at: None }, now),
        Err(ParanoidError::MissingExpiresAt)
    );
}

fn path(parts: &[&str]) -> ProjectRelativePathBuf {
    ProjectRelativePathBuf::from_parts(parts.iter().map(|p| p.to_string()).collect())
}

fn config() -> ConfigOutcomes {
    ConfigOutcomes {
        cells: Ok(vec![("root".to_owned(), path(&[])), ("lib".to_owned(), path(&["third", "lib"]))]),
        aliases: Ok(vec![
            ("".to_owned(), "root".to_owned()),
            ("l".to_owned(), "lib".to_owned()),
            ("lost".to_owned(), "gone".to_owned()),
        ]),
        startup: Some(Ok(DaemonStartupConfig { text: "c".to_owned(), paranoid: false })),
    }
}

fn project() -> ProjectOutcomes {
    ProjectOutcomes {
        project_root: Ok("/repo".to_owned()),
        config: config(),
        paranoid: Ok(true),
    }
}

#[test]
fn configuration_is_read_once() {
    let mut context = ImmediateConfigContext::new();
    context.push_trace("a".to_owned());
    assert_eq!(context.trace(), &vec!["a".to_owned()]);
    assert!(context.daemon_startup_config().is_none());
    let mut broken = project();
    broken.config.startup = Some(Err("bad".to_owned()));
    assert_eq!(
        context.data(broken).unwrap_err().chain,
        vec!["Error creating cell resolver", "Error loading daemon startup config", "bad"]
    );
    let mut rootless = project();
    rootless.project_root = Err("no root".to_owned());
    assert_eq!(
        context.data(rootless).unwrap_err().chain,
        vec!["Error creating cell resolver", "no root"]
    );
    context.data(project()).unwrap();
    assert!(context.daemon_startup_config().unwrap().paranoid);
    let mut other = project();
    other.project_root = Err("ignored".to_owned());
    context.data(other).unwrap();
    assert_eq!(context.data.unwrap().project_root, "/repo");
}

#[test]
fn each_reason_to_refuse_a_configuration() {
    let error = |o: ConfigOutcomes| ImmediateConfig::parse(o).err().unwrap().chain;
    assert!(ImmediateConfig::parse(config()).is_ok());
    assert_eq!(error(ConfigOutcomes { cells: Err("c".to_owned()), ..config() }), vec!["c"]);
    assert_eq!(error(ConfigOutcomes { aliases: Err("a".to_owned()), ..config() }), vec!["a"]);
    assert_eq!(
        error(ConfigOutcomes { startup: None, ..config() }),
        vec!["No config for root cell"]
    );
}

#[test]
fn paths_in_cells_are_resolved() {
    let mut context = ImmediateConfigContext::new();
    context.data(project()).unwrap();
    let data = context.data.unwrap();
    let resolve = |alias: &str, p: &str| data.resolve_cell_path(&alias.to_owned(), &p.to_owned());
    assert_eq!(resolve("l", "a/./b/../c").unwrap(), "/repo/third/lib/a/c");
    assert_eq!(resolve("", "").unwrap(), "/repo");
    assert_eq!(resolve("l", "../x").unwrap(), "/repo/third/x");
    let mut at_root = ImmediateConfigContext::new();
    let mut top = project();
    top.project_root = Ok("/".to_owned());
    at_root.data(top).unwrap();
    let at_root = at_root.data.unwrap();
    let shown = |p: &str| at_root.resolve_cell_path(&"".to_owned(), &p.to_owned()).unwrap();
    assert_eq!(shown("a/b"), "/a/b");
    assert_eq!(shown(""), "/");
    assert!(matches!(resolve("nope", "x"), Err(CellPathError::UnknownAlias(a)) if a == "nope"));
    assert!(matches!(resolve("lost", "x"), Err(CellPathError::UnknownCell(c)) if c == "gone"));
    assert!(matches!(resolve("l", "../../../x"), Err(CellPathError::OutsideProject(_))));
    assert!(join_normalized(&path(&["a"]), "b/c").unwrap().same_as(&path(&["a", "b", "c"])));
    assert!(join_normalized(&path(&[]), "..").is_none());
}

#[test]
fn paths_lose_what_says_nothing() {
    assert_eq!(cleanup_path("./a/b/"), "a/b");
    assert_eq!(cleanup_path("a"), "a");
    assert_eq!(cleanup_path("."), "");
    assert_eq!(cleanup_path("./"), "");
    assert_eq!(cleanup_path("././a"), "./a");
}

#[test]
fn sources_are_labels_or_paths() {
    let attr = SourceAttrType { allow_directory: true };
    assert_eq!(attr.starlark_type(), "string");
    let s = SourceValue::Str("./x".to_owned());
    assert!(matches!(
        attr.coerce_item::<u8, u8>(&s, Ok(1)),
        SourceStep::Done(Ok(CoercedSource::SourceLabel(1)))
    ));
    assert!(matches!(
        attr.coerce_item::<u8, u8>(&s, Err("no label".to_owned())),
        SourceStep::TryPath { path, allow_directory: true } if path == "x"
    ));
    assert!(matches!(
        attr.coerce_item::<u8, u8>(&SourceValue::Other("int".to_owned()), Ok(1)),
        SourceStep::Done(Err(SourceCoercionError::NotAString(t))) if t == "int"
    ));
    let v = "./x".to_owned();
    assert!(matches!(
        attr.coerce_path::<u8, u8>(&v, "l".to_owned(), Ok(2)),
        Ok(CoercedSource::SourceFile(2))
    ));
    let e = attr.coerce_path::<u8, u8>(&v, "l".to_owned(), Err("p".to_owned())).err().unwrap();
    assert_eq!(
        e.message(),
        Some(
            "Couldn't coerce `./x` as a source.\n  Error when treated as a target: l\n  \
             Error when treated as a path: p"
                .to_owned()
        )
    );
}

#[test]
fn modules_are_found_by_kind_and_path() {
    let module = |imports: &[&str]| {
        Ok(Arc::new(LoadedModule { imports: imports.iter().map(|i| i.to_string()).collect() }))
    };
    let mut modules = ComputedModules {
        bound: true,
        modules: vec![
            (StarlarkModulePath::BxlFile("a.bzl".to_owned()), module(&["bxl"])),
            (StarlarkModulePath::LoadFile("a.bzl".to_owned()), module(&["x", "y"])),
            (StarlarkModulePath::LoadFile("b.bzl".to_owned()), Err("broken".to_owned())),
        ],
    };
    let a = "a.bzl".to_owned();
    assert_eq!(modules.get_loaded_module_imports(&a).ok(), Some(vec!["x".to_owned(), "y".to_owned()]));
    assert_eq!(
        modules.get_loaded_module(StarlarkModulePath::BxlFile(a.clone())).ok().unwrap().imports,
        vec!["bxl"]
    );
    assert!(matches!(
        modules.get_loaded_module_from_import_path(&"b.bzl".to_owned()),
        Err(LoadError::Failed(e)) if e == "broken"
    ));
    assert!(matches!(
        modules.get_loaded_module_imports(&"c.bzl".to_owned()),
        Err(LoadError::NotComputed)
    ));
    modules.bound = false;
    assert!(matches!(modules.get_loaded_module_imports(&a), Err(LoadError::NotBound)));
}

fn mode(name: &str, requires_frozen_module: bool) -> ProfileMode {
    ProfileMode { name: name.to_owned(), requires_frozen_module }
}

fn message(e: StarlarkProfilerError) -> String {
    e.message()
}

#[test]
fn profile_of_a_full_run() {
    let mut p: StarlarkProfiler<&str> = StarlarkProfiler::new(mode("heap", true), true);
    assert!(p.instrumentation().is_some());
    p.initialize(Ok(()), 10).unwrap();
    p.evaluation_complete(25, Err("not looked at".to_owned())).unwrap();
    p.visit_frozen_module(Some(FrozenHeap { heap_profile: Ok("data"), total_allocated_bytes: 64 }))
        .unwrap();
    let data = p.finish().unwrap();
    assert_eq!(data.elapsed(), 15);
    assert_eq!(data.total_retained_bytes(), 64);
    assert_eq!(data.profile_data, "data");
}

#[test]
fn parts_of_a_profile_may_be_missing() {
    let fresh = || -> StarlarkProfiler<&str> { StarlarkProfiler::new(mode("s", false), false) };
    assert_eq!(message(fresh().finish().unwrap_err()), "did not initialize");
    let mut p = fresh();
    assert_eq!(message(p.initialize(Err("no".to_owned()), 1).unwrap_err()), "no");
    p.initialize(Ok(()), 1).unwrap();
    assert_eq!(message(p.finish().unwrap_err()), "did not finalize");
    let mut p = fresh();
    p.initialize(Ok(()), 1).unwrap();
    p.evaluation_complete(2, Ok("d")).unwrap();
    assert_eq!(message(p.finish().unwrap_err()), "did not visit heap");
    let mut p = fresh();
    p.initialize(Ok(()), 1).unwrap();
    assert_eq!(message(p.evaluation_complete(2, Err("gen".to_owned())).unwrap_err()), "gen");
    p.visit_frozen_module(None).unwrap();
    assert_eq!(message(p.finish().unwrap_err()), "profile_data not initialized");
    let heap = || Some(FrozenHeap { heap_profile: Err("bad".to_owned()), total_allocated_bytes: 1 });
    assert_eq!(
        message(fresh().visit_frozen_module(heap()).unwrap_err()),
        "will_freeze field was initialized incorrectly"
    );
    let mut frozen: StarlarkProfiler<&str> = StarlarkProfiler::new(mode("h", true), true);
    assert_eq!(message(frozen.visit_frozen_module(heap()).unwrap_err()), "bad");
    let mut unfrozen: StarlarkProfiler<&str> = StarlarkProfiler::new(mode("h", true), false);
    assert_eq!(
        message(unfrozen.visit_frozen_module(None).unwrap_err()),
        "Retained memory profiling is available only for analysis profile or bxl profile \
         (which freezes the module)"
    );
}

fn profile(name: &str, from: u64, to: u64) -> StarlarkProfileDataAndStats<&'static str> {
    StarlarkProfileDataAndStats {
        profile_mode: mode(name, false),
        profile_data: "d",
        initialized_at: from,
        finalized_at: to,
        total_retained_bytes: 10,
    }
}

#[test]
fn profiles_of_one_mode_are_merged() {
    let (a, b, c) = (profile("x", 5, 9), profile("x", 3, 7), profile("y", 1, 2));
    let all = StarlarkProfileDataAndStats::merge(&vec![&a, &b], Ok("m")).unwrap();
    assert_eq!((all.initialized_at, all.finalized_at, all.total_retained_bytes), (3, 9, 20));
    assert_eq!(all.profile_data, "m");
    assert_eq!(
        message(StarlarkProfileDataAndStats::merge(&vec![&a, &c], Ok("m")).err().unwrap()),
        "profile mode are inconsistent"
    );
    assert_eq!(
        message(StarlarkProfileDataAndStats::<&str>::merge(&vec![], Ok("m")).err().unwrap()),
        "empty collection of profile data"
    );
    assert_eq!(
        message(StarlarkProfileDataAndStats::merge(&vec![&a], Err("e".to_owned())).err().unwrap()),
        "e"
    );
    assert_eq!(profile("x", 9, 5).elapsed(), 0);
}

#[test]
fn profiler_may_be_absent() {
    let mut none: StarlarkProfilerOrInstrumentation<&str> =
        StarlarkProfilerOrInstrumentation::disabled();
    assert_eq!(none.initialize(Err("ignored".to_owned()), 1).unwrap(), false);
    assert!(none.evaluation_complete(2, Err("ignored".to_owned())).is_ok());
    assert!(none.visit_frozen_module(None).is_ok());
    let profiler = StarlarkProfiler::new(mode("s", false), false);
    let instrumentation = profiler.instrumentation();
    let mut some = StarlarkProfilerOrInstrumentation::new(profiler, instrumentation);
    assert_eq!(some.initialize(Ok(()), 1).unwrap(), true);
    some.evaluation_complete(2, Ok("d")).unwrap();
    some.visit_frozen_module(None).unwrap();
    assert_eq!(some.profiler.unwrap().finish().unwrap().profile_data, "d");
    let profiled = StarlarkProfileModeOrInstrumentation::Profile(mode("s", false));
    assert_eq!(profiled.profile_mode().unwrap().name, "s");
    assert!(StarlarkProfileModeOrInstrumentation::NotProfiled.profile_mode().is_none());
}
