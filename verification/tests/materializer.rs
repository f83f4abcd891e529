use std::collections::VecDeque;
use std::sync::Arc;

use buck2::accessor::local_copy_tree;
use buck2::accessor::CompressError;
use buck2::accessor::DeferredMaterializerAccessor;
use buck2::accessor::WriteRequest;
use buck2::artifact::calc_output_bytes;
use buck2::artifact::dupe_entry;
use buck2::artifact::entries_match;
use buck2::artifact::found_label;
use buck2::artifact::ActionDirectoryEntry;
use buck2::artifact::ActionDirectoryMember;
use buck2::artifact::ActionSharedDirectory;
use buck2::artifact::ArtifactMetadata;
use buck2::artifact::ArtifactValue;
use buck2::artifact::FileMetadata;
use buck2::artifact::FoundArtifact;
use buck2::artifact::SharedEntry;
use buck2::artifact::TrackedFileDigest;
use buck2::commands::cleanup_finished;
use buck2::commands::CleanPlan;
use buck2::commands::CleanupOutcome;
use buck2::commands::DeclaredWork;
use buck2::commands::ExistingFutures;
use buck2::commands::FinishedEffect;
use buck2::commands::Invalidated;
use buck2::contents::file_contents_path;
use buck2::contents::initialize;
use buck2::contents::reaches_contents;
use buck2::contents::ArtifactNotMaterializedReason;
use buck2::contents::RestoredArtifact;
use buck2::deferred::access_time_update_max_buffer_size;
use buck2::deferred::materialization_error;
use buck2::deferred::AccessTimesUpdates;
use buck2::deferred::AccessTimesUpdatesError;
use buck2::deferred::ArtifactMaterializationMethod;
use buck2::deferred::CasDownloadInfo;
use buck2::deferred::CleanStaleConfig;
use buck2::deferred::CommandStream;
use buck2::deferred::CopiedArtifact;
use buck2::deferred::DeferredMaterializerConfigs;
use buck2::deferred::DeferredMaterializerStats;
use buck2::deferred::HttpDownloadInfo;
use buck2::deferred::LogBuffer;
use buck2::deferred::LowPriorityMaterializerCommand;
use buck2::deferred::MaterializationError;
use buck2::deferred::MaterializationMethod;
use buck2::deferred::MaterializeEntryError;
use buck2::deferred::MaterializeStack;
use buck2::deferred::MaterializerCommand;
use buck2::deferred::MaterializerCounters;
use buck2::deferred::MaterializerSender;
use buck2::deferred::NextOp;
use buck2::deferred::Op;
use buck2::deferred::Processing;
use buck2::deferred::ProcessingFuture;
use buck2::deferred::SharedMaterializingError;
use buck2::deferred::Ticks;
use buck2::deferred::TtlRefreshConfiguration;
use buck2::deferred::Version;
use buck2::deferred::VersionTracker;
use buck2::deferred::WriteFile;
use buck2::file_tree::FileTree;
use buck2::file_tree::TreeNode;
use buck2::materializer_loop::timers;
use buck2::materializer_loop::MaterializerLoop;
use buck2::materializer_loop::OpEffect;
use buck2::materializer_loop::Timer;
use buck2::paths::contains_path;
use buck2::paths::ProjectRelativePathBuf;
use buck2::processor::DeferredMaterializerCommandProcessor;
use buck2::processor::MaterializeCause;
use buck2::processor::MaterializingFuture;
use buck2::processor::Platform;
use buck2::run_loop::clean_stale_request;
use buck2::run_loop::cleaning_error;
use buck2::run_loop::flush_report;
use buck2::run_loop::flushes_on_tick;
use buck2::run_loop::join_all_existing_futs;
use buck2::run_loop::CommandOutcome;
use buck2::run_loop::DeclareBegun;
use buck2::run_loop::FlushDecision;
use buck2::run_loop::FlushResult;
use buck2::run_loop::TaskRun;
use buck2::run_loop::TaskStep;
use buck2::run_loop::TryRecv;
use buck2::run_loop::TtlRefreshes;

fn path(s: &str) -> ProjectRelativePathBuf {
    ProjectRelativePathBuf::from_parts(
        s.split('/').filter(|p| !p.is_empty()).map(|p| p.to_owned()).collect(),
    )
}

fn digest(hash: &str, size: u64) -> TrackedFileDigest {
    TrackedFileDigest { hash: hash.to_owned(), size }
}

fn member(hash: &str, size: u64, is_executable: bool) -> ActionDirectoryMember {
    ActionDirectoryMember::File(FileMetadata { digest: digest(hash, size), is_executable })
}

fn file(hash: &str, size: u64) -> SharedEntry {
    ActionDirectoryEntry::Leaf(member(hash, size, false))
}

fn dir(hash: &str, children: Vec<(&str, SharedEntry)>) -> Arc<ActionSharedDirectory> {
    Arc::new(ActionSharedDirectory {
        fingerprint: digest(hash, 0),
        children: children.into_iter().map(|(n, e)| (n.to_owned(), e)).collect(),
    })
}

fn value(entry: SharedEntry) -> ArtifactValue {
    ArtifactValue { entry, deps: None }
}

fn cas_info() -> Arc<CasDownloadInfo> {
    Arc::new(CasDownloadInfo {
        origin: "action".to_owned(),
        origin_for_not_found: "origin".to_owned(),
    })
}

fn cas() -> Box<ArtifactMaterializationMethod> {
    Box::new(ArtifactMaterializationMethod::CasDownload { info: cas_info() })
}

fn write_method() -> Box<ArtifactMaterializationMethod> {
    Box::new(ArtifactMaterializationMethod::Write(Arc::new(WriteFile {
        compressed_data: vec![1],
        decompressed_size: 2,
        is_executable: false,
    })))
}

fn copy_of(at: &str, src: &str, entry: SharedEntry) -> Box<ArtifactMaterializationMethod> {
    let copied = vec![CopiedArtifact { src: path(src), dest: path(at), dest_entry: entry }];
    let tree = local_copy_tree(&path(at), &copied).unwrap();
    Box::new(ArtifactMaterializationMethod::LocalCopy(tree, copied))
}

fn configs(updates: AccessTimesUpdates) -> DeferredMaterializerConfigs {
    DeferredMaterializerConfigs {
        materialize_final_artifacts: true,
        defer_write_actions: true,
        ttl_refresh: TtlRefreshConfiguration { frequency_ms: 1, min_ttl_ms: 1, enabled: false },
        update_access_times: updates,
        verbose_materializer_log: false,
        clean_stale_config: None,
    }
}

fn processor() -> DeferredMaterializerCommandProcessor {
    let platform = Platform { windows: false, macos: false };
    DeferredMaterializerAccessor::new(&configs(AccessTimesUpdates::Full), platform, false, None).1
}

fn done(p: &mut DeferredMaterializerCommandProcessor, at: &str, version: Version) -> FinishedEffect {
    p.materialization_finished(&path(at), 100, version, &Ok(()))
}

fn failure() -> SharedMaterializingError {
    SharedMaterializingError::Error(Arc::new("bad".to_owned()))
}

#[test]
fn paths_know_their_parts() {
    let p = path("a/b/c");
    assert_eq!(p.depth(), 3);
    assert_eq!(p.display(), "a/b/c");
    assert!(path("a/b").is_prefix_of(&p));
    assert!(!path("a/bc").is_prefix_of(&p));
    assert!(p.overlaps_with(&path("a")));
    assert!(!p.overlaps_with(&path("a/c")));
    assert!(p.ancestor(2).same_as(&path("a/b")));
    assert!(p.rest(1).same_as(&path("b/c")));
    assert!(path("a").join(&path("b/c")).same_as(&p));
    assert!(path("a/b").child(&"c".to_owned()).same_as(&p));
    assert!(ProjectRelativePathBuf::root().is_prefix_of(&p));
    assert!(contains_path(&vec![path("x"), path("a/b/c")], &p));
    assert!(!contains_path(&vec![path("a")], &p));
}

#[test]
fn inserted_value_is_found_and_hides_what_overlaps() {
    let mut tree: FileTree<u32> = FileTree::new();
    tree.insert(path("a/b"), 1);
    tree.insert(path("a/c"), 2);
    assert_eq!(tree.prefix_get(&path("a/b/x")), Some((2, &1)));
    assert_eq!(tree.prefix_get(&path("a")), None);
    assert!(matches!(tree.node(&path("a")), TreeNode::Tree));
    assert!(matches!(tree.node(&path("a/b")), TreeNode::Data));
    assert!(matches!(tree.node(&path("z")), TreeNode::Missing));
    tree.insert(path("a"), 3);
    assert_eq!(tree.size(), 1);
    assert_eq!(tree.prefix_get(&path("a/c")), Some((1, &3)));
    tree.insert(path("a/d"), 4);
    assert_eq!(tree.size(), 1);
    assert_eq!(tree.prefix_get(&path("a/c")), None);
    let i = tree.find(&path("a/d")).unwrap();
    *tree.value_mut(i) = 5;
    assert_eq!(*tree.value(i), 5);
    let removed = tree.remove_path(&path("a"));
    assert_eq!(removed.len(), 1);
    assert_eq!(removed[0].1, 5);
    assert_eq!(tree.size(), 0);
}

#[test]
fn sizes_and_equality_of_entries() {
    let inner = dir("d", vec![("x", file("x", 3)), ("y", file("y", 4))]);
    let outer: SharedEntry = ActionDirectoryEntry::Dir(dir(
        "o",
        vec![
            ("in", ActionDirectoryEntry::Dir(inner)),
            ("z", file("z", 5)),
            ("l", ActionDirectoryEntry::Leaf(ActionDirectoryMember::Symlink("z".to_owned()))),
        ],
    ));
    assert_eq!(calc_output_bytes(&outer), 12);
    assert!(entries_match(&outer, &dupe_entry(&outer)));
    assert!(!entries_match(&outer, &file("z", 5)));
    let metadata = ArtifactMetadata::new(&outer);
    assert_eq!(metadata.size(), 12);
    assert!(metadata.matches_entry(&outer, false));
    assert!(metadata.dupe().matches_entry(&outer, true));
    assert!(!metadata.matches_entry(&ActionDirectoryEntry::Dir(dir("p", vec![])), false));
    let plain = ArtifactMetadata::new(&file("f", 1));
    let executable: SharedEntry = ActionDirectoryEntry::Leaf(member("f", 1, true));
    assert!(!plain.matches_entry(&executable, false));
    assert!(plain.matches_entry(&executable, true));
    assert!(!plain.matches_entry(&file("g", 1), true));
    assert_eq!(plain.size(), 1);
}

#[test]
fn artifacts_below_a_directory() {
    let mut tree: FileTree<u32> = FileTree::new();
    tree.insert(path("a/b"), 1);
    tree.insert(path("c/d"), 2);
    let deps = dir(
        "deps",
        vec![
            ("a", ActionDirectoryEntry::Dir(dir("a", vec![("b", file("b", 1))]))),
            ("c", file("c", 1)),
            ("e", ActionDirectoryEntry::Dir(dir("e", vec![("f", file("f", 1))]))),
        ],
    );
    let found = tree.find_artifacts(&deps);
    assert_eq!(found.len(), 1);
    assert!(found[0].same_as(&path("a/b")));
    let labels: Vec<&str> =
        tree.find_artifacts_for_debug(&deps).iter().map(|(_, f)| found_label(*f)).collect();
    assert!(labels.contains(&"Found"));
    assert!(labels.contains(&"LeafPointsToDir"));
    assert!(labels.contains(&"DirNotFound"));
    assert_eq!(found_label(FoundArtifact::FoundForDir), "FoundForDir");
}

#[test]
fn access_times_configuration() {
    let read = |v: Option<&str>| AccessTimesUpdates::try_new_from_config_value(v);
    assert_eq!(read(None).unwrap(), AccessTimesUpdates::Full);
    assert_eq!(read(Some("")).unwrap(), AccessTimesUpdates::Full);
    assert_eq!(read(Some("full")).unwrap(), AccessTimesUpdates::Full);
    assert_eq!(read(Some("partial")).unwrap(), AccessTimesUpdates::Partial);
    assert_eq!(read(Some("disabled")).unwrap(), AccessTimesUpdates::Disabled);
    let e: AccessTimesUpdatesError = read(Some("no")).unwrap_err();
    assert_eq!(
        e.message(),
        "Invalid value for buckconfig `[buck2] update_access_times`. Got `no`. \
         Expected one of `full`, `partial`  or `disabled`."
    );
    assert_eq!(access_time_update_max_buffer_size(None), 5000);
    assert_eq!(access_time_update_max_buffer_size(Some(3)), 3);
    assert!(flushes_on_tick(AccessTimesUpdates::Full));
    assert!(!flushes_on_tick(AccessTimesUpdates::Partial));
    assert!(!flushes_on_tick(AccessTimesUpdates::Disabled));
}

#[test]
fn counters_and_versions() {
    let mut counters = MaterializerCounters::new();
    counters.ack_sent();
    counters.ack_sent();
    counters.ack_received();
    assert_eq!(counters.queue_size(), 1);
    counters.ack_received();
    counters.ack_received();
    assert_eq!(counters.queue_size(), 0);
    let mut tracker = VersionTracker::new();
    let first = tracker.current();
    assert_eq!(tracker.next(), first);
    assert_ne!(tracker.current(), first);
    let active = Processing::Active {
        future: ProcessingFuture::Cleaning(first),
        version: tracker.current(),
    };
    assert_eq!(active.current_version(), tracker.current());
    assert_eq!(active.into_future(), Some(ProcessingFuture::Cleaning(first)));
    assert_eq!(Processing::Done(first).into_future(), None);
}

#[test]
fn methods_have_names() {
    assert_eq!(cas().display(), "cas download (action: action)");
    assert_eq!(cas().to_proto(), MaterializationMethod::CasDownload);
    assert_eq!(write_method().display(), "write");
    assert_eq!(write_method().to_proto(), MaterializationMethod::Write);
    let copy = copy_of("a", "b", file("x", 1));
    assert_eq!(copy.display(), "local copy");
    assert_eq!(copy.to_proto(), MaterializationMethod::LocalCopy);
    let http = ArtifactMaterializationMethod::HttpDownload {
        info: HttpDownloadInfo {
            url: "http://u".to_owned(),
            metadata: FileMetadata { digest: digest("h", 1), is_executable: false },
        },
    };
    assert_eq!(http.display(), "http download (http://u)");
    assert_eq!(http.to_proto(), MaterializationMethod::HttpDownload);
}

#[test]
fn materialization_errors() {
    let e = MaterializeEntryError::NotFound {
        info: cas_info(),
        debug: Arc::new("d".to_owned()),
        directory: file("x", 1),
    };
    assert_eq!(e.message(), "Artifact not found (digest origin: origin, debug: d)");
    let shared = SharedMaterializingError::from(e);
    match materialization_error(path("p/q"), shared) {
        MaterializationError::NotFound { path: p, debug, .. } => {
            assert!(p.same_as(&path("p/q")));
            assert_eq!(*debug, "d");
        }
        _ => panic!("not found"),
    }
    assert_eq!(MaterializeEntryError::Error("x".to_owned()).message(), "x");
    let shared = SharedMaterializingError::from(MaterializeEntryError::Error("x".to_owned()));
    assert!(matches!(
        materialization_error(path("p"), shared),
        MaterializationError::Error { source, .. } if *source == "x"
    ));
    assert_eq!(CompressError { bytes: 12 }.message(), "Error compressing 12 bytes");
    assert_eq!(
        cleaning_error(&path("a/b"), "why"),
        "Error waiting for a previous future to finish cleaning output path a/b: why"
    );
}

fn no_ticks() -> Ticks {
    Ticks { refresh_ttl: false, io_buffer: false, clean_stale_done: false, clean_stale: false }
}

fn finished_command() -> LowPriorityMaterializerCommand {
    LowPriorityMaterializerCommand::MaterializationFinished {
        path: path("a"),
        timestamp: 0,
        version: Version(0),
        result: Ok(()),
    }
}

#[test]
fn commands_come_before_timers() {
    let mut sender = MaterializerSender::new();
    sender.send_low_priority(finished_command());
    sender.send(MaterializerCommand::Subscription(1));
    assert_eq!(sender.counters.queue_size(), 2);
    let mut stream = CommandStream {
        commands: sender,
        refresh_ttl_ticker: true,
        clean_stale_ticker: true,
        clean_stale_running: true,
    };
    let all = Ticks { refresh_ttl: true, io_buffer: true, clean_stale_done: true, clean_stale: true };
    assert!(matches!(
        stream.poll_next(all),
        NextOp::Ready(Op::Command(MaterializerCommand::Subscription(1)))
    ));
    assert!(matches!(stream.poll_next(all), NextOp::Ready(Op::LowPriorityCommand(_))));
    assert!(matches!(stream.poll_next(all), NextOp::Ready(Op::RefreshTtls)));
    let mut ticks = no_ticks();
    ticks.io_buffer = true;
    assert!(matches!(stream.poll_next(ticks), NextOp::Ready(Op::Tick)));
    ticks = no_ticks();
    ticks.clean_stale = true;
    assert!(matches!(stream.poll_next(ticks), NextOp::Pending));
    ticks.clean_stale_done = true;
    assert!(matches!(stream.poll_next(ticks), NextOp::Pending));
    assert!(!stream.clean_stale_running);
    assert!(matches!(stream.poll_next(ticks), NextOp::Ready(Op::CleanStaleRequest)));
    stream.commands.send(MaterializerCommand::Abort);
    assert!(matches!(stream.poll_next(no_ticks()), NextOp::Finished));
}

#[test]
fn log_buffer_keeps_the_last_items() {
    let mut log = LogBuffer::new(2);
    assert_eq!(log.display(), "");
    for item in ["a", "b", "c"] {
        log.push(item.to_owned());
    }
    assert_eq!(log.display(), "b\nc");
    let mut one = LogBuffer::new(0);
    one.push("a".to_owned());
    one.push("b".to_owned());
    assert_eq!(one.display(), "b");
}

#[test]
fn stacks_are_shown_outermost_first() {
    let (a, b) = (path("a"), path("b/c"));
    let root = MaterializeStack::Empty;
    assert_eq!(root.display(), "(empty)");
    let outer = MaterializeStack::Child(&root, &a);
    let inner = MaterializeStack::Child(&outer, &b);
    assert_eq!(outer.display(), "a");
    assert_eq!(inner.display(), "a -> b/c");
}

#[test]
fn declared_artifact_is_materialized_once() {
    let mut p = processor();
    let v = p.version_tracker.current();
    assert!(matches!(
        p.declare(&path("out"), value(file("x", 1)), cas(), false),
        Some(DeclaredWork::Clean(CleanPlan::Now))
    ));
    assert!(p.tree.node(&path("out")) == TreeNode::Data);
    assert!(!p.is_path_materialized(&path("out")));
    let first = p.materialize_artifact(&path("out"), 5, 10).unwrap();
    let again = p.materialize_artifact(&path("out"), 6, 10).unwrap();
    assert_eq!(p.tasks.len(), 1);
    assert_eq!(p.tasks[0].cleaning, Some(v));
    match (&first, &again) {
        (MaterializingFuture::Task(a), MaterializingFuture::Task(b)) => assert_eq!(a, b),
        _ => panic!("both wait for one task"),
    }
    let version = p.tasks[0].version;
    assert!(matches!(done(&mut p, "out", version), FinishedEffect::Materialized(on)
        if on.timestamp == 100 && on.metadata.size() == 1));
    assert!(p.is_path_materialized(&path("out")));
    assert!(p.materialize_artifact(&path("out"), 7, 10).is_none());
    assert!(p.declare(&path("out"), value(file("x", 1)), cas(), false).is_none());
    assert_eq!((p.stats.declares, p.stats.declares_reused), (2, 1));
    assert!(p.declare(&path("out"), value(file("x", 1)), cas(), true).is_some());
    assert!(!p.is_path_materialized(&path("out")));
}

#[test]
fn stale_and_failed_notifications() {
    let mut p = processor();
    assert!(matches!(done(&mut p, "nowhere", Version(0)), FinishedEffect::Vacant));
    p.declare(&path("out"), value(file("x", 1)), cas(), false);
    p.materialize_artifact(&path("out"), 5, 10);
    let version = p.tasks[0].version;
    p.declare(&path("out"), value(file("y", 1)), cas(), false);
    assert!(matches!(done(&mut p, "out", version), FinishedEffect::VersionConflict));
    assert!(!p.is_path_materialized(&path("out")));
    p.materialize_artifact(&path("out"), 5, 10);
    let version = p.tasks.last().unwrap().version;
    let effect = p.materialization_finished(&path("out"), 9, version, &Err(failure()));
    assert!(matches!(effect, FinishedEffect::Clean(_)));
    assert!(!p.is_path_materialized(&path("out")));
    assert!(p.has_artifact(&path("out"), 1).0);
}

#[test]
fn write_fast_path_needs_nothing_pending() {
    let mut p = processor();
    assert!(matches!(
        p.declare(&path("w"), value(file("x", 1)), write_method(), false),
        Some(DeclaredWork::Write(w)) if w.decompressed_size == 2
    ));
    assert!(matches!(
        p.declare(&path("w"), value(file("x", 1)), write_method(), false),
        Some(DeclaredWork::Clean(CleanPlan::After(existing))) if !existing.is_empty()
    ));
    p.platform.macos = true;
    assert!(matches!(
        p.declare(&path("other"), value(file("x", 1)), write_method(), false),
        Some(DeclaredWork::Clean(CleanPlan::Now))
    ));
}

#[test]
fn copies_wait_for_their_sources() {
    let mut p = processor();
    p.declare(&path("src"), value(file("x", 1)), cas(), false);
    p.declare(&path("dst"), value(file("x", 1)), copy_of("dst", "src", file("x", 1)), false);
    assert!(p.materialize_artifact(&path("dst"), 1, 10).is_some());
    assert_eq!(p.tasks.len(), 2);
    assert!(p.tasks[0].path.same_as(&path("src")));
    assert!(p.tasks[1].path.same_as(&path("dst")));
    assert_eq!(p.tasks[1].deps_tasks.len(), 1);
    let mut shallow = processor();
    shallow.declare(&path("src"), value(file("x", 1)), cas(), false);
    assert!(matches!(
        shallow.materialize_artifact(&path("src"), 1, 0),
        Some(MaterializingFuture::Failed(MaterializeCause::StackOverflow, _))
    ));
}

#[test]
fn links_are_materialized_too() {
    let mut p = processor();
    p.declare(&path("target"), value(file("t", 1)), cas(), false);
    let link = ArtifactValue {
        entry: ActionDirectoryEntry::Leaf(ActionDirectoryMember::Symlink("target".to_owned())),
        deps: Some(dir("deps", vec![("target", file("t", 1))])),
    };
    p.declare(&path("link"), link, cas(), false);
    p.materialize_artifact(&path("link"), 1, 10);
    let task = p.tasks.last().unwrap();
    assert!(task.path.same_as(&path("link")));
    assert_eq!(task.link_deps_tasks.len(), 1);
    let run = TaskRun::new(task, false);
    assert_eq!(
        run.steps,
        vec![TaskStep::AwaitCleaning(task.cleaning.unwrap()), TaskStep::Materialize, TaskStep::AwaitLink(0)]
    );
    let run = TaskRun::new(task, true);
    assert_eq!(
        run.steps,
        vec![TaskStep::AwaitCleaning(task.cleaning.unwrap()), TaskStep::AwaitLink(0), TaskStep::Materialize]
    );
}

#[test]
fn first_failed_step_ends_a_task() {
    let mut p = processor();
    p.declare(&path("out"), value(file("x", 1)), cas(), false);
    p.materialize_artifact(&path("out"), 5, 10);
    let task = &p.tasks[0];
    let mut run = TaskRun::new(task, false);
    assert!(matches!(run.next_step(), Some(TaskStep::AwaitCleaning(_))));
    run.report(Ok(()));
    assert!(matches!(run.next_step(), Some(TaskStep::Materialize)));
    run.report(Err(failure()));
    assert!(run.next_step().is_none());
    match run.into_command(task, 7) {
        LowPriorityMaterializerCommand::MaterializationFinished { path: at, timestamp, result, .. } => {
            assert!(at.same_as(&path("out")));
            assert_eq!(timestamp, 7);
            assert!(result.is_err());
        }
        _ => panic!("the task has ended"),
    }
}

#[test]
fn existing_artifacts_match_and_are_present() {
    let mut p = processor();
    p.has_db = true;
    let on = p.declare_existing(&path("d/e"), value(file("x", 1)), 42);
    assert_eq!((on.timestamp, on.metadata.size()), (42, 1));
    assert_eq!(on.error_name, "materializer_declare_existing_error");
    assert_eq!(p.has_artifact(&path("d/e"), 50), (true, true));
    assert_eq!(p.has_artifact(&path("d"), 50), (false, false));
    assert!(p.match_artifact(&path("d/e"), &value(file("x", 1))));
    assert!(!p.match_artifact(&path("d/e"), &value(file("y", 1))));
    assert!(!p.match_artifacts(&vec![
        (path("d/e"), value(file("x", 1))),
        (path("nowhere"), value(file("x", 1))),
    ]));
    assert!(p.match_artifacts(&vec![]));
}

#[test]
fn cleanup_is_noted_for_its_own_version() {
    let mut p = processor();
    let v = p.version_tracker.current();
    p.declare(&path("out"), value(file("x", 1)), cas(), false);
    let at = path("out");
    assert_eq!(cleanup_finished(&mut p.tree, &path("no"), v, &Ok(())), CleanupOutcome::Vacant);
    assert_eq!(cleanup_finished(&mut p.tree, &at, v, &Err(failure())), CleanupOutcome::Failed);
    p.declare(&at, value(file("y", 1)), cas(), false);
    assert_eq!(
        cleanup_finished(&mut p.tree, &at, v, &Ok(())),
        CleanupOutcome::VersionConflict
    );
    let mut p = processor();
    let v = p.version_tracker.current();
    p.declare(&at, value(file("x", 1)), cas(), false);
    assert_eq!(cleanup_finished(&mut p.tree, &at, v, &Ok(())), CleanupOutcome::Done);
    p.materialize_artifact(&at, 5, 10);
    assert_eq!(p.tasks[0].cleaning, None);
}

#[test]
fn contents_are_found_through_copies() {
    let mut p = processor();
    p.declare_existing(&path("disk"), value(file("x", 1)), 1);
    p.declare(&path("cas"), value(file("c", 1)), cas(), false);
    let tree = ActionDirectoryEntry::Dir(dir("d", vec![("f", file("f", 1))]));
    p.declare(&path("tree"), value(tree), cas(), false);
    p.declare(&path("c1"), value(file("x", 1)), copy_of("c1", "disk", file("x", 1)), false);
    p.declare(&path("c2"), value(file("x", 1)), copy_of("c2", "c1", file("x", 1)), false);
    p.declare(&path("w"), value(file("x", 1)), write_method(), false);
    let at = |s: &str| file_contents_path(&p.tree, path(s));
    assert!(at("disk").ok().unwrap().same_as(&path("disk")));
    assert!(at("unknown").ok().unwrap().same_as(&path("unknown")));
    assert!(at("c2").ok().unwrap().same_as(&path("disk")));
    assert!(reaches_contents(&p.tree, &path("c2"), 2));
    assert!(!reaches_contents(&p.tree, &path("c2"), 1));
    assert!(!reaches_contents(&p.tree, &path("c1/below"), 9));
    assert!(reaches_contents(&p.tree, &path("unknown"), 0));
    assert!(matches!(
        at("cas"),
        Err(ArtifactNotMaterializedReason::RequiresCasDownload { path: q, .. })
            if q.same_as(&path("cas"))
    ));
    assert!(matches!(
        at("w"),
        Err(ArtifactNotMaterializedReason::RequiresMaterialization { path: q })
            if q.same_as(&path("w"))
    ));
    assert!(matches!(
        at("tree/f"),
        Err(ArtifactNotMaterializedReason::RequiresCasDownload { entry, .. })
            if entries_match(&entry, &file("f", 1))
    ));
    assert!(matches!(
        at("tree/g"),
        Err(ArtifactNotMaterializedReason::DeferredMaterializerCorruption { .. })
    ));
}

#[test]
fn restored_artifacts_are_not_active() {
    let tree = initialize(Some(vec![RestoredArtifact {
        path: path("a"),
        metadata: ArtifactMetadata::new(&file("x", 9)),
        last_access_time: 3,
    }]));
    assert_eq!(tree.size(), 1);
    assert_eq!(initialize(None).size(), 0);
}

#[test]
fn invalidated_paths_are_forgotten() {
    let mut p = processor();
    p.declare(&path("a/b"), value(file("x", 1)), cas(), false);
    p.declare_existing(&path("c"), value(file("x", 1)), 1);
    let outcome = p.process_one_command(
        MaterializerCommand::InvalidateFilePaths(vec![path("a"), path("c")]),
        1,
        10,
        false,
    );
    match outcome {
        CommandOutcome::Invalidated(i) => {
            assert_eq!(i.paths.len(), 2);
            assert_eq!(i.futures.len(), 1);
            assert!(i.futures[0].0.same_as(&path("a/b")));
        }
        _ => panic!("paths were invalidated"),
    }
    assert_eq!(p.has_artifact(&path("c"), 1), (false, false));
}

#[test]
fn every_command_has_its_outcome() {
    let mut p = processor();
    let existing = MaterializerCommand::DeclareExisting(vec![(path("a"), value(file("x", 1)))]);
    assert!(matches!(
        p.process_one_command(existing, 1, 10, false),
        CommandOutcome::Existing(v) if v.len() == 1
    ));
    let paths = MaterializerCommand::GetMaterializedFilePaths(vec![path("a")]);
    assert!(matches!(
        p.process_one_command(paths, 1, 10, false),
        CommandOutcome::FilePaths(v) if v.len() == 1 && v[0].is_ok()
    ));
    let same = MaterializerCommand::Declare(path("a"), value(file("x", 1)), cas());
    assert!(matches!(
        p.process_one_command(same, 1, 10, false),
        CommandOutcome::Declare(_, DeclareBegun::Reused)
    ));
    let other = MaterializerCommand::Declare(path("a"), value(file("y", 1)), cas());
    assert!(matches!(
        p.process_one_command(other, 1, 10, false),
        CommandOutcome::Declare(_, DeclareBegun::Continue { .. })
    ));
    assert!(matches!(
        p.process_one_command(MaterializerCommand::MatchArtifacts(vec![]), 1, 10, false),
        CommandOutcome::Matched(true)
    ));
    assert!(matches!(
        p.process_one_command(MaterializerCommand::HasArtifact(path("z")), 1, 10, false),
        CommandOutcome::HasArtifact(false, false)
    ));
    p.declare(&path("e"), value(file("x", 1)), cas(), false);
    assert!(matches!(
        p.process_one_command(MaterializerCommand::Ensure(vec![path("e"), path("z")]), 1, 10, false),
        CommandOutcome::Ensured(v) if v.len() == 1 && v[0].0.same_as(&path("e"))
    ));
    assert!(matches!(
        p.process_one_command(MaterializerCommand::Subscription(4), 1, 10, false),
        CommandOutcome::Subscription(4)
    ));
    assert!(matches!(
        p.process_one_command(MaterializerCommand::Extension(5), 1, 10, false),
        CommandOutcome::Extension(5)
    ));
    assert!(matches!(
        p.process_one_low_priority_command(&finished_command()),
        Ok(FinishedEffect::Vacant)
    ));
    let cleanup = LowPriorityMaterializerCommand::CleanupFinished {
        path: path("nowhere"),
        version: Version(0),
        result: Ok(()),
    };
    assert!(matches!(p.process_one_low_priority_command(&cleanup), Err(CleanupOutcome::Vacant)));
}

#[test]
fn access_times_are_flushed_when_full() {
    let mut p = processor();
    p.declare_existing(&path("a"), value(file("x", 1)), 1);
    p.materialize_artifact(&path("a"), 2, 10);
    p.materialize_artifact(&path("a"), 3, 10);
    let decision = p.begin_flush_access_times(2);
    assert!(matches!(decision, FlushDecision::NotFull));
    assert_eq!(
        flush_report(&decision, FlushResult::DbError),
        "Access times buffer is not full yet"
    );
    let decision = p.begin_flush_access_times(1);
    assert!(matches!(&decision, FlushDecision::Flush(v) if v.len() == 1));
    assert_eq!(
        flush_report(&decision, FlushResult::Finished { elapsed_ms: 7 }),
        "Finished flushing 1 entries in 7 ms"
    );
    assert_eq!(
        flush_report(&decision, FlushResult::DbError),
        "Found error while updating access times in sqlite db"
    );
    assert!(matches!(p.begin_flush_access_times(1), FlushDecision::NotFull));
    p.access_times_buffer = None;
    let decision = p.begin_flush_access_times(0);
    assert!(matches!(decision, FlushDecision::Disabled));
    assert_eq!(
        flush_report(&decision, FlushResult::DbError),
        "Access time updates are disabled. Consider removing `update_access_times = false` \
         from your .buckconfig"
    );
}

#[test]
fn ttl_refreshes_run_one_at_a_time() {
    let mut t = TtlRefreshes { history: vec![], running: false };
    assert!(t.start(true, 1));
    assert!(t.running);
    t.poll_current_ttl_refresh(TryRecv::Empty, 2);
    assert!(t.running);
    t.poll_current_ttl_refresh(TryRecv::Done(3, Err("e".to_owned())), 4);
    assert!(!t.running);
    assert_eq!(t.history.len(), 1);
    assert_eq!(t.history[0].at, 3);
    assert_eq!(t.history[0].outcome, Some(Err("e".to_owned())));
}

#[test]
fn stale_artifacts_are_older_than_their_time() {
    assert!(clean_stale_request(&None, 100).is_none());
    let config = CleanStaleConfig {
        clean_period_ms: 1,
        artifact_ttl_ms: 30,
        start_offset_ms: 0,
        dry_run: true,
    };
    let command = clean_stale_request(&Some(config), 100).unwrap();
    assert_eq!((command.keep_since_time, command.dry_run, command.tracked_only), (70, true, false));
}

#[test]
fn first_failed_future_is_reported() {
    let futures = vec![
        (path("a"), ProcessingFuture::Cleaning(Version(1))),
        (path("b"), ProcessingFuture::Cleaning(Version(2))),
    ];
    let outcomes = vec![Ok(()), Err("e".to_owned())];
    assert_eq!(
        join_all_existing_futs(&futures, &outcomes),
        Err("Error waiting for a previous future to finish cleaning output path b: e".to_owned())
    );
    assert_eq!(join_all_existing_futs(&futures, &vec![Ok(()), Ok(())]), Ok(()));
    let futures = vec![
        (path("a"), ProcessingFuture::Materializing(Version(1))),
        (path("b"), ProcessingFuture::Cleaning(Version(2))),
    ];
    let outcomes = vec![Err("m".to_owned()), Err("c".to_owned())];
    assert_eq!(join_all_existing_futs(&futures, &outcomes), Err("m".to_owned()));
}

fn accessor() -> DeferredMaterializerAccessor {
    let platform = Platform { windows: false, macos: false };
    DeferredMaterializerAccessor::new(
        &configs(AccessTimesUpdates::Partial),
        platform,
        false,
        Some(vec![RestoredArtifact {
            path: path("r"),
            metadata: ArtifactMetadata::new(&file("x", 9)),
            last_access_time: 3,
        }]),
    )
    .0
}

fn queued(a: &DeferredMaterializerAccessor) -> &VecDeque<MaterializerCommand> {
    &a.command_sender.high_priority
}

#[test]
fn writes_are_declared_compressed() {
    let mut a = accessor();
    assert_eq!(a.num_entries_from_sqlite, 1);
    assert_eq!(a.name(), "deferred");
    let content = vec![7u8; 3000];
    let requests =
        vec![WriteRequest { path: path("w"), content: content.clone(), is_executable: true }];
    let values = a.declare_write(&requests, &vec![digest("h", 3000)]).unwrap().unwrap();
    assert_eq!(values.len(), 1);
    let expected: SharedEntry = ActionDirectoryEntry::Leaf(member("h", 3000, true));
    assert!(entries_match(&values[0].entry, &expected));
    match &queued(&a)[0] {
        MaterializerCommand::Declare(p, _, method) => {
            assert!(p.same_as(&path("w")));
            match &**method {
                ArtifactMaterializationMethod::Write(w) => {
                    assert!(w.compressed_data.len() < 200);
                    assert_eq!(w.decompressed_size, 3000);
                    assert!(w.is_executable);
                    let back =
                        zstd::bulk::decompress(&w.compressed_data, w.decompressed_size).unwrap();
                    assert_eq!(back, content);
                }
                _ => panic!("a write"),
            }
        }
        _ => panic!("a declaration"),
    }
    a.defer_write_actions = false;
    assert!(a.declare_write(&requests, &vec![digest("h", 3000)]).unwrap().is_none());
    assert_eq!(queued(&a).len(), 1);
    assert!(accessor().declare_write(&vec![], &vec![]).unwrap().unwrap().is_empty());
}

#[test]
fn nothing_is_declared_where_a_content_cannot_be_compressed() {
    let mut a = accessor();
    let request = |name: &str, len: usize| WriteRequest {
        path: path(name),
        content: vec![0u8; len],
        is_executable: false,
    };
    let requests = vec![request("a", 1), request("b", 2), request("c", 3)];
    let digests = vec![digest("x", 1), digest("y", 2), digest("z", 3)];
    let r = a.declare_compressed(&requests, &digests, vec![Some(vec![1]), None, None]);
    assert_eq!(r.err().map(|e| e.bytes), Some(2));
    assert!(queued(&a).is_empty());
    let r = a.declare_compressed(&requests, &digests, vec![Some(vec![1]); 3]);
    assert_eq!(r.unwrap().len(), 3);
    assert_eq!(queued(&a).len(), 3);
}

#[test]
fn a_front_that_goes_away_ends_the_loop() {
    let mut a = accessor();
    a.has_artifact_at(path("a"));
    a.abort();
    a.has_artifact_at(path("b"));
    assert!(matches!(queued(&a)[1], MaterializerCommand::Abort));
    let mut l = materializer_loop(AccessTimesUpdates::Full);
    l.stream.commands = a.command_sender;
    let ticks = Ticks {
        refresh_ttl: false,
        io_buffer: false,
        clean_stale_done: false,
        clean_stale: false,
    };
    assert!(matches!(
        l.stream.poll_next(ticks),
        NextOp::Ready(Op::Command(MaterializerCommand::HasArtifact(_)))
    ));
    assert!(matches!(l.stream.poll_next(ticks), NextOp::Finished));
}

#[test]
fn declarations_are_sent() {
    let mut a = accessor();
    a.declare_cas_many(
        cas_info(),
        vec![(path("a"), value(file("x", 1))), (path("b"), value(file("y", 1)))],
    );
    assert_eq!(queued(&a).len(), 2);
    a.declare_http(
        path("h"),
        HttpDownloadInfo {
            url: "u".to_owned(),
            metadata: FileMetadata { digest: digest("h", 4), is_executable: true },
        },
    );
    assert!(matches!(&queued(&a)[2], MaterializerCommand::Declare(_, v, _)
        if calc_output_bytes(&v.entry) == 4));
    let tree: SharedEntry =
        ActionDirectoryEntry::Dir(dir("d", vec![("f", file("x", 1)), ("g", file("y", 1))]));
    let copied = vec![CopiedArtifact {
        src: path("src"),
        dest: path("out/sub"),
        dest_entry: dupe_entry(&tree),
    }];
    assert!(a.declare_copy(path("out"), value(tree), copied).is_ok());
    match &queued(&a)[3] {
        MaterializerCommand::Declare(_, _, method) => match &**method {
            ArtifactMaterializationMethod::LocalCopy(srcs, _) => {
                assert_eq!(srcs.size(), 2);
                let i = srcs.find(&path("sub/g")).unwrap();
                assert!(srcs.value(i).same_as(&path("src/g")));
            }
            _ => panic!("a copy"),
        },
        _ => panic!("a declaration"),
    }
    let elsewhere =
        vec![CopiedArtifact { src: path("s"), dest: path("other"), dest_entry: file("x", 1) }];
    let refused = a.declare_copy(path("out"), value(file("x", 1)), elsewhere);
    assert_eq!(refused.unwrap_err().index, 0);
    assert_eq!(queued(&a).len(), 4);
    assert!(!a.get_materialized_file_paths(vec![]));
    assert!(a.get_materialized_file_paths(vec![path("a")]));
    assert!(a.try_materialize_final_artifact(path("final")));
    assert!(matches!(&queued(&a)[5], MaterializerCommand::Ensure(v)
        if v.len() == 1 && v[0].same_as(&path("final"))));
    a.materialize_final_artifacts = false;
    assert!(!a.try_materialize_final_artifact(path("final")));
    a.declare_existing(vec![(path("e"), value(file("x", 1)))]);
    a.declare_match(vec![(path("e"), value(file("x", 1)))]);
    a.has_artifact_at(path("e"));
    a.invalidate_many(vec![path("e")]);
    a.materialize_many(vec![path("e"), path("f")]);
    assert!(matches!(&queued(&a)[6], MaterializerCommand::DeclareExisting(v) if v.len() == 1));
    assert!(matches!(&queued(&a)[7], MaterializerCommand::MatchArtifacts(v) if v.len() == 1));
    assert!(matches!(&queued(&a)[8], MaterializerCommand::HasArtifact(_)));
    assert!(matches!(&queued(&a)[9], MaterializerCommand::InvalidateFilePaths(v) if v.len() == 1));
    assert!(matches!(&queued(&a)[10], MaterializerCommand::Ensure(v) if v.len() == 2));
    let snapshot =
        a.add_snapshot_stats(&DeferredMaterializerStats { declares: 3, declares_reused: 2 });
    assert_eq!(snapshot.deferred_materializer_declares, 3);
    assert_eq!(snapshot.deferred_materializer_declares_reused, 2);
    assert_eq!(snapshot.deferred_materializer_queue_size, 11);
}

fn materializer_loop(updates: AccessTimesUpdates) -> MaterializerLoop {
    let mut configs = configs(updates);
    configs.ttl_refresh.enabled = true;
    configs.clean_stale_config = Some(CleanStaleConfig {
        clean_period_ms: 1000,
        artifact_ttl_ms: 30,
        start_offset_ms: 10,
        dry_run: false,
    });
    let platform = Platform { windows: false, macos: false };
    let (accessor, processor) = DeferredMaterializerAccessor::new(&configs, platform, false, None);
    MaterializerLoop::new(processor, accessor.command_sender, &configs, 1)
}

#[test]
fn timers_follow_the_configuration() {
    let none = TtlRefreshConfiguration { frequency_ms: 7, min_ttl_ms: 1, enabled: false };
    let t = timers(&none, &None);
    assert_eq!((t.refresh_ttl, t.clean_stale), (None, None));
    assert_eq!(t.io_buffer, Timer { first_ms: 0, period_ms: 5000 });
    let some = TtlRefreshConfiguration { enabled: true, ..none };
    let clean = CleanStaleConfig {
        clean_period_ms: 2,
        artifact_ttl_ms: 3,
        start_offset_ms: 4,
        dry_run: false,
    };
    let t = timers(&some, &Some(clean));
    assert_eq!(t.refresh_ttl, Some(Timer { first_ms: 7, period_ms: 7 }));
    assert_eq!(t.clean_stale, Some(Timer { first_ms: 4, period_ms: 2 }));
}

#[test]
fn the_loop_deals_with_commands() {
    let mut l = materializer_loop(AccessTimesUpdates::Full);
    let run = |l: &mut MaterializerLoop, command| {
        l.run(Op::Command(command), "shown".to_owned(), 5, 10, false)
    };
    let declare = MaterializerCommand::Declare(path("out"), value(file("x", 1)), cas());
    let begun = match run(&mut l, declare) {
        OpEffect::Command(CommandOutcome::Declare(at, begun)) => {
            assert!(at.same_as(&path("out")));
            begun
        }
        _ => panic!("a declaration"),
    };
    assert_eq!(l.processor.log_buffer.display(), "shown");
    let existing = match begun {
        DeclareBegun::Continue { version, invalidated, value, method } => {
            assert!(invalidated.paths.is_empty());
            let existing = invalidated.into_existing(Ok(()));
            assert!(existing.is_empty());
            let empty = Invalidated { paths: vec![], futures: vec![] };
            let begun = DeclareBegun::Continue { version, invalidated: empty, value, method };
            (begun, existing)
        }
        DeclareBegun::Reused => panic!("nothing was there"),
    };
    let (work, future) =
        l.end_declaration(&path("out"), existing.0, existing.1, true, 5, 10);
    assert!(matches!(work, Some(DeclaredWork::Clean(CleanPlan::Now))));
    assert!(matches!(future, Some(MaterializingFuture::Task(_))));
    assert!(matches!(l.end_command(true), Some(FlushDecision::NotFull)));
    assert_eq!(l.stream.commands.counters.received, 1);
    let version = l.processor.tasks[0].version;
    let ended = LowPriorityMaterializerCommand::MaterializationFinished {
        path: path("out"),
        timestamp: 6,
        version,
        result: Ok(()),
    };
    let effect = l.run(Op::LowPriorityCommand(ended), "ended".to_owned(), 6, 10, false);
    assert!(matches!(effect, OpEffect::Notified(Ok(FinishedEffect::Materialized(_)))));
    assert!(l.end_command(false).is_none());
    assert_eq!(l.processor.log_buffer.display(), "shown\nended");
    let reused =
        l.end_declaration(&path("out"), DeclareBegun::Reused, ExistingFutures::empty(), false, 7, 10);
    assert!(reused.0.is_none() && reused.1.is_none());
    l.processor.materialize_artifact(&path("out"), 8, 10);
    assert!(matches!(l.end_command(true), Some(FlushDecision::Flush(v)) if v.len() == 1));
}

#[test]
fn the_loop_deals_with_timers() {
    let run = |l: &mut MaterializerLoop, op| l.run(op, "".to_owned(), 100, 10, false);
    let mut full = materializer_loop(AccessTimesUpdates::Full);
    assert!(matches!(run(&mut full, Op::Tick), OpEffect::Flush(FlushDecision::Flush(_))));
    let mut partial = materializer_loop(AccessTimesUpdates::Partial);
    assert!(matches!(run(&mut partial, Op::Tick), OpEffect::Nothing));
    assert!(matches!(
        run(&mut partial, Op::CleanStaleRequest),
        OpEffect::CleanStale(c) if c.keep_since_time == 70
    ));
    assert!(partial.stream.clean_stale_running);
    partial.clean_stale_config = None;
    assert!(matches!(run(&mut partial, Op::CleanStaleRequest), OpEffect::CleanNotConfigured));
    assert!(matches!(run(&mut partial, Op::RefreshTtls), OpEffect::RefreshTtls));
    assert!(partial.poll_ttl_refresh(TryRecv::Empty, 1));
    assert!(partial.ttl_refreshes.start(true, 1));
    assert!(!partial.poll_ttl_refresh(TryRecv::Empty, 2));
    assert!(partial.poll_ttl_refresh(TryRecv::Closed, 3));
    assert_eq!(partial.ttl_refreshes.history[0].outcome, Some(Err("Shutdown".to_owned())));
    let failed = Invalidated { paths: vec![], futures: vec![] }.into_existing(Err("db".to_owned()));
    assert_eq!(
        failed.into_result().err(),
        Some("Error invalidating paths in materializer state: db".to_owned())
    );
}
