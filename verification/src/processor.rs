//! The command processor of the deferred materializer: what each command does to the state,
//! and which work it starts.
use std::sync::Arc;
use vstd::prelude::*;
use vstd::string::*;

use crate::artifact;
use crate::artifact::ActionDirectoryEntry;
use crate::artifact::ActionSharedDirectory;
use crate::artifact::SharedEntry;
use crate::deferred;
use crate::deferred::ArtifactMaterializationData;
use crate::deferred::ArtifactMaterializationMethod;
use crate::deferred::ArtifactMaterializationStage;
use crate::deferred::DeferredMaterializerStats;
use crate::deferred::LogBuffer;
use crate::deferred::MaterializeStack;
use crate::deferred::Processing;
use crate::deferred::ProcessingFuture;
use crate::deferred::Version;
use crate::deferred::VersionTracker;
use crate::file_tree;
use crate::file_tree::FileTree;
use crate::paths;
use crate::paths::contains_path;
use crate::paths::PathView;
use crate::paths::ProjectRelativePathBuf;
use crate::text;

verus! {

/// Tree that stores materialization data for each artifact.
pub type ArtifactTree = FileTree<ArtifactMaterializationData>;

/// The mathematical form of an artifact tree.
pub type TreeView = Map<PathView, ArtifactMaterializationData>;

/// Why work on an artifact was not started.
#[derive(Clone, Copy, Debug, PartialEq, Eq, Structural)]
pub enum MaterializeCause {
    /// Artifacts depend on each other to a depth for which there is no room.
    StackOverflow,
    /// There is no version left to name the work by.
    VersionsExhausted,
}

/// Work on an artifact that one can wait for.
#[derive(Debug)]
pub enum MaterializingFuture {
    /// The work that was started at this version.
    Task(Version),
    /// Work that failed before it was started, with what was being materialized.
    Failed(MaterializeCause, String),
}

/// The mathematical form of `MaterializingFuture`.
pub enum FutureView {
    Task(Version),
    Failed(MaterializeCause, Seq<char>),
}

impl View for MaterializingFuture {
    type V = FutureView;

    open spec fn view(&self) -> FutureView {
        match *self {
            MaterializingFuture::Task(v) => FutureView::Task(v),
            MaterializingFuture::Failed(cause, context) => FutureView::Failed(cause, context@),
        }
    }
}

/// The mathematical forms of `futures`, in order.
pub open spec fn future_views(futures: Seq<MaterializingFuture>) -> Seq<FutureView> {
    Seq::new(futures.len(), |i: int| futures[i]@)
}

/// A task to await others and then put one artifact on disk.
pub struct MaterializeTask {
    pub path: ProjectRelativePathBuf,
    pub version: Version,
    /// The clean-up of the path that has to end first.
    pub cleaning: Option<Version>,
    /// What the artifact is copied from.
    pub deps_tasks: Vec<MaterializingFuture>,
    pub entry_and_method: Option<(SharedEntry, Arc<ArtifactMaterializationMethod>)>,
    /// What the links of the artifact point to.
    pub link_deps_tasks: Vec<MaterializingFuture>,
}

/// The mathematical form of `MaterializeTask`.
#[verifier::ext_equal]
pub struct TaskView {
    pub path: PathView,
    pub version: Version,
    pub cleaning: Option<Version>,
    pub deps_tasks: Seq<FutureView>,
    pub entry_and_method: Option<(SharedEntry, Arc<ArtifactMaterializationMethod>)>,
    pub link_deps_tasks: Seq<FutureView>,
}

impl View for MaterializeTask {
    type V = TaskView;

    open spec fn view(&self) -> TaskView {
        TaskView {
            path: self.path@,
            version: self.version,
            cleaning: self.cleaning,
            deps_tasks: future_views(self.deps_tasks@),
            entry_and_method: self.entry_and_method,
            link_deps_tasks: future_views(self.link_deps_tasks@),
        }
    }
}

/// The mathematical forms of `tasks`, in order.
pub open spec fn task_views(tasks: Seq<MaterializeTask>) -> Seq<TaskView> {
    Seq::new(tasks.len(), |i: int| tasks[i]@)
}

/// The platform that decides between ways of doing the same.
#[derive(Clone, Copy, Debug)]
pub struct Platform {
    pub windows: bool,
    pub macos: bool,
}

/// The state of the command loop.
pub struct DeferredMaterializerCommandProcessor {
    /// Whether the state is kept in a database too.
    pub has_db: bool,
    pub platform: Platform,
    pub defer_write_actions: bool,
    pub log_buffer: LogBuffer,
    /// Keeps track of versions so that late notifications do not clobber newer state.
    pub version_tracker: VersionTracker,
    pub tree: ArtifactTree,
    pub stats: DeferredMaterializerStats,
    pub access_times_buffer: Option<Vec<ProjectRelativePathBuf>>,
    pub verbose_materializer_log: bool,
    /// Tasks that have been planned and wait to be spawned.
    pub tasks: Vec<MaterializeTask>,
}

/// The part of the state that materializing changes.
#[verifier::ext_equal]
pub struct MaterializerState {
    pub tree: TreeView,
    pub version: u64,
    pub buffer: Option<Set<PathView>>,
    pub tasks: Seq<TaskView>,
}

/// The set of `paths`.
pub open spec fn path_set(paths: Seq<ProjectRelativePathBuf>) -> Set<PathView> {
    paths::path_views(paths).to_set()
}

/// The tree of a local copy is well formed.
pub open spec fn method_wf(method: ArtifactMaterializationMethod) -> bool {
    match method {
        ArtifactMaterializationMethod::LocalCopy(srcs, _) => srcs.wf(),
        _ => true,
    }
}

/// The size of what is declared can be computed, and its method is well formed.
pub open spec fn stage_wf(stage: ArtifactMaterializationStage) -> bool {
    match stage {
        ArtifactMaterializationStage::Declared { entry, method } => artifact::entry_bytes(entry)
            <= u64::MAX && method_wf(*method),
        ArtifactMaterializationStage::Materialized { .. } => true,
    }
}

/// Everything that is declared is well formed.
pub open spec fn stages_wf(tree: TreeView) -> bool {
    forall|k: PathView| #[trigger] tree.contains_key(k) ==> stage_wf(tree[k].stage)
}

/// What has to be materialized before an artifact in this stage: the sources of a local copy.
pub open spec fn copy_sources(stage: ArtifactMaterializationStage) -> Seq<PathView> {
    match stage {
        ArtifactMaterializationStage::Declared { method, .. } => match *method {
            ArtifactMaterializationMethod::LocalCopy(_, copied) => Seq::new(
                copied@.len(),
                |i: int| copied@[i].src@,
            ),
            _ => Seq::empty(),
        },
        _ => Seq::empty(),
    }
}

/// The artifacts that the links of an artifact point to.
pub open spec fn link_targets(
    tree: TreeView,
    deps: Option<Arc<ActionSharedDirectory>>,
) -> Seq<PathView> {
    match deps {
        None => Seq::empty(),
        Some(d) => artifact::artifact_paths(
            artifact::walk_deps(tree, ActionDirectoryEntry::Dir(d), Seq::<Seq<char>>::empty()),
        ),
    }
}

/// The entry and the method of an artifact that is not on disk.
pub open spec fn entry_and_method(stage: ArtifactMaterializationStage) -> Option<
    (SharedEntry, Arc<ArtifactMaterializationMethod>),
> {
    match stage {
        ArtifactMaterializationStage::Declared { entry, method } => Some((entry, method)),
        ArtifactMaterializationStage::Materialized { .. } => None,
    }
}

/// The clean-up that is going on.
pub open spec fn cleaning_of(processing: Processing) -> Option<Version> {
    match processing {
        Processing::Active { future: ProcessingFuture::Cleaning(v), .. } => Some(v),
        _ => None,
    }
}

/// `data` with another time of last access.
pub open spec fn touched(data: ArtifactMaterializationData, now: i64) -> ArtifactMaterializationData {
    ArtifactMaterializationData {
        stage: match data.stage {
            ArtifactMaterializationStage::Materialized {
                metadata,
                active,
                ..
            } => ArtifactMaterializationStage::Materialized {
                metadata,
                last_access_time: now,
                active,
            },
            other => other,
        },
        ..data
    }
}

/// What materializing the artifact at or above `path` does to the state, and what there is to
/// wait for. `frames` are the paths for the sake of which this happens, the last of them `path`;
/// `depth` bounds how deep artifacts may depend on each other.
///
/// - Nothing is known at the path: nothing happens.
/// - Work is going on: wait for that.
/// - The artifact is on disk and has no links: note that it was used.
/// - Otherwise what it is copied from and what its links point to is materialized, and a task is
///   planned that waits for those.
pub open spec fn materialize_inner(
    s: MaterializerState,
    now: i64,
    frames: Seq<PathView>,
    path: PathView,
    depth: nat,
) -> (MaterializerState, Result<Option<FutureView>, MaterializeCause>)
    decreases depth, 0int, 0int,
{
    if depth == 0 {
        (s, Err(MaterializeCause::StackOverflow))
    } else {
        match file_tree::owner(s.tree, path) {
            None => (s, Ok(None)),
            Some(key) => {
                let data = s.tree[key];
                if let Processing::Active {
                    future: ProcessingFuture::Materializing(v),
                    ..
                } = data.processing {
                    (s, Ok(Some(FutureView::Task(v))))
                } else if data.stage is Materialized && data.deps is None {
                    match s.buffer {
                        Some(buffer) => (
                            MaterializerState {
                                tree: s.tree.insert(key, touched(data, now)),
                                buffer: Some(buffer.insert(key)),
                                ..s
                            },
                            Ok(None),
                        ),
                        None => (s, Ok(None)),
                    }
                } else if s.version == u64::MAX {
                    (s, Err(MaterializeCause::VersionsExhausted))
                } else {
                    let version = Version(s.version);
                    let s1 = MaterializerState { version: (s.version + 1) as u64, ..s };
                    let (s2, deps_tasks) = materialize_all(
                        s1,
                        now,
                        frames.push(key),
                        copy_sources(data.stage),
                        (depth - 1) as nat,
                    );
                    let (s3, link_deps_tasks) = materialize_all(
                        s2,
                        now,
                        frames.push(key),
                        link_targets(s2.tree, data.deps),
                        (depth - 1) as nat,
                    );
                    let task = TaskView {
                        path: key,
                        version,
                        cleaning: cleaning_of(data.processing),
                        deps_tasks,
                        entry_and_method: entry_and_method(data.stage),
                        link_deps_tasks,
                    };
                    let active = ArtifactMaterializationData {
                        processing: Processing::Active {
                            future: ProcessingFuture::Materializing(version),
                            version,
                        },
                        ..s3.tree[key]
                    };
                    (
                        MaterializerState {
                            tree: s3.tree.insert(key, active),
                            tasks: s3.tasks.push(task),
                            ..s3
                        },
                        Ok(Some(FutureView::Task(version))),
                    )
                }
            },
        }
    }
}

/// As `materialize_inner`, with a failure turned into something to wait for that fails.
pub open spec fn materialize_recurse(
    s: MaterializerState,
    now: i64,
    frames: Seq<PathView>,
    path: PathView,
    depth: nat,
) -> (MaterializerState, Option<FutureView>)
    decreases depth, 1int, 0int,
{
    let inside = frames.push(path);
    let (s2, r) = materialize_inner(s, now, inside, path, depth);
    match r {
        Ok(future) => (s2, future),
        Err(cause) => (
            s2,
            Some(FutureView::Failed(cause, "materializing "@ + deferred::stack_text(inside))),
        ),
    }
}

/// Materializes several artifacts one after the other.
pub open spec fn materialize_all(
    s: MaterializerState,
    now: i64,
    frames: Seq<PathView>,
    paths: Seq<PathView>,
    depth: nat,
) -> (MaterializerState, Seq<FutureView>)
    decreases depth, 2int, paths.len(),
{
    if paths.len() == 0 {
        (s, Seq::empty())
    } else {
        let (s1, futures) = materialize_all(s, now, frames, paths.drop_last(), depth);
        let (s2, future) = materialize_recurse(s1, now, frames, paths.last(), depth);
        match future {
            Some(f) => (s2, futures.push(f)),
            None => (s2, futures),
        }
    }
}

/// Among `tasks`, from number `from` on, is one that puts the artifact `key` on disk at `version`.
pub open spec fn planned_in(tasks: Seq<TaskView>, from: int, key: PathView, version: Version)
    -> bool {
    exists|n: int|
        from <= n < tasks.len() && (#[trigger] tasks[n]).path == key && tasks[n].version == version
}

/// `b` is `a` after some work was started: the same artifacts in the same stages, with at least
/// the same versions and tasks.
pub open spec fn progressed(a: MaterializerState, b: MaterializerState) -> bool {
    &&& a.tree.dom() == b.tree.dom()
    &&& a.version <= b.version
    &&& a.tasks.len() <= b.tasks.len()
    &&& b.tasks.take(a.tasks.len() as int) == a.tasks
    &&& a.buffer is Some <==> b.buffer is Some
    &&& a.buffer is Some ==> a.buffer->0.subset_of(b.buffer->0)
    &&& forall|k: PathView| #[trigger]
        a.tree.contains_key(k) ==> {
            &&& b.tree[k].deps == a.tree[k].deps
            &&& b.tree[k].stage is Declared <==> a.tree[k].stage is Declared
            &&& a.tree[k].stage is Declared ==> b.tree[k].stage == a.tree[k].stage
            &&& a.tree[k].stage is Materialized ==> b.tree[k].stage->metadata
                == a.tree[k].stage->metadata && b.tree[k].stage->active == a.tree[k].stage->active
            &&& b.tree[k].processing != a.tree[k].processing ==> {
                &&& a.version <= deferred::version_of(b.tree[k].processing).0 < b.version
                &&& b.tree[k].processing matches Processing::Active {
                    future: ProcessingFuture::Materializing(v),
                    version,
                } && v == version && planned_in(b.tasks, a.tasks.len() as int, k, v)
            }
        }
    &&& forall|i: int|
        a.tasks.len() <= i < b.tasks.len() ==> a.version <= (#[trigger] b.tasks[i]).version.0
            < b.version
}

pub proof fn lemma_progressed_transitive(
    a: MaterializerState,
    b: MaterializerState,
    c: MaterializerState,
)
    requires
        progressed(a, b),
        progressed(b, c),
    ensures
        progressed(a, c),
{
    assert(c.tasks.take(a.tasks.len() as int) =~= a.tasks) by {
        assert(c.tasks.take(b.tasks.len() as int).take(a.tasks.len() as int) =~= c.tasks.take(
            a.tasks.len() as int,
        ));
    }
    assert forall|k: PathView| #[trigger] a.tree.contains_key(k) implies {
        &&& c.tree[k].deps == a.tree[k].deps
        &&& c.tree[k].stage is Declared <==> a.tree[k].stage is Declared
        &&& a.tree[k].stage is Declared ==> c.tree[k].stage == a.tree[k].stage
        &&& a.tree[k].stage is Materialized ==> c.tree[k].stage->metadata
            == a.tree[k].stage->metadata && c.tree[k].stage->active == a.tree[k].stage->active
        &&& c.tree[k].processing != a.tree[k].processing ==> {
            &&& a.version <= deferred::version_of(c.tree[k].processing).0 < c.version
            &&& c.tree[k].processing matches Processing::Active {
                future: ProcessingFuture::Materializing(v),
                version,
            } && v == version && planned_in(c.tasks, a.tasks.len() as int, k, v)
        }
    } by {
        assert(a.tree.dom().contains(k));
        assert(b.tree.contains_key(k));
        if c.tree[k].processing != a.tree[k].processing {
            let v = deferred::version_of(c.tree[k].processing);
            if c.tree[k].processing == b.tree[k].processing {
                let n = choose|n: int|
                    a.tasks.len() <= n < b.tasks.len() && (#[trigger] b.tasks[n]).path == k
                        && b.tasks[n].version == v;
                assert(c.tasks.take(b.tasks.len() as int)[n] == c.tasks[n]);
                assert(c.tasks[n].path == k);
            } else {
                let n = choose|n: int|
                    b.tasks.len() <= n < c.tasks.len() && (#[trigger] c.tasks[n]).path == k
                        && c.tasks[n].version == v;
                assert(c.tasks[n].path == k);
            }
        }
    }
    assert forall|i: int| a.tasks.len() <= i < c.tasks.len() implies a.version <= (
    #[trigger] c.tasks[i]).version.0 < c.version by {
        if i < b.tasks.len() {
            assert(c.tasks.take(b.tasks.len() as int)[i] == c.tasks[i]);
            assert(b.tasks[i] == c.tasks[i]);
        }
    }
}

proof fn lemma_inner_progresses(
    s: MaterializerState,
    now: i64,
    frames: Seq<PathView>,
    path: PathView,
    depth: nat,
)
    ensures
        progressed(s, materialize_inner(s, now, frames, path, depth).0),
    decreases depth, 0int, 0int,
{
    assert(s.tasks.take(s.tasks.len() as int) =~= s.tasks);
    if depth > 0 {
        if let Some(key) = file_tree::owner(s.tree, path) {
            let data = s.tree[key];
            assert(s.tree.contains_key(key));
            let result = materialize_inner(s, now, frames, path, depth).0;
            if data.processing matches Processing::Active {
                future: ProcessingFuture::Materializing(_),
                ..
            } {
            } else if data.stage is Materialized && data.deps is None {
                assert(result.tree.dom() =~= s.tree.dom());
            } else if s.version < u64::MAX {
                let s1 = MaterializerState { version: (s.version + 1) as u64, ..s };
                let d = (depth - 1) as nat;
                let srcs = copy_sources(data.stage);
                lemma_all_progresses(s1, now, frames.push(key), srcs, d);
                let s2 = materialize_all(s1, now, frames.push(key), srcs, d).0;
                let links = link_targets(s2.tree, data.deps);
                lemma_all_progresses(s2, now, frames.push(key), links, d);
                let s3 = materialize_all(s2, now, frames.push(key), links, d).0;
                assert(progressed(s, s1));
                lemma_progressed_transitive(s, s1, s2);
                lemma_progressed_transitive(s, s2, s3);
                lemma_progressed_transitive(s1, s2, s3);
                assert(s3.tree.dom().contains(key));
                assert(result.tree.dom() =~= s3.tree.dom());
                assert(result.tasks.take(s.tasks.len() as int) =~= s3.tasks.take(
                    s.tasks.len() as int,
                ));
                let last = (result.tasks.len() - 1) as int;
                assert(result.tasks[last].path == key);
                assert forall|k: PathView| #[trigger]
                    s.tree.contains_key(k) && result.tree[k].processing
                        != s.tree[k].processing implies planned_in(
                    result.tasks,
                    s.tasks.len() as int,
                    k,
                    deferred::version_of(result.tree[k].processing),
                ) by {
                    if k != key {
                        let v = deferred::version_of(s3.tree[k].processing);
                        let n = choose|n: int|
                            s.tasks.len() <= n < s3.tasks.len() && (#[trigger] s3.tasks[n]).path
                                == k && s3.tasks[n].version == v;
                        assert(result.tasks[n] == s3.tasks[n]);
                    }
                }
                assert(progressed(s, result));
            }
        }
    }
}

proof fn lemma_recurse_progresses(
    s: MaterializerState,
    now: i64,
    frames: Seq<PathView>,
    path: PathView,
    depth: nat,
)
    ensures
        progressed(s, materialize_recurse(s, now, frames, path, depth).0),
    decreases depth, 1int, 0int,
{
    lemma_inner_progresses(s, now, frames.push(path), path, depth);
}

proof fn lemma_all_progresses(
    s: MaterializerState,
    now: i64,
    frames: Seq<PathView>,
    paths: Seq<PathView>,
    depth: nat,
)
    ensures
        progressed(s, materialize_all(s, now, frames, paths, depth).0),
    decreases depth, 2int, paths.len(),
{
    assert(s.tasks.take(s.tasks.len() as int) =~= s.tasks);
    if paths.len() > 0 {
        lemma_all_progresses(s, now, frames, paths.drop_last(), depth);
        let s1 = materialize_all(s, now, frames, paths.drop_last(), depth).0;
        lemma_recurse_progresses(s1, now, frames, paths.last(), depth);
        let s2 = materialize_recurse(s1, now, frames, paths.last(), depth).0;
        lemma_progressed_transitive(s, s1, s2);
    }
}

/// Asking twice for an artifact whose work has been planned gives the same work, and asking again
/// plans nothing.
pub proof fn law_materialize_joins_existing_work(
    s: MaterializerState,
    now: i64,
    later: i64,
    path: PathView,
    depth: nat,
)
    requires
        file_tree::prefix_free(s.tree.dom()),
        materialize_recurse(s, now, Seq::empty(), path, depth).1 matches Some(FutureView::Task(_)),
    ensures
        ({
            let (s2, future) = materialize_recurse(s, now, Seq::empty(), path, depth);
            materialize_recurse(s2, later, Seq::empty(), path, depth) == (s2, future)
        }),
{
    let frames = Seq::<PathView>::empty().push(path);
    let (s2, r) = materialize_inner(s, now, frames, path, depth);
    lemma_inner_progresses(s, now, frames, path, depth);
    file_tree::lemma_owner_same_keys(s.tree, s2.tree, path);
    let key = file_tree::owner(s.tree, path)->0;
    assert(s.tree.contains_key(key));
}

/// Materializing changes neither which artifacts are known nor how far they have come, except
/// that their times of last access and the work going on on them may change; versions only grow,
/// and every new task is named by a version that was not in use.
pub proof fn law_materialize_keeps_artifacts(
    s: MaterializerState,
    now: i64,
    path: PathView,
    depth: nat,
)
    ensures
        progressed(s, materialize_recurse(s, now, Seq::empty(), path, depth).0),
{
    lemma_recurse_progresses(s, now, Seq::empty(), path, depth);
}

/// After work was planned for a declared artifact, that work is what goes on on it.
pub proof fn law_materialize_declared(
    s: MaterializerState,
    now: i64,
    path: PathView,
    depth: nat,
)
    requires
        file_tree::prefix_free(s.tree.dom()),
        depth > 0,
        s.version < u64::MAX,
        file_tree::owner(s.tree, path) is Some,
        s.tree[file_tree::owner(s.tree, path)->0].stage is Declared,
        !(s.tree[file_tree::owner(s.tree, path)->0].processing matches Processing::Active {
            future: ProcessingFuture::Materializing(_),
            ..
        }),
    ensures
        ({
            let key = file_tree::owner(s.tree, path)->0;
            let (s2, future) = materialize_recurse(s, now, Seq::empty(), path, depth);
            &&& future == Some(FutureView::Task(Version(s.version)))
            &&& s2.tree[key].processing == Processing::Active {
                future: ProcessingFuture::Materializing(Version(s.version)),
                version: Version(s.version),
            }
            &&& s2.tasks.len() > 0
            &&& s2.tasks.last().path == key
            &&& s2.tasks.last().version == Version(s.version)
            &&& s2.tasks.last().entry_and_method == entry_and_method(s.tree[key].stage)
        }),
{
}

/// The artifact is on disk, points to nothing else, and no work goes on that puts it there.
pub open spec fn rests_on_disk(data: ArtifactMaterializationData) -> bool {
    &&& data.stage is Materialized
    &&& data.deps is None
    &&& !(data.processing matches Processing::Active {
        future: ProcessingFuture::Materializing(_),
        ..
    })
}

/// `v` is work that puts the artifact `key` on disk: it went on before, or it is one of the tasks
/// planned since then.
pub open spec fn is_work_on(
    before: MaterializerState,
    after: MaterializerState,
    key: PathView,
    v: Version,
) -> bool {
    ||| before.tree[key].processing matches Processing::Active {
        future: ProcessingFuture::Materializing(w),
        ..
    } && w == v
    ||| planned_in(after.tasks, before.tasks.len() as int, key, v)
}

/// One of `futures` is work on the artifact `key`.
spec fn some_work(
    before: MaterializerState,
    after: MaterializerState,
    futures: Seq<FutureView>,
    key: PathView,
) -> bool {
    exists|j: int|
        0 <= j < futures.len() && (#[trigger] futures[j]) is Task && is_work_on(
            before,
            after,
            key,
            futures[j]->Task_0,
        )
}

pub(crate) proof fn lemma_work_stays(
    a: MaterializerState,
    b: MaterializerState,
    c: MaterializerState,
    key: PathView,
    v: Version,
)
    requires
        is_work_on(a, b, key, v),
        b.tasks.len() <= c.tasks.len(),
        c.tasks.take(b.tasks.len() as int) == b.tasks,
    ensures
        is_work_on(a, c, key, v),
{
    if planned_in(b.tasks, a.tasks.len() as int, key, v) {
        let n = choose|n: int|
            a.tasks.len() <= n < b.tasks.len() && (#[trigger] b.tasks[n]).path == key
                && b.tasks[n].version == v;
        assert(c.tasks.take(b.tasks.len() as int)[n] == c.tasks[n]);
        assert(c.tasks[n].path == key);
    }
}

proof fn lemma_some_work_stays(
    a: MaterializerState,
    b: MaterializerState,
    c: MaterializerState,
    before: Seq<FutureView>,
    after: Seq<FutureView>,
    key: PathView,
)
    requires
        some_work(a, b, before, key),
        progressed(b, c),
        before.len() <= after.len(),
        after.take(before.len() as int) == before,
    ensures
        some_work(a, c, after, key),
{
    let j = choose|j: int|
        0 <= j < before.len() && (#[trigger] before[j]) is Task && is_work_on(
            a,
            b,
            key,
            before[j]->Task_0,
        );
    lemma_work_stays(a, b, c, key, before[j]->Task_0);
    assert(after.take(before.len() as int)[j] == after[j]);
    assert(after[j] is Task);
}

/// As long as there is room and there are versions, one artifact ends up on disk or at work.
pub(crate) proof fn lemma_recurse_works(
    s: MaterializerState,
    now: i64,
    frames: Seq<PathView>,
    path: PathView,
    depth: nat,
    key: PathView,
)
    requires
        file_tree::prefix_free(s.tree.dom()),
        depth > 0,
        materialize_recurse(s, now, frames, path, depth).0.version < u64::MAX,
        s.tree.contains_key(key),
        paths::is_prefix(key, path),
    ensures
        ({
            let (s2, future) = materialize_recurse(s, now, frames, path, depth);
            ||| rests_on_disk(s.tree[key]) && future is None
            ||| future matches Some(FutureView::Task(v)) && is_work_on(s, s2, key, v)
        }),
{
    let (s2, future) = materialize_recurse(s, now, frames, path, depth);
    lemma_recurse_progresses(s, now, frames, path, depth);
    file_tree::lemma_owner_unique(s.tree, path, key);
    if s2.tasks.len() > s.tasks.len() {
        let last = (s2.tasks.len() - 1) as int;
        assert(s2.tasks.last() == s2.tasks[last]);
    }
}

/// As long as there is room and there are versions, each of several artifacts ends up on disk or
/// at work, and that work is among what is to be waited for.
proof fn lemma_all_work(
    s: MaterializerState,
    now: i64,
    frames: Seq<PathView>,
    list: Seq<PathView>,
    depth: nat,
    i: int,
    key: PathView,
)
    requires
        file_tree::prefix_free(s.tree.dom()),
        depth > 0,
        materialize_all(s, now, frames, list, depth).0.version < u64::MAX,
        0 <= i < list.len(),
        s.tree.contains_key(key),
        paths::is_prefix(key, list[i]),
    ensures
        ({
            let (s2, futures) = materialize_all(s, now, frames, list, depth);
            rests_on_disk(s.tree[key]) || some_work(s, s2, futures, key)
        }),
    decreases list.len(),
{
    let init = list.drop_last();
    let (s1, first) = materialize_all(s, now, frames, init, depth);
    let (s2, futures) = materialize_all(s, now, frames, list, depth);
    let (_, future) = materialize_recurse(s1, now, frames, list.last(), depth);
    lemma_all_progresses(s, now, frames, init, depth);
    lemma_recurse_progresses(s1, now, frames, list.last(), depth);
    assert(futures.take(first.len() as int) =~= first);
    assert(s.tree.dom().contains(key));
    assert(s1.tree.dom().contains(key));
    if i < list.len() - 1 {
        assert(init[i] == list[i]);
        lemma_all_work(s, now, frames, init, depth, i, key);
        if some_work(s, s1, first, key) {
            lemma_some_work_stays(s, s1, s2, first, futures, key);
        }
    } else {
        lemma_recurse_works(s1, now, frames, list.last(), depth, key);
        if let Some(FutureView::Task(v)) = future {
            let n = (futures.len() - 1) as int;
            assert(futures[n] == FutureView::Task(v));
            if planned_in(s2.tasks, s1.tasks.len() as int, key, v) {
                let t = choose|t: int|
                    s1.tasks.len() <= t < s2.tasks.len() && (#[trigger] s2.tasks[t]).path == key
                        && s2.tasks[t].version == v;
                assert(s.tasks.len() <= t < s2.tasks.len() && s2.tasks[t].path == key);
                assert(planned_in(s2.tasks, s.tasks.len() as int, key, v));
            } else if s1.tree[key].processing != s.tree[key].processing {
                assert(planned_in(s1.tasks, s.tasks.len() as int, key, v));
                lemma_work_stays(s, s1, s2, key, v);
            }
            assert(is_work_on(s, s2, key, v));
        }
    }
}

/// Materializing the artifact at or above `path` takes `before` to `after`; what is to be waited for
/// is `r`.
pub open spec fn materialize_follows(
    before: DeferredMaterializerCommandProcessor,
    path: PathView,
    now: i64,
    depth: u32,
    after: DeferredMaterializerCommandProcessor,
    r: Option<MaterializingFuture>,
) -> bool {
    let (s, future) = materialize_recurse(
        before.state(),
        now,
        Seq::empty(),
        path,
        depth as nat,
    );
    &&& after.same_rest(&before)
    &&& after.state() == s
    &&& match r {
        Some(f) => future == Some(f@),
        None => future is None,
    }
}

/// The artifact `key` was in `before` on disk for good, or `futures` holds the work that puts it
/// there: work that went on before, or that one of the tasks planned since then does.
pub open spec fn is_waited_for(
    before: DeferredMaterializerCommandProcessor,
    after: DeferredMaterializerCommandProcessor,
    futures: Seq<MaterializingFuture>,
    key: PathView,
) -> bool {
    ||| {
        &&& before.tree@[key].stage is Materialized
        &&& before.tree@[key].deps is None
        &&& !(before.tree@[key].processing matches Processing::Active {
            future: ProcessingFuture::Materializing(_),
            ..
        })
    }
    ||| exists|j: int|
        0 <= j < futures.len() && (#[trigger] futures[j]) is Task && {
            let v = futures[j]->Task_0;
            ||| before.tree@[key].processing matches Processing::Active {
                future: ProcessingFuture::Materializing(w),
                ..
            } && w == v
            ||| exists|n: int|
                before.tasks@.len() <= n < after.tasks@.len() && (
                #[trigger] after.tasks@[n]).path@ == key && after.tasks@[n].version == v
        }
}

pub(crate) proof fn lemma_waited_for(
    before: DeferredMaterializerCommandProcessor,
    after: DeferredMaterializerCommandProcessor,
    futures: Seq<MaterializingFuture>,
    key: PathView,
    at: int,
)
    requires
        0 <= at < futures.len(),
        futures[at]@ is Task,
        is_work_on(before.state(), after.state(), key, futures[at]@->Task_0),
    ensures
        is_waited_for(before, after, futures, key),
{
    let v = futures[at]@->Task_0;
    assert(futures[at] == MaterializingFuture::Task(v));
    if planned_in(after.state().tasks, before.state().tasks.len() as int, key, v) {
        let n = choose|n: int|
            before.state().tasks.len() <= n < after.state().tasks.len() && (
            #[trigger] after.state().tasks[n]).path == key && after.state().tasks[n].version == v;
        assert(after.state().tasks[n] == after.tasks@[n]@);
        assert(after.tasks@[n].path@ == key);
    }
}

/// After the artifact `key` at or above `path` was materialized and work was planned for it, the
/// task planned last is the one of that artifact: it comes after the tasks of all that it waits
/// for.
pub proof fn law_task_of_the_artifact_comes_last(
    before: DeferredMaterializerCommandProcessor,
    path: PathView,
    now: i64,
    depth: u32,
    after: DeferredMaterializerCommandProcessor,
    r: Option<MaterializingFuture>,
    key: PathView,
)
    requires
        before.wf(),
        materialize_follows(before, path, now, depth, after, r),
        before.tree@.contains_key(key),
        paths::is_prefix(key, path),
        depth > 0,
        before.version_tracker.0.0 < u64::MAX,
        before.tree@[key].stage is Declared || before.tree@[key].deps is Some,
        !(before.tree@[key].processing matches Processing::Active {
            future: ProcessingFuture::Materializing(_),
            ..
        }),
    ensures
        after.tasks@.len() > before.tasks@.len(),
        after.tasks@.last().path@ == key,
        r == Some(MaterializingFuture::Task(after.tasks@.last().version)),
        after.tree@.contains_key(key),
        after.tree@[key].processing == (Processing::Active {
            future: ProcessingFuture::Materializing(after.tasks@.last().version),
            version: after.tasks@.last().version,
        }),
        before.version_tracker.0.0 <= after.tasks@.last().version.0 < after.version_tracker.0.0,
        after.tasks@.last().entry_and_method == (match before.tree@[key].stage {
            ArtifactMaterializationStage::Declared { entry, method } => Some((entry, method)),
            ArtifactMaterializationStage::Materialized { .. } => None,
        }),
        after.tasks@.last().cleaning == (match before.tree@[key].processing {
            Processing::Active { future: ProcessingFuture::Cleaning(v), .. } => Some(v),
            _ => None,
        }),
{
    let s = before.state();
    before.tree.lemma_wf();
    file_tree::lemma_owner_unique(s.tree, path, key);
    lemma_recurse_progresses(s, now, Seq::empty(), path, depth as nat);
    let t = after.state().tasks;
    assert(t.len() == after.tasks@.len());
    let s1 = MaterializerState { version: (s.version + 1) as u64, ..s };
    let frames = Seq::<PathView>::empty().push(path).push(key);
    let srcs = copy_sources(s.tree[key].stage);
    lemma_all_progresses(s1, now, frames, srcs, (depth - 1) as nat);
    let s2 = materialize_all(s1, now, frames, srcs, (depth - 1) as nat).0;
    let links = link_targets(s2.tree, s.tree[key].deps);
    lemma_all_progresses(s2, now, frames, links, (depth - 1) as nat);
    assert(s.tree.dom().contains(key));
    assert(t.last() == t[t.len() - 1]);
    assert(t[t.len() - 1] == after.tasks@[after.tasks@.len() - 1]@);
}

/// If the artifact copies from other artifacts, those come first: for each artifact on the list
/// of its method, what its source belongs to is on disk, or the task planned for the artifact
/// waits for the work that puts it there. Without room or versions for that work, the wait fails.
pub proof fn law_sources_of_a_copy_come_first(
    before: DeferredMaterializerCommandProcessor,
    path: PathView,
    now: i64,
    depth: u32,
    after: DeferredMaterializerCommandProcessor,
    r: Option<MaterializingFuture>,
    key: PathView,
    i: int,
    source: PathView,
)
    requires
        before.wf(),
        materialize_follows(before, path, now, depth, after, r),
        before.tree@.contains_key(key),
        paths::is_prefix(key, path),
        depth > 1,
        after.version_tracker.0.0 < u64::MAX,
        before.tree@[key].stage matches ArtifactMaterializationStage::Declared { method, .. }
            && *method is LocalCopy && 0 <= i < method->LocalCopy_1@.len(),
        !(before.tree@[key].processing matches Processing::Active {
            future: ProcessingFuture::Materializing(_),
            ..
        }),
        before.tree@.contains_key(source),
        paths::is_prefix(
            source,
            before.tree@[key].stage->method->LocalCopy_1@[i].src@,
        ),
    ensures
        after.tasks@.len() > before.tasks@.len(),
        after.tasks@.last().path@ == key,
        is_waited_for(before, after, after.tasks@.last().deps_tasks@, source),
{
    let s = before.state();
    let d = (depth - 1) as nat;
    before.tree.lemma_wf();
    file_tree::lemma_owner_unique(s.tree, path, key);
    lemma_recurse_progresses(s, now, Seq::empty(), path, depth as nat);
    law_task_of_the_artifact_comes_last(before, path, now, depth, after, r, key);
    let s1 = MaterializerState { version: (s.version + 1) as u64, ..s };
    let frames = Seq::<PathView>::empty().push(path).push(key);
    let srcs = copy_sources(s.tree[key].stage);
    lemma_all_progresses(s1, now, frames, srcs, d);
    let (s2, futures) = materialize_all(s1, now, frames, srcs, d);
    let links = link_targets(s2.tree, s.tree[key].deps);
    lemma_all_progresses(s2, now, frames, links, d);
    let s3 = materialize_all(s2, now, frames, links, d).0;
    assert(srcs[i] == before.tree@[key].stage->method->LocalCopy_1@[i].src@);
    lemma_all_work(s1, now, frames, srcs, d, i, source);
    let end = after.state();
    let t = end.tasks;
    let task = after.tasks@.last();
    assert(t[t.len() - 1] == after.tasks@[after.tasks@.len() - 1]@);
    assert(future_views(task.deps_tasks@) == futures);
    if some_work(s1, s2, futures, source) {
        let j = choose|j: int|
            0 <= j < futures.len() && (#[trigger] futures[j]) is Task && is_work_on(
                s1,
                s2,
                source,
                futures[j]->Task_0,
            );
        assert(end.tasks.take(s2.tasks.len() as int) =~= s3.tasks.take(s2.tasks.len() as int));
        lemma_work_stays(s1, s2, end, source, futures[j]->Task_0);
        assert(futures[j] == task.deps_tasks@[j]@);
        lemma_waited_for(before, after, task.deps_tasks@, source, j);
    }
}

/// If the artifact has links to other artifacts, those are materialized too: for each artifact at
/// whose path the directory of links has an entry, it is on disk, or the task planned for the
/// artifact waits for the work that puts it there.
pub proof fn law_targets_of_links_come_first(
    before: DeferredMaterializerCommandProcessor,
    path: PathView,
    now: i64,
    depth: u32,
    after: DeferredMaterializerCommandProcessor,
    r: Option<MaterializingFuture>,
    key: PathView,
    target: PathView,
)
    requires
        before.wf(),
        materialize_follows(before, path, now, depth, after, r),
        before.tree@.contains_key(key),
        paths::is_prefix(key, path),
        depth > 1,
        after.version_tracker.0.0 < u64::MAX,
        before.tree@[key].deps matches Some(deps) && artifact::has_entry_at(
            ActionDirectoryEntry::Dir(deps),
            target,
        ),
        !(before.tree@[key].processing matches Processing::Active {
            future: ProcessingFuture::Materializing(_),
            ..
        }),
        before.tree@.contains_key(target),
    ensures
        after.tasks@.len() > before.tasks@.len(),
        after.tasks@.last().path@ == key,
        is_waited_for(before, after, after.tasks@.last().link_deps_tasks@, target),
{
    let s = before.state();
    let d = (depth - 1) as nat;
    before.tree.lemma_wf();
    file_tree::lemma_owner_unique(s.tree, path, key);
    lemma_recurse_progresses(s, now, Seq::empty(), path, depth as nat);
    law_task_of_the_artifact_comes_last(before, path, now, depth, after, r, key);
    let s1 = MaterializerState { version: (s.version + 1) as u64, ..s };
    let frames = Seq::<PathView>::empty().push(path).push(key);
    let srcs = copy_sources(s.tree[key].stage);
    lemma_all_progresses(s1, now, frames, srcs, d);
    let s2 = materialize_all(s1, now, frames, srcs, d).0;
    let links = link_targets(s2.tree, s.tree[key].deps);
    lemma_all_progresses(s2, now, frames, links, d);
    let (s3, futures) = materialize_all(s2, now, frames, links, d);
    let deps = s.tree[key].deps->0;
    assert(s1.tree.dom().contains(target));
    assert(s2.tree.dom().contains(target));
    artifact::law_links_lead_to_artifacts(s2.tree, deps, target);
    let i = choose|i: int| 0 <= i < links.len() && links[i] == target;
    paths::lemma_prefix_order(target, target, target);
    lemma_all_work(s2, now, frames, links, d, i, target);
    let end = after.state();
    let t = end.tasks;
    let task = after.tasks@.last();
    assert(t[t.len() - 1] == after.tasks@[after.tasks@.len() - 1]@);
    assert(future_views(task.link_deps_tasks@) == futures);
    if some_work(s2, s3, futures, target) {
        let j = choose|j: int|
            0 <= j < futures.len() && (#[trigger] futures[j]) is Task && is_work_on(
                s2,
                s3,
                target,
                futures[j]->Task_0,
            );
        let v = futures[j]->Task_0;
        if planned_in(s3.tasks, s2.tasks.len() as int, target, v) {
            let n = choose|n: int|
                s2.tasks.len() <= n < s3.tasks.len() && (#[trigger] s3.tasks[n]).path == target
                    && s3.tasks[n].version == v;
            assert(end.tasks[n] == s3.tasks[n]);
            assert(planned_in(end.tasks, s.tasks.len() as int, target, v));
        } else if s2.tree[target].processing != s1.tree[target].processing {
            assert(planned_in(s2.tasks, s1.tasks.len() as int, target, v));
            assert(end.tasks.take(s2.tasks.len() as int) =~= s3.tasks.take(s2.tasks.len() as int));
            lemma_work_stays(s1, s2, end, target, v);
        }
        assert(is_work_on(s, end, target, v));
        assert(futures[j] == task.link_deps_tasks@[j]@);
        lemma_waited_for(before, after, task.link_deps_tasks@, target, j);
    }
}

impl DeferredMaterializerCommandProcessor {
    /// The part of the state that materializing changes.
    pub open spec fn state(&self) -> MaterializerState {
        MaterializerState {
            tree: self.tree@,
            version: self.version_tracker.0.0,
            buffer: match self.access_times_buffer {
                Some(b) => Some(path_set(b@)),
                None => None,
            },
            tasks: task_views(self.tasks@),
        }
    }

    /// The tree and what it holds is well formed, and no path is buffered twice.
    pub open spec fn wf(&self) -> bool {
        &&& self.tree.wf()
        &&& stages_wf(self.tree@)
        &&& self.log_buffer.wf()
        &&& self.access_times_buffer matches Some(b) ==> paths::path_views(
            b@,
        ).no_duplicates()
    }

    /// The rest of the state, but for the statistics, is the same.
    pub open spec fn same_but_stats(&self, other: &Self) -> bool {
        &&& self.has_db == other.has_db
        &&& self.platform == other.platform
        &&& self.defer_write_actions == other.defer_write_actions
        &&& self.log_buffer == other.log_buffer
        &&& self.verbose_materializer_log == other.verbose_materializer_log
    }

    /// The rest of the state is the same.
    pub open spec fn same_rest(&self, other: &Self) -> bool {
        &&& self.same_but_stats(other)
        &&& self.stats == other.stats
    }

    /// Materializes the artifact at or above `path`. `now` is the time in milliseconds since the
    /// epoch, `depth` says how deep artifacts may depend on each other.
    pub fn materialize_artifact(
        &mut self,
        path: &ProjectRelativePathBuf,
        now: i64,
        depth: u32,
    ) -> (r: Option<MaterializingFuture>)
        requires
            old(self).wf(),
        ensures
            final(self).wf(),
            materialize_follows(*old(self), path@, now, depth, *final(self), r),
    {
        let stack = MaterializeStack::Empty;
        self.materialize_artifact_recurse(&stack, path, now, depth)
    }

    fn materialize_artifact_recurse(
        &mut self,
        stack: &MaterializeStack<'_>,
        path: &ProjectRelativePathBuf,
        now: i64,
        depth: u32,
    ) -> (r: Option<MaterializingFuture>)
        requires
            old(self).wf(),
        ensures
            final(self).wf(),
            final(self).same_rest(old(self)),
            ({
                let (s, future) = materialize_recurse(
                    old(self).state(),
                    now,
                    deferred::frames(*stack),
                    path@,
                    depth as nat,
                );
                &&& final(self).state() == s
                &&& match r {
                    Some(f) => future == Some(f@),
                    None => future is None,
                }
            }),
        decreases depth, 1int,
    {
        let inside = MaterializeStack::Child(stack, path);
        match self.materialize_artifact_inner(&inside, path, now, depth) {
            Ok(future) => future,
            Err(cause) => {
                let shown = inside.display();
                let context = text::concat2("materializing ", shown.as_str());
                Some(MaterializingFuture::Failed(cause, context))
            },
        }
    }

    fn materialize_artifact_inner(
        &mut self,
        stack: &MaterializeStack<'_>,
        path: &ProjectRelativePathBuf,
        now: i64,
        depth: u32,
    ) -> (r: Result<Option<MaterializingFuture>, MaterializeCause>)
        requires
            old(self).wf(),
        ensures
            final(self).wf(),
            final(self).same_rest(old(self)),
            ({
                let (s, future) = materialize_inner(
                    old(self).state(),
                    now,
                    deferred::frames(*stack),
                    path@,
                    depth as nat,
                );
                &&& final(self).state() == s
                &&& match (r, future) {
                    (Ok(Some(f)), Ok(Some(g))) => f@ == g,
                    (Ok(None), Ok(None)) => true,
                    (Err(e), Err(g)) => e == g,
                    _ => false,
                }
            }),
        decreases depth, 0int,
    {
        let ghost s0 = self.state();
        if depth == 0 {
            return Err(MaterializeCause::StackOverflow);
        }
        proof {
            self.tree.lemma_wf();
        }
        let i = match self.tree.find(path) {
            None => {
                // Never declared, nothing to do.
                return Ok(None);
            },
            Some(i) => i,
        };
        let key = self.tree.key(i).clone();
        let data = self.tree.value(i);
        let ghost data0 = *data;
        let cleaning = match data.processing {
            Processing::Active { future: ProcessingFuture::Cleaning(v), .. } => Some(v),
            Processing::Active { future: ProcessingFuture::Materializing(v), .. } => {
                return Ok(Some(MaterializingFuture::Task(v)));
            },
            Processing::Done(_) => None,
        };
        let deps = match &data.deps {
            Some(d) => Some(d.clone()),
            None => None,
        };
        let entry_and_method = match &data.stage {
            ArtifactMaterializationStage::Declared { entry, method } => Some(
                (artifact::dupe_entry(entry), method.clone()),
            ),
            ArtifactMaterializationStage::Materialized { .. } => None,
        };
        if entry_and_method.is_none() && deps.is_none() {
            self.note_access(i, &key, now);
            return Ok(None);
        }
        if self.version_tracker.0.0 == u64::MAX {
            return Err(MaterializeCause::VersionsExhausted);
        }
        let version = self.version_tracker.next();
        let ghost s1 = self.state();
        let inner_stack = MaterializeStack::Child(stack, &key);
        let ghost frames = deferred::frames(inner_stack);

        // If the artifact copies from other artifacts, we must materialize them first.
        let mut deps_tasks: Vec<MaterializingFuture> = Vec::new();
        assert(future_views(deps_tasks@) =~= Seq::empty());
        match &entry_and_method {
            Some((_, method)) => match &**method {
                ArtifactMaterializationMethod::LocalCopy(_, copied) => {
                    let ghost srcs = copy_sources(data0.stage);
                    let mut n: usize = 0;
                    assert(srcs.take(0) =~= Seq::empty());
                    while n < copied.len()
                        invariant
                            self.wf(),
                            self.same_rest(old(self)),
                            depth > 0,
                            n <= copied@.len(),
                            srcs == Seq::new(copied@.len(), |j: int| copied@[j].src@),
                            frames == deferred::frames(inner_stack),
                            (self.state(), future_views(deps_tasks@)) == materialize_all(
                                s1,
                                now,
                                frames,
                                srcs.take(n as int),
                                (depth - 1) as nat,
                            ),
                        decreases copied@.len() - n,
                    {
                        let ghost before = future_views(deps_tasks@);
                        proof {
                            let next = srcs.take(n + 1);
                            assert(next.drop_last() =~= srcs.take(n as int));
                            assert(next.last() == srcs[n as int]);
                        }
                        match self.materialize_artifact_recurse(
                            &inner_stack,
                            &copied[n].src,
                            now,
                            depth - 1,
                        ) {
                            Some(f) => {
                                deps_tasks.push(f);
                                assert(future_views(deps_tasks@) =~= before.push(f@));
                            },
                            None => {},
                        }
                        n = n + 1;
                    }
                    assert(srcs.take(srcs.len() as int) =~= srcs);
                },
                _ => {},
            },
            None => {},
        }
        let ghost s2 = self.state();
        assert((s2, future_views(deps_tasks@)) == materialize_all(
            s1,
            now,
            frames,
            copy_sources(data0.stage),
            (depth - 1) as nat,
        ));

        // The artifact might have symlinks pointing to other artifacts. We must materialize them
        // as well, to avoid dangling symlinks.
        let mut link_deps_tasks: Vec<MaterializingFuture> = Vec::new();
        assert(future_views(link_deps_tasks@) =~= Seq::empty());
        match &deps {
            None => {},
            Some(d) => {
                let found = self.tree.find_artifacts(d);
                let ghost links = link_targets(s2.tree, data0.deps);
                let mut n: usize = 0;
                assert(links.take(0) =~= Seq::empty());
                while n < found.len()
                    invariant
                        self.wf(),
                        self.same_rest(old(self)),
                        depth > 0,
                        n <= found@.len(),
                        links == paths::path_views(found@),
                        frames == deferred::frames(inner_stack),
                        (self.state(), future_views(link_deps_tasks@)) == materialize_all(
                            s2,
                            now,
                            frames,
                            links.take(n as int),
                            (depth - 1) as nat,
                        ),
                    decreases found@.len() - n,
                {
                    let ghost before = future_views(link_deps_tasks@);
                    proof {
                        let next = links.take(n + 1);
                        assert(next.drop_last() =~= links.take(n as int));
                        assert(next.last() == links[n as int]);
                    }
                    match self.materialize_artifact_recurse(
                        &inner_stack,
                        &found[n],
                        now,
                        depth - 1,
                    ) {
                        Some(f) => {
                            link_deps_tasks.push(f);
                            assert(future_views(link_deps_tasks@) =~= before.push(f@));
                        },
                        None => {},
                    }
                    n = n + 1;
                }
                assert(links.take(links.len() as int) =~= links);
            },
        }
        let ghost s3 = self.state();
        assert((s3, future_views(link_deps_tasks@)) == materialize_all(
            s2,
            now,
            frames,
            link_targets(s2.tree, data0.deps),
            (depth - 1) as nat,
        ));
        proof {
            lemma_all_progresses(s1, now, frames, copy_sources(data0.stage), (depth - 1) as nat);
            lemma_all_progresses(
                s2,
                now,
                frames,
                link_targets(s2.tree, data0.deps),
                (depth - 1) as nat,
            );
            lemma_progressed_transitive(s1, s2, s3);
            assert(s0.tree.contains_key(key@));
            assert(s1.tree.dom().contains(key@));
            self.tree.lemma_wf();
            file_tree::lemma_owner_of_key(self.tree@, key@);
        }
        match self.tree.find(&key) {
            Some(j) => {
                let info = self.tree.value_mut(j);
                info.processing = Processing::Active {
                    future: ProcessingFuture::Materializing(version),
                    version,
                };
            },
            None => {},
        }
        let task = MaterializeTask {
            path: key,
            version,
            cleaning,
            deps_tasks,
            entry_and_method,
            link_deps_tasks,
        };
        let ghost tasks_before = task_views(self.tasks@);
        self.tasks.push(task);
        proof {
            assert(task_views(self.tasks@) =~= tasks_before.push(task@));
            assert(self.state() =~= materialize_inner(
                s0,
                now,
                deferred::frames(*stack),
                path@,
                depth as nat,
            ).0);
        }
        Ok(Some(MaterializingFuture::Task(version)))
    }

    /// Notes that the artifact with number `i` and key `key`, which is on disk, was used.
    fn note_access(&mut self, i: usize, key: &ProjectRelativePathBuf, now: i64)
        requires
            old(self).wf(),
            i < old(self).tree.spec_size(),
            key@ == old(self).tree.key_at(i as int),
        ensures
            final(self).wf(),
            final(self).same_rest(old(self)),
            final(self).state() == (match old(self).state().buffer {
                Some(buffer) => MaterializerState {
                    tree: old(self).state().tree.insert(
                        key@,
                        touched(old(self).state().tree[key@], now),
                    ),
                    buffer: Some(buffer.insert(key@)),
                    ..old(self).state()
                },
                None => old(self).state(),
            }),
    {
        let ghost before = self.state();
        match &mut self.access_times_buffer {
            Some(buffer) => {
                if !contains_path(buffer, key) {
                    let ghost paths_before = paths::path_views(buffer@);
                    buffer.push(key.clone());
                    proof {
                        assert(paths::path_views(buffer@) =~= paths_before.push(key@));
                        assert(path_set(buffer@) =~= paths_before.to_set().insert(key@)) by {
                            let after = paths_before.push(key@);
                            assert(after[after.len() - 1] == key@);
                            assert forall|k: PathView| #[trigger]
                                paths_before.to_set().insert(key@).contains(
                                    k,
                                ) implies after.to_set().contains(k) by {
                                if k != key@ {
                                    let n = choose|n: int|
                                        0 <= n < paths_before.len() && paths_before[n] == k;
                                    assert(after[n] == k);
                                }
                            }
                        }
                    }
                } else {
                    assert(path_set(buffer@) =~= path_set(buffer@).insert(key@));
                }
            },
            None => {
                return ;
            },
        }
        let data = self.tree.value_mut(i);
        match &mut data.stage {
            ArtifactMaterializationStage::Materialized { last_access_time, .. } => {
                *last_access_time = now;
            },
            ArtifactMaterializationStage::Declared { .. } => {},
        }
    }
}

/// To ask for an artifact that rests on disk is to use it: the time is noted with the artifact and
/// the artifact among those that were used, where uses are noted at all. There is nothing to wait
/// for, and nothing else changes.
pub proof fn law_use_of_an_artifact_is_noted(
    before: DeferredMaterializerCommandProcessor,
    path: PathView,
    now: i64,
    depth: u32,
    after: DeferredMaterializerCommandProcessor,
    r: Option<MaterializingFuture>,
    key: PathView,
    other: PathView,
)
    requires
        before.wf(),
        materialize_follows(before, path, now, depth, after, r),
        before.tree@.contains_key(key),
        paths::is_prefix(key, path),
        depth > 0,
        rests_on_disk(before.tree@[key]),
    ensures
        r is None,
        task_views(after.tasks@) == task_views(before.tasks@),
        after.version_tracker == before.version_tracker,
        after.tree@.contains_key(key),
        after.tree@[key].stage is Materialized,
        after.tree@[key].stage->metadata == before.tree@[key].stage->metadata,
        after.tree@[key].stage->active == before.tree@[key].stage->active,
        after.tree@[key].deps == before.tree@[key].deps,
        after.tree@[key].processing == before.tree@[key].processing,
        before.access_times_buffer is Some ==> {
            &&& after.tree@[key].stage->last_access_time == now
            &&& after.access_times_buffer is Some
            &&& paths::path_views(after.access_times_buffer->0@).contains(other) <==> (other == key
                || paths::path_views(before.access_times_buffer->0@).contains(other))
        },
        before.access_times_buffer is None ==> after.tree@[key] == before.tree@[key]
            && after.access_times_buffer is None,
        other != key ==> (after.tree@.contains_key(other) <==> before.tree@.contains_key(other))
            && (before.tree@.contains_key(other) ==> after.tree@[other] == before.tree@[other]),
{
    let s = before.state();
    before.tree.lemma_wf();
    file_tree::lemma_owner_unique(s.tree, path, key);
    let t = after.state();
    assert(t.tree == after.tree@);
    assert(t.tasks == task_views(after.tasks@));
    if let Some(b) = before.access_times_buffer {
        assert(t.buffer == Some(path_set(b@).insert(key)));
        assert(after.access_times_buffer is Some);
        let a = after.access_times_buffer->0;
        assert(path_set(a@).contains(other) <==> path_set(b@).insert(key).contains(other));
        assert(path_set(a@).contains(other) <==> paths::path_views(a@).contains(other));
        assert(path_set(b@).contains(other) <==> paths::path_views(b@).contains(other));
    } else {
        assert(t.buffer is None);
    }
}

/// Work that goes on on an artifact is joined: it is what there is to wait for, and nothing changes.
pub proof fn law_work_is_joined(
    before: DeferredMaterializerCommandProcessor,
    path: PathView,
    now: i64,
    depth: u32,
    after: DeferredMaterializerCommandProcessor,
    r: Option<MaterializingFuture>,
    key: PathView,
    version: Version,
)
    requires
        before.wf(),
        materialize_follows(before, path, now, depth, after, r),
        before.tree@.contains_key(key),
        paths::is_prefix(key, path),
        depth > 0,
        before.tree@[key].processing is Active,
        before.tree@[key].processing->future == ProcessingFuture::Materializing(version),
    ensures
        r == Some(MaterializingFuture::Task(version)),
        after.state() == before.state(),
{
    before.tree.lemma_wf();
    file_tree::lemma_owner_unique(before.state().tree, path, key);
}

/// A path that belongs to no artifact asks for nothing.
pub proof fn law_unknown_paths_ask_for_nothing(
    before: DeferredMaterializerCommandProcessor,
    path: PathView,
    now: i64,
    depth: u32,
    after: DeferredMaterializerCommandProcessor,
    r: Option<MaterializingFuture>,
)
    requires
        before.wf(),
        materialize_follows(before, path, now, depth, after, r),
        depth > 0,
        forall|k: PathView| #[trigger]
            before.tree@.contains_key(k) ==> !paths::is_prefix(k, path),
    ensures
        r is None,
        after.state() == before.state(),
{
    before.tree.lemma_wf();
    if file_tree::owner(before.state().tree, path) is Some {
        file_tree::law_owner_stands_above(
            before.state().tree,
            path,
            file_tree::owner(before.state().tree, path)->0,
        );
    }
}

/// Materializing leaves what it has nothing to do with as it was.
pub proof fn law_materializing_leaves_the_rest(
    before: DeferredMaterializerCommandProcessor,
    path: PathView,
    now: i64,
    depth: u32,
    after: DeferredMaterializerCommandProcessor,
    r: Option<MaterializingFuture>,
)
    requires
        materialize_follows(before, path, now, depth, after, r),
    ensures
        after.has_db == before.has_db,
        after.platform == before.platform,
        after.defer_write_actions == before.defer_write_actions,
        after.log_buffer == before.log_buffer,
        after.verbose_materializer_log == before.verbose_materializer_log,
        after.stats == before.stats,
{
}

} // verus!
