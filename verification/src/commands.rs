//! What the commands of the deferred materializer do.
use std::sync::Arc;
use vstd::prelude::*;
use vstd::string::*;

use crate::artifact;
use crate::artifact::ActionSharedDirectory;
use crate::artifact::ArtifactMetadata;
use crate::artifact::ArtifactValue;
use crate::deferred;
use crate::deferred::ArtifactMaterializationData;
use crate::deferred::ArtifactMaterializationMethod;
use crate::deferred::ArtifactMaterializationStage;
use crate::deferred::Processing;
use crate::deferred::ProcessingFuture;
use crate::deferred::SharedMaterializingError;
use crate::deferred::Version;
use crate::deferred::WriteFile;
use crate::file_tree;
use crate::paths;
use crate::paths::PathView;
use crate::paths::ProjectRelativePathBuf;
use crate::processor;
use crate::processor::ArtifactTree;
use crate::processor::DeferredMaterializerCommandProcessor;
use crate::processor::TreeView;
use crate::text;

verus! {

/// Work that was going on at paths that have been invalidated, or why those could not be
/// invalidated.
pub struct ExistingFutures(pub Result<Vec<(ProjectRelativePathBuf, ProcessingFuture)>, String>);

impl ExistingFutures {
    /// The paths were invalidated and no work was going on there.
    pub open spec fn spec_is_empty(&self) -> bool {
        self.0 is Ok && self.0->Ok_0@.len() == 0
    }

    pub fn is_empty(&self) -> (r: bool)
        ensures
            r == self.spec_is_empty(),
    {
        match &self.0 {
            Ok(f) => f.len() == 0,
            Err(_) => false,
        }
    }

    pub fn into_result(self) -> (r: Result<
        Vec<(ProjectRelativePathBuf, ProcessingFuture)>,
        String,
    >)
        ensures
            r == self.0,
    {
        self.0
    }

    pub fn empty() -> (r: Self)
        ensures
            r.spec_is_empty(),
    {
        ExistingFutures(Ok(Vec::new()))
    }
}

/// How a path is cleaned.
pub enum CleanPlan {
    /// At once.
    Now,
    /// When the work that is going on there has ended.
    After(ExistingFutures),
}

/// Cleans a path at once where no work is going on there, and after that work otherwise.
pub fn clean_path(existing: ExistingFutures) -> (r: CleanPlan)
    ensures
        r == (if existing.spec_is_empty() {
            CleanPlan::Now
        } else {
            CleanPlan::After(existing)
        }),
{
    if existing.is_empty() {
        CleanPlan::Now
    } else {
        CleanPlan::After(existing)
    }
}

/// The futures, each with the mathematical form of its path.
pub open spec fn pending_views(futures: Seq<(ProjectRelativePathBuf, ProcessingFuture)>) -> Seq<
    (PathView, ProcessingFuture),
> {
    Seq::new(futures.len(), |i: int| (futures[i].0@, futures[i].1))
}

/// The work going on.
pub open spec fn future_of(processing: Processing) -> Option<ProcessingFuture> {
    match processing {
        Processing::Active { future, .. } => Some(future),
        Processing::Done(_) => None,
    }
}

/// The work going on at `paths`, in their order.
pub open spec fn pending(tree: TreeView, paths: Seq<PathView>) -> Seq<(PathView, ProcessingFuture)>
    decreases paths.len(),
{
    if paths.len() == 0 {
        Seq::empty()
    } else {
        let before = pending(tree, paths.drop_last());
        match tree[paths.last()].processing {
            Processing::Active { future, .. } => before.push((paths.last(), future)),
            Processing::Done(_) => before,
        }
    }
}

/// `k` overlaps one of `paths`.
pub open spec fn overlaps_any(k: PathView, paths: Seq<PathView>) -> bool {
    exists|i: int| 0 <= i < paths.len() && paths::overlaps(k, #[trigger] paths[i])
}

/// The part of the tree that overlaps none of `paths`.
pub open spec fn without_all(tree: TreeView, paths: Seq<PathView>) -> TreeView {
    Map::new(|k: PathView| tree.contains_key(k) && !overlaps_any(k, paths), |k: PathView| tree[k])
}

/// Paths that have been taken out of the tree, and the work that was going on there.
pub struct Invalidated {
    pub paths: Vec<ProjectRelativePathBuf>,
    pub futures: Vec<(ProjectRelativePathBuf, ProcessingFuture)>,
}

impl Invalidated {
    /// The work that was going on, once the database was told of the paths, or why it could not
    /// be.
    pub fn into_existing(self, deleted: Result<(), String>) -> (r: ExistingFutures)
        ensures
            match deleted {
                Ok(_) => r.0 == Ok::<Vec<(ProjectRelativePathBuf, ProcessingFuture)>, String>(
                    self.futures,
                ),
                Err(e) => r.0 matches Err(m) && m@
                    == "Error invalidating paths in materializer state: "@ + e@,
            },
    {
        match deleted {
            Ok(_) => ExistingFutures(Ok(self.futures)),
            Err(e) => ExistingFutures(
                Err(
                    text::concat2(
                        "Error invalidating paths in materializer state: ",
                        e.as_str(),
                    ),
                ),
            ),
        }
    }
}

/// `inv` says what was taken out of `tree` for the sake of `paths`: every artifact that overlaps
/// one of them, once, and the work going on there.
pub open spec fn invalidates(inv: Invalidated, tree: TreeView, paths: Seq<PathView>) -> bool {
    &&& paths::path_views(inv.paths@).no_duplicates()
    &&& forall|k: PathView| #[trigger]
        paths::path_views(inv.paths@).contains(k) <==> tree.contains_key(k) && overlaps_any(
            k,
            paths,
        )
    &&& pending_views(inv.futures@) == pending(tree, paths::path_views(inv.paths@))
}

proof fn lemma_assoc_domain(
    pairs: Seq<(ProjectRelativePathBuf, ArtifactMaterializationData)>,
    k: PathView,
)
    ensures
        file_tree::assoc(pairs).contains_key(k) <==> exists|i: int|
            0 <= i < pairs.len() && (#[trigger] pairs[i]).0@ == k,
    decreases pairs.len(),
{
    if pairs.len() > 0 {
        lemma_assoc_domain(pairs.drop_last(), k);
        if file_tree::assoc(pairs).contains_key(k) {
            if k == pairs.last().0@ {
                assert(pairs[pairs.len() - 1].0@ == k);
            } else {
                let i = choose|i: int|
                    0 <= i < pairs.drop_last().len() && (
                    #[trigger] pairs.drop_last()[i]).0@ == k;
                assert(pairs[i].0@ == k);
            }
        }
        if exists|i: int| 0 <= i < pairs.len() && (#[trigger] pairs[i]).0@ == k {
            let i = choose|i: int| 0 <= i < pairs.len() && (#[trigger] pairs[i]).0@ == k;
            if i < pairs.len() - 1 {
                assert(pairs.drop_last()[i].0@ == k);
            }
        }
    }
}

/// Taking out what overlaps `path` and then what overlaps the others is taking out all of it.
proof fn lemma_without_all_step(tree: TreeView, paths: Seq<PathView>, n: int)
    requires
        0 <= n < paths.len(),
    ensures
        file_tree::without_overlaps(without_all(tree, paths.take(n)), paths[n]) == without_all(
            tree,
            paths.take(n + 1),
        ),
        forall|k: PathView| #[trigger]
            overlaps_any(k, paths.take(n + 1)) <==> overlaps_any(k, paths.take(n))
                || paths::overlaps(k, paths[n]),
{
    assert forall|k: PathView| #[trigger]
        overlaps_any(k, paths.take(n + 1)) <==> overlaps_any(k, paths.take(n)) || paths::overlaps(
            k,
            paths[n],
        ) by {
        if overlaps_any(k, paths.take(n + 1)) {
            let i = choose|i: int|
                0 <= i < paths.take(n + 1).len() && paths::overlaps(
                    k,
                    #[trigger] paths.take(n + 1)[i],
                );
            if i < n {
                assert(paths.take(n)[i] == paths.take(n + 1)[i]);
            }
        }
        if overlaps_any(k, paths.take(n)) {
            let i = choose|i: int|
                0 <= i < paths.take(n).len() && paths::overlaps(k, #[trigger] paths.take(n)[i]);
            assert(paths.take(n + 1)[i] == paths.take(n)[i]);
        }
        if paths::overlaps(k, paths[n]) {
            assert(paths.take(n + 1)[n] == paths[n]);
        }
    }
    assert(file_tree::without_overlaps(without_all(tree, paths.take(n)), paths[n])
        =~= without_all(tree, paths.take(n + 1)));
}

/// Takes everything that overlaps one of `paths` out of the tree.
pub fn invalidate_paths_and_collect_futures(
    tree: &mut ArtifactTree,
    paths: &Vec<ProjectRelativePathBuf>,
) -> (r: Invalidated)
    requires
        old(tree).wf(),
    ensures
        final(tree).wf(),
        final(tree)@ == without_all(old(tree)@, paths::path_views(paths@)),
        invalidates(r, old(tree)@, paths::path_views(paths@)),
{
    let ghost tree0 = tree@;
    let ghost all = paths::path_views(paths@);
    let mut inv = Invalidated { paths: Vec::new(), futures: Vec::new() };
    let mut n: usize = 0;
    proof {
        assert(all.take(0) =~= Seq::empty());
        assert(without_all(tree0, all.take(0)) =~= tree0);
        assert(paths::path_views(inv.paths@) =~= Seq::empty());
        assert(pending_views(inv.futures@) =~= Seq::empty());
        assert(invalidates(inv, tree0, all.take(0)));
    }
    while n < paths.len()
        invariant
            all == paths::path_views(paths@),
            n <= paths.len(),
            tree.wf(),
            tree@ == without_all(tree0, all.take(n as int)),
            invalidates(inv, tree0, all.take(n as int)),
        decreases paths.len() - n,
    {
        let ghost before = tree@;
        let removed = tree.remove_path(&paths[n]);
        proof {
            lemma_without_all_step(tree0, all, n as int);
        }
        let ghost listed = removed@;
        let ghost inv0 = inv;
        let ghost paths0 = paths::path_views(inv0.paths@);
        proof {
            assert(listed.take(0) =~= Seq::empty());
            assert forall|k: PathView| !file_tree::assoc(listed.take(0)).contains_key(k) by {}
        }
        for entry in it: removed
            invariant
                it.seq() == listed,
                file_tree::no_duplicates(listed),
                file_tree::lists_overlaps(listed, before, all[n as int]),
                before == without_all(tree0, all.take(n as int)),
                paths0 == paths::path_views(inv0.paths@),
                invalidates(inv0, tree0, all.take(n as int)),
                paths::path_views(inv.paths@).no_duplicates(),
                forall|k: PathView| #[trigger]
                    paths::path_views(inv.paths@).contains(k) <==> paths0.contains(k)
                        || file_tree::assoc(listed.take(it.index() as int)).contains_key(k),
                pending_views(inv.futures@) == pending(tree0, paths::path_views(inv.paths@)),
        {
            let ghost i = it.index() as int;
            let ghost paths1 = paths::path_views(inv.paths@);
            let ghost k = entry.0@;
            proof {
                let next = listed.take(i + 1);
                assert(next.drop_last() =~= listed.take(i));
                assert(next.last() == entry);
                lemma_assoc_domain(listed, k);
                assert(listed[i].0@ == k);
                assert(file_tree::assoc(listed).contains_key(k));
                assert(before.contains_key(k));
                assert(tree0.contains_key(k) && !overlaps_any(k, all.take(n as int)));
                assert(!paths0.contains(k));
                lemma_not_listed_before(listed, i);
                assert(!paths1.contains(k));
                lemma_value_listed(listed, i);
                assert(tree0[k] == entry.1);
            }
            let (path, data) = entry;
            if let Some(future) = data.processing.into_future() {
                let ghost futures1 = pending_views(inv.futures@);
                inv.futures.push((path.clone(), future));
                assert(pending_views(inv.futures@) =~= futures1.push((k, future)));
            }
            inv.paths.push(path);
            proof {
                let paths2 = paths::path_views(inv.paths@);
                assert(paths2 =~= paths1.push(k));
                assert(paths2.drop_last() =~= paths1);
                assert forall|q: PathView| #[trigger] paths2.contains(q) <==> paths0.contains(q)
                    || file_tree::assoc(listed.take(i + 1)).contains_key(q) by {
                    if paths2.contains(q) {
                        let j = choose|j: int| 0 <= j < paths2.len() && paths2[j] == q;
                        if j < paths1.len() {
                            assert(paths1[j] == q);
                        }
                    }
                    if paths1.contains(q) {
                        let j = choose|j: int| 0 <= j < paths1.len() && paths1[j] == q;
                        assert(paths2[j] == q);
                    }
                    if q == k {
                        assert(paths2[paths1.len() as int] == q);
                    }
                }
            }
        }
        proof {
            assert(listed.take(listed.len() as int) =~= listed);
            assert forall|k: PathView| #[trigger]
                paths::path_views(inv.paths@).contains(k) <==> tree0.contains_key(k)
                    && overlaps_any(k, all.take(n + 1)) by {
                assert(paths0.contains(k) <==> tree0.contains_key(k) && overlaps_any(
                    k,
                    all.take(n as int),
                ));
                assert(overlaps_any(k, all.take(n + 1)) <==> overlaps_any(k, all.take(n as int))
                    || paths::overlaps(k, all[n as int]));
            }
        }
        n = n + 1;
    }
    assert(all.take(all.len() as int) =~= all);
    inv
}

proof fn lemma_not_listed_before(
    pairs: Seq<(ProjectRelativePathBuf, ArtifactMaterializationData)>,
    i: int,
)
    requires
        file_tree::no_duplicates(pairs),
        0 <= i < pairs.len(),
    ensures
        !file_tree::assoc(pairs.take(i)).contains_key(pairs[i].0@),
    decreases pairs.len(),
{
    if i == pairs.len() - 1 {
        assert(pairs.take(i) =~= pairs.drop_last());
    } else {
        lemma_not_listed_before(pairs.drop_last(), i);
        assert(pairs.drop_last().take(i) =~= pairs.take(i));
    }
}

proof fn lemma_value_listed(
    pairs: Seq<(ProjectRelativePathBuf, ArtifactMaterializationData)>,
    i: int,
)
    requires
        file_tree::no_duplicates(pairs),
        0 <= i < pairs.len(),
    ensures
        file_tree::assoc(pairs)[pairs[i].0@] == pairs[i].1,
    decreases pairs.len(),
{
    if i < pairs.len() - 1 {
        lemma_value_listed(pairs.drop_last(), i);
        lemma_assoc_domain(pairs.drop_last(), pairs[i].0@);
        assert(pairs.drop_last()[i].0@ == pairs[i].0@);
    }
}

/// The artifact at exactly `path` is on disk and is what `value` describes.
pub open spec fn already_materialized(
    tree: TreeView,
    path: PathView,
    value: ArtifactValue,
    windows: bool,
) -> bool {
    &&& tree.contains_key(path)
    &&& tree[path].stage is Materialized
    &&& artifact::metadata_matches(tree[path].stage->metadata, value.entry, windows)
}

/// `data` as declared again with other links.
pub open spec fn reused(
    data: ArtifactMaterializationData,
    deps: Option<Arc<ActionSharedDirectory>>,
) -> ArtifactMaterializationData {
    ArtifactMaterializationData {
        deps,
        stage: match data.stage {
            ArtifactMaterializationStage::Materialized {
                metadata,
                last_access_time,
                ..
            } => ArtifactMaterializationStage::Materialized {
                metadata,
                last_access_time,
                active: true,
            },
            other => other,
        },
        processing: data.processing,
    }
}

/// What is kept of an artifact that was declared at `version`, with `future` going on.
pub open spec fn declared_data(
    value: ArtifactValue,
    method: Arc<ArtifactMaterializationMethod>,
    future: ProcessingFuture,
    version: Version,
) -> ArtifactMaterializationData {
    ArtifactMaterializationData {
        deps: value.deps,
        stage: ArtifactMaterializationStage::Declared { entry: value.entry, method },
        processing: Processing::Active { future, version },
    }
}

/// What is kept of an artifact that is on disk.
pub open spec fn materialized_data(
    metadata: ArtifactMetadata,
    deps: Option<Arc<ActionSharedDirectory>>,
    timestamp: i64,
    active: bool,
    version: Version,
) -> ArtifactMaterializationData {
    ArtifactMaterializationData {
        deps,
        stage: ArtifactMaterializationStage::Materialized {
            metadata,
            last_access_time: timestamp,
            active,
        },
        processing: Processing::Done(version),
    }
}

/// The first part of declaring an artifact.
pub enum DeclareStep {
    /// The same artifact is on disk already; nothing is left to do.
    Reused,
    /// What was known at the path is invalid. It has to be deleted from the database, and then
    /// the declaration continues at this version.
    Invalidated { version: Version, invalidated: Invalidated },
}

/// The work that a declaration starts.
pub enum DeclaredWork {
    /// The file is written at once.
    Write(Arc<WriteFile>),
    /// The path is cleaned.
    Clean(CleanPlan),
}

/// Where files may be written at once, this is such a file: nothing has to be cleaned first and
/// it has no links.
pub open spec fn write_fast_path(
    macos: bool,
    existing: ExistingFutures,
    value: ArtifactValue,
    method: ArtifactMaterializationMethod,
) -> bool {
    !macos && existing.spec_is_empty() && value.deps is None && method is Write
}

/// An artifact came to be on disk: the database and the subscribers are to be told.
pub struct OnMaterialization {
    pub metadata: ArtifactMetadata,
    pub timestamp: i64,
    /// Under which name an error of the database is reported.
    pub error_name: &'static str,
}

/// What the end of a materialization asks for.
pub enum FinishedEffect {
    /// The path was invalidated in the meantime.
    Vacant,
    /// Newer work has been started in the meantime.
    VersionConflict,
    /// The links of an artifact that is on disk were dealt with, well or not.
    DepsOnly,
    /// The artifact failed; its path is cleaned at once, at this version.
    Clean(Version),
    /// The artifact is on disk.
    Materialized(OnMaterialization),
}

/// What the end of the work started at `version` does to the artifact at or above `path`.
/// `next` is the next version.
pub open spec fn finished(
    tree: TreeView,
    path: PathView,
    timestamp: i64,
    version: Version,
    ok: bool,
    next: Version,
) -> TreeView {
    match file_tree::owner(tree, path) {
        None => tree,
        Some(key) => {
            let info = tree[key];
            if deferred::version_of(info.processing).0 > version.0 {
                tree
            } else {
                match (ok, info.stage) {
                    (true, ArtifactMaterializationStage::Declared { entry, .. }) => tree.insert(
                        key,
                        materialized_data(
                            artifact::metadata_of(entry),
                            info.deps,
                            timestamp,
                            true,
                            version,
                        ),
                    ),
                    (true, _) => tree.insert(
                        key,
                        ArtifactMaterializationData {
                            processing: Processing::Done(version),
                            ..info
                        },
                    ),
                    (false, ArtifactMaterializationStage::Declared { .. }) => tree.insert(
                        key,
                        ArtifactMaterializationData {
                            processing: Processing::Active {
                                future: ProcessingFuture::Cleaning(next),
                                version: next,
                            },
                            ..info
                        },
                    ),
                    (false, _) => tree.insert(
                        key,
                        ArtifactMaterializationData { processing: Processing::Done(next), ..info },
                    ),
                }
            }
        },
    }
}

/// The end of the work started at `version` counts: something is known at the path, and nothing
/// newer goes on there.
pub open spec fn is_current(tree: TreeView, path: PathView, version: Version) -> bool {
    match file_tree::owner(tree, path) {
        Some(k) => deferred::version_of(tree[k].processing).0 <= version.0,
        None => false,
    }
}

/// The next version after the end of work; a failure that counts takes one.
pub open spec fn next_version(
    tree: TreeView,
    path: PathView,
    version: Version,
    ok: bool,
    next: Version,
) -> int {
    if is_current(tree, path, version) && !ok {
        next.0 + 1
    } else {
        next.0 as int
    }
}

/// `effect` is what the end of the work started at `version` asks for.
pub open spec fn is_effect(
    effect: FinishedEffect,
    tree: TreeView,
    path: PathView,
    timestamp: i64,
    version: Version,
    ok: bool,
    next: Version,
) -> bool {
    match file_tree::owner(tree, path) {
        None => effect is Vacant,
        Some(k) => if !is_current(tree, path, version) {
            effect is VersionConflict
        } else {
            match (ok, tree[k].stage) {
                (false, ArtifactMaterializationStage::Declared { .. }) => effect
                    == FinishedEffect::Clean(next),
                (true, ArtifactMaterializationStage::Declared { entry, .. }) => {
                    &&& effect matches FinishedEffect::Materialized(on)
                    &&& on.metadata == artifact::metadata_of(entry)
                    &&& on.timestamp == timestamp
                    &&& on.error_name@ == "materializer_finished_error"@
                },
                (_, ArtifactMaterializationStage::Materialized { .. }) => effect is DepsOnly,
            }
        },
    }
}

/// How the end of the clean-up started at `version` is taken.
pub open spec fn cleanup_outcome(tree: TreeView, path: PathView, version: Version, ok: bool)
    -> CleanupOutcome {
    match file_tree::owner(tree, path) {
        None => CleanupOutcome::Vacant,
        Some(k) => if deferred::version_of(tree[k].processing).0 > version.0 {
            CleanupOutcome::VersionConflict
        } else if !ok {
            CleanupOutcome::Failed
        } else {
            CleanupOutcome::Done
        },
    }
}

/// What the end of the clean-up started at `version` does to the tree.
pub open spec fn cleaned(tree: TreeView, path: PathView, version: Version, ok: bool) -> TreeView {
    match file_tree::owner(tree, path) {
        Some(key) if deferred::version_of(tree[key].processing).0 <= version.0 && ok => tree.insert(
            key,
            ArtifactMaterializationData { processing: Processing::Done(version), ..tree[key] },
        ),
        _ => tree,
    }
}

/// What is known at exactly `path` is what `value` describes.
pub open spec fn known_as(tree: TreeView, path: PathView, value: ArtifactValue, windows: bool)
    -> bool {
    tree.contains_key(path) && match tree[path].stage {
        ArtifactMaterializationStage::Materialized {
            metadata,
            ..
        } => artifact::metadata_matches(metadata, value.entry, windows),
        ArtifactMaterializationStage::Declared { entry, .. } => artifact::same_entry(
            value.entry,
            entry,
        ),
    }
}

/// What asking for an artifact at exactly `path` does to the tree: where it is on disk, it is in
/// use `now`.
pub open spec fn used(tree: TreeView, path: PathView, now: i64) -> TreeView {
    if tree.contains_key(path) && tree[path].stage is Materialized {
        tree.insert(path, processor::touched(reused(tree[path], tree[path].deps), now))
    } else {
        tree
    }
}

/// What matching an artifact does to the tree: where it matches, its links are taken over.
pub open spec fn matched(tree: TreeView, path: PathView, value: ArtifactValue, windows: bool)
    -> TreeView {
    if known_as(tree, path, value, windows) && value.deps is Some {
        tree.insert(path, ArtifactMaterializationData { deps: value.deps, ..tree[path] })
    } else {
        tree
    }
}

proof fn lemma_owner_is_path(tree: TreeView, path: PathView)
    requires
        file_tree::prefix_free(tree.dom()),
    ensures
        tree.contains_key(path) ==> file_tree::owner(tree, path) == Some(path),
        file_tree::owner(tree, path) is Some ==> tree.contains_key(
            file_tree::owner(tree, path)->0,
        ) && paths::is_prefix(file_tree::owner(tree, path)->0, path),
        file_tree::owner(tree, path) matches Some(k) ==> k.len() == path.len() ==> k == path,
{
    if tree.contains_key(path) {
        file_tree::lemma_owner_of_key(tree, path);
    }
    if let Some(k) = file_tree::owner(tree, path) {
        assert(tree.contains_key(k) && paths::is_prefix(k, path));
        if k.len() == path.len() {
            assert(path.take(path.len() as int) =~= path);
        }
    }
}

fn dupe_deps(deps: &Option<Arc<ActionSharedDirectory>>) -> (r: Option<Arc<ActionSharedDirectory>>)
    ensures
        r == *deps,
{
    match deps {
        Some(d) => Some(d.clone()),
        None => None,
    }
}

/// The second part of declaring `value` at `path` takes `before` to `after` and leaves this work.
pub open spec fn declare_finishes(
    before: DeferredMaterializerCommandProcessor,
    path: PathView,
    value: ArtifactValue,
    method: ArtifactMaterializationMethod,
    version: Version,
    existing: ExistingFutures,
    after: DeferredMaterializerCommandProcessor,
    work: DeclaredWork,
) -> bool {
    let fast = write_fast_path(before.platform.macos, existing, value, method);
    let future = if fast {
        ProcessingFuture::Materializing(version)
    } else {
        ProcessingFuture::Cleaning(version)
    };
    &&& after.same_rest(&before)
    &&& after.version_tracker == before.version_tracker
    &&& after.access_times_buffer == before.access_times_buffer
    &&& after.tasks == before.tasks
    &&& after.tree@ == file_tree::without_overlaps(before.tree@, path).insert(
        path,
        declared_data(value, Arc::new(method), future, version),
    )
    &&& work == (if fast {
        DeclaredWork::Write(method->Write_0)
    } else if existing.spec_is_empty() {
        DeclaredWork::Clean(CleanPlan::Now)
    } else {
        DeclaredWork::Clean(CleanPlan::After(existing))
    })
}

impl DeferredMaterializerCommandProcessor {
    /// The first part of declaring `value` at `path`. `force_mismatch` makes an artifact that is
    /// on disk already count as another one.
    pub fn begin_declare(
        &mut self,
        path: &ProjectRelativePathBuf,
        value: &ArtifactValue,
        force_mismatch: bool,
    ) -> (r: DeclareStep)
        requires
            old(self).wf(),
            old(self).version_tracker.0.0 < u64::MAX,
        ensures
            final(self).wf(),
            final(self).same_but_stats(old(self)),
            final(self).access_times_buffer == old(self).access_times_buffer,
            final(self).tasks == old(self).tasks,
            final(self).stats.declares == old(self).stats.declares.wrapping_add(1),
            ({
                let windows = old(self).platform.windows;
                if already_materialized(old(self).tree@, path@, *value, windows)
                    && !force_mismatch {
                    &&& r is Reused
                    &&& final(self).tree@ == old(self).tree@.insert(
                        path@,
                        reused(old(self).tree@[path@], value.deps),
                    )
                    &&& final(self).version_tracker == old(self).version_tracker
                    &&& final(self).stats.declares_reused
                        == old(self).stats.declares_reused.wrapping_add(1)
                } else {
                    &&& r matches DeclareStep::Invalidated { version, invalidated }
                    &&& version == old(self).version_tracker.0
                    &&& invalidates(invalidated, old(self).tree@, seq![path@])
                    &&& final(self).tree@ == file_tree::without_overlaps(old(self).tree@, path@)
                    &&& final(self).version_tracker.0.0 == old(self).version_tracker.0.0 + 1
                    &&& final(self).stats.declares_reused == old(self).stats.declares_reused
                }
            }),
    {
        self.stats.declares = self.stats.declares.wrapping_add(1);
        let ghost tree0 = self.tree@;
        proof {
            self.tree.lemma_wf();
            lemma_owner_is_path(tree0, path@);
        }
        match self.tree.find(path) {
            Some(i) => {
                let exact = self.tree.key(i).depth() == path.depth();
                let windows = self.platform.windows;
                let data = self.tree.value_mut(i);
                let same = match &data.stage {
                    ArtifactMaterializationStage::Materialized { metadata, .. } => exact
                        && metadata.matches_entry(&value.entry, windows) && !force_mismatch,
                    ArtifactMaterializationStage::Declared { .. } => false,
                };
                if same {
                    match &mut data.stage {
                        ArtifactMaterializationStage::Materialized { active, .. } => {
                            *active = true;
                        },
                        ArtifactMaterializationStage::Declared { .. } => {},
                    }
                    data.deps = dupe_deps(&value.deps);
                    self.stats.declares_reused = self.stats.declares_reused.wrapping_add(1);
                    return DeclareStep::Reused;
                }
                assert(self.tree@ =~= tree0);
            },
            None => {},
        }
        let version = self.version_tracker.next();
        let mut only: Vec<ProjectRelativePathBuf> = Vec::new();
        only.push(path.clone());
        let invalidated = invalidate_paths_and_collect_futures(&mut self.tree, &only);
        proof {
            assert(paths::path_views(only@) =~= seq![path@]);
            assert forall|k: PathView| #[trigger]
                overlaps_any(k, seq![path@]) <==> paths::overlaps(k, path@) by {
                if paths::overlaps(k, path@) {
                    assert(seq![path@][0] == path@);
                }
            }
            assert(self.tree@ =~= file_tree::without_overlaps(tree0, path@));
        }
        DeclareStep::Invalidated { version, invalidated }
    }

    /// The second part of declaring `value` at `path`: `existing` says what was going on there,
    /// or why the database could not be brought up to date.
    pub fn finish_declare(
        &mut self,
        path: &ProjectRelativePathBuf,
        value: ArtifactValue,
        method: Box<ArtifactMaterializationMethod>,
        version: Version,
        existing: ExistingFutures,
    ) -> (r: DeclaredWork)
        requires
            old(self).wf(),
            artifact::entry_bytes(value.entry) <= u64::MAX,
            processor::method_wf(*method),
        ensures
            final(self).wf(),
            declare_finishes(
                *old(self),
                path@,
                value,
                *method,
                version,
                existing,
                *final(self),
                r,
            ),
    {
        let can_use_write_fast_path = !self.platform.macos && existing.is_empty()
            && value.deps.is_none();
        let method = Arc::new(*method);
        let (future, work) = match &*method {
            ArtifactMaterializationMethod::Write(write) if can_use_write_fast_path => (
                ProcessingFuture::Materializing(version),
                DeclaredWork::Write(write.clone()),
            ),
            _ => (
                ProcessingFuture::Cleaning(version),
                DeclaredWork::Clean(clean_path(existing)),
            ),
        };
        let ArtifactValue { entry, deps } = value;
        let data = ArtifactMaterializationData {
            deps,
            stage: ArtifactMaterializationStage::Declared { entry, method },
            processing: Processing::Active { future, version },
        };
        self.tree.insert(path.clone(), data);
        work
    }

    /// Declares `value` at `path` where no database has to be brought up to date.
    pub fn declare(
        &mut self,
        path: &ProjectRelativePathBuf,
        value: ArtifactValue,
        method: Box<ArtifactMaterializationMethod>,
        force_mismatch: bool,
    ) -> (r: Option<DeclaredWork>)
        requires
            old(self).wf(),
            old(self).version_tracker.0.0 < u64::MAX,
            artifact::entry_bytes(value.entry) <= u64::MAX,
            processor::method_wf(*method),
        ensures
            final(self).wf(),
            final(self).same_but_stats(old(self)),
            final(self).access_times_buffer == old(self).access_times_buffer,
            final(self).tasks == old(self).tasks,
            final(self).stats.declares == old(self).stats.declares.wrapping_add(1),
            final(self).stats.declares_reused == (if r is None {
                old(self).stats.declares_reused.wrapping_add(1)
            } else {
                old(self).stats.declares_reused
            }),
            ({
                let tree = old(self).tree@;
                let version = old(self).version_tracker.0;
                let nothing_pending = forall|k: PathView|
                    tree.contains_key(k) && paths::overlaps(k, path@) ==> (
                    #[trigger] tree[k]).processing is Done;
                let fast = !old(self).platform.macos && nothing_pending && value.deps is None
                    && *method is Write;
                let future = if fast {
                    ProcessingFuture::Materializing(version)
                } else {
                    ProcessingFuture::Cleaning(version)
                };
                if already_materialized(tree, path@, value, old(self).platform.windows)
                    && !force_mismatch {
                    &&& r is None
                    &&& final(self).tree@ == tree.insert(
                        path@,
                        reused(tree[path@], value.deps),
                    )
                    &&& final(self).version_tracker == old(self).version_tracker
                } else {
                    &&& final(self).tree@ == file_tree::without_overlaps(tree, path@).insert(
                        path@,
                        declared_data(value, Arc::new(*method), future, version),
                    )
                    &&& final(self).version_tracker.0.0 == version.0 + 1
                    &&& match r {
                        Some(DeclaredWork::Write(w)) => fast && w == (*method)->Write_0,
                        Some(DeclaredWork::Clean(CleanPlan::Now)) => !fast && nothing_pending,
                        Some(DeclaredWork::Clean(CleanPlan::After(existing))) => {
                            &&& !fast
                            &&& !nothing_pending
                            &&& existing.0 matches Ok(futures) && forall|p: (
                                PathView,
                                ProcessingFuture,
                            )| #[trigger]
                                pending_views(futures@).contains(p) <==> tree.contains_key(p.0)
                                    && paths::overlaps(p.0, path@) && future_of(
                                    tree[p.0].processing,
                                ) == Some(p.1)
                        },
                        None => false,
                    }
                }
            }),
    {
        let ghost tree0 = self.tree@;
        match self.begin_declare(path, &value, force_mismatch) {
            DeclareStep::Reused => None,
            DeclareStep::Invalidated { version, invalidated } => {
                let Invalidated { paths: gone, futures } = invalidated;
                proof {
                    assert forall|k: PathView| #[trigger]
                        overlaps_any(k, seq![path@]) <==> paths::overlaps(k, path@) by {
                        if paths::overlaps(k, path@) {
                            assert(seq![path@][0] == path@);
                        }
                    }
                    let ps = paths::path_views(gone@);
                    assert forall|p: (PathView, ProcessingFuture)| #[trigger]
                        pending_views(futures@).contains(p) <==> ps.contains(p.0)
                            && future_of(tree0[p.0].processing) == Some(p.1) by {
                        lemma_pending_contains(tree0, ps, p);
                    }
                    let rest = file_tree::without_overlaps(tree0, path@);
                    assert(file_tree::without_overlaps(rest, path@) =~= rest);
                    let nothing_pending = forall|k: PathView|
                        tree0.contains_key(k) && paths::overlaps(k, path@) ==> (
                        #[trigger] tree0[k]).processing is Done;
                    if futures@.len() == 0 {
                        assert forall|k: PathView|
                            tree0.contains_key(k) && paths::overlaps(k, path@) implies (
                        #[trigger] tree0[k]).processing is Done by {
                            if tree0[k].processing is Active {
                                let p = (k, tree0[k].processing->future);
                                assert(ps.contains(k));
                                assert(pending_views(futures@).contains(p));
                            }
                        }
                    } else {
                        let p = pending_views(futures@)[0];
                        assert(pending_views(futures@).contains(p));
                        assert(ps.contains(p.0));
                        assert(!(tree0[p.0].processing is Done));
                    }
                }
                Some(
                    self.finish_declare(
                        path,
                        value,
                        method,
                        version,
                        ExistingFutures(Ok(futures)),
                    ),
                )
            },
        }
    }

    /// Declares that `value` is on disk at `path` since `now`.
    pub fn declare_existing(
        &mut self,
        path: &ProjectRelativePathBuf,
        value: ArtifactValue,
        now: i64,
    ) -> (r: OnMaterialization)
        requires
            old(self).wf(),
            old(self).version_tracker.0.0 < u64::MAX,
            artifact::entry_bytes(value.entry) <= u64::MAX,
        ensures
            final(self).wf(),
            final(self).same_rest(old(self)),
            final(self).access_times_buffer == old(self).access_times_buffer,
            final(self).tasks == old(self).tasks,
            final(self).version_tracker.0.0 == old(self).version_tracker.0.0 + 1,
            final(self).tree@ == file_tree::without_overlaps(old(self).tree@, path@).insert(
                path@,
                materialized_data(
                    artifact::metadata_of(value.entry),
                    value.deps,
                    now,
                    true,
                    old(self).version_tracker.0,
                ),
            ),
            r.metadata == artifact::metadata_of(value.entry),
            r.timestamp == now,
            r.error_name@ == "materializer_declare_existing_error"@,
    {
        let metadata = ArtifactMetadata::new(&value.entry);
        let on = OnMaterialization {
            metadata: metadata.dupe(),
            timestamp: now,
            error_name: "materializer_declare_existing_error",
        };
        let ArtifactValue { entry: _, deps } = value;
        let data = ArtifactMaterializationData {
            deps,
            stage: ArtifactMaterializationStage::Materialized {
                metadata,
                last_access_time: now,
                active: true,
            },
            processing: Processing::Done(self.version_tracker.next()),
        };
        self.tree.insert(path.clone(), data);
        on
    }

    /// Whether what is known at `path` is `value`. Where it is, its links are taken over.
    pub fn match_artifact(&mut self, path: &ProjectRelativePathBuf, value: &ArtifactValue) -> (r:
        bool)
        requires
            old(self).wf(),
        ensures
            final(self).wf(),
            final(self).same_rest(old(self)),
            final(self).version_tracker == old(self).version_tracker,
            final(self).access_times_buffer == old(self).access_times_buffer,
            final(self).tasks == old(self).tasks,
            r == known_as(old(self).tree@, path@, *value, old(self).platform.windows),
            final(self).tree@ == matched(
                old(self).tree@,
                path@,
                *value,
                old(self).platform.windows,
            ),
    {
        let ghost tree0 = self.tree@;
        proof {
            self.tree.lemma_wf();
            lemma_owner_is_path(tree0, path@);
        }
        let i = match self.tree.find(path) {
            Some(i) => i,
            None => {
                return false;
            },
        };
        if self.tree.key(i).depth() != path.depth() {
            // Something was declared above our path.
            return false;
        }
        let is_match = match &self.tree.value(i).stage {
            ArtifactMaterializationStage::Materialized { metadata, .. } => metadata.matches_entry(
                &value.entry,
                self.platform.windows,
            ),
            ArtifactMaterializationStage::Declared { entry, .. } => artifact::entries_match(
                &value.entry,
                entry,
            ),
        };
        if is_match && value.deps.is_some() {
            let data = self.tree.value_mut(i);
            data.deps = dupe_deps(&value.deps);
        }
        is_match
    }

    /// Whether an artifact is known at exactly `path`, and whether the database has to be told
    /// that it was used `now`.
    pub fn has_artifact(&mut self, path: &ProjectRelativePathBuf, now: i64) -> (r: (bool, bool))
        requires
            old(self).wf(),
        ensures
            final(self).wf(),
            final(self).same_rest(old(self)),
            final(self).version_tracker == old(self).version_tracker,
            final(self).access_times_buffer == old(self).access_times_buffer,
            final(self).tasks == old(self).tasks,
            r.0 == old(self).tree@.contains_key(path@),
            r.1 == (r.0 && old(self).tree@[path@].stage is Materialized && old(self).has_db),
            final(self).tree@ == used(old(self).tree@, path@, now),
    {
        let ghost tree0 = self.tree@;
        proof {
            self.tree.lemma_wf();
            lemma_owner_is_path(tree0, path@);
        }
        let i = match self.tree.find(path) {
            Some(i) => i,
            None => {
                return (false, false);
            },
        };
        if self.tree.key(i).depth() != path.depth() {
            return (false, false);
        }
        let has_db = self.has_db;
        let data = self.tree.value_mut(i);
        match &mut data.stage {
            ArtifactMaterializationStage::Materialized { last_access_time, active, .. } => {
                *active = true;
                *last_access_time = now;
                (true, has_db)
            },
            ArtifactMaterializationStage::Declared { .. } => {
                assert(tree0.insert(path@, tree0[path@]) =~= tree0);
                (true, false)
            },
        }
    }

    /// Whether the artifact at or above `path` is on disk.
    pub fn is_path_materialized(&self, path: &ProjectRelativePathBuf) -> (r: bool)
        requires
            self.wf(),
        ensures
            r == (match file_tree::owner(self.tree@, path@) {
                Some(k) => self.tree@[k].stage is Materialized,
                None => false,
            }),
    {
        match self.tree.find(path) {
            None => false,
            Some(i) => match &self.tree.value(i).stage {
                ArtifactMaterializationStage::Materialized { .. } => true,
                ArtifactMaterializationStage::Declared { .. } => false,
            },
        }
    }

    /// The work that was started at `version` on `path` has ended.
    pub fn materialization_finished(
        &mut self,
        path: &ProjectRelativePathBuf,
        timestamp: i64,
        version: Version,
        result: &Result<(), SharedMaterializingError>,
    ) -> (r: FinishedEffect)
        requires
            old(self).wf(),
            old(self).version_tracker.0.0 < u64::MAX,
        ensures
            final(self).wf(),
            final(self).same_rest(old(self)),
            final(self).access_times_buffer == old(self).access_times_buffer,
            final(self).tasks == old(self).tasks,
            final(self).tree@ == finished(
                old(self).tree@,
                path@,
                timestamp,
                version,
                result is Ok,
                old(self).version_tracker.0,
            ),
            final(self).version_tracker.0.0 == next_version(
                old(self).tree@,
                path@,
                version,
                result is Ok,
                old(self).version_tracker.0,
            ),
            is_effect(
                r,
                old(self).tree@,
                path@,
                timestamp,
                version,
                result is Ok,
                old(self).version_tracker.0,
            ),
    {
        proof {
            self.tree.lemma_wf();
            lemma_owner_is_path(self.tree@, path@);
        }
        let ghost tree0 = self.tree@;
        let i = match self.tree.find(path) {
            Some(i) => i,
            None => {
                return FinishedEffect::Vacant;
            },
        };
        if self.tree.value(i).processing.current_version().0 > version.0 {
            // We can only unset the future if the version matches. Otherwise, we may be unsetting
            // a different future from a newer version.
            return FinishedEffect::VersionConflict;
        }
        if result.is_err() {
            let next = self.version_tracker.next();
            let info = self.tree.value_mut(i);
            match &info.stage {
                ArtifactMaterializationStage::Materialized { .. } => {
                    // Only the links failed: the artifact itself stays as it is.
                    info.processing = Processing::Done(next);
                    FinishedEffect::DepsOnly
                },
                ArtifactMaterializationStage::Declared { .. } => {
                    // Something may be at the path nevertheless, so it is cleaned before the
                    // artifact is ever tried again.
                    info.processing = Processing::Active {
                        future: ProcessingFuture::Cleaning(next),
                        version: next,
                    };
                    FinishedEffect::Clean(next)
                },
            }
        } else {
            let info = self.tree.value_mut(i);
            let metadata = match &info.stage {
                ArtifactMaterializationStage::Materialized { .. } => None,
                ArtifactMaterializationStage::Declared { entry, .. } => Some(
                    ArtifactMetadata::new(entry),
                ),
            };
            info.processing = Processing::Done(version);
            match metadata {
                None => FinishedEffect::DepsOnly,
                Some(metadata) => {
                    let on = OnMaterialization {
                        metadata: metadata.dupe(),
                        timestamp,
                        error_name: "materializer_finished_error",
                    };
                    info.stage = ArtifactMaterializationStage::Materialized {
                        metadata,
                        last_access_time: timestamp,
                        active: true,
                    };
                    FinishedEffect::Materialized(on)
                },
            }
        }
    }
}

proof fn lemma_pending_contains(
    tree: TreeView,
    ps: Seq<PathView>,
    p: (PathView, ProcessingFuture),
)
    ensures
        pending(tree, ps).contains(p) <==> ps.contains(p.0) && future_of(
            tree[p.0].processing,
        ) == Some(p.1),
    decreases ps.len(),
{
    if ps.len() > 0 {
        let init = ps.drop_last();
        lemma_pending_contains(tree, init, p);
        let before = pending(tree, init);
        let all = pending(tree, ps);
        if all.contains(p) {
            let i = choose|i: int| 0 <= i < all.len() && all[i] == p;
            if i < before.len() {
                assert(before[i] == p);
                assert(before.contains(p));
                let j = choose|j: int| 0 <= j < init.len() && init[j] == p.0;
                assert(ps[j] == p.0);
            } else {
                assert(ps[ps.len() - 1] == p.0);
            }
        }
        if ps.contains(p.0) && tree[p.0].processing is Active && tree[p.0].processing->future
            == p.1 {
            let j = choose|j: int| 0 <= j < ps.len() && ps[j] == p.0;
            if j < init.len() {
                assert(init[j] == p.0);
                assert(before.contains(p));
                let i = choose|i: int| 0 <= i < before.len() && before[i] == p;
                assert(all[i] == p);
            } else {
                assert(all[all.len() - 1] == p);
            }
        }
    }
}

/// How the end of a clean-up was taken.
#[derive(Clone, Copy, Debug, PartialEq, Eq, Structural)]
pub enum CleanupOutcome {
    /// Nothing is known at the path.
    Vacant,
    /// Newer work has been started in the meantime.
    VersionConflict,
    /// The clean-up failed and is not tried again.
    Failed,
    Done,
}

/// The clean-up that was started at `version` on `path` has ended.
pub fn cleanup_finished(
    tree: &mut ArtifactTree,
    path: &ProjectRelativePathBuf,
    version: Version,
    result: &Result<(), SharedMaterializingError>,
) -> (r: CleanupOutcome)
    requires
        old(tree).wf(),
        processor::stages_wf(old(tree)@),
    ensures
        final(tree).wf(),
        processor::stages_wf(final(tree)@),
        final(tree)@ == cleaned(old(tree)@, path@, version, result is Ok),
        r == cleanup_outcome(old(tree)@, path@, version, result is Ok),
{
    let ghost tree0 = tree@;
    match tree.find(path) {
        None => CleanupOutcome::Vacant,
        Some(i) => {
            if tree.value(i).processing.current_version().0 > version.0 {
                return CleanupOutcome::VersionConflict;
            }
            if result.is_err() {
                // Leave it alone, don't keep retrying.
                CleanupOutcome::Failed
            } else {
                let info = tree.value_mut(i);
                info.processing = Processing::Done(version);
                CleanupOutcome::Done
            }
        },
    }
}

/// What has just been declared at a path is what is known there.
pub proof fn law_declared_is_known(
    tree: TreeView,
    path: PathView,
    value: ArtifactValue,
    method: Arc<ArtifactMaterializationMethod>,
    future: ProcessingFuture,
    version: Version,
    windows: bool,
)
    ensures
        known_as(
            file_tree::without_overlaps(tree, path).insert(
                path,
                declared_data(value, method, future, version),
            ),
            path,
            value,
            windows,
        ),
{
}

/// Once the work on a declared artifact has ended well, declaring the same artifact again finds
/// it on disk.
pub proof fn law_finished_artifact_is_reused(
    tree: TreeView,
    path: PathView,
    value: ArtifactValue,
    timestamp: i64,
    version: Version,
    next: Version,
    windows: bool,
)
    requires
        file_tree::prefix_free(tree.dom()),
        tree.contains_key(path),
        tree[path].stage matches ArtifactMaterializationStage::Declared { entry, .. } && entry
            == value.entry && artifact::entry_bytes(entry) <= u64::MAX,
        deferred::version_of(tree[path].processing).0 <= version.0,
    ensures
        already_materialized(
            finished(tree, path, timestamp, version, true, next),
            path,
            value,
            windows,
        ),
{
    file_tree::lemma_owner_of_key(tree, path);
    artifact::law_metadata_describes_its_entry(value.entry, windows);
}

/// Notifications about work that is older than what goes on at the path change nothing.
pub proof fn law_stale_notification_is_ignored(
    tree: TreeView,
    path: PathView,
    timestamp: i64,
    version: Version,
    ok: bool,
    next: Version,
)
    requires
        file_tree::owner(tree, path) is Some,
        deferred::version_of(tree[file_tree::owner(tree, path)->0].processing).0 > version.0,
    ensures
        finished(tree, path, timestamp, version, ok, next) == tree,
        cleaned(tree, path, version, ok) == tree,
{
}

/// An artifact that was declared again while its older version was being materialized stays
/// declared when the older work ends.
pub proof fn law_redeclared_artifact_stays_declared(
    tree: TreeView,
    path: PathView,
    value: ArtifactValue,
    method: Arc<ArtifactMaterializationMethod>,
    future: ProcessingFuture,
    version: Version,
    older: Version,
    timestamp: i64,
    ok: bool,
    next: Version,
)
    requires
        file_tree::prefix_free(tree.dom()),
        older.0 < version.0,
    ensures
        ({
            let declared = file_tree::without_overlaps(tree, path).insert(
                path,
                declared_data(value, method, future, version),
            );
            finished(declared, path, timestamp, older, ok, next) == declared
        }),
{
    let data = declared_data(value, method, future, version);
    file_tree::lemma_insert_prefix_free(tree, path, data);
    file_tree::lemma_owner_of_key(file_tree::without_overlaps(tree, path).insert(path, data), path);
}

/// Where materializing a declared artifact fails, the artifact is declared as before, and its
/// path is cleaned before anything else happens there.
pub proof fn law_failure_returns_to_declared(
    tree: TreeView,
    path: PathView,
    timestamp: i64,
    version: Version,
    next: Version,
)
    requires
        file_tree::owner(tree, path) is Some,
        tree[file_tree::owner(tree, path)->0].stage is Declared,
        deferred::version_of(tree[file_tree::owner(tree, path)->0].processing).0 <= version.0,
    ensures
        ({
            let key = file_tree::owner(tree, path)->0;
            let after = finished(tree, path, timestamp, version, false, next);
            &&& after[key].stage == tree[key].stage
            &&& after[key].deps == tree[key].deps
            &&& processor::cleaning_of(after[key].processing) == Some(next)
        }),
{
}

/// The end of work on one path leaves all other artifacts alone.
pub proof fn law_finished_touches_one_artifact(
    tree: TreeView,
    path: PathView,
    timestamp: i64,
    version: Version,
    ok: bool,
    next: Version,
    other: PathView,
)
    requires
        tree.contains_key(other),
        file_tree::owner(tree, path) != Some(other),
    ensures
        finished(tree, path, timestamp, version, ok, next).contains_key(other),
        finished(tree, path, timestamp, version, ok, next)[other] == tree[other],
        cleaned(tree, path, version, ok).contains_key(other),
        cleaned(tree, path, version, ok)[other] == tree[other],
{
}

/// Once paths are invalidated, nothing is known of them, nor of anything below them.
pub proof fn law_invalidated_paths_are_unknown(
    tree: TreeView,
    paths: Seq<PathView>,
    i: int,
    below: PathView,
)
    requires
        0 <= i < paths.len(),
        paths::is_prefix(paths[i], below),
    ensures
        file_tree::owner(without_all(tree, paths), below) is None,
{
    let m = without_all(tree, paths);
    if file_tree::owner(m, below) is Some {
        let k = file_tree::owner(m, below)->0;
        assert(m.contains_key(k) && paths::is_prefix(k, below));
        paths::lemma_prefix_order(k, paths[i], below);
        assert(overlaps_any(k, paths));
    }
}

/// An artifact is taken for one that is on disk only where it stands at exactly that path, is on
/// disk, and is of the same kind with the same contents.
pub proof fn law_only_the_same_is_reused(
    tree: TreeView,
    path: PathView,
    value: ArtifactValue,
    windows: bool,
)
    ensures
        already_materialized(tree, path, value, windows) ==> tree.contains_key(path)
            && tree[path].stage is Materialized,
        already_materialized(tree, path, value, windows) <==> tree.contains_key(path)
            && tree[path].stage is Materialized && artifact::metadata_matches(
            tree[path].stage->metadata,
            value.entry,
            windows,
        ),
        already_materialized(tree, path, value, windows) ==> known_as(tree, path, value, windows),
{
}

/// Two different links, two files with different contents, and two directories with different
/// fingerprints are never taken for each other: what was declared as one of them and put on disk
/// is neither reused nor matched for the other.
pub proof fn law_another_artifact_is_not_reused(
    tree: TreeView,
    path: PathView,
    value: ArtifactValue,
    other: ArtifactValue,
    windows: bool,
)
    requires
        tree.contains_key(path),
        tree[path].stage is Materialized,
        tree[path].stage->metadata == artifact::metadata_of(value.entry),
        already_materialized(tree, path, other, windows) || known_as(tree, path, other, windows),
    ensures
        value.entry is Dir <==> other.entry is Dir,
        value.entry is Dir ==> value.entry->Dir_0.fingerprint.hash@
            == other.entry->Dir_0.fingerprint.hash@ && value.entry->Dir_0.fingerprint.size
            == other.entry->Dir_0.fingerprint.size,
        value.entry is Leaf ==> {
            let a = value.entry->Leaf_0;
            let b = other.entry->Leaf_0;
            &&& a is File <==> b is File
            &&& a is Symlink <==> b is Symlink
            &&& a is Symlink ==> a->Symlink_0@ == b->Symlink_0@
            &&& a is ExternalSymlink ==> a->ExternalSymlink_0@ == b->ExternalSymlink_0@
            &&& a is File ==> a->File_0.digest.hash@ == b->File_0.digest.hash@
                && a->File_0.digest.size == b->File_0.digest.size
            &&& a is File && !windows ==> a->File_0.is_executable == b->File_0.is_executable
        },
{
    artifact::law_metadata_tells_entries_apart(value.entry, other.entry, windows);
}

/// What is known of an artifact is decided at exactly its path; one that is declared only is
/// known as the same entry, whatever the platform.
pub proof fn law_what_a_path_is_known_as(
    tree: TreeView,
    path: PathView,
    value: ArtifactValue,
    windows: bool,
)
    ensures
        known_as(tree, path, value, windows) ==> tree.contains_key(path),
        tree.contains_key(path) && tree[path].stage is Declared ==> known_as(
            tree,
            path,
            value,
            windows,
        ) == artifact::same_entry(value.entry, tree[path].stage->entry),
        tree.contains_key(path) && tree[path].stage is Materialized ==> known_as(
            tree,
            path,
            value,
            windows,
        ) == artifact::metadata_matches(tree[path].stage->metadata, value.entry, windows),
{
}

/// Reusing an artifact takes over the links of the new declaration and puts it in use; what is on
/// disk, when it was last used and what goes on there stay.
pub proof fn law_reuse_takes_over_the_links(
    data: ArtifactMaterializationData,
    deps: Option<Arc<ActionSharedDirectory>>,
)
    requires
        data.stage is Materialized,
    ensures
        reused(data, deps).deps == deps,
        reused(data, deps).processing == data.processing,
        reused(data, deps).stage is Materialized,
        reused(data, deps).stage->metadata == data.stage->metadata,
        reused(data, deps).stage->last_access_time == data.stage->last_access_time,
        reused(data, deps).stage->active,
{
}

/// What is kept of a declaration: the entry, the links and the method that were given, and that
/// the work of this version goes on.
pub proof fn law_declaration_is_kept(
    value: ArtifactValue,
    method: Arc<ArtifactMaterializationMethod>,
    future: ProcessingFuture,
    version: Version,
)
    ensures
        ({
            let data = declared_data(value, method, future, version);
            &&& data.deps == value.deps
            &&& data.stage is Declared
            &&& data.stage->entry == value.entry
            &&& data.stage->method == method
            &&& data.processing is Active
            &&& data.processing->future == future
            &&& deferred::version_of(data.processing) == version
        }),
{
}

/// The end of work that counts, at the artifact `key` at or above the path. Done well, a declared
/// artifact is on disk as what was declared, in use and last used at the given time; one that was
/// on disk stays as it was. Either way its links stay and nothing goes on there. A failure leaves
/// the artifact as it was, and takes a new version. All other artifacts stay as they were.
pub proof fn law_end_of_work(
    tree: TreeView,
    path: PathView,
    timestamp: i64,
    version: Version,
    ok: bool,
    next: Version,
    key: PathView,
    other: PathView,
    windows: bool,
)
    requires
        file_tree::prefix_free(tree.dom()),
        tree.contains_key(key),
        paths::is_prefix(key, path),
        deferred::version_of(tree[key].processing).0 <= version.0,
        processor::stage_wf(tree[key].stage),
    ensures
        ({
            let after = finished(tree, path, timestamp, version, ok, next);
            let was = tree[key];
            let is = after[key];
            &&& after.dom() =~= tree.dom()
            &&& is.deps == was.deps
            &&& tree.contains_key(other) && other != key ==> after[other] == tree[other]
            &&& ok ==> is.processing == Processing::Done(version)
            &&& ok ==> is.stage is Materialized
            &&& ok && was.stage is Declared ==> {
                &&& artifact::metadata_matches(is.stage->metadata, was.stage->entry, windows)
                &&& artifact::metadata_size(is.stage->metadata) == artifact::entry_bytes(
                    was.stage->entry,
                )
                &&& is.stage->last_access_time == timestamp
                &&& is.stage->active
            }
            &&& ok && was.stage is Materialized ==> is.stage == was.stage
            &&& !ok ==> is.stage == was.stage && deferred::version_of(is.processing) == next
            &&& !ok && was.stage is Declared ==> is.processing is Active
                && is.processing->future == ProcessingFuture::Cleaning(next)
            &&& !ok && was.stage is Materialized ==> is.processing is Done
            &&& next_version(tree, path, version, ok, next) == (if ok {
                next.0 as int
            } else {
                next.0 + 1
            })
        }),
{
    file_tree::lemma_owner_unique(tree, path, key);
    if tree[key].stage is Declared {
        artifact::law_metadata_describes_its_entry(tree[key].stage->entry, windows);
    }
}

/// What the end of work asks for. An artifact that has come to be on disk is announced with its
/// metadata and time; a failure is cleaned up at the version that it took; of links alone nothing
/// is announced; and where nothing is known, or newer work goes on, nothing happens.
pub proof fn law_effect_of_the_end_of_work(
    effect: FinishedEffect,
    tree: TreeView,
    path: PathView,
    timestamp: i64,
    version: Version,
    ok: bool,
    next: Version,
    key: PathView,
)
    requires
        file_tree::prefix_free(tree.dom()),
        is_effect(effect, tree, path, timestamp, version, ok, next),
    ensures
        effect is Vacant <==> !(exists|k: PathView|
            tree.contains_key(k) && paths::is_prefix(k, path)),
        tree.contains_key(key) && paths::is_prefix(key, path) ==> {
            let current = deferred::version_of(tree[key].processing).0 <= version.0;
            &&& is_current(tree, path, version) == current
            &&& effect is VersionConflict <==> !current
            &&& effect is Materialized <==> current && ok && tree[key].stage is Declared
            &&& effect is Clean <==> current && !ok && tree[key].stage is Declared
            &&& effect is DepsOnly <==> current && tree[key].stage is Materialized
            &&& effect is Clean ==> effect->Clean_0 == next
            &&& effect is Materialized ==> effect->Materialized_0.metadata == artifact::metadata_of(
                tree[key].stage->entry,
            ) && effect->Materialized_0.timestamp == timestamp
            &&& !current ==> next_version(tree, path, version, ok, next) == next.0
        },
{
    if exists|k: PathView| tree.contains_key(k) && paths::is_prefix(k, path) {
        let k = choose|k: PathView| tree.contains_key(k) && paths::is_prefix(k, path);
        file_tree::lemma_owner_unique(tree, path, k);
    }
    if tree.contains_key(key) && paths::is_prefix(key, path) {
        file_tree::lemma_owner_unique(tree, path, key);
    }
}

/// The end of a clean-up that counts and went well lets the artifact rest at that version; the
/// artifact itself stays as it was. Any other end changes nothing.
pub proof fn law_end_of_a_cleanup(
    tree: TreeView,
    path: PathView,
    version: Version,
    ok: bool,
    key: PathView,
    other: PathView,
)
    requires
        file_tree::prefix_free(tree.dom()),
        tree.contains_key(key),
        paths::is_prefix(key, path),
    ensures
        ({
            let after = cleaned(tree, path, version, ok);
            let current = deferred::version_of(tree[key].processing).0 <= version.0;
            &&& after.dom() =~= tree.dom()
            &&& tree.contains_key(other) && other != key ==> after[other] == tree[other]
            &&& after[key].stage == tree[key].stage
            &&& after[key].deps == tree[key].deps
            &&& current && ok ==> after[key].processing == Processing::Done(version)
            &&& !(current && ok) ==> after == tree
            &&& cleanup_outcome(tree, path, version, ok) == (if !current {
                CleanupOutcome::VersionConflict
            } else if ok {
                CleanupOutcome::Done
            } else {
                CleanupOutcome::Failed
            })
        }),
{
    file_tree::lemma_owner_unique(tree, path, key);
}

/// Asking for an artifact puts it in use where it is on disk, and changes nothing else of it or of
/// any other.
pub proof fn law_asking_for_an_artifact_uses_it(tree: TreeView, path: PathView, now: i64, k: PathView)
    ensures
        used(tree, path, now).dom() =~= tree.dom(),
        k != path ==> used(tree, path, now)[k] == tree[k],
        tree.contains_key(path) ==> {
            let was = tree[path];
            let is = used(tree, path, now)[path];
            &&& is.deps == was.deps
            &&& is.processing == was.processing
            &&& was.stage is Declared ==> is.stage == was.stage
            &&& was.stage is Materialized ==> {
                &&& is.stage is Materialized
                &&& is.stage->metadata == was.stage->metadata
                &&& is.stage->last_access_time == now
                &&& is.stage->active
            }
        },
{
}

/// Matching an artifact takes over its links where it matches and has some; nothing else changes.
pub proof fn law_matching_takes_over_the_links(
    tree: TreeView,
    path: PathView,
    value: ArtifactValue,
    windows: bool,
    k: PathView,
)
    ensures
        matched(tree, path, value, windows).dom() =~= tree.dom(),
        k != path ==> matched(tree, path, value, windows)[k] == tree[k],
        tree.contains_key(path) ==> {
            let is = matched(tree, path, value, windows)[path];
            &&& is.stage == tree[path].stage
            &&& is.processing == tree[path].processing
            &&& is.deps == (if known_as(tree, path, value, windows) && value.deps is Some {
                value.deps
            } else {
                tree[path].deps
            })
        },
{
}

/// A file is written at once only where nothing went on at its path that could come in between, it
/// has no links, it is to be written, and the platform allows it.
pub proof fn law_when_a_file_is_written_at_once(
    macos: bool,
    existing: ExistingFutures,
    value: ArtifactValue,
    method: ArtifactMaterializationMethod,
)
    ensures
        write_fast_path(macos, existing, value, method) <==> !macos && existing.0 is Ok
            && existing.0->Ok_0@.len() == 0 && value.deps is None && method is Write,
{
}

/// The second part of a declaration. The artifact is known at its path as declared at the version;
/// what overlapped the path is gone and everything else stays; the path is cleaned after all that
/// went on there, unless the file is written at once.
pub proof fn law_declaration_replaces_what_was_there(
    before: DeferredMaterializerCommandProcessor,
    path: PathView,
    value: ArtifactValue,
    method: ArtifactMaterializationMethod,
    version: Version,
    existing: ExistingFutures,
    after: DeferredMaterializerCommandProcessor,
    work: DeclaredWork,
    k: PathView,
)
    requires
        declare_finishes(before, path, value, method, version, existing, after, work),
    ensures
        after.tree@.contains_key(path),
        after.tree@[path].deps == value.deps,
        after.tree@[path].stage is Declared,
        after.tree@[path].stage->entry == value.entry,
        *after.tree@[path].stage->method == method,
        deferred::version_of(after.tree@[path].processing) == version,
        k != path && (paths::is_prefix(k, path) || paths::is_prefix(path, k))
            ==> !after.tree@.contains_key(k),
        !paths::is_prefix(k, path) && !paths::is_prefix(path, k) ==> (after.tree@.contains_key(k)
            <==> before.tree@.contains_key(k)) && (before.tree@.contains_key(k)
            ==> after.tree@[k] == before.tree@[k]),
        work is Write <==> after.tree@[path].processing == (Processing::Active {
            future: ProcessingFuture::Materializing(version),
            version,
        }),
        work is Clean <==> after.tree@[path].processing == (Processing::Active {
            future: ProcessingFuture::Cleaning(version),
            version,
        }),
        work is Write ==> method is Write && work->Write_0 == method->Write_0 && value.deps is None
            && existing.0 is Ok && existing.0->Ok_0@.len() == 0,
        work is Clean && (existing.0 is Err || existing.0->Ok_0@.len() > 0) ==> work->Clean_0
            == CleanPlan::After(existing),
        work is Clean && existing.0 is Ok && existing.0->Ok_0@.len() == 0 ==> work->Clean_0
            == CleanPlan::Now,
        after.version_tracker == before.version_tracker,
        after.tasks == before.tasks,
        after.access_times_buffer == before.access_times_buffer,
{
    paths::lemma_prefix_order(path, path, path);
}

/// Invalidating paths takes out every artifact at, above or below one of them, once, and no other;
/// and it gives back all the work that went on at those, and none else.
pub proof fn law_what_invalidating_takes_out(
    inv: Invalidated,
    tree: TreeView,
    paths: Seq<PathView>,
    k: PathView,
    f: ProcessingFuture,
)
    requires
        invalidates(inv, tree, paths),
    ensures
        (exists|i: int| 0 <= i < inv.paths@.len() && (#[trigger] inv.paths@[i])@ == k)
            <==> tree.contains_key(k) && exists|i: int|
            0 <= i < paths.len() && (paths::is_prefix(k, #[trigger] paths[i]) || paths::is_prefix(
                paths[i],
                k,
            )),
        forall|i: int, j: int|
            0 <= i < j < inv.paths@.len() ==> (#[trigger] inv.paths@[i])@ != (
            #[trigger] inv.paths@[j])@,
        (exists|i: int|
            0 <= i < inv.futures@.len() && (#[trigger] inv.futures@[i]).0@ == k
                && inv.futures@[i].1 == f) <==> (exists|i: int|
            0 <= i < inv.paths@.len() && (#[trigger] inv.paths@[i])@ == k)
            && tree[k].processing is Active && tree[k].processing->future == f,
        without_all(tree, paths).contains_key(k) <==> tree.contains_key(k) && !(exists|i: int|
            0 <= i < paths.len() && (paths::is_prefix(k, #[trigger] paths[i]) || paths::is_prefix(
                paths[i],
                k,
            ))),
        without_all(tree, paths).contains_key(k) ==> without_all(tree, paths)[k] == tree[k],
{
    let views = paths::path_views(inv.paths@);
    assert((exists|i: int|
        0 <= i < paths.len() && (paths::is_prefix(k, #[trigger] paths[i]) || paths::is_prefix(
            paths[i],
            k,
        ))) <==> overlaps_any(k, paths)) by {
        if overlaps_any(k, paths) {
            let i = choose|i: int| 0 <= i < paths.len() && paths::overlaps(k, #[trigger] paths[i]);
            assert(paths::is_prefix(k, paths[i]) || paths::is_prefix(paths[i], k));
        }
        if exists|i: int|
            0 <= i < paths.len() && (paths::is_prefix(k, #[trigger] paths[i]) || paths::is_prefix(
                paths[i],
                k,
            )) {
            let i = choose|i: int|
                0 <= i < paths.len() && (paths::is_prefix(k, #[trigger] paths[i])
                    || paths::is_prefix(paths[i], k));
            assert(paths::overlaps(k, paths[i]));
        }
    }
    assert((exists|i: int| 0 <= i < inv.paths@.len() && (#[trigger] inv.paths@[i])@ == k)
        <==> views.contains(k)) by {
        if views.contains(k) {
            let i = choose|i: int| 0 <= i < views.len() && views[i] == k;
            assert(inv.paths@[i]@ == k);
        }
        if exists|i: int| 0 <= i < inv.paths@.len() && (#[trigger] inv.paths@[i])@ == k {
            let i = choose|i: int| 0 <= i < inv.paths@.len() && (#[trigger] inv.paths@[i])@ == k;
            assert(views[i] == k);
        }
    }
    assert forall|i: int, j: int| 0 <= i < j < inv.paths@.len() implies (
    #[trigger] inv.paths@[i])@ != (#[trigger] inv.paths@[j])@ by {
        assert(views[i] != views[j]);
    }
    assert((exists|i: int|
        0 <= i < inv.futures@.len() && (#[trigger] inv.futures@[i]).0@ == k && inv.futures@[i].1
            == f) <==> views.contains(k) && tree[k].processing is Active
        && tree[k].processing->future == f) by {
        lemma_pending_contains(tree, views, (k, f));
        let all = pending_views(inv.futures@);
        if exists|i: int|
            0 <= i < inv.futures@.len() && (#[trigger] inv.futures@[i]).0@ == k
                && inv.futures@[i].1 == f {
            let i = choose|i: int|
                0 <= i < inv.futures@.len() && (#[trigger] inv.futures@[i]).0@ == k
                    && inv.futures@[i].1 == f;
            assert(all[i] == (k, f));
        }
        if all.contains((k, f)) {
            let i = choose|i: int| 0 <= i < all.len() && all[i] == (k, f);
            assert(inv.futures@[i].0@ == k);
        }
    }
}


} // verus!
