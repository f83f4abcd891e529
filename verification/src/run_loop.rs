//! The command loop of the deferred materializer: which command leads to what, and the plans of
//! the tasks that it spawns.
use vstd::prelude::*;
use vstd::string::*;

use crate::artifact;
use crate::artifact::ArtifactValue;
use crate::commands;
use crate::commands::CleanupOutcome;
use crate::commands::DeclareStep;
use crate::commands::FinishedEffect;
use crate::commands::Invalidated;
use crate::commands::OnMaterialization;
use crate::contents;
use crate::contents::ArtifactNotMaterializedReason;
use crate::deferred::AccessTimesUpdates;
use crate::deferred::ArtifactMaterializationMethod;
use crate::deferred::CleanStaleConfig;
use crate::deferred::LowPriorityMaterializerCommand;
use crate::deferred::MaterializerCommand;
use crate::deferred::Processing;
use crate::deferred::ProcessingFuture;
use crate::deferred::SharedMaterializingError;
use crate::deferred::Version;
use crate::file_tree;
use crate::paths;
use crate::paths::PathView;
use crate::paths::ProjectRelativePathBuf;
use crate::processor;
use crate::processor::DeferredMaterializerCommandProcessor;
use crate::processor::FutureView;
use crate::processor::MaterializeTask;
use crate::processor::MaterializerState;
use crate::processor::MaterializingFuture;
use crate::processor::TreeView;
use crate::text;

verus! {

/// Materializes several artifacts that were asked for; what there is to wait for comes with the
/// path it was asked for.
pub open spec fn materialize_many(
    s: MaterializerState,
    now: i64,
    paths: Seq<PathView>,
    depth: nat,
) -> (MaterializerState, Seq<(PathView, FutureView)>)
    decreases paths.len(),
{
    if paths.len() == 0 {
        (s, Seq::empty())
    } else {
        let (s1, futures) = materialize_many(s, now, paths.drop_last(), depth);
        let (s2, future) = processor::materialize_recurse(
            s1,
            now,
            Seq::empty(),
            paths.last(),
            depth,
        );
        match future {
            Some(f) => (s2, futures.push((paths.last(), f))),
            None => (s2, futures),
        }
    }
}

proof fn lemma_many_progresses(s: MaterializerState, now: i64, paths: Seq<PathView>, depth: nat)
    ensures
        processor::progressed(s, materialize_many(s, now, paths, depth).0),
    decreases paths.len(),
{
    if paths.len() > 0 {
        let s1 = materialize_many(s, now, paths.drop_last(), depth).0;
        lemma_many_progresses(s, now, paths.drop_last(), depth);
        processor::law_materialize_keeps_artifacts(s1, now, paths.last(), depth);
        processor::lemma_progressed_transitive(
            s,
            s1,
            processor::materialize_recurse(s1, now, Seq::empty(), paths.last(), depth).0,
        );
    } else {
        assert(s.tasks.take(s.tasks.len() as int) =~= s.tasks);
    }
}

/// Asking for several artifacts gives something to wait for for each of them that has been declared
/// and is not on disk.
pub proof fn law_ensure_covers_declared(
    s: MaterializerState,
    now: i64,
    paths: Seq<PathView>,
    depth: nat,
    i: int,
)
    requires
        file_tree::prefix_free(s.tree.dom()),
        0 <= i < paths.len(),
        file_tree::owner(s.tree, paths[i]) is Some,
        s.tree[file_tree::owner(s.tree, paths[i])->0].stage is Declared,
    ensures
        exists|j: int|
            0 <= j < materialize_many(s, now, paths, depth).1.len() && (
            #[trigger] materialize_many(s, now, paths, depth).1[j]).0 == paths[i],
    decreases paths.len(),
{
    let before = paths.drop_last();
    let (s1, futures) = materialize_many(s, now, before, depth);
    let all = materialize_many(s, now, paths, depth).1;
    if i < before.len() {
        assert(before[i] == paths[i]);
        law_ensure_covers_declared(s, now, before, depth, i);
        let j = choose|j: int| 0 <= j < futures.len() && (#[trigger] futures[j]).0 == paths[i];
        assert(all[j] == futures[j]);
    } else {
        lemma_many_progresses(s, now, before, depth);
        file_tree::lemma_owner_same_keys(s.tree, s1.tree, paths[i]);
        let key = file_tree::owner(s.tree, paths[i])->0;
        assert(s.tree.contains_key(key));
        assert(all[futures.len() as int].0 == paths[i]);
    }
}

/// The futures, each with the mathematical form of its path.
pub open spec fn ensured_views(futures: Seq<(ProjectRelativePathBuf, MaterializingFuture)>) -> Seq<
    (PathView, FutureView),
> {
    Seq::new(futures.len(), |i: int| (futures[i].0@, futures[i].1@))
}

/// Whether all of `items` are known as what they are said to be, and the tree after that was
/// found out. The first that is not ends the search.
pub open spec fn match_all(
    tree: TreeView,
    items: Seq<(ProjectRelativePathBuf, ArtifactValue)>,
    windows: bool,
) -> (TreeView, bool)
    decreases items.len(),
{
    if items.len() == 0 {
        (tree, true)
    } else if !commands::known_as(tree, items[0].0@, items[0].1, windows) {
        (tree, false)
    } else {
        match_all(
            commands::matched(tree, items[0].0@, items[0].1, windows),
            items.drop_first(),
            windows,
        )
    }
}

/// The tree after `items` were declared to exist, at versions from `version` on.
pub open spec fn existing_tree(
    tree: TreeView,
    items: Seq<(ProjectRelativePathBuf, ArtifactValue)>,
    now: i64,
    version: nat,
) -> TreeView
    decreases items.len(),
{
    if items.len() == 0 {
        tree
    } else {
        let before = existing_tree(tree, items.drop_last(), now, version);
        let (path, value) = items.last();
        file_tree::without_overlaps(before, path@).insert(
            path@,
            commands::materialized_data(
                artifact::metadata_of(value.entry),
                value.deps,
                now,
                true,
                Version((version + items.len() - 1) as u64),
            ),
        )
    }
}

/// What is to be done when times of last access may have to be flushed.
pub enum FlushDecision {
    /// Access times are not kept.
    Disabled,
    /// Not enough of them have been collected.
    NotFull,
    /// These paths are to be marked as used in the database.
    Flush(Vec<ProjectRelativePathBuf>),
}

/// How the flush of access times ended.
#[derive(Clone, Copy, Debug)]
pub enum FlushResult {
    DbError,
    Finished { elapsed_ms: u64 },
}

/// What a command leads to.
pub enum CommandOutcome {
    FilePaths(Vec<Result<ProjectRelativePathBuf, ArtifactNotMaterializedReason>>),
    /// These artifacts came to be on disk, each with its path.
    Existing(Vec<(ProjectRelativePathBuf, OnMaterialization)>),
    Declare(ProjectRelativePathBuf, DeclareBegun),
    Matched(bool),
    /// Whether there is an artifact, and whether its use is to be noted in the database.
    HasArtifact(bool, bool),
    Invalidated(Invalidated),
    Ensured(Vec<(ProjectRelativePathBuf, MaterializingFuture)>),
    Subscription(u64),
    Extension(u64),
}

/// Nothing but the tree differs.
pub open spec fn only_tree_differs(
    before: DeferredMaterializerCommandProcessor,
    after: DeferredMaterializerCommandProcessor,
) -> bool {
    &&& after.same_rest(&before)
    &&& after.version_tracker == before.version_tracker
    &&& after.access_times_buffer == before.access_times_buffer
    &&& after.tasks == before.tasks
}

/// A declaration after its first part.
pub enum DeclareBegun {
    Reused,
    /// The declaration continues with these once the database is up to date.
    Continue {
        version: Version,
        invalidated: Invalidated,
        value: ArtifactValue,
        method: Box<ArtifactMaterializationMethod>,
    },
}

/// What is needed to deal with `command`: copies lead to files, versions do not run out, and sizes
/// can be told.
pub open spec fn can_process(
    before: DeferredMaterializerCommandProcessor,
    command: MaterializerCommand,
) -> bool {
    match command {
        MaterializerCommand::Abort => false,
        MaterializerCommand::GetMaterializedFilePaths(paths) => forall|i: int|
            0 <= i < paths@.len() ==> contents::chain_ends(
                before.tree@,
                (#[trigger] paths@[i])@,
            ),
        MaterializerCommand::DeclareExisting(items) => {
            &&& before.version_tracker.0.0 + items@.len() <= u64::MAX
            &&& forall|i: int|
                0 <= i < items@.len() ==> artifact::entry_bytes(
                    (#[trigger] items@[i]).1.entry,
                ) <= u64::MAX
        },
        MaterializerCommand::Declare(..) => before.version_tracker.0.0 < u64::MAX,
        _ => true,
    }
}

/// Dealing with `command` takes `before` to `after` with this outcome.
pub open spec fn command_follows(
    before: DeferredMaterializerCommandProcessor,
    command: MaterializerCommand,
    now: i64,
    depth: u32,
    force_mismatch: bool,
    after: DeferredMaterializerCommandProcessor,
    r: CommandOutcome,
) -> bool {
    match (command, r) {
        (
            MaterializerCommand::GetMaterializedFilePaths(paths),
            CommandOutcome::FilePaths(answers),
        ) => {
            &&& after == before
            &&& answers@.len() == paths@.len()
            &&& forall|i: int|
                0 <= i < paths@.len() ==> contents::contents_view(#[trigger] answers@[i])
                    == contents::contents_of(before.tree@, paths@[i]@)
        },
        (
            MaterializerCommand::DeclareExisting(items),
            CommandOutcome::Existing(effects),
        ) => {
            &&& after.same_rest(&before)
            &&& after.access_times_buffer == before.access_times_buffer
            &&& after.tasks == before.tasks
            &&& after.version_tracker.0.0 == before.version_tracker.0.0
                + items@.len()
            &&& after.tree@ == existing_tree(
                before.tree@,
                items@,
                now,
                before.version_tracker.0.0 as nat,
            )
            &&& effects@.len() == items@.len()
            &&& forall|i: int|
                0 <= i < items@.len() ==> {
                    &&& (#[trigger] effects@[i]).0 == items@[i].0
                    &&& effects@[i].1.metadata == artifact::metadata_of(items@[i].1.entry)
                    &&& effects@[i].1.timestamp == now
                    &&& effects@[i].1.error_name@ == "materializer_declare_existing_error"@
                }
        },
        (
            MaterializerCommand::Declare(path, value, method),
            CommandOutcome::Declare(at, begun),
        ) => {
            &&& at == path
            &&& after.same_but_stats(&before)
            &&& after.access_times_buffer == before.access_times_buffer
            &&& after.tasks == before.tasks
            &&& after.stats.declares == before.stats.declares.wrapping_add(1)
            &&& if commands::already_materialized(
                before.tree@,
                path@,
                value,
                before.platform.windows,
            ) && !force_mismatch {
                &&& begun is Reused
                &&& after.version_tracker == before.version_tracker
                &&& after.stats.declares_reused == before.stats.declares_reused.wrapping_add(1)
                &&& after.tree@ == before.tree@.insert(
                    path@,
                    commands::reused(before.tree@[path@], value.deps),
                )
            } else {
                &&& begun matches DeclareBegun::Continue {
                    version,
                    invalidated,
                    value: v,
                    method: m,
                }
                &&& version == before.version_tracker.0
                &&& after.version_tracker.0.0 == version.0 + 1
                &&& after.stats.declares_reused == before.stats.declares_reused
                &&& v == value
                &&& m == method
                &&& commands::invalidates(invalidated, before.tree@, seq![path@])
                &&& after.tree@ == file_tree::without_overlaps(
                    before.tree@,
                    path@,
                )
            }
        },
        (
            MaterializerCommand::MatchArtifacts(items),
            CommandOutcome::Matched(all),
        ) => {
            &&& only_tree_differs(before, after)
            &&& (after.tree@, all) == match_all(
                before.tree@,
                items@,
                before.platform.windows,
            )
        },
        (
            MaterializerCommand::HasArtifact(path),
            CommandOutcome::HasArtifact(found, note),
        ) => {
            &&& only_tree_differs(before, after)
            &&& found == before.tree@.contains_key(path@)
            &&& after.tree@ == commands::used(before.tree@, path@, now)
            &&& note == (found && before.tree@[path@].stage is Materialized && before.has_db)
        },
        (
            MaterializerCommand::InvalidateFilePaths(paths),
            CommandOutcome::Invalidated(inv),
        ) => {
            &&& only_tree_differs(before, after)
            &&& after.tree@ == commands::without_all(
                before.tree@,
                paths::path_views(paths@),
            )
            &&& commands::invalidates(inv, before.tree@, paths::path_views(paths@))
        },
        (
            MaterializerCommand::Ensure(paths),
            CommandOutcome::Ensured(futures),
        ) => {
            &&& after.same_rest(&before)
            &&& (after.state(), ensured_views(futures@)) == materialize_many(
                before.state(),
                now,
                paths::path_views(paths@),
                depth as nat,
            )
        },
        (
            MaterializerCommand::Subscription(id),
            CommandOutcome::Subscription(out),
        ) => out == id && after == before,
        (
            MaterializerCommand::Extension(id),
            CommandOutcome::Extension(out),
        ) => out == id && after == before,
        _ => false,
    }
}

/// Dealing with a notification takes `before` to `after` with this outcome.
pub open spec fn notification_follows(
    before: DeferredMaterializerCommandProcessor,
    command: LowPriorityMaterializerCommand,
    after: DeferredMaterializerCommandProcessor,
    r: Result<FinishedEffect, CleanupOutcome>,
) -> bool {
    &&& after.same_rest(&before)
    &&& after.access_times_buffer == before.access_times_buffer
    &&& after.tasks == before.tasks
    &&& match command {
        LowPriorityMaterializerCommand::MaterializationFinished {
            path,
            timestamp,
            version,
            result,
        } => {
            &&& r matches Ok(effect) && commands::is_effect(
                effect,
                before.tree@,
                path@,
                timestamp,
                version,
                result is Ok,
                before.version_tracker.0,
            )
            &&& after.tree@ == commands::finished(
                before.tree@,
                path@,
                timestamp,
                version,
                result is Ok,
                before.version_tracker.0,
            )
            &&& after.version_tracker.0.0 == commands::next_version(
                before.tree@,
                path@,
                version,
                result is Ok,
                before.version_tracker.0,
            )
        },
        LowPriorityMaterializerCommand::CleanupFinished {
            path,
            version,
            result,
        } => {
            &&& after.version_tracker == before.version_tracker
            &&& after.tree@ == commands::cleaned(
                before.tree@,
                path@,
                version,
                result is Ok,
            )
            &&& r matches Err(outcome) && outcome == commands::cleanup_outcome(
                before.tree@,
                path@,
                version,
                result is Ok,
            )
        },
    }
}

/// Whether the access times of `before` are flushed, and what is left of them in `after`.
pub open spec fn flush_follows(
    before: DeferredMaterializerCommandProcessor,
    max_buffer_size: usize,
    after: DeferredMaterializerCommandProcessor,
    r: FlushDecision,
) -> bool {
    &&& after.same_rest(&before)
    &&& after.tree == before.tree
    &&& after.version_tracker == before.version_tracker
    &&& after.tasks == before.tasks
    &&& match before.state().buffer {
        None => r is Disabled && after.access_times_buffer is None,
        Some(buffer) => if buffer.len() < max_buffer_size {
            r is NotFull && after.access_times_buffer == before.access_times_buffer
        } else {
            &&& r matches FlushDecision::Flush(paths)
            &&& processor::path_set(paths@) == buffer
            &&& paths@.len() == buffer.len()
            &&& after.state().buffer == Some(Set::<PathView>::empty())
        },
    }
}

impl DeferredMaterializerCommandProcessor {
    /// Materializes several artifacts.
    pub fn materialize_many_artifacts(
        &mut self,
        paths: &Vec<ProjectRelativePathBuf>,
        now: i64,
        depth: u32,
    ) -> (r: Vec<(ProjectRelativePathBuf, MaterializingFuture)>)
        requires
            old(self).wf(),
        ensures
            final(self).wf(),
            final(self).same_rest(old(self)),
            (final(self).state(), ensured_views(r@)) == materialize_many(
                old(self).state(),
                now,
                paths::path_views(paths@),
                depth as nat,
            ),
    {
        let ghost all = paths::path_views(paths@);
        let ghost s0 = self.state();
        let mut r: Vec<(ProjectRelativePathBuf, MaterializingFuture)> = Vec::new();
        let mut n: usize = 0;
        proof {
            assert(all.take(0) =~= Seq::empty());
            assert(ensured_views(r@) =~= Seq::empty());
        }
        while n < paths.len()
            invariant
                self.wf(),
                self.same_rest(old(self)),
                all == paths::path_views(paths@),
                n <= paths@.len(),
                (self.state(), ensured_views(r@)) == materialize_many(
                    s0,
                    now,
                    all.take(n as int),
                    depth as nat,
                ),
            decreases paths@.len() - n,
        {
            let ghost before = ensured_views(r@);
            proof {
                let next = all.take(n + 1);
                assert(next.drop_last() =~= all.take(n as int));
                assert(next.last() == all[n as int]);
            }
            match self.materialize_artifact(&paths[n], now, depth) {
                Some(f) => {
                    r.push((paths[n].clone(), f));
                    assert(ensured_views(r@) =~= before.push((all[n as int], f@)));
                },
                None => {},
            }
            n = n + 1;
        }
        assert(all.take(all.len() as int) =~= all);
        r
    }

    /// Whether all of `items` are known as what they are said to be.
    pub fn match_artifacts(&mut self, items: &Vec<(ProjectRelativePathBuf, ArtifactValue)>) -> (r:
        bool)
        requires
            old(self).wf(),
        ensures
            final(self).wf(),
            final(self).same_rest(old(self)),
            final(self).version_tracker == old(self).version_tracker,
            final(self).access_times_buffer == old(self).access_times_buffer,
            final(self).tasks == old(self).tasks,
            (final(self).tree@, r) == match_all(
                old(self).tree@,
                items@,
                old(self).platform.windows,
            ),
    {
        let ghost tree0 = self.tree@;
        let ghost windows = self.platform.windows;
        let mut n: usize = 0;
        assert(items@.skip(0) =~= items@);
        while n < items.len()
            invariant
                self.wf(),
                windows == old(self).platform.windows,
                self.same_rest(old(self)),
                self.version_tracker == old(self).version_tracker,
                self.access_times_buffer == old(self).access_times_buffer,
                self.tasks == old(self).tasks,
                n <= items@.len(),
                tree0 == old(self).tree@,
                match_all(tree0, items@, windows) == match_all(
                    self.tree@,
                    items@.skip(n as int),
                    windows,
                ),
            decreases items@.len() - n,
        {
            proof {
                assert(items@.skip(n as int)[0] == items@[n as int]);
                assert(items@.skip(n as int).drop_first() =~= items@.skip(n + 1));
            }
            let ghost before = self.tree@;
            if !self.match_artifact(&items[n].0, &items[n].1) {
                assert(self.tree@ == before);
                return false;
            }
            n = n + 1;
        }
        true
    }

    /// Declares that `items` are on disk since `now`.
    pub fn declare_all_existing(
        &mut self,
        items: Vec<(ProjectRelativePathBuf, ArtifactValue)>,
        now: i64,
    ) -> (r: Vec<(ProjectRelativePathBuf, OnMaterialization)>)
        requires
            old(self).wf(),
            old(self).version_tracker.0.0 + items@.len() <= u64::MAX,
            forall|i: int|
                0 <= i < items@.len() ==> artifact::entry_bytes((#[trigger] items@[i]).1.entry)
                    <= u64::MAX,
        ensures
            final(self).wf(),
            final(self).same_rest(old(self)),
            final(self).access_times_buffer == old(self).access_times_buffer,
            final(self).tasks == old(self).tasks,
            final(self).version_tracker.0.0 == old(self).version_tracker.0.0 + items@.len(),
            final(self).tree@ == existing_tree(
                old(self).tree@,
                items@,
                now,
                old(self).version_tracker.0.0 as nat,
            ),
            r@.len() == items@.len(),
            forall|i: int|
                0 <= i < items@.len() ==> {
                    &&& (#[trigger] r@[i]).0 == items@[i].0
                    &&& r@[i].1.metadata == artifact::metadata_of(items@[i].1.entry)
                    &&& r@[i].1.timestamp == now
                    &&& r@[i].1.error_name@ == "materializer_declare_existing_error"@
                },
    {
        let ghost all = items@;
        let ghost tree0 = self.tree@;
        let ghost v0 = self.version_tracker.0.0 as nat;
        let mut r: Vec<(ProjectRelativePathBuf, OnMaterialization)> = Vec::new();
        assert(all.take(0) =~= Seq::empty());
        for item in it: items
            invariant
                it.seq() == all,
                self.wf(),
                self.same_rest(old(self)),
                self.access_times_buffer == old(self).access_times_buffer,
                self.tasks == old(self).tasks,
                v0 + all.len() <= u64::MAX,
                self.version_tracker.0.0 == v0 + it.index(),
                forall|i: int|
                    0 <= i < all.len() ==> artifact::entry_bytes((#[trigger] all[i]).1.entry)
                        <= u64::MAX,
                self.tree@ == existing_tree(tree0, all.take(it.index() as int), now, v0),
                r@.len() == it.index(),
                forall|i: int|
                    0 <= i < it.index() ==> {
                        &&& (#[trigger] r@[i]).0 == all[i].0
                        &&& r@[i].1.metadata == artifact::metadata_of(all[i].1.entry)
                        &&& r@[i].1.timestamp == now
                        &&& r@[i].1.error_name@ == "materializer_declare_existing_error"@
                    },
        {
            let ghost i = it.index() as int;
            proof {
                let next = all.take(i + 1);
                assert(next.drop_last() =~= all.take(i));
                assert(next.last() == item);
                assert(all[i] == item);
            }
            let (path, value) = item;
            let on = self.declare_existing(&path, value, now);
            r.push((path, on));
        }
        assert(all.take(all.len() as int) =~= all);
        r
    }

    /// Deals with one command. `force_mismatch` is a test setting, see `begin_declare`.
    pub fn process_one_command(
        &mut self,
        command: MaterializerCommand,
        now: i64,
        depth: u32,
        force_mismatch: bool,
    ) -> (r: CommandOutcome)
        requires
            old(self).wf(),
            can_process(*old(self), command),
        ensures
            final(self).wf(),
            command_follows(*old(self), command, now, depth, force_mismatch, *final(self), r),
    {
        match command {
            MaterializerCommand::GetMaterializedFilePaths(paths) => {
                let ghost asked = paths@;
                let mut answers: Vec<
                    Result<ProjectRelativePathBuf, ArtifactNotMaterializedReason>,
                > = Vec::new();
                for path in it: paths
                    invariant
                        it.seq() == asked,
                        self.wf(),
                        *self == *old(self),
                        forall|i: int|
                            0 <= i < asked.len() ==> contents::chain_ends(
                                self.tree@,
                                (#[trigger] asked[i])@,
                            ),
                        answers@.len() == it.index(),
                        forall|i: int|
                            0 <= i < it.index() ==> contents::contents_view(
                                #[trigger] answers@[i],
                            ) == contents::contents_of(self.tree@, asked[i]@),
                {
                    assert(asked[it.index() as int] == path);
                    answers.push(contents::file_contents_path(&self.tree, path));
                }
                CommandOutcome::FilePaths(answers)
            },
            MaterializerCommand::DeclareExisting(items) => CommandOutcome::Existing(
                self.declare_all_existing(items, now),
            ),
            MaterializerCommand::Declare(path, value, method) => {
                match self.begin_declare(&path, &value, force_mismatch) {
                    DeclareStep::Reused => CommandOutcome::Declare(path, DeclareBegun::Reused),
                    DeclareStep::Invalidated { version, invalidated } => CommandOutcome::Declare(
                        path,
                        DeclareBegun::Continue { version, invalidated, value, method },
                    ),
                }
            },
            MaterializerCommand::MatchArtifacts(items) => CommandOutcome::Matched(
                self.match_artifacts(&items),
            ),
            MaterializerCommand::HasArtifact(path) => {
                let (found, note) = self.has_artifact(&path, now);
                CommandOutcome::HasArtifact(found, note)
            },
            MaterializerCommand::InvalidateFilePaths(paths) => CommandOutcome::Invalidated(
                commands::invalidate_paths_and_collect_futures(&mut self.tree, &paths),
            ),
            MaterializerCommand::Ensure(paths) => CommandOutcome::Ensured(
                self.materialize_many_artifacts(&paths, now, depth),
            ),
            MaterializerCommand::Subscription(id) => CommandOutcome::Subscription(id),
            MaterializerCommand::Extension(id) => CommandOutcome::Extension(id),
            MaterializerCommand::Abort => {
                assert(false);
                CommandOutcome::Matched(false)
            },
        }
    }

    /// Deals with a notification.
    pub fn process_one_low_priority_command(
        &mut self,
        command: &LowPriorityMaterializerCommand,
    ) -> (r: Result<FinishedEffect, CleanupOutcome>)
        requires
            old(self).wf(),
            old(self).version_tracker.0.0 < u64::MAX,
        ensures
            final(self).wf(),
            notification_follows(*old(self), *command, *final(self), r),
    {
        match command {
            LowPriorityMaterializerCommand::MaterializationFinished {
                path,
                timestamp,
                version,
                result,
            } => Ok(self.materialization_finished(path, *timestamp, *version, result)),
            LowPriorityMaterializerCommand::CleanupFinished { path, version, result } => Err(
                commands::cleanup_finished(&mut self.tree, path, *version, result),
            ),
        }
    }

    /// Whether the collected times of last access are to be flushed: where there are at least
    /// `max_buffer_size` of them, they are taken out of the buffer.
    pub fn begin_flush_access_times(&mut self, max_buffer_size: usize) -> (r: FlushDecision)
        requires
            old(self).wf(),
        ensures
            final(self).wf(),
            flush_follows(*old(self), max_buffer_size, *final(self), r),
    {
        match &mut self.access_times_buffer {
            None => FlushDecision::Disabled,
            Some(buffer) => {
                proof {
                    paths::path_views(buffer@).unique_seq_to_set();
                }
                if buffer.len() < max_buffer_size {
                    return FlushDecision::NotFull;
                }
                let mut taken: Vec<ProjectRelativePathBuf> = Vec::new();
                std::mem::swap(&mut taken, buffer);
                proof {
                    assert(paths::path_views(buffer@) =~= Seq::empty());
                    assert(processor::path_set(buffer@) =~= Set::empty());
                }
                FlushDecision::Flush(taken)
            },
        }
    }
}

/// The report on a flush that was not needed, or of `size` entries that ended with `result`.
pub open spec fn flush_text(decision: FlushDecision, result: FlushResult) -> Seq<char> {
    match decision {
        FlushDecision::Disabled =>
            "Access time updates are disabled. Consider removing `update_access_times = false` from your .buckconfig"@,
        FlushDecision::NotFull => "Access times buffer is not full yet"@,
        FlushDecision::Flush(paths) => match result {
            FlushResult::DbError => "Found error while updating access times in sqlite db"@,
            FlushResult::Finished { elapsed_ms } => "Finished flushing "@ + text::decimal_chars(
                paths@.len(),
            ) + " entries in "@ + text::decimal_chars(elapsed_ms as nat) + " ms"@,
        },
    }
}

/// The report on a flush.
pub fn flush_report(decision: &FlushDecision, result: FlushResult) -> (r: String)
    ensures
        r@ == flush_text(*decision, result),
{
    match decision {
        FlushDecision::Disabled =>
            "Access time updates are disabled. Consider removing `update_access_times = false` from your .buckconfig".to_owned(),
        FlushDecision::NotFull => "Access times buffer is not full yet".to_owned(),
        FlushDecision::Flush(paths) => match result {
            FlushResult::DbError =>
                "Found error while updating access times in sqlite db".to_owned(),
            FlushResult::Finished { elapsed_ms } => {
                let count = text::decimal(paths.len() as u64);
                let time = text::decimal(elapsed_ms);
                text::concat5(
                    "Finished flushing ",
                    count.as_str(),
                    " entries in ",
                    time.as_str(),
                    " ms",
                )
            },
        },
    }
}

/// One refresh of expiry times: when it ended and how, or that none was needed.
pub struct TtlRefreshHistoryEntry {
    pub at: i64,
    pub outcome: Option<Result<(), String>>,
}

/// What the channel of a running refresh gives.
pub enum TryRecv {
    Done(i64, Result<(), String>),
    Empty,
    Closed,
}

/// The refreshes so far, and the one that is running.
pub struct TtlRefreshes {
    pub history: Vec<TtlRefreshHistoryEntry>,
    pub running: bool,
}

/// Looking at the running refresh of `before` leaves `after`: where it has ended, its outcome goes to
/// the history.
pub open spec fn refresh_polled(
    before: TtlRefreshes,
    received: TryRecv,
    now: i64,
    after: TtlRefreshes,
) -> bool {
    let ended = before.running && !(received is Empty);
    &&& after.running == (before.running && received is Empty)
    &&& !ended ==> after.history@ == before.history@
    &&& ended ==> {
        &&& after.history@.len() == before.history@.len() + 1
        &&& after.history@.drop_last() == before.history@
        &&& match received {
            TryRecv::Done(at, outcome) => after.history@.last()
                == (TtlRefreshHistoryEntry { at, outcome: Some(outcome) }),
            _ => {
                &&& after.history@.last().at == now
                &&& after.history@.last().outcome matches Some(Err(e))
                    && e@ == "Shutdown"@
            },
        }
    }
}

impl TtlRefreshes {
    /// Looks at the running refresh; where it has ended, its outcome goes to the history.
    pub fn poll_current_ttl_refresh(&mut self, received: TryRecv, now: i64)
        ensures
            refresh_polled(*old(self), received, now, *final(self)),
    {
        if !self.running {
            return ;
        }
        let ghost before = self.history@;
        match received {
            TryRecv::Done(at, outcome) => {
                self.history.push(TtlRefreshHistoryEntry { at, outcome: Some(outcome) });
                self.running = false;
                assert(self.history@.drop_last() =~= before);
            },
            TryRecv::Empty => {},
            TryRecv::Closed => {
                self.history.push(
                    TtlRefreshHistoryEntry { at: now, outcome: Some(Err("Shutdown".to_owned())) },
                );
                self.running = false;
                assert(self.history@.drop_last() =~= before);
            },
        }
    }

    /// Starts a refresh where none is running. `created` says whether there is anything to
    /// refresh; where there is not, that goes to the history.
    pub fn start(&mut self, created: bool, now: i64) -> (r: bool)
        ensures
            r == (!old(self).running && created),
            final(self).running == (old(self).running || created),
            final(self).history@ == (if old(self).running || created {
                old(self).history@
            } else {
                old(self).history@.push(TtlRefreshHistoryEntry { at: now, outcome: None })
            }),
    {
        if self.running {
            return false;
        }
        if created {
            self.running = true;
            true
        } else {
            self.history.push(TtlRefreshHistoryEntry { at: now, outcome: None });
            false
        }
    }
}

/// Whether a tick flushes the access times.
pub fn flushes_on_tick(updates: AccessTimesUpdates) -> (r: bool)
    ensures
        r == (updates is Full),
{
    matches!(updates, AccessTimesUpdates::Full)
}

/// A request to clean what has not been used for a while.
#[derive(Clone, Copy, Debug)]
pub struct CleanStaleArtifactsCommand {
    pub keep_since_time: i64,
    pub dry_run: bool,
    pub tracked_only: bool,
}

/// The periodic request to clean, at the time `now`; none where cleaning is not configured.
pub fn clean_stale_request(config: &Option<CleanStaleConfig>, now: i64) -> (r: Option<
    CleanStaleArtifactsCommand,
>)
    requires
        *config matches Some(c) ==> i64::MIN <= now - c.artifact_ttl_ms <= i64::MAX,
    ensures
        match (*config, r) {
            (Some(c), Some(cmd)) => cmd.keep_since_time == now - c.artifact_ttl_ms && cmd.dry_run
                == c.dry_run && !cmd.tracked_only,
            (None, None) => true,
            _ => false,
        },
{
    match config {
        Some(c) => Some(
            CleanStaleArtifactsCommand {
                keep_since_time: now - c.artifact_ttl_ms,
                dry_run: c.dry_run,
                tracked_only: false,
            },
        ),
        None => None,
    }
}

/// One step of a task.
#[derive(Clone, Copy, Debug, PartialEq, Eq, Structural)]
pub enum TaskStep {
    /// Wait for the clean-up that was started at this version.
    AwaitCleaning(Version),
    /// Wait for the copied artifact with this number.
    AwaitDep(usize),
    /// Put the entry on disk.
    Materialize,
    /// Wait for the link target with this number.
    AwaitLink(usize),
}

/// The steps that wait for the first `n` copied artifacts.
pub open spec fn await_deps(n: nat) -> Seq<TaskStep> {
    Seq::new(n, |i: int| TaskStep::AwaitDep(i as usize))
}

/// The steps that wait for the first `n` link targets.
pub open spec fn await_links(n: nat) -> Seq<TaskStep> {
    Seq::new(n, |i: int| TaskStep::AwaitLink(i as usize))
}

/// The steps of a task, in order. On Windows what links point to has to be there before the
/// links are made; elsewhere the entry comes first.
pub open spec fn task_steps(task: MaterializeTask, windows: bool) -> Seq<TaskStep> {
    let clean = match task.cleaning {
        Some(v) => seq![TaskStep::AwaitCleaning(v)],
        None => Seq::empty(),
    };
    let links = await_links(task.link_deps_tasks@.len());
    let own = if task.entry_and_method is Some {
        if windows {
            links + seq![TaskStep::Materialize]
        } else {
            seq![TaskStep::Materialize] + links
        }
    } else {
        links
    };
    clean + await_deps(task.deps_tasks@.len()) + own
}

/// A task that is being run, step by step. The first step that fails ends it.
pub struct TaskRun {
    pub steps: Vec<TaskStep>,
    pub done: usize,
    pub result: Result<(), SharedMaterializingError>,
}

/// Why waiting for a clean-up of `path` failed.
pub open spec fn cleaning_error_text(path: PathView, source: Seq<char>) -> Seq<char> {
    "Error waiting for a previous future to finish cleaning output path "@ + paths::path_text(path)
        + ": "@ + source
}

/// Why waiting for a clean-up of `path` failed.
pub fn cleaning_error(path: &ProjectRelativePathBuf, source: &str) -> (r: String)
    ensures
        r@ == cleaning_error_text(path@, source@),
{
    let shown = path.display();
    text::concat4(
        "Error waiting for a previous future to finish cleaning output path ",
        shown.as_str(),
        ": ",
        source,
    )
}

impl TaskRun {
    /// A task at its first step.
    pub fn new(task: &MaterializeTask, windows: bool) -> (r: Self)
        ensures
            r.steps@ == task_steps(*task, windows),
            r.done == 0,
            r.result is Ok,
    {
        let mut steps: Vec<TaskStep> = Vec::new();
        match task.cleaning {
            Some(v) => {
                steps.push(TaskStep::AwaitCleaning(v));
            },
            None => {},
        }
        let ghost clean = match task.cleaning {
            Some(v) => seq![TaskStep::AwaitCleaning(v)],
            None => Seq::empty(),
        };
        let mut i: usize = 0;
        assert(steps@ =~= clean + await_deps(0));
        while i < task.deps_tasks.len()
            invariant
                i <= task.deps_tasks@.len(),
                steps@ == clean + await_deps(i as nat),
            decreases task.deps_tasks@.len() - i,
        {
            steps.push(TaskStep::AwaitDep(i));
            i = i + 1;
            assert(steps@ =~= clean + await_deps(i as nat));
        }
        let ghost before = steps@;
        let has_entry = task.entry_and_method.is_some();
        if has_entry && !windows {
            steps.push(TaskStep::Materialize);
        }
        let ghost start = steps@;
        let mut j: usize = 0;
        assert(steps@ =~= start + await_links(0));
        while j < task.link_deps_tasks.len()
            invariant
                j <= task.link_deps_tasks@.len(),
                steps@ == start + await_links(j as nat),
            decreases task.link_deps_tasks@.len() - j,
        {
            steps.push(TaskStep::AwaitLink(j));
            j = j + 1;
            assert(steps@ =~= start + await_links(j as nat));
        }
        if has_entry && windows {
            steps.push(TaskStep::Materialize);
        }
        assert(steps@ =~= task_steps(*task, windows));
        TaskRun { steps, done: 0, result: Ok(()) }
    }

    /// The next step; none where the task has ended.
    pub fn next_step(&self) -> (r: Option<TaskStep>)
        ensures
            r == (if self.result is Ok && self.done < self.steps@.len() {
                Some(self.steps@[self.done as int])
            } else {
                None
            }),
    {
        if self.result.is_ok() && self.done < self.steps.len() {
            Some(self.steps[self.done])
        } else {
            None
        }
    }

    /// Takes the outcome of the step that was next.
    pub fn report(&mut self, outcome: Result<(), SharedMaterializingError>)
        requires
            old(self).result is Ok,
            old(self).done < old(self).steps@.len(),
        ensures
            final(self).steps == old(self).steps,
            final(self).done == old(self).done + 1,
            final(self).result == outcome,
    {
        if self.done < self.steps.len() {
            self.done = self.done + 1;
        }
        self.result = outcome;
    }

    /// The notification for the command loop once the task has ended.
    pub fn into_command(self, task: &MaterializeTask, timestamp: i64) -> (r:
        LowPriorityMaterializerCommand)
        ensures
            r matches LowPriorityMaterializerCommand::MaterializationFinished {
                path,
                timestamp: t,
                version,
                result,
            } && path@ == task.path@ && t == timestamp && version == task.version && result
                == self.result,
    {
        LowPriorityMaterializerCommand::MaterializationFinished {
            path: task.path.clone(),
            timestamp,
            version: task.version,
            result: self.result,
        }
    }
}

/// The number of the first of `outcomes` that is a failure.
pub open spec fn is_first_failure(outcomes: Seq<Result<(), String>>, i: int) -> bool {
    &&& 0 <= i < outcomes.len()
    &&& outcomes[i] is Err
    &&& forall|k: int| 0 <= k < i ==> (#[trigger] outcomes[k]) is Ok
}

/// What is reported where the work at `path` ended with `source`: for a clean-up it says what was
/// waited for, the error of a materialization stands for itself.
pub open spec fn future_error_text(
    path: PathView,
    future: ProcessingFuture,
    source: Seq<char>,
) -> Seq<char> {
    match future {
        ProcessingFuture::Materializing(_) => source,
        ProcessingFuture::Cleaning(_) => cleaning_error_text(path, source),
    }
}

/// How waiting for all of `existing` ends, given how each of them ended: with the error of the first
/// that failed.
pub fn join_all_existing_futs(
    existing: &Vec<(ProjectRelativePathBuf, ProcessingFuture)>,
    outcomes: &Vec<Result<(), String>>,
) -> (r: Result<(), String>)
    requires
        existing@.len() == outcomes@.len(),
    ensures
        r is Err <==> exists|i: int| 0 <= i < outcomes@.len() && (#[trigger] outcomes@[i]) is Err,
        r matches Err(e) ==> exists|i: int| #[trigger]
            is_first_failure(outcomes@, i) && e@ == future_error_text(
                existing@[i].0@,
                existing@[i].1,
                outcomes@[i]->Err_0@,
            ),
{
    let mut i: usize = 0;
    while i < existing.len()
        invariant
            existing@.len() == outcomes@.len(),
            i <= existing@.len(),
            forall|k: int| 0 <= k < i ==> (#[trigger] outcomes@[k]) is Ok,
        decreases existing@.len() - i,
    {
        match &outcomes[i] {
            Ok(_) => {},
            Err(e) => {
                assert(is_first_failure(outcomes@, i as int));
                return Err(
                    match existing[i].1 {
                        ProcessingFuture::Materializing(_) => e.clone(),
                        ProcessingFuture::Cleaning(_) => cleaning_error(
                            &existing[i].0,
                            e.as_str(),
                        ),
                    },
                );
            },
        }
        i = i + 1;
    }
    Ok(())
}

/// Everything that was asked for is on disk for good, or is listed with the work that puts it
/// there.
pub proof fn law_everything_asked_for_is_on_its_way(
    before: DeferredMaterializerCommandProcessor,
    now: i64,
    paths: Seq<ProjectRelativePathBuf>,
    depth: u32,
    after: DeferredMaterializerCommandProcessor,
    r: Seq<(ProjectRelativePathBuf, MaterializingFuture)>,
    i: int,
    key: PathView,
)
    requires
        before.wf(),
        (after.state(), ensured_views(r)) == materialize_many(
            before.state(),
            now,
            paths::path_views(paths),
            depth as nat,
        ),
        depth > 0,
        after.version_tracker.0.0 < u64::MAX,
        0 <= i < paths.len(),
        before.tree@.contains_key(key),
        paths::is_prefix(key, paths[i]@),
    ensures
        ({
            ||| {
                &&& before.tree@[key].stage is Materialized
                &&& before.tree@[key].deps is None
                &&& !(before.tree@[key].processing matches Processing::Active {
                    future: ProcessingFuture::Materializing(_),
                    ..
                })
            }
            ||| exists|j: int|
                0 <= j < r.len() && (#[trigger] r[j]).0@ == paths[i]@ && processor::is_waited_for(
                    before,
                    after,
                    seq![r[j].1],
                    key,
                )
        }),
{
    before.tree.lemma_wf();
    let views = paths::path_views(paths);
    assert(views[i] == paths[i]@);
    let s = before.state();
    lemma_many_work(s, now, views, depth as nat, i, key);
    let (s2, futures) = materialize_many(s, now, views, depth as nat);
    if some_work(s, s2, futures, views[i], key) {
        let j = choose|j: int|
            0 <= j < futures.len() && (#[trigger] futures[j]).0 == views[i] && futures[j].1 is Task
                && processor::is_work_on(s, s2, key, futures[j].1->Task_0);
        assert(futures[j] == (r[j].0@, r[j].1@));
        assert(seq![r[j].1][0] == r[j].1);
        processor::lemma_waited_for(before, after, seq![r[j].1], key, 0);
        assert(r[j].0@ == paths[i]@);
    }
}

spec fn some_work(
    before: MaterializerState,
    after: MaterializerState,
    futures: Seq<(PathView, FutureView)>,
    path: PathView,
    key: PathView,
) -> bool {
    exists|j: int|
        0 <= j < futures.len() && (#[trigger] futures[j]).0 == path && futures[j].1 is Task
            && processor::is_work_on(before, after, key, futures[j].1->Task_0)
}

proof fn lemma_many_work(
    s: MaterializerState,
    now: i64,
    paths: Seq<PathView>,
    depth: nat,
    i: int,
    key: PathView,
)
    requires
        file_tree::prefix_free(s.tree.dom()),
        depth > 0,
        materialize_many(s, now, paths, depth).0.version < u64::MAX,
        0 <= i < paths.len(),
        s.tree.contains_key(key),
        paths::is_prefix(key, paths[i]),
    ensures
        ({
            let (s2, futures) = materialize_many(s, now, paths, depth);
            processor::rests_on_disk(s.tree[key]) || some_work(s, s2, futures, paths[i], key)
        }),
    decreases paths.len(),
{
    let init = paths.drop_last();
    let (s1, first) = materialize_many(s, now, init, depth);
    let (s2, futures) = materialize_many(s, now, paths, depth);
    let future = processor::materialize_recurse(s1, now, Seq::empty(), paths.last(), depth).1;
    lemma_many_progresses(s, now, init, depth);
    processor::law_materialize_keeps_artifacts(s1, now, paths.last(), depth);
    assert(s.tree.dom().contains(key));
    assert(s1.tree.dom().contains(key));
    if i < paths.len() - 1 {
        assert(init[i] == paths[i]);
        lemma_many_work(s, now, init, depth, i, key);
        if some_work(s, s1, first, paths[i], key) {
            let j = choose|j: int|
                0 <= j < first.len() && (#[trigger] first[j]).0 == paths[i] && first[j].1 is Task
                    && processor::is_work_on(s, s1, key, first[j].1->Task_0);
            processor::lemma_work_stays(s, s1, s2, key, first[j].1->Task_0);
            assert(futures[j] == first[j]);
        }
    } else {
        processor::lemma_recurse_works(s1, now, Seq::empty(), paths.last(), depth, key);
        if let Some(FutureView::Task(v)) = future {
            let n = (futures.len() - 1) as int;
            assert(futures[n] == (paths[i], FutureView::Task(v)));
            if processor::planned_in(s2.tasks, s1.tasks.len() as int, key, v) {
                let t = choose|t: int|
                    s1.tasks.len() <= t < s2.tasks.len() && (#[trigger] s2.tasks[t]).path == key
                        && s2.tasks[t].version == v;
                assert(s.tasks.len() <= t < s2.tasks.len() && s2.tasks[t].path == key);
            } else if s1.tree[key].processing != s.tree[key].processing {
                processor::lemma_work_stays(s, s1, s2, key, v);
            }
            assert(processor::is_work_on(s, s2, key, v));
        }
    }
}

proof fn lemma_matched_keeps_stages(
    tree: TreeView,
    path: PathView,
    value: ArtifactValue,
    windows: bool,
    q: PathView,
    v: ArtifactValue,
)
    ensures
        commands::known_as(commands::matched(tree, path, value, windows), q, v, windows)
            == commands::known_as(tree, q, v, windows),
{
}

/// Artifacts match where every one of them is known as what it is said to be; matching changes
/// nothing but links, and those only of artifacts that are asked for.
pub proof fn law_all_have_to_match(
    tree: TreeView,
    items: Seq<(ProjectRelativePathBuf, ArtifactValue)>,
    windows: bool,
    k: PathView,
)
    ensures
        match_all(tree, items, windows).1 <==> forall|i: int|
            0 <= i < items.len() ==> commands::known_as(
                tree,
                (#[trigger] items[i]).0@,
                items[i].1,
                windows,
            ),
        match_all(tree, items, windows).0.dom() =~= tree.dom(),
        tree.contains_key(k) ==> match_all(tree, items, windows).0[k].stage == tree[k].stage
            && match_all(tree, items, windows).0[k].processing == tree[k].processing,
        !(exists|i: int| 0 <= i < items.len() && (#[trigger] items[i]).0@ == k) ==> match_all(
            tree,
            items,
            windows,
        ).0[k] == tree[k],
    decreases items.len(),
{
    if items.len() > 0 {
        let rest = items.drop_first();
        let next = commands::matched(tree, items[0].0@, items[0].1, windows);
        assert(forall|i: int| 0 <= i < rest.len() ==> #[trigger] rest[i] == items[i + 1]);
        assert(next.dom() =~= tree.dom());
        law_all_have_to_match(next, rest, windows, k);
        if !(exists|i: int| 0 <= i < items.len() && (#[trigger] items[i]).0@ == k) {
            assert forall|i: int| 0 <= i < rest.len() implies (#[trigger] rest[i]).0@ != k by {
                assert(items[i + 1].0@ != k);
            }
            assert(items[0].0@ != k);
        }
        if match_all(tree, items, windows).1 {
            assert forall|i: int| 0 <= i < items.len() implies commands::known_as(
                tree,
                (#[trigger] items[i]).0@,
                items[i].1,
                windows,
            ) by {
                if i > 0 {
                    assert(rest[i - 1] == items[i]);
                    lemma_matched_keeps_stages(
                        tree,
                        items[0].0@,
                        items[0].1,
                        windows,
                        items[i].0@,
                        items[i].1,
                    );
                }
            }
        }
        if forall|i: int|
            0 <= i < items.len() ==> commands::known_as(
                tree,
                (#[trigger] items[i]).0@,
                items[i].1,
                windows,
            ) {
            assert(commands::known_as(tree, items[0].0@, items[0].1, windows));
            assert forall|i: int| 0 <= i < rest.len() implies commands::known_as(
                next,
                (#[trigger] rest[i]).0@,
                rest[i].1,
                windows,
            ) by {
                assert(commands::known_as(tree, items[i + 1].0@, items[i + 1].1, windows));
                lemma_matched_keeps_stages(
                    tree,
                    items[0].0@,
                    items[0].1,
                    windows,
                    rest[i].0@,
                    rest[i].1,
                );
            }
        }
    }
}

/// What is declared to be on disk is on disk, in use, as what it was declared; of declarations
/// that overlap, the last counts. Everything that none of them overlaps stays.
pub proof fn law_existing_artifacts_are_on_disk(
    tree: TreeView,
    items: Seq<(ProjectRelativePathBuf, ArtifactValue)>,
    now: i64,
    version: nat,
    i: int,
    k: PathView,
    windows: bool,
)
    requires
        version + items.len() <= u64::MAX,
    ensures
        0 <= i < items.len() && artifact::entry_bytes(items[i].1.entry) <= u64::MAX && (forall|
            j: int,
        |
            i < j < items.len() ==> !paths::overlaps(items[i].0@, (#[trigger] items[j]).0@)) ==> {
            let after = existing_tree(tree, items, now, version);
            let data = after[items[i].0@];
            &&& after.contains_key(items[i].0@)
            &&& data.stage is Materialized
            &&& artifact::metadata_matches(data.stage->metadata, items[i].1.entry, windows)
            &&& artifact::metadata_size(data.stage->metadata) == artifact::entry_bytes(
                items[i].1.entry,
            )
            &&& data.stage->last_access_time == now
            &&& data.stage->active
            &&& data.deps == items[i].1.deps
            &&& data.processing == Processing::Done(Version((version + i) as u64))
        },
        (forall|j: int| 0 <= j < items.len() ==> !paths::overlaps(k, (#[trigger] items[j]).0@))
            ==> (existing_tree(tree, items, now, version).contains_key(k) <==> tree.contains_key(k))
            && (tree.contains_key(k) ==> existing_tree(tree, items, now, version)[k] == tree[k]),
    decreases items.len(),
{
    if items.len() > 0 {
        let init = items.drop_last();
        let last = items.len() - 1;
        law_existing_artifacts_are_on_disk(tree, init, now, version, i, k, windows);
        assert(forall|j: int| 0 <= j < last ==> #[trigger] init[j] == items[j]);
        paths::lemma_prefix_order(k, k, k);
        if forall|j: int| 0 <= j < items.len() ==> !paths::overlaps(k, (#[trigger] items[j]).0@) {
            assert(!paths::overlaps(k, items[last].0@));
            assert forall|j: int| 0 <= j < init.len() implies !paths::overlaps(
                k,
                (#[trigger] init[j]).0@,
            ) by {
                assert(!paths::overlaps(k, items[j].0@));
            }
        }
        if 0 <= i < items.len() && artifact::entry_bytes(items[i].1.entry) <= u64::MAX && (forall|
            j: int,
        |
            i < j < items.len() ==> !paths::overlaps(items[i].0@, (#[trigger] items[j]).0@)) {
            artifact::law_metadata_describes_its_entry(items[i].1.entry, windows);
            if i < last {
                assert(!paths::overlaps(items[i].0@, items[last].0@));
                paths::lemma_prefix_order(items[i].0@, items[i].0@, items[i].0@);
                assert forall|j: int| i < j < init.len() implies !paths::overlaps(
                    init[i].0@,
                    (#[trigger] init[j]).0@,
                ) by {
                    assert(!paths::overlaps(items[i].0@, items[j].0@));
                }
            }
        }
    }
}

/// A task first awaits the clean-up of its path, then all that it is copied from, and only then
/// puts the artifact on disk; it awaits what the links point to as well, on Windows before the
/// artifact is put on disk and elsewhere after that. Each is awaited once.
pub proof fn law_order_of_a_task(task: MaterializeTask, windows: bool, i: int)
    requires
        task.deps_tasks@.len() <= usize::MAX,
        task.link_deps_tasks@.len() <= usize::MAX,
    ensures
        ({
            let steps = task_steps(task, windows);
            let c: int = if task.cleaning is Some {
                1
            } else {
                0
            };
            let d = task.deps_tasks@.len() as int;
            let l = task.link_deps_tasks@.len() as int;
            let m: int = if task.entry_and_method is Some {
                1
            } else {
                0
            };
            &&& steps.len() == c + d + l + m
            &&& task.cleaning is Some ==> steps[0] == TaskStep::AwaitCleaning(task.cleaning->0)
            &&& 0 <= i < d ==> steps[c + i] == TaskStep::AwaitDep(i as usize)
            &&& m == 1 ==> steps[if windows {
                c + d + l
            } else {
                c + d
            }] == TaskStep::Materialize
            &&& 0 <= i < l ==> steps[if windows {
                c + d + i
            } else {
                c + d + m + i
            }] == TaskStep::AwaitLink(i as usize)
        }),
{
}

/// What was noted of uses is handed over whole, each path once, when enough was noted, and the
/// buffer is then empty; until then it stays.
pub proof fn law_every_use_is_flushed(
    before: DeferredMaterializerCommandProcessor,
    max_buffer_size: usize,
    after: DeferredMaterializerCommandProcessor,
    r: FlushDecision,
    k: PathView,
)
    requires
        before.wf(),
        flush_follows(before, max_buffer_size, after, r),
    ensures
        r is Disabled <==> before.access_times_buffer is None,
        r is NotFull <==> before.access_times_buffer is Some && before.access_times_buffer->0@.len()
            < max_buffer_size,
        r is NotFull ==> after.access_times_buffer == before.access_times_buffer,
        r is Flush ==> {
            &&& paths::path_views(r->Flush_0@).contains(k) <==> paths::path_views(
                before.access_times_buffer->0@,
            ).contains(k)
            &&& r->Flush_0@.len() == before.access_times_buffer->0@.len()
            &&& after.access_times_buffer is Some
            &&& !paths::path_views(after.access_times_buffer->0@).contains(k)
        },
        after.tree == before.tree,
{
    if let Some(b) = before.access_times_buffer {
        let views = paths::path_views(b@);
        views.unique_seq_to_set();
        if let FlushDecision::Flush(list) = r {
            let out = paths::path_views(list@);
            assert(out.to_set().contains(k) <==> views.to_set().contains(k));
            let left = paths::path_views(after.access_times_buffer->0@);
            assert(!left.to_set().contains(k));
        }
    }
}

/// What is asked is answered: for each file its contents, for an artifact whether it is known, for
/// several whether all match. Asking where files are changes nothing.
pub proof fn law_questions_are_answered(
    before: DeferredMaterializerCommandProcessor,
    paths: Vec<ProjectRelativePathBuf>,
    path: ProjectRelativePathBuf,
    now: i64,
    depth: u32,
    force_mismatch: bool,
    after: DeferredMaterializerCommandProcessor,
    r: CommandOutcome,
    i: int,
)
    ensures
        command_follows(
            before,
            MaterializerCommand::GetMaterializedFilePaths(paths),
            now,
            depth,
            force_mismatch,
            after,
            r,
        ) ==> {
            &&& after == before
            &&& r is FilePaths
            &&& r->FilePaths_0@.len() == paths@.len()
            &&& 0 <= i < paths@.len() ==> contents::contents_view(r->FilePaths_0@[i])
                == contents::contents_of(before.tree@, paths@[i]@)
        },
        command_follows(
            before,
            MaterializerCommand::HasArtifact(path),
            now,
            depth,
            force_mismatch,
            after,
            r,
        ) ==> {
            &&& r is HasArtifact
            &&& r->HasArtifact_0 <==> before.tree@.contains_key(path@)
            &&& r->HasArtifact_1 ==> before.tree@.contains_key(path@) && before.has_db
            &&& after.tasks == before.tasks
            &&& after.version_tracker == before.version_tracker
        },
{
}

/// A declaration is taken over by what is on disk only where that is what is declared; otherwise a
/// new version begins, under which the declaration goes on with the value and method that it came
/// with, and everything that stood in its way is taken out.
pub proof fn law_what_a_declaration_does(
    before: DeferredMaterializerCommandProcessor,
    path: ProjectRelativePathBuf,
    value: ArtifactValue,
    method: Box<ArtifactMaterializationMethod>,
    now: i64,
    depth: u32,
    force_mismatch: bool,
    after: DeferredMaterializerCommandProcessor,
    r: CommandOutcome,
    k: PathView,
)
    requires
        command_follows(
            before,
            MaterializerCommand::Declare(path, value, method),
            now,
            depth,
            force_mismatch,
            after,
            r,
        ),
    ensures
        r is Declare,
        r->Declare_0 == path,
        r->Declare_1 is Reused <==> !force_mismatch && commands::already_materialized(
            before.tree@,
            path@,
            value,
            before.platform.windows,
        ),
        r->Declare_1 is Reused ==> after.version_tracker == before.version_tracker
            && after.tree@.contains_key(path@) && (k != path@ ==> (after.tree@.contains_key(k)
            <==> before.tree@.contains_key(k))),
        r->Declare_1 is Continue ==> {
            &&& r->Declare_1->version.0 == before.version_tracker.0.0
            &&& after.version_tracker.0.0 == before.version_tracker.0.0 + 1
            &&& r->Declare_1->value == value
            &&& r->Declare_1->method == method
            &&& after.tree@.contains_key(k) <==> before.tree@.contains_key(k) && !paths::is_prefix(
                path@,
                k,
            ) && !paths::is_prefix(k, path@)
            &&& after.tree@.contains_key(k) ==> after.tree@[k] == before.tree@[k]
        },
        after.tasks == before.tasks,
{
    if r->Declare_1 is Continue {
        file_tree::law_what_is_taken_out(before.tree@, path@, Seq::empty(), k);
    }
}

/// Invalidated paths are taken out with all that overlaps them, and the rest stays.
pub proof fn law_what_an_invalidation_does(
    before: DeferredMaterializerCommandProcessor,
    paths: Vec<ProjectRelativePathBuf>,
    now: i64,
    depth: u32,
    force_mismatch: bool,
    after: DeferredMaterializerCommandProcessor,
    r: CommandOutcome,
    k: PathView,
)
    requires
        command_follows(
            before,
            MaterializerCommand::InvalidateFilePaths(paths),
            now,
            depth,
            force_mismatch,
            after,
            r,
        ),
    ensures
        r is Invalidated,
        after.tree@.contains_key(k) <==> before.tree@.contains_key(k) && forall|i: int|
            0 <= i < paths@.len() ==> !paths::is_prefix((#[trigger] paths@[i])@, k)
                && !paths::is_prefix(k, paths@[i]@),
        after.tree@.contains_key(k) ==> after.tree@[k] == before.tree@[k],
        after.tasks == before.tasks,
        after.version_tracker == before.version_tracker,
{
    let views = paths::path_views(paths@);
    commands::law_what_invalidating_takes_out(
        r->Invalidated_0,
        before.tree@,
        views,
        k,
        ProcessingFuture::Materializing(before.version_tracker.0),
    );
    assert(forall|i: int| 0 <= i < paths@.len() ==> views[i] == (#[trigger] paths@[i])@);
    if forall|i: int|
        0 <= i < paths@.len() ==> !paths::is_prefix((#[trigger] paths@[i])@, k)
            && !paths::is_prefix(k, paths@[i]@) {
        assert forall|i: int| 0 <= i < views.len() implies !paths::is_prefix(k, #[trigger] views[i])
            && !paths::is_prefix(views[i], k) by {
            assert(!paths::is_prefix(paths@[i]@, k));
        }
    } else {
        let i = choose|i: int|
            0 <= i < paths@.len() && (paths::is_prefix((#[trigger] paths@[i])@, k)
                || paths::is_prefix(k, paths@[i]@));
        assert(paths::is_prefix(k, views[i]) || paths::is_prefix(views[i], k));
    }
}

/// What has no effect on artifacts is passed on as it came.
pub proof fn law_other_commands_are_passed_on(
    before: DeferredMaterializerCommandProcessor,
    id: u64,
    now: i64,
    depth: u32,
    force_mismatch: bool,
    after: DeferredMaterializerCommandProcessor,
    r: CommandOutcome,
)
    ensures
        command_follows(
            before,
            MaterializerCommand::Subscription(id),
            now,
            depth,
            force_mismatch,
            after,
            r,
        ) ==> r == CommandOutcome::Subscription(id) && after == before,
        command_follows(
            before,
            MaterializerCommand::Extension(id),
            now,
            depth,
            force_mismatch,
            after,
            r,
        ) ==> r == CommandOutcome::Extension(id) && after == before,
{
}

/// A refresh that has ended goes to the history with what came of it, behind those before; one that
/// has not goes on.
pub proof fn law_every_refresh_is_remembered(
    before: TtlRefreshes,
    received: TryRecv,
    now: i64,
    after: TtlRefreshes,
    i: int,
)
    requires
        refresh_polled(before, received, now, after),
    ensures
        before.running && received is Empty ==> after.running && after.history@ == before.history@,
        !before.running ==> !after.running && after.history@ == before.history@,
        before.running && !(received is Empty) ==> !after.running && after.history@.len()
            == before.history@.len() + 1,
        0 <= i < before.history@.len() ==> after.history@[i] == before.history@[i],
        before.running && received is Done ==> after.history@.last().at == received->Done_0
            && after.history@.last().outcome == Some(received->Done_1),
        before.running && !(received is Empty) && !(received is Done)
            ==> after.history@.last().outcome is Some && after.history@.last().outcome->0 is Err,
{
    if before.running && !(received is Empty) && 0 <= i < before.history@.len() {
        assert(after.history@.drop_last()[i] == after.history@[i]);
    }
}

/// Of several works that failed the first one is reported.
pub proof fn law_first_failure_is_reported(
    outcomes: Seq<Result<(), String>>,
    path: PathView,
    version: Version,
    source: Seq<char>,
    i: int,
    j: int,
)
    ensures
        is_first_failure(outcomes, i) ==> 0 <= i < outcomes.len() && outcomes[i] is Err && (0 <= j
            < i ==> outcomes[j] is Ok),
        is_first_failure(outcomes, i) && is_first_failure(outcomes, j) ==> i == j,
        future_error_text(path, ProcessingFuture::Materializing(version), source) == source,
        future_error_text(path, ProcessingFuture::Cleaning(version), source)
            == "Error waiting for a previous future to finish cleaning output path "@
            + paths::path_text(path) + ": "@ + source,
{
}

/// How a flush is reported: with how much was flushed and how long it took.
pub proof fn law_report_of_a_flush(paths: Vec<ProjectRelativePathBuf>, elapsed_ms: u64)
    ensures
        flush_text(FlushDecision::Flush(paths), FlushResult::Finished { elapsed_ms })
            == "Finished flushing "@ + text::decimal_chars(paths@.len()) + " entries in "@
            + text::decimal_chars(elapsed_ms as nat) + " ms"@,
        flush_text(FlushDecision::Flush(paths), FlushResult::DbError)
            == "Found error while updating access times in sqlite db"@,
{
}

/// A notification changes one artifact at most: work that ended as `finished` and `cleaned` say,
/// under the version that it had.
pub proof fn law_what_a_notification_does(
    before: DeferredMaterializerCommandProcessor,
    path: ProjectRelativePathBuf,
    timestamp: i64,
    version: Version,
    result: Result<(), SharedMaterializingError>,
    after: DeferredMaterializerCommandProcessor,
    r: Result<FinishedEffect, CleanupOutcome>,
    k: PathView,
)
    requires
        before.wf(),
        notification_follows(
            before,
            LowPriorityMaterializerCommand::MaterializationFinished {
                path,
                timestamp,
                version,
                result,
            },
            after,
            r,
        ),
        before.tree@.contains_key(k),
        paths::is_prefix(k, path@),
    ensures
        r is Ok,
        after.tasks == before.tasks,
        after.access_times_buffer == before.access_times_buffer,
        crate::deferred::version_of(before.tree@[k].processing).0 > version.0 ==> after.tree@
            == before.tree@ && r->Ok_0 is VersionConflict,
        crate::deferred::version_of(before.tree@[k].processing).0 <= version.0 && result is Ok
            ==> after.tree@[k].processing == Processing::Done(version)
            && after.tree@[k].stage is Materialized && after.version_tracker
            == before.version_tracker,
        crate::deferred::version_of(before.tree@[k].processing).0 <= version.0 && result is Err
            ==> after.tree@[k].stage == before.tree@[k].stage && after.version_tracker.0.0
            == before.version_tracker.0.0 + 1,
{
    before.tree.lemma_wf();
    file_tree::lemma_owner_unique(before.tree@, path@, k);
}

/// Artifacts that are declared to exist are announced, each with its metadata and the time, and get a
/// version each.
pub proof fn law_existing_artifacts_are_announced(
    before: DeferredMaterializerCommandProcessor,
    items: Vec<(ProjectRelativePathBuf, ArtifactValue)>,
    now: i64,
    depth: u32,
    force_mismatch: bool,
    after: DeferredMaterializerCommandProcessor,
    r: CommandOutcome,
    i: int,
)
    requires
        command_follows(
            before,
            MaterializerCommand::DeclareExisting(items),
            now,
            depth,
            force_mismatch,
            after,
            r,
        ),
    ensures
        r is Existing,
        r->Existing_0@.len() == items@.len(),
        0 <= i < items@.len() ==> {
            &&& r->Existing_0@[i].0 == items@[i].0
            &&& r->Existing_0@[i].1.metadata == artifact::metadata_of(items@[i].1.entry)
            &&& r->Existing_0@[i].1.timestamp == now
            &&& r->Existing_0@[i].1.error_name@ == "materializer_declare_existing_error"@
        },
        after.tree@ == existing_tree(
            before.tree@,
            items@,
            now,
            before.version_tracker.0.0 as nat,
        ),
        after.version_tracker.0.0 == before.version_tracker.0.0 + items@.len(),
        after.tasks == before.tasks,
        after.access_times_buffer == before.access_times_buffer,
{
}

/// Several artifacts match if all of them do, and what is asked for is on its way: the commands do
/// what is said of them one by one.
pub proof fn law_commands_on_several_artifacts(
    before: DeferredMaterializerCommandProcessor,
    items: Vec<(ProjectRelativePathBuf, ArtifactValue)>,
    paths: Vec<ProjectRelativePathBuf>,
    now: i64,
    depth: u32,
    force_mismatch: bool,
    after: DeferredMaterializerCommandProcessor,
    r: CommandOutcome,
)
    ensures
        command_follows(
            before,
            MaterializerCommand::MatchArtifacts(items),
            now,
            depth,
            force_mismatch,
            after,
            r,
        ) ==> {
            &&& r is Matched
            &&& (after.tree@, r->Matched_0) == match_all(
                before.tree@,
                items@,
                before.platform.windows,
            )
            &&& after.version_tracker == before.version_tracker
            &&& after.access_times_buffer == before.access_times_buffer
            &&& after.tasks == before.tasks
        },
        command_follows(
            before,
            MaterializerCommand::Ensure(paths),
            now,
            depth,
            force_mismatch,
            after,
            r,
        ) ==> {
            &&& r is Ensured
            &&& (after.state(), ensured_views(r->Ensured_0@)) == materialize_many(
                before.state(),
                now,
                paths::path_views(paths@),
                depth as nat,
            )
            &&& after.stats == before.stats
            &&& after.log_buffer == before.log_buffer
        },
{
}

/// A clean-up that ended is reported with what became of it, and changes no version that is to come.
pub proof fn law_what_the_end_of_a_cleanup_does(
    before: DeferredMaterializerCommandProcessor,
    path: ProjectRelativePathBuf,
    version: Version,
    result: Result<(), SharedMaterializingError>,
    after: DeferredMaterializerCommandProcessor,
    r: Result<FinishedEffect, CleanupOutcome>,
    k: PathView,
)
    requires
        before.wf(),
        notification_follows(
            before,
            LowPriorityMaterializerCommand::CleanupFinished { path, version, result },
            after,
            r,
        ),
        before.tree@.contains_key(k),
        paths::is_prefix(k, path@),
    ensures
        r is Err,
        after.version_tracker == before.version_tracker,
        crate::deferred::version_of(before.tree@[k].processing).0 > version.0 ==> after.tree@
            == before.tree@ && r->Err_0 is VersionConflict,
        crate::deferred::version_of(before.tree@[k].processing).0 <= version.0 && result is Ok
            ==> after.tree@[k].processing == Processing::Done(version) && r->Err_0 is Done,
        crate::deferred::version_of(before.tree@[k].processing).0 <= version.0 && result is Err
            ==> after.tree@ == before.tree@ && r->Err_0 is Failed,
{
    before.tree.lemma_wf();
    file_tree::lemma_owner_unique(before.tree@, path@, k);
}

} // verus!
