//! The front of the deferred materializer: requests become commands for the command loop.
use std::sync::Arc;
use vstd::prelude::*;
use vstd::string::*;

use crate::artifact::ActionDirectoryEntry;
use crate::artifact::ActionDirectoryMember;
use crate::artifact::ArtifactValue;
use crate::artifact::FileMetadata;
use crate::artifact::SharedEntry;
use crate::artifact::TrackedFileDigest;
use crate::contents;
use crate::contents::RestoredArtifact;
use crate::deferred;
use crate::deferred::AccessTimesUpdates;
use crate::deferred::ArtifactMaterializationMethod;
use crate::deferred::CasDownloadInfo;
use crate::deferred::CopiedArtifact;
use crate::deferred::DeferredMaterializerConfigs;
use crate::deferred::DeferredMaterializerStats;
use crate::deferred::HttpDownloadInfo;
use crate::deferred::LogBuffer;
use crate::deferred::MaterializerCommand;
use crate::deferred::MaterializerSender;
use crate::deferred::Version;
use crate::deferred::VersionTracker;
use crate::deferred::WriteFile;
use crate::file_tree;
use crate::file_tree::FileTree;
use crate::paths;
use crate::paths::PathView;
use crate::paths::ProjectRelativePathBuf;
use crate::processor::DeferredMaterializerCommandProcessor;
use crate::processor::Platform;
use crate::text;

verus! {

/// An error of the operating system or of a library that reports as if it were one.
#[verifier::external_type_specification]
#[verifier::external_body]
pub struct ExIoError(std::io::Error);

/// The bytes into which zstd compresses `data` at the given level, or nothing where it cannot.
pub uninterp spec fn zstd_outcome(data: Seq<u8>, level: i32) -> Option<Seq<u8>>;

/// `zstd::bulk::compress`, which makes room for as much as the compressed bytes can ever take.
/// Whether it succeeds, and with which bytes, depends on its two arguments alone, as long as there is
/// memory. What the error says is left open.
#[verifier::external_body]
fn zstd_compress(data: &Vec<u8>, level: i32) -> (r: Result<Vec<u8>, std::io::Error>)
    ensures
        (match r { Ok(bytes) => Some(bytes@), Err(_) => None::<Seq<u8>> }) == zstd_outcome(
            data@,
            level,
        ),
{
    zstd::bulk::compress(data, level)
}

/// The files of `entry`, placed at `dest`, each with where it comes from when the whole comes from
/// `src`.
pub open spec fn file_pairs(entry: SharedEntry, dest: PathView, src: PathView) -> Seq<
    (PathView, PathView),
>
    decreases entry,
{
    match entry {
        ActionDirectoryEntry::Leaf(ActionDirectoryMember::File(_)) => seq![(dest, src)],
        ActionDirectoryEntry::Leaf(_) => Seq::empty(),
        ActionDirectoryEntry::Dir(d) => child_pairs(d.children@, dest, src),
    }
}

/// The files of some entries of a directory at `dest` that comes from `src`.
pub open spec fn child_pairs(
    children: Seq<(String, SharedEntry)>,
    dest: PathView,
    src: PathView,
) -> Seq<(PathView, PathView)>
    decreases children,
{
    if children.len() == 0 {
        Seq::empty()
    } else {
        let name = children[children.len() - 1].0@;
        child_pairs(children.drop_last(), dest, src) + file_pairs(
            children[children.len() - 1].1,
            dest.push(name),
            src.push(name),
        )
    }
}

/// `m` after each of `pairs` was put into it as into a tree of files.
pub open spec fn insert_all(m: Map<PathView, PathView>, pairs: Seq<(PathView, PathView)>) -> Map<
    PathView,
    PathView,
>
    decreases pairs.len(),
{
    if pairs.len() == 0 {
        m
    } else {
        let before = insert_all(m, pairs.drop_last());
        file_tree::without_overlaps(before, pairs.last().0).insert(pairs.last().0, pairs.last().1)
    }
}

/// The map with the mathematical forms of its values.
pub open spec fn source_views(m: Map<PathView, ProjectRelativePathBuf>) -> Map<
    PathView,
    PathView,
> {
    Map::new(|k: PathView| m.contains_key(k), |k: PathView| m[k]@)
}

/// The files that are copied to below `path`, each relative to `path` and with its source.
pub open spec fn copied_pairs(path: PathView, copied: Seq<CopiedArtifact>) -> Seq<
    (PathView, PathView),
>
    decreases copied.len(),
{
    if copied.len() == 0 {
        Seq::empty()
    } else {
        let a = copied.last();
        copied_pairs(path, copied.drop_last()) + file_pairs(
            a.dest_entry,
            a.dest@.skip(path.len() as int),
            a.src@,
        )
    }
}

proof fn lemma_insert_all_append(
    m: Map<PathView, PathView>,
    a: Seq<(PathView, PathView)>,
    b: Seq<(PathView, PathView)>,
)
    ensures
        insert_all(m, a + b) == insert_all(insert_all(m, a), b),
    decreases b.len(),
{
    if b.len() == 0 {
        assert(a + b =~= a);
    } else {
        lemma_insert_all_append(m, a, b.drop_last());
        assert((a + b).drop_last() =~= a + b.drop_last());
    }
}

fn insert_files(
    tree: &mut FileTree<ProjectRelativePathBuf>,
    entry: &SharedEntry,
    dest: &ProjectRelativePathBuf,
    src: &ProjectRelativePathBuf,
)
    requires
        old(tree).wf(),
    ensures
        final(tree).wf(),
        source_views(final(tree)@) == insert_all(
            source_views(old(tree)@),
            file_pairs(*entry, dest@, src@),
        ),
    decreases *entry,
{
    let ghost m0 = source_views(tree@);
    match entry {
        ActionDirectoryEntry::Leaf(l) => match l {
            ActionDirectoryMember::File(_) => {
                tree.insert(dest.clone(), src.clone());
                proof {
                    let pairs = seq![(dest@, src@)];
                    assert(pairs.drop_last() =~= Seq::empty());
                    assert(insert_all(m0, pairs.drop_last()) == m0);
                    assert(source_views(tree@) =~= file_tree::without_overlaps(m0, dest@).insert(
                        dest@,
                        src@,
                    ));
                }
            },
            _ => {},
        },
        ActionDirectoryEntry::Dir(d) => {
            let ghost all = d.children@;
            let mut i: usize = 0;
            assert(all.take(0) =~= Seq::empty());
            while i < d.children.len()
                invariant
                    tree.wf(),
                    *entry == ActionDirectoryEntry::Dir(*d),
                    all == d.children@,
                    i <= all.len(),
                    source_views(tree@) == insert_all(
                        m0,
                        child_pairs(all.take(i as int), dest@, src@),
                    ),
                decreases all.len() - i,
            {
                let name = &d.children[i].0;
                proof {
                    let next = all.take(i + 1);
                    assert(next.drop_last() =~= all.take(i as int));
                    assert(next[next.len() - 1] == all[i as int]);
                    assert(decreases_to!(*entry => entry->Dir_0));
                    assert(decreases_to!(entry->Dir_0 => entry->Dir_0.children));
                    assert(decreases_to!(d.children => d.children@));
                    assert(decreases_to!(all => all[i as int]));
                    assert(decreases_to!(all[i as int] => all[i as int].1));
                    lemma_insert_all_append(
                        m0,
                        child_pairs(all.take(i as int), dest@, src@),
                        file_pairs(all[i as int].1, dest@.push(name@), src@.push(name@)),
                    );
                }
                let child_dest = dest.child(name);
                let child_src = src.child(name);
                insert_files(tree, &d.children[i].1, &child_dest, &child_src);
                i = i + 1;
            }
            assert(all.take(all.len() as int) =~= all);
        },
    }
}

/// A copied artifact that does not lie below the artifact it is part of.
#[derive(Debug)]
pub struct NotBelow {
    /// Which of the copied artifacts.
    pub index: usize,
}

/// The tree of the files of a local copy to `path`. The first copied artifact that does not lie
/// below `path` is an error.
pub fn local_copy_tree(path: &ProjectRelativePathBuf, copied: &Vec<CopiedArtifact>) -> (r: Result<
    FileTree<ProjectRelativePathBuf>,
    NotBelow,
>)
    ensures
        match r {
            Ok(tree) => {
                &&& tree.wf()
                &&& forall|i: int|
                    0 <= i < copied@.len() ==> paths::is_prefix(
                        path@,
                        (#[trigger] copied@[i]).dest@,
                    )
                &&& source_views(tree@) == insert_all(Map::empty(), copied_pairs(path@, copied@))
            },
            Err(e) => {
                &&& e.index < copied@.len()
                &&& !paths::is_prefix(path@, copied@[e.index as int].dest@)
                &&& forall|i: int|
                    0 <= i < e.index ==> paths::is_prefix(path@, (#[trigger] copied@[i]).dest@)
            },
        },
{
    let mut tree: FileTree<ProjectRelativePathBuf> = FileTree::new();
    let mut i: usize = 0;
    proof {
        assert(copied@.take(0) =~= Seq::empty());
        assert(source_views(tree@) =~= Map::empty());
    }
    while i < copied.len()
        invariant
            tree.wf(),
            i <= copied@.len(),
            forall|k: int|
                0 <= k < i ==> paths::is_prefix(path@, (#[trigger] copied@[k]).dest@),
            source_views(tree@) == insert_all(
                Map::empty(),
                copied_pairs(path@, copied@.take(i as int)),
            ),
        decreases copied@.len() - i,
    {
        let a = &copied[i];
        if !path.is_prefix_of(&a.dest) {
            return Err(NotBelow { index: i });
        }
        let dest = a.dest.rest(path.depth());
        proof {
            let next = copied@.take(i + 1);
            assert(next.drop_last() =~= copied@.take(i as int));
            assert(next.last() == *a);
            lemma_insert_all_append(
                Map::empty(),
                copied_pairs(path@, copied@.take(i as int)),
                file_pairs(a.dest_entry, dest@, a.src@),
            );
        }
        insert_files(&mut tree, &a.dest_entry, &dest, &a.src);
        i = i + 1;
    }
    assert(copied@.take(copied@.len() as int) =~= copied@);
    Ok(tree)
}

/// A file that is to be written.
#[derive(Debug)]
pub struct WriteRequest {
    pub path: ProjectRelativePathBuf,
    pub content: Vec<u8>,
    pub is_executable: bool,
}

/// The content of a file could not be compressed.
#[derive(Debug)]
pub struct CompressError {
    pub bytes: usize,
}

impl CompressError {
    /// The message shown for the error.
    pub fn message(&self) -> (r: String)
        ensures
            r@ == "Error compressing "@ + text::decimal_chars(self.bytes as nat) + " bytes"@,
    {
        let n = text::decimal(self.bytes as u64);
        text::concat3("Error compressing ", n.as_str(), " bytes")
    }
}

/// The file to be written for `content` that was compressed to `compressed`.
pub fn write_file(compressed: Vec<u8>, content_len: usize, is_executable: bool) -> (r: WriteFile)
    ensures
        r.compressed_data == compressed,
        r.decompressed_size == content_len,
        r.is_executable == is_executable,
{
    WriteFile { compressed_data: compressed, decompressed_size: content_len, is_executable }
}

/// The value of a file with this digest.
pub open spec fn file_value(digest: TrackedFileDigest, is_executable: bool) -> ArtifactValue {
    ArtifactValue {
        entry: ActionDirectoryEntry::Leaf(
            ActionDirectoryMember::File(FileMetadata { digest, is_executable }),
        ),
        deps: None,
    }
}

/// `command` declares the file of `request`, whose digest is `digest`: it is to be written from
/// its compressed content.
pub open spec fn declares_write(
    command: MaterializerCommand,
    request: WriteRequest,
    digest: TrackedFileDigest,
    compressed: Seq<u8>,
) -> bool {
    &&& command matches MaterializerCommand::Declare(path, value, method)
    &&& path@ == request.path@
    &&& value == file_value(digest, request.is_executable)
    &&& *method matches ArtifactMaterializationMethod::Write(file)
    &&& file.compressed_data@ == compressed
    &&& file.decompressed_size == request.content@.len()
    &&& file.is_executable == request.is_executable
}

/// What became of compressing each of some contents.
pub open spec fn compressed_views(outcomes: Seq<Option<Vec<u8>>>) -> Seq<Option<Seq<u8>>> {
    outcomes.map_values(
        |o: Option<Vec<u8>>|
            match o {
                Some(bytes) => Some(bytes@),
                None => None,
            },
    )
}

/// What becomes of compressing the content of each request.
pub open spec fn compressions(requests: Seq<WriteRequest>) -> Seq<Option<Seq<u8>>> {
    requests.map_values(|request: WriteRequest| zstd_outcome(request.content@, 0))
}

/// The number of the first content that could not be compressed.
pub open spec fn is_first_uncompressed(outcomes: Seq<Option<Seq<u8>>>, i: int) -> bool {
    &&& 0 <= i < outcomes.len()
    &&& outcomes[i] is None
    &&& forall|k: int| 0 <= k < i ==> (#[trigger] outcomes[k]) is Some
}

/// What asking for files to be written comes to, given what became of compressing their contents:
/// all of them are asked for, in order, unless one could not be compressed.
pub open spec fn write_declared(
    before: DeferredMaterializerAccessor,
    after: DeferredMaterializerAccessor,
    requests: Seq<WriteRequest>,
    digests: Seq<TrackedFileDigest>,
    outcomes: Seq<Option<Seq<u8>>>,
    r: Result<Vec<ArtifactValue>, CompressError>,
) -> bool {
    match r {
        Err(e) => {
            &&& after == before
            &&& exists|i: int| #[trigger]
                is_first_uncompressed(outcomes, i) && requests[i].content@.len() == e.bytes
        },
        Ok(values) => {
            let queued = before.command_sender.high_priority@.len();
            &&& forall|i: int| 0 <= i < outcomes.len() ==> (#[trigger] outcomes[i]) is Some
            &&& values@.len() == requests.len()
            &&& forall|i: int|
                0 <= i < requests.len() ==> #[trigger] values@[i] == file_value(
                    digests[i],
                    requests[i].is_executable,
                )
            &&& asks(before, after, requests.len())
            &&& forall|i: int|
                0 <= i < requests.len() ==> declares_write(
                    #[trigger] after.command_sender.high_priority@[queued + i],
                    requests[i],
                    digests[i],
                    outcomes[i]->0,
                )
        },
    }
}

/// The front of the materializer.
pub struct DeferredMaterializerAccessor {
    pub command_sender: MaterializerSender,
    /// Whether final artifacts are put on disk, or skipped.
    pub materialize_final_artifacts: bool,
    pub defer_write_actions: bool,
    /// How many artifacts were restored from the database.
    pub num_entries_from_sqlite: u64,
    pub verbose_materializer_log: bool,
}

/// `after` is `before` with `n` more commands queued.
pub open spec fn asks(
    before: DeferredMaterializerAccessor,
    after: DeferredMaterializerAccessor,
    n: nat,
) -> bool {
    &&& deferred::queued(before.command_sender, after.command_sender, n)
    &&& after.materialize_final_artifacts == before.materialize_final_artifacts
    &&& after.defer_write_actions == before.defer_write_actions
    &&& after.num_entries_from_sqlite == before.num_entries_from_sqlite
    &&& after.verbose_materializer_log == before.verbose_materializer_log
}

/// `after` is `before` with `command` queued.
pub open spec fn asks_for(
    before: DeferredMaterializerAccessor,
    after: DeferredMaterializerAccessor,
    command: MaterializerCommand,
) -> bool {
    &&& asks(before, after, 1)
    &&& after.command_sender.high_priority@.last() == command
}

/// A reading of the statistics.
#[derive(Clone, Copy, Debug)]
pub struct MaterializerSnapshot {
    pub deferred_materializer_declares: u64,
    pub deferred_materializer_declares_reused: u64,
    pub deferred_materializer_queue_size: u64,
}

impl DeferredMaterializerAccessor {
    /// The front of a materializer and the processor behind it. `sqlite_state` is what was
    /// restored from the database.
    pub fn new(
        configs: &DeferredMaterializerConfigs,
        platform: Platform,
        has_db: bool,
        sqlite_state: Option<Vec<RestoredArtifact>>,
    ) -> (r: (Self, DeferredMaterializerCommandProcessor))
        ensures
            r.0.command_sender.high_priority@.len() == 0,
            r.0.command_sender.low_priority@.len() == 0,
            r.0.command_sender.counters.sent == 0,
            r.0.command_sender.counters.received == 0,
            !r.0.command_sender.clean_guard,
            r.0.materialize_final_artifacts == configs.materialize_final_artifacts,
            r.0.defer_write_actions == configs.defer_write_actions,
            r.0.verbose_materializer_log == configs.verbose_materializer_log,
            r.0.num_entries_from_sqlite == (match sqlite_state {
                Some(s) => s@.len(),
                None => 0,
            }),
            r.1.wf(),
            r.1.has_db == has_db,
            r.1.platform == platform,
            r.1.defer_write_actions == configs.defer_write_actions,
            r.1.verbose_materializer_log == configs.verbose_materializer_log,
            r.1.log_buffer@.len() == 0,
            r.1.log_buffer.limit() == 25,
            r.1.version_tracker.0 == Version(1),
            r.1.tree@ == (match sqlite_state {
                Some(s) => contents::restored_tree(s@),
                None => Map::empty(),
            }),
            r.1.stats.declares == 0 && r.1.stats.declares_reused == 0,
            r.1.state().buffer == (if configs.update_access_times is Disabled {
                None
            } else {
                Some(Set::<PathView>::empty())
            }),
            r.1.tasks@.len() == 0,
    {
        let num_entries_from_sqlite: u64 = match &sqlite_state {
            Some(s) => s.len() as u64,
            None => 0,
        };
        let access_times_buffer = if matches!(
            configs.update_access_times,
            AccessTimesUpdates::Disabled
        ) {
            None
        } else {
            let empty: Vec<ProjectRelativePathBuf> = Vec::new();
            proof {
                assert(paths::path_views(empty@) =~= Seq::empty());
                assert(crate::processor::path_set(empty@) =~= Set::empty());
            }
            Some(empty)
        };
        let tree = contents::initialize(sqlite_state);
        let processor = DeferredMaterializerCommandProcessor {
            has_db,
            platform,
            defer_write_actions: configs.defer_write_actions,
            log_buffer: LogBuffer::new(25),
            version_tracker: VersionTracker::new(),
            tree,
            stats: DeferredMaterializerStats::default(),
            access_times_buffer,
            verbose_materializer_log: configs.verbose_materializer_log,
            tasks: Vec::new(),
        };
        let accessor = DeferredMaterializerAccessor {
            command_sender: MaterializerSender::new(),
            materialize_final_artifacts: configs.materialize_final_artifacts,
            defer_write_actions: configs.defer_write_actions,
            num_entries_from_sqlite,
            verbose_materializer_log: configs.verbose_materializer_log,
        };
        (accessor, processor)
    }

    /// The name of this kind of materializer.
    pub fn name(&self) -> (r: &'static str)
        ensures
            r@ == "deferred"@,
    {
        "deferred"
    }

    /// Asks for a copy at `path`.
    pub fn declare_copy(
        &mut self,
        path: ProjectRelativePathBuf,
        value: ArtifactValue,
        srcs: Vec<CopiedArtifact>,
    ) -> (r: Result<(), NotBelow>)
        ensures
            r is Ok <==> forall|i: int|
                0 <= i < srcs@.len() ==> paths::is_prefix(path@, (#[trigger] srcs@[i]).dest@),
            r is Err ==> *final(self) == *old(self),
            r is Ok ==> {
                &&& asks(*old(self), *final(self), 1)
                &&& final(self).command_sender.high_priority@.last()
                    matches MaterializerCommand::Declare(p, v, m)
                &&& p == path
                &&& v == value
                &&& *m matches ArtifactMaterializationMethod::LocalCopy(tree, copied)
                &&& copied == srcs
                &&& source_views(tree@) == insert_all(Map::empty(), copied_pairs(path@, srcs@))
            },
    {
        match local_copy_tree(&path, &srcs) {
            Err(e) => Err(e),
            Ok(tree) => {
                self.command_sender.send(
                    MaterializerCommand::Declare(
                        path,
                        value,
                        Box::new(ArtifactMaterializationMethod::LocalCopy(tree, srcs)),
                    ),
                );
                Ok(())
            },
        }
    }

    /// Asks for a download of each of `artifacts` from the content store.
    pub fn declare_cas_many(
        &mut self,
        info: Arc<CasDownloadInfo>,
        artifacts: Vec<(ProjectRelativePathBuf, ArtifactValue)>,
    )
        ensures
            asks(*old(self), *final(self), artifacts@.len()),
            ({
                let before = old(self).command_sender.high_priority@;
                let after = final(self).command_sender.high_priority@;
                &&& forall|i: int|
                    0 <= i < artifacts@.len() ==> {
                        &&& #[trigger] after[before.len() + i]
                            matches MaterializerCommand::Declare(p, v, m)
                        &&& p == artifacts@[i].0
                        &&& v == artifacts@[i].1
                        &&& *m == (ArtifactMaterializationMethod::CasDownload { info })
                    }
            }),
    {
        let ghost before = self.command_sender.high_priority@;
        let ghost all = artifacts@;
        assert(before.take(before.len() as int) =~= before);
        for a in it: artifacts
            invariant
                it.seq() == all,
                before == old(self).command_sender.high_priority@,
                asks(*old(self), *self, it.index() as nat),
                forall|i: int|
                    0 <= i < it.index() ==> {
                        &&& #[trigger] self.command_sender.high_priority@[before.len() + i]
                            matches MaterializerCommand::Declare(p, v, m)
                        &&& p == all[i].0
                        &&& v == all[i].1
                        &&& *m == (ArtifactMaterializationMethod::CasDownload { info })
                    },
        {
            let ghost queue = self.command_sender.high_priority@;
            let ghost n = it.index() as int;
            let (path, value) = a;
            self.command_sender.send(
                MaterializerCommand::Declare(
                    path,
                    value,
                    Box::new(ArtifactMaterializationMethod::CasDownload { info: info.clone() }),
                ),
            );
            proof {
                let after = self.command_sender.high_priority@;
                assert(after.take(before.len() as int) =~= queue.take(before.len() as int));
                deferred::lemma_bumped(old(self).command_sender.counters.sent, n as nat);
                assert forall|i: int| 0 <= i < n + 1 implies ({
                    &&& #[trigger] after[before.len() + i]
                        matches MaterializerCommand::Declare(p, v, m)
                    &&& p == all[i].0
                    &&& v == all[i].1
                    &&& *m == (ArtifactMaterializationMethod::CasDownload { info })
                }) by {
                    if i < n {
                        assert(after[before.len() + i] == queue[before.len() + i]);
                    }
                }
            }
        }
    }

    /// Asks for a download over HTTP.
    pub fn declare_http(&mut self, path: ProjectRelativePathBuf, info: HttpDownloadInfo)
        ensures
            asks(*old(self), *final(self), 1),
            ({
                &&& final(self).command_sender.high_priority@.last()
                    matches MaterializerCommand::Declare(p, v, m)
                &&& p == path
                &&& v == file_value(info.metadata.digest, info.metadata.is_executable)
                &&& *m == (ArtifactMaterializationMethod::HttpDownload { info })
            }),
    {
        let value = ArtifactValue {
            entry: ActionDirectoryEntry::Leaf(
                ActionDirectoryMember::File(
                    FileMetadata {
                        digest: info.metadata.digest.dupe(),
                        is_executable: info.metadata.is_executable,
                    },
                ),
            ),
            deps: None,
        };
        self.command_sender.send(
            MaterializerCommand::Declare(
                path,
                value,
                Box::new(ArtifactMaterializationMethod::HttpDownload { info }),
            ),
        );
    }

    /// Asks for files to be written; `digests` are the digests of their contents, and `compressed`
    /// is what became of compressing each of them. Nothing is asked for where one could not be
    /// compressed.
    pub fn declare_compressed(
        &mut self,
        requests: &Vec<WriteRequest>,
        digests: &Vec<TrackedFileDigest>,
        compressed: Vec<Option<Vec<u8>>>,
    ) -> (r: Result<Vec<ArtifactValue>, CompressError>)
        requires
            requests@.len() == digests@.len(),
            requests@.len() == compressed@.len(),
        ensures
            write_declared(
                *old(self),
                *final(self),
                requests@,
                digests@,
                compressed_views(compressed@),
                r,
            ),
    {
        let ghost views = compressed_views(compressed@);
        let ghost all = compressed@;
        let mut files: Vec<WriteFile> = Vec::new();
        for outcome in it: compressed
            invariant
                it.seq() == all,
                views == compressed_views(all),
                *self == *old(self),
                requests@.len() == all.len(),
                files@.len() == it.index(),
                forall|k: int|
                    0 <= k < it.index() ==> {
                        &&& views[k] == Some((#[trigger] files@[k]).compressed_data@)
                        &&& files@[k].decompressed_size == requests@[k].content@.len()
                        &&& files@[k].is_executable == requests@[k].is_executable
                    },
        {
            let i: usize = files.len();
            let request = &requests[i];
            assert(all[i as int] == outcome);
            match outcome {
                None => {
                    assert forall|k: int| 0 <= k < i implies (#[trigger] views[k]) is Some by {
                        assert(views[k] == Some(files@[k].compressed_data@));
                    }
                    assert(is_first_uncompressed(views, i as int));
                    return Err(CompressError { bytes: request.content.len() });
                },
                Some(bytes) => {
                    files.push(write_file(bytes, request.content.len(), request.is_executable));
                },
            }
        }
        let ghost before = self.command_sender.high_priority@;
        let ghost written = files@;
        assert forall|k: int| 0 <= k < views.len() implies (#[trigger] views[k]) is Some by {
            assert(views[k] == Some(written[k].compressed_data@));
        }
        assert(before.take(before.len() as int) =~= before);
        let mut values: Vec<ArtifactValue> = Vec::new();
        for file in it: files
            invariant
                it.seq() == written,
                written.len() == requests@.len(),
                requests@.len() == digests@.len(),
                forall|k: int|
                    0 <= k < written.len() ==> {
                        &&& (#[trigger] written[k]).compressed_data@ == views[k]->0
                        &&& written[k].decompressed_size == requests@[k].content@.len()
                        &&& written[k].is_executable == requests@[k].is_executable
                    },
                values@.len() == it.index(),
                forall|k: int|
                    0 <= k < it.index() ==> #[trigger] values@[k] == file_value(
                        digests@[k],
                        requests@[k].is_executable,
                    ),
                before == old(self).command_sender.high_priority@,
                asks(*old(self), *self, it.index() as nat),
                forall|k: int|
                    0 <= k < it.index() ==> declares_write(
                        #[trigger] self.command_sender.high_priority@[before.len() + k],
                        requests@[k],
                        digests@[k],
                        views[k]->0,
                    ),
        {
            let ghost queue = self.command_sender.high_priority@;
            let ghost n = it.index() as int;
            assert(written[n] == file);
            let j: usize = values.len();
            let request = &requests[j];
            let value = make_file_value(&digests[j], request.is_executable);
            values.push(make_file_value(&digests[j], request.is_executable));
            self.command_sender.send(
                MaterializerCommand::Declare(
                    request.path.clone(),
                    value,
                    Box::new(ArtifactMaterializationMethod::Write(Arc::new(file))),
                ),
            );
            proof {
                let after = self.command_sender.high_priority@;
                assert(after.take(before.len() as int) =~= queue.take(before.len() as int));
                deferred::lemma_bumped(old(self).command_sender.counters.sent, n as nat);
                assert forall|k: int| 0 <= k < n + 1 implies declares_write(
                    #[trigger] after[before.len() + k],
                    requests@[k],
                    digests@[k],
                    views[k]->0,
                ) by {
                    if k < n {
                        assert(after[before.len() + k] == queue[before.len() + k]);
                    }
                }
            }
        }
        Ok(values)
    }

    /// Asks for files to be written; `digests` are the digests of their contents. Nothing is asked
    /// for where one of the contents cannot be compressed, nor where writes are not deferred: then
    /// there is no answer, and the files have to be written at once.
    pub fn declare_write(
        &mut self,
        requests: &Vec<WriteRequest>,
        digests: &Vec<TrackedFileDigest>,
    ) -> (r: Result<Option<Vec<ArtifactValue>>, CompressError>)
        requires
            requests@.len() == digests@.len(),
        ensures
            !old(self).defer_write_actions <==> r matches Ok(None),
            r is Err <==> old(self).defer_write_actions && exists|i: int|
                0 <= i < requests@.len() && zstd_outcome(
                    (#[trigger] requests@[i]).content@,
                    0,
                ) is None,
            match r {
                Ok(None) => *final(self) == *old(self),
                Err(e) => write_declared(
                    *old(self),
                    *final(self),
                    requests@,
                    digests@,
                    compressions(requests@),
                    Err(e),
                ),
                Ok(Some(values)) => write_declared(
                    *old(self),
                    *final(self),
                    requests@,
                    digests@,
                    compressions(requests@),
                    Ok(values),
                ),
            },
    {
        if !self.defer_write_actions {
            return Ok(None);
        }
        let mut compressed: Vec<Option<Vec<u8>>> = Vec::new();
        let mut i: usize = 0;
        while i < requests.len()
            invariant
                *self == *old(self),
                i <= requests@.len(),
                compressed@.len() == i,
                forall|k: int|
                    0 <= k < i ==> #[trigger] compressed_views(compressed@)[k] == zstd_outcome(
                        requests@[k].content@,
                        0,
                    ),
            decreases requests@.len() - i,
        {
            let ghost done = compressed@;
            match zstd_compress(&requests[i].content, 0) {
                Err(_) => {
                    compressed.push(None);
                },
                Ok(bytes) => {
                    compressed.push(Some(bytes));
                },
            }
            proof {
                assert forall|k: int| 0 <= k < i + 1 implies #[trigger] compressed_views(
                    compressed@,
                )[k] == zstd_outcome(requests@[k].content@, 0) by {
                    if k < i {
                        assert(compressed_views(done)[k] == compressed_views(compressed@)[k]);
                    }
                }
            }
            i = i + 1;
        }
        let ghost outcomes = compressions(requests@);
        assert(compressed_views(compressed@) =~= outcomes);
        let r = self.declare_compressed(requests, digests, compressed);
        proof {
            assert forall|i: int| 0 <= i < requests@.len() implies #[trigger] outcomes[i]
                == zstd_outcome(requests@[i].content@, 0) by {}
            if r is Err {
                let i = choose|i: int| #[trigger] is_first_uncompressed(outcomes, i)
                    && requests@[i].content@.len() == r->Err_0.bytes;
                assert(zstd_outcome(requests@[i].content@, 0) is None);
            } else {
                assert forall|i: int| 0 <= i < requests@.len() implies zstd_outcome(
                    (#[trigger] requests@[i]).content@,
                    0,
                ) is Some by {
                    assert(outcomes[i] is Some);
                }
            }
        }
        match r {
            Ok(values) => Ok(Some(values)),
            Err(e) => Err(e),
        }
    }

    /// Says that these artifacts are on disk.
    pub fn declare_existing(&mut self, artifacts: Vec<(ProjectRelativePathBuf, ArtifactValue)>)
        ensures
            asks_for(*old(self), *final(self), MaterializerCommand::DeclareExisting(artifacts)),
    {
        self.command_sender.send(MaterializerCommand::DeclareExisting(artifacts));
    }

    /// Asks whether these artifacts are the ones that are known.
    pub fn declare_match(&mut self, artifacts: Vec<(ProjectRelativePathBuf, ArtifactValue)>)
        ensures
            asks_for(*old(self), *final(self), MaterializerCommand::MatchArtifacts(artifacts)),
    {
        self.command_sender.send(MaterializerCommand::MatchArtifacts(artifacts));
    }

    /// Asks whether there is an artifact at `path`.
    pub fn has_artifact_at(&mut self, path: ProjectRelativePathBuf)
        ensures
            asks_for(*old(self), *final(self), MaterializerCommand::HasArtifact(path)),
    {
        self.command_sender.send(MaterializerCommand::HasArtifact(path));
    }

    /// Says that these paths no longer are what was declared.
    pub fn invalidate_many(&mut self, paths: Vec<ProjectRelativePathBuf>)
        ensures
            asks_for(*old(self), *final(self), MaterializerCommand::InvalidateFilePaths(paths)),
    {
        self.command_sender.send(MaterializerCommand::InvalidateFilePaths(paths));
    }

    /// Asks the command loop to end once it has dealt with what was asked before, as is due when
    /// this front goes away.
    pub fn abort(&mut self)
        ensures
            asks_for(*old(self), *final(self), MaterializerCommand::Abort),
    {
        self.command_sender.send(MaterializerCommand::Abort);
    }

    /// Asks for these artifacts to be put on disk.
    pub fn materialize_many(&mut self, artifact_paths: Vec<ProjectRelativePathBuf>)
        ensures
            asks_for(*old(self), *final(self), MaterializerCommand::Ensure(artifact_paths)),
    {
        self.command_sender.send(MaterializerCommand::Ensure(artifact_paths));
    }

    /// Asks for a final artifact to be put on disk, unless those are skipped.
    pub fn try_materialize_final_artifact(&mut self, artifact_path: ProjectRelativePathBuf) -> (r:
        bool)
        ensures
            r == old(self).materialize_final_artifacts,
            !r ==> *final(self) == *old(self),
            r ==> {
                &&& asks(*old(self), *final(self), 1)
                &&& final(self).command_sender.high_priority@.last()
                    matches MaterializerCommand::Ensure(asked)
                &&& asked@ == seq![artifact_path]
            },
    {
        if self.materialize_final_artifacts {
            let mut asked: Vec<ProjectRelativePathBuf> = Vec::new();
            asked.push(artifact_path);
            assert(asked@ =~= seq![artifact_path]);
            self.materialize_many(asked);
            true
        } else {
            false
        }
    }

    /// Asks where the contents of `paths` are; without paths there is nothing to ask.
    pub fn get_materialized_file_paths(&mut self, paths: Vec<ProjectRelativePathBuf>) -> (r: bool)
        ensures
            r == (paths@.len() > 0),
            !r ==> *final(self) == *old(self),
            r ==> asks_for(
                *old(self),
                *final(self),
                MaterializerCommand::GetMaterializedFilePaths(paths),
            ),
    {
        if paths.len() == 0 {
            return false;
        }
        self.command_sender.send(MaterializerCommand::GetMaterializedFilePaths(paths));
        true
    }

    /// A reading of the statistics.
    pub fn add_snapshot_stats(&self, stats: &DeferredMaterializerStats) -> (r: MaterializerSnapshot)
        ensures
            r.deferred_materializer_declares == stats.declares,
            r.deferred_materializer_declares_reused == stats.declares_reused,
            r.deferred_materializer_queue_size == (if self.command_sender.counters.sent
                >= self.command_sender.counters.received {
                self.command_sender.counters.sent - self.command_sender.counters.received
            } else {
                0
            }),
    {
        MaterializerSnapshot {
            deferred_materializer_declares: stats.declares,
            deferred_materializer_declares_reused: stats.declares_reused,
            deferred_materializer_queue_size: self.command_sender.counters.queue_size() as u64,
        }
    }
}

fn make_file_value(digest: &TrackedFileDigest, is_executable: bool) -> (r: ArtifactValue)
    ensures
        r == file_value(*digest, is_executable),
{
    ArtifactValue {
        entry: ActionDirectoryEntry::Leaf(
            ActionDirectoryMember::File(FileMetadata { digest: digest.dupe(), is_executable }),
        ),
        deps: None,
    }
}

/// There is a file in `entry` at the path `rest` below it; at the empty path that is `entry`
/// itself.
pub open spec fn has_file_at(entry: SharedEntry, rest: PathView) -> bool
    decreases rest.len(),
{
    if rest.len() == 0 {
        entry is Leaf && entry->Leaf_0 is File
    } else {
        entry is Dir && exists|i: int|
            0 <= i < entry->Dir_0.children@.len() && (#[trigger] entry->Dir_0.children@[i]).0@
                == rest[0] && has_file_at(entry->Dir_0.children@[i].1, rest.skip(1))
    }
}

proof fn lemma_pairs_append(
    a: Seq<(PathView, PathView)>,
    b: Seq<(PathView, PathView)>,
    p: (PathView, PathView),
)
    ensures
        (a + b).contains(p) <==> a.contains(p) || b.contains(p),
{
    if a.contains(p) {
        let i = choose|i: int| 0 <= i < a.len() && a[i] == p;
        assert((a + b)[i] == p);
    }
    if b.contains(p) {
        let i = choose|i: int| 0 <= i < b.len() && b[i] == p;
        assert((a + b)[a.len() + i] == p);
    }
}

proof fn lemma_file_is_paired(entry: SharedEntry, dest: PathView, src: PathView, rest: PathView)
    requires
        has_file_at(entry, rest),
    ensures
        file_pairs(entry, dest, src).contains((dest + rest, src + rest)),
    decreases entry, rest.len(),
{
    if rest.len() == 0 {
        assert(dest + rest =~= dest);
        assert(src + rest =~= src);
        assert(file_pairs(entry, dest, src)[0] == (dest, src));
    } else {
        let children = entry->Dir_0.children@;
        let i = choose|i: int|
            0 <= i < children.len() && (#[trigger] children[i]).0@ == rest[0] && has_file_at(
                children[i].1,
                rest.skip(1),
            );
        assert(decreases_to!(entry => entry->Dir_0));
        assert(decreases_to!(entry->Dir_0 => entry->Dir_0.children));
        assert(decreases_to!(entry->Dir_0.children => entry->Dir_0.children@));
        lemma_child_file_is_paired(children, dest, src, rest, i);
    }
}

proof fn lemma_child_file_is_paired(
    children: Seq<(String, SharedEntry)>,
    dest: PathView,
    src: PathView,
    rest: PathView,
    i: int,
)
    requires
        rest.len() > 0,
        0 <= i < children.len(),
        children[i].0@ == rest[0],
        has_file_at(children[i].1, rest.skip(1)),
    ensures
        child_pairs(children, dest, src).contains((dest + rest, src + rest)),
    decreases children, rest.len(),
{
    let n = children.len() - 1;
    let init = children.drop_last();
    let name = children[n].0@;
    let a = child_pairs(init, dest, src);
    let b = file_pairs(children[n].1, dest.push(name), src.push(name));
    if i < n {
        assert(init[i] == children[i]);
        lemma_child_file_is_paired(init, dest, src, rest, i);
    } else {
        assert(decreases_to!(children => children[n]));
        assert(decreases_to!(children[n] => children[n].1));
        lemma_file_is_paired(children[n].1, dest.push(name), src.push(name), rest.skip(1));
        assert(dest.push(name) + rest.skip(1) =~= dest + rest);
        assert(src.push(name) + rest.skip(1) =~= src + rest);
    }
    lemma_pairs_append(a, b, (dest + rest, src + rest));
}

/// `p` is the file at `rest` below an entry placed at `dest` that comes from `src`.
spec fn is_pair(p: (PathView, PathView), dest: PathView, src: PathView, rest: PathView) -> bool {
    p == (dest + rest, src + rest)
}

proof fn lemma_pair_is_a_file(
    entry: SharedEntry,
    dest: PathView,
    src: PathView,
    p: (PathView, PathView),
)
    requires
        file_pairs(entry, dest, src).contains(p),
    ensures
        exists|rest: PathView| #[trigger] has_file_at(entry, rest) && is_pair(p, dest, src, rest),
    decreases entry,
{
    match entry {
        ActionDirectoryEntry::Leaf(_) => {
            let rest = Seq::<Seq<char>>::empty();
            assert(dest + rest =~= dest);
            assert(src + rest =~= src);
            assert(has_file_at(entry, rest) && is_pair(p, dest, src, rest));
        },
        ActionDirectoryEntry::Dir(d) => {
            assert(decreases_to!(entry => entry->Dir_0));
            assert(decreases_to!(entry->Dir_0 => entry->Dir_0.children));
            assert(decreases_to!(d.children => d.children@));
            lemma_child_pair_is_a_file(d.children@, dest, src, p);
            let (i, rest) = choose|i: int, rest: PathView|
                0 <= i < d.children@.len() && rest.len() > 0 && (
                #[trigger] d.children@[i]).0@ == rest[0] && has_file_at(
                    d.children@[i].1,
                    rest.skip(1),
                ) && #[trigger] is_pair(p, dest, src, rest);
            assert(entry->Dir_0.children@[i].0@ == rest[0]);
            assert(has_file_at(entry, rest));
        },
    }
}

proof fn lemma_child_pair_is_a_file(
    children: Seq<(String, SharedEntry)>,
    dest: PathView,
    src: PathView,
    p: (PathView, PathView),
)
    requires
        child_pairs(children, dest, src).contains(p),
    ensures
        exists|i: int, rest: PathView|
            0 <= i < children.len() && rest.len() > 0 && (#[trigger] children[i]).0@ == rest[0]
                && has_file_at(children[i].1, rest.skip(1)) && #[trigger] is_pair(
                p,
                dest,
                src,
                rest,
            ),
    decreases children,
{
    if children.len() > 0 {
        let n = children.len() - 1;
        let init = children.drop_last();
        let name = children[n].0@;
        let a = child_pairs(init, dest, src);
        let b = file_pairs(children[n].1, dest.push(name), src.push(name));
        lemma_pairs_append(a, b, p);
        if a.contains(p) {
            lemma_child_pair_is_a_file(init, dest, src, p);
            let (i, rest) = choose|i: int, rest: PathView|
                0 <= i < init.len() && rest.len() > 0 && (#[trigger] init[i]).0@ == rest[0]
                    && has_file_at(init[i].1, rest.skip(1)) && #[trigger] is_pair(
                    p,
                    dest,
                    src,
                    rest,
                );
            assert(children[i] == init[i]);
            assert(children[i].0@ == rest[0] && is_pair(p, dest, src, rest));
        } else {
            assert(decreases_to!(children => children[n]));
            assert(decreases_to!(children[n] => children[n].1));
            lemma_pair_is_a_file(children[n].1, dest.push(name), src.push(name), p);
            let below = choose|below: PathView| #[trigger]
                has_file_at(children[n].1, below) && is_pair(
                    p,
                    dest.push(name),
                    src.push(name),
                    below,
                );
            let rest = seq![name] + below;
            assert(rest.skip(1) =~= below);
            assert(dest.push(name) + below =~= dest + rest);
            assert(src.push(name) + below =~= src + rest);
            assert(children[n].0@ == rest[0] && is_pair(p, dest, src, rest));
        }
    }
}

/// What is copied to below `path` is every file of every artifact on the list, and nothing else:
/// the file at `rest` below an artifact goes to `rest` below its destination, and comes from `rest`
/// below its source.
pub proof fn law_every_file_is_copied(
    path: PathView,
    copied: Seq<CopiedArtifact>,
    i: int,
    rest: PathView,
    p: (PathView, PathView),
)
    ensures
        0 <= i < copied.len() && has_file_at(copied[i].dest_entry, rest) ==> copied_pairs(
            path,
            copied,
        ).contains((copied[i].dest@.skip(path.len() as int) + rest, copied[i].src@ + rest)),
        copied_pairs(path, copied).contains(p) ==> exists|j: int, below: PathView|
            0 <= j < copied.len() && #[trigger] has_file_at(
                (#[trigger] copied[j]).dest_entry,
                below,
            ) && p == (copied[j].dest@.skip(path.len() as int) + below, copied[j].src@ + below),
    decreases copied.len(),
{
    if copied.len() > 0 {
        let init = copied.drop_last();
        let last = copied.len() - 1;
        let a = copied_pairs(path, init);
        let d = copied[last];
        let dest = d.dest@.skip(path.len() as int);
        let b = file_pairs(d.dest_entry, dest, d.src@);
        law_every_file_is_copied(path, init, i, rest, p);
        assert(forall|j: int| 0 <= j < last ==> #[trigger] init[j] == copied[j]);
        lemma_pairs_append(a, b, p);
        if 0 <= i < copied.len() && has_file_at(copied[i].dest_entry, rest) {
            let q = (copied[i].dest@.skip(path.len() as int) + rest, copied[i].src@ + rest);
            lemma_pairs_append(a, b, q);
            if i == last {
                lemma_file_is_paired(d.dest_entry, dest, d.src@, rest);
            }
        }
        if copied_pairs(path, copied).contains(p) {
            if a.contains(p) {
                let (j, below) = choose|j: int, below: PathView|
                    0 <= j < init.len() && #[trigger] has_file_at(
                        (#[trigger] init[j]).dest_entry,
                        below,
                    ) && p == (init[j].dest@.skip(path.len() as int) + below, init[j].src@ + below);
                assert(has_file_at(copied[j].dest_entry, below));
            } else {
                lemma_pair_is_a_file(d.dest_entry, dest, d.src@, p);
                let below = choose|below: PathView| #[trigger]
                    has_file_at(d.dest_entry, below) && is_pair(p, dest, d.src@, below);
                assert(has_file_at(copied[last].dest_entry, below));
            }
        }
    }
}

/// Of files that are put into a tree, each stays with its source unless a later one overlaps it;
/// nothing else is put there.
pub proof fn law_copied_files_stay(
    m: Map<PathView, PathView>,
    pairs: Seq<(PathView, PathView)>,
    i: int,
    k: PathView,
)
    ensures
        0 <= i < pairs.len() && (forall|j: int|
            i < j < pairs.len() ==> !paths::overlaps(pairs[i].0, (#[trigger] pairs[j]).0))
            ==> insert_all(m, pairs).contains_key(pairs[i].0) && insert_all(m, pairs)[pairs[i].0]
            == pairs[i].1,
        insert_all(m, pairs).contains_key(k) ==> (m.contains_key(k) && insert_all(m, pairs)[k]
            == m[k]) || exists|j: int|
            0 <= j < pairs.len() && #[trigger] pairs[j] == (k, insert_all(m, pairs)[k]),
    decreases pairs.len(),
{
    if pairs.len() > 0 {
        let init = pairs.drop_last();
        let last = pairs.len() - 1;
        law_copied_files_stay(m, init, i, k);
        assert(forall|j: int| 0 <= j < last ==> #[trigger] init[j] == pairs[j]);
        if insert_all(m, pairs).contains_key(k) {
            if k == pairs[last].0 {
                assert(pairs[last] == (k, insert_all(m, pairs)[k]));
            } else if !(m.contains_key(k) && insert_all(m, pairs)[k] == m[k]) {
                let j = choose|j: int|
                    0 <= j < init.len() && #[trigger] init[j] == (k, insert_all(m, init)[k]);
                assert(pairs[j] == (k, insert_all(m, pairs)[k]));
            }
        }
        if 0 <= i < last && (forall|j: int|
            i < j < pairs.len() ==> !paths::overlaps(pairs[i].0, (#[trigger] pairs[j]).0)) {
            assert(!paths::overlaps(pairs[i].0, pairs[last].0));
            paths::lemma_prefix_order(pairs[i].0, pairs[i].0, pairs[i].0);
        }
    }
}

/// A file that is written is declared at its path with its digest and its executable bit, has no
/// links, and is written from its compressed content; nothing is declared where a content cannot
/// be compressed.
pub proof fn law_every_file_is_declared(
    before: DeferredMaterializerAccessor,
    after: DeferredMaterializerAccessor,
    requests: Seq<WriteRequest>,
    digests: Seq<TrackedFileDigest>,
    outcomes: Seq<Option<Seq<u8>>>,
    r: Result<Vec<ArtifactValue>, CompressError>,
    i: int,
)
    requires
        write_declared(before, after, requests, digests, outcomes, r),
        outcomes.len() == requests.len(),
    ensures
        r is Err ==> after == before,
        r is Err <==> exists|k: int| 0 <= k < outcomes.len() && (#[trigger] outcomes[k]) is None,
        r is Ok ==> after.command_sender.high_priority@.len()
            == before.command_sender.high_priority@.len() + requests.len() && r->Ok_0@.len()
            == requests.len(),
        r is Ok && 0 <= i < requests.len() ==> {
            let n = before.command_sender.high_priority@.len() + i;
            let command = after.command_sender.high_priority@[n];
            let value = r->Ok_0@[i];
            &&& command is Declare
            &&& command->Declare_0@ == requests[i].path@
            &&& command->Declare_1 == value
            &&& *command->Declare_2 is Write
            &&& command->Declare_2->Write_0.compressed_data@ == outcomes[i]->0
            &&& command->Declare_2->Write_0.decompressed_size == requests[i].content@.len()
            &&& command->Declare_2->Write_0.is_executable == requests[i].is_executable
            &&& value.deps is None
            &&& value.entry is Leaf && value.entry->Leaf_0 is File
            &&& value.entry->Leaf_0->File_0.digest == digests[i]
            &&& value.entry->Leaf_0->File_0.is_executable == requests[i].is_executable
        },
        r is Ok && 0 <= i < before.command_sender.high_priority@.len()
            ==> after.command_sender.high_priority@[i] == before.command_sender.high_priority@[i],
{
    if r is Ok {
        deferred::law_queued_commands_come_last(
            before.command_sender,
            after.command_sender,
            requests.len(),
            i,
        );
        if 0 <= i < requests.len() {
            let queued = before.command_sender.high_priority@.len();
            assert(declares_write(
                after.command_sender.high_priority@[queued + i],
                requests[i],
                digests[i],
                outcomes[i]->0,
            ));
        }
    } else {
        let k = choose|k: int| #[trigger]
            is_first_uncompressed(outcomes, k) && requests[k].content@.len() == r->Err_0.bytes;
        assert(outcomes[k] is None);
    }
}

/// A command that is asked for comes last in the queue, behind all that were asked for before; the
/// settings stay.
pub proof fn law_requests_become_commands(
    before: DeferredMaterializerAccessor,
    after: DeferredMaterializerAccessor,
    command: MaterializerCommand,
    i: int,
)
    requires
        asks_for(before, after, command),
    ensures
        after.command_sender.high_priority@.len() == before.command_sender.high_priority@.len()
            + 1,
        after.command_sender.high_priority@.last() == command,
        0 <= i < before.command_sender.high_priority@.len()
            ==> after.command_sender.high_priority@[i] == before.command_sender.high_priority@[i],
        after.command_sender.low_priority@ == before.command_sender.low_priority@,
        !after.command_sender.clean_guard,
        after.materialize_final_artifacts == before.materialize_final_artifacts,
        after.defer_write_actions == before.defer_write_actions,
        after.num_entries_from_sqlite == before.num_entries_from_sqlite,
        after.verbose_materializer_log == before.verbose_materializer_log,
{
    deferred::law_queued_commands_come_last(before.command_sender, after.command_sender, 1, i);
}

/// Files are compressed each by its own contents, and the first that cannot be is the one that is
/// reported.
pub proof fn law_every_file_is_compressed(
    requests: Seq<WriteRequest>,
    outcomes: Seq<Option<Seq<u8>>>,
    i: int,
    j: int,
)
    ensures
        compressions(requests).len() == requests.len(),
        0 <= i < requests.len() ==> compressions(requests)[i] == zstd_outcome(
            requests[i].content@,
            0,
        ),
        is_first_uncompressed(outcomes, i) ==> 0 <= i < outcomes.len() && outcomes[i] is None && (0
            <= j < i ==> outcomes[j] is Some),
        is_first_uncompressed(outcomes, i) && is_first_uncompressed(outcomes, j) ==> i == j,
{
}

/// A file is declared by its digest and whether it can be executed, and has no links.
pub proof fn law_what_a_file_is_declared_as(digest: TrackedFileDigest, is_executable: bool)
    ensures
        file_value(digest, is_executable).entry is Leaf,
        file_value(digest, is_executable).entry->Leaf_0 is File,
        file_value(digest, is_executable).entry->Leaf_0->File_0.digest == digest,
        file_value(digest, is_executable).entry->Leaf_0->File_0.is_executable == is_executable,
        file_value(digest, is_executable).deps is None,
{
}

} // verus!
