//! Where the contents of files can be found that may not be on disk yet.
use std::sync::Arc;
use vstd::prelude::*;
use vstd::string::*;

use crate::artifact;
use crate::artifact::ActionDirectoryEntry;
use crate::artifact::ArtifactMetadata;
use crate::artifact::SharedEntry;
use crate::deferred::ArtifactMaterializationData;
use crate::deferred::ArtifactMaterializationMethod;
use crate::deferred::ArtifactMaterializationStage;
use crate::deferred::CasDownloadInfo;
use crate::deferred::Processing;
use crate::deferred::Version;
use crate::file_tree;
use crate::paths;
use crate::paths::PathView;
use crate::paths::ProjectRelativePathBuf;
use crate::processor;
use crate::processor::ArtifactTree;
use crate::processor::TreeView;
use crate::text::str_eq;

verus! {

/// Why the contents of a path are not on disk.
pub enum ArtifactNotMaterializedReason {
    RequiresCasDownload {
        path: ProjectRelativePathBuf,
        entry: SharedEntry,
        info: Arc<CasDownloadInfo>,
    },
    /// The path is not part of the artifact that it should be part of.
    DeferredMaterializerCorruption {
        path: ProjectRelativePathBuf,
        entry: SharedEntry,
        info: Arc<CasDownloadInfo>,
    },
    RequiresMaterialization { path: ProjectRelativePathBuf },
}

/// Where contents are, in mathematical form.
pub enum ContentsView {
    At(PathView),
    RequiresCasDownload { path: PathView, entry: SharedEntry, info: Arc<CasDownloadInfo> },
    Corruption { path: PathView, entry: SharedEntry, info: Arc<CasDownloadInfo> },
    RequiresMaterialization { path: PathView },
}

/// The mathematical form of an answer.
pub open spec fn contents_view(
    r: Result<ProjectRelativePathBuf, ArtifactNotMaterializedReason>,
) -> ContentsView {
    match r {
        Ok(path) => ContentsView::At(path@),
        Err(ArtifactNotMaterializedReason::RequiresCasDownload {
            path,
            entry,
            info,
        }) => ContentsView::RequiresCasDownload { path: path@, entry, info },
        Err(ArtifactNotMaterializedReason::DeferredMaterializerCorruption {
            path,
            entry,
            info,
        }) => ContentsView::Corruption { path: path@, entry, info },
        Err(ArtifactNotMaterializedReason::RequiresMaterialization {
            path,
        }) => ContentsView::RequiresMaterialization { path: path@ },
    }
}

/// The first of `children` that is called `name`.
pub open spec fn child_named(children: Seq<(String, SharedEntry)>, name: Seq<char>) -> Option<
    SharedEntry,
>
    decreases children.len(),
{
    if children.len() == 0 {
        None
    } else if children[0].0@ == name {
        Some(children[0].1)
    } else {
        child_named(children.drop_first(), name)
    }
}

/// What is found in `entry` on the way along `names`. A leaf ends the way; a name that a
/// directory does not have leads nowhere.
pub open spec fn descend(entry: SharedEntry, names: PathView) -> Option<SharedEntry>
    decreases names.len(),
{
    if names.len() == 0 {
        Some(entry)
    } else {
        match entry {
            ActionDirectoryEntry::Dir(d) => match child_named(d.children@, names[0]) {
                Some(e) => descend(e, names.drop_first()),
                None => None,
            },
            ActionDirectoryEntry::Leaf(_) => Some(entry),
        }
    }
}

/// Where the contents of `path` are, after following at most `hops` local copies; `None` where
/// that is not enough or a copied file is taken for a directory.
pub open spec fn contents(tree: TreeView, path: PathView, hops: nat) -> Option<ContentsView>
    decreases hops,
{
    match file_tree::owner(tree, path) {
        // Not in the tree: a source file that is not materialized from here.
        None => Some(ContentsView::At(path)),
        Some(key) => match tree[key].stage {
            ArtifactMaterializationStage::Materialized { .. } => Some(ContentsView::At(path)),
            ArtifactMaterializationStage::Declared { entry, method } => {
                let rest = path.skip(key.len() as int);
                match *method {
                    ArtifactMaterializationMethod::CasDownload { info } => Some(
                        match descend(entry, rest) {
                            Some(e) => ContentsView::RequiresCasDownload { path, entry: e, info },
                            None => ContentsView::Corruption { path, entry, info },
                        },
                    ),
                    ArtifactMaterializationMethod::HttpDownload {
                        ..
                    } => Some(ContentsView::RequiresMaterialization { path }),
                    ArtifactMaterializationMethod::Write(_) => Some(
                        ContentsView::RequiresMaterialization { path },
                    ),
                    ArtifactMaterializationMethod::LocalCopy(srcs, _) => {
                        match file_tree::owner(srcs@, rest) {
                            None => Some(ContentsView::At(path)),
                            Some(file) => if file.len() < rest.len() || hops == 0 {
                                None
                            } else {
                                contents(tree, srcs@[file]@, (hops - 1) as nat)
                            },
                        }
                    },
                }
            },
        },
    }
}

/// The number of local copies between `path` and its contents.
pub open spec fn hops_needed(tree: TreeView, path: PathView) -> nat {
    choose|n: nat|
        contents(tree, path, n) is Some && forall|m: nat|
            m < n ==> #[trigger] contents(tree, path, m) is None
}

/// The local copies that start at `path` come to an end.
pub open spec fn chain_ends(tree: TreeView, path: PathView) -> bool {
    exists|n: nat| #[trigger] contents(tree, path, n) is Some
}

/// Where the contents of `path` are.
pub open spec fn contents_of(tree: TreeView, path: PathView) -> ContentsView {
    contents(tree, path, hops_needed(tree, path))->0
}

proof fn lemma_least_hops(tree: TreeView, path: PathView, n: nat) -> (least: nat)
    requires
        contents(tree, path, n) is Some,
    ensures
        least <= n,
        contents(tree, path, least) is Some,
        forall|m: nat| m < least ==> #[trigger] contents(tree, path, m) is None,
    decreases n,
{
    if exists|m: nat| m < n && #[trigger] contents(tree, path, m) is Some {
        let m = choose|m: nat| m < n && #[trigger] contents(tree, path, m) is Some;
        lemma_least_hops(tree, path, m)
    } else {
        n
    }
}

proof fn lemma_hops_needed(tree: TreeView, path: PathView, n: nat)
    requires
        contents(tree, path, n) is Some,
    ensures
        hops_needed(tree, path) <= n,
        contents(tree, path, hops_needed(tree, path)) is Some,
        forall|m: nat|
            m < hops_needed(tree, path) ==> #[trigger] contents(tree, path, m) is None,
{
    let least = lemma_least_hops(tree, path, n);
    let chosen = hops_needed(tree, path);
    assert(contents(tree, path, chosen) is Some);
    if n < chosen {
        assert(contents(tree, path, n) is None);
    }
}

/// More hops than needed do not change where the contents are.
pub proof fn law_contents_do_not_depend_on_hops(tree: TreeView, path: PathView, n: nat, m: nat)
    requires
        contents(tree, path, n) is Some,
        n <= m,
    ensures
        contents(tree, path, m) == contents(tree, path, n),
    decreases n,
{
    if let Some(key) = file_tree::owner(tree, path) {
        if let ArtifactMaterializationStage::Declared { entry, method } = tree[key].stage {
            if let ArtifactMaterializationMethod::LocalCopy(srcs, _) = *method {
                let rest = path.skip(key.len() as int);
                if let Some(file) = file_tree::owner(srcs@, rest) {
                    if n > 0 {
                        law_contents_do_not_depend_on_hops(
                            tree,
                            srcs@[file]@,
                            (n - 1) as nat,
                            (m - 1) as nat,
                        );
                    }
                }
            }
        }
    }
}

/// Following a copy leads to contents with one hop less.
proof fn lemma_follow_copy(
    tree: TreeView,
    path: PathView,
    key: PathView,
    srcs: Map<PathView, ProjectRelativePathBuf>,
)
    requires
        chain_ends(tree, path),
        file_tree::owner(tree, path) == Some(key),
        tree[key].stage is Declared,
        *tree[key].stage->method is LocalCopy,
        (*tree[key].stage->method)->LocalCopy_0@ == srcs,
        file_tree::owner(srcs, path.skip(key.len() as int)) is Some,
    ensures
        ({
            let rest = path.skip(key.len() as int);
            let file = file_tree::owner(srcs, rest)->0;
            let next = srcs[file]@;
            &&& file.len() >= rest.len()
            &&& chain_ends(tree, next)
            &&& hops_needed(tree, next) < hops_needed(tree, path)
            &&& contents_of(tree, path) == contents_of(tree, next)
        }),
{
    let rest = path.skip(key.len() as int);
    let file = file_tree::owner(srcs, rest)->0;
    let next = srcs[file]@;
    let n = choose|n: nat| #[trigger] contents(tree, path, n) is Some;
    lemma_hops_needed(tree, path, n);
    let h = hops_needed(tree, path);
    assert(contents(tree, path, h) is Some);
    assert(h > 0);
    let before = (h - 1) as nat;
    assert(contents(tree, next, before) == contents(tree, path, h));
    lemma_hops_needed(tree, next, before);
    law_contents_do_not_depend_on_hops(tree, next, hops_needed(tree, next), before);
}

fn find_child<'a>(children: &'a Vec<(String, SharedEntry)>, name: &String) -> (r: Option<
    &'a SharedEntry,
>)
    ensures
        match r {
            Some(e) => child_named(children@, name@) == Some(*e),
            None => child_named(children@, name@) is None,
        },
{
    let mut i: usize = 0;
    assert(children@.skip(0) =~= children@);
    while i < children.len()
        invariant
            i <= children@.len(),
            child_named(children@, name@) == child_named(children@.skip(i as int), name@),
        decreases children@.len() - i,
    {
        assert(children@.skip(i as int)[0] == children@[i as int]);
        if str_eq(children[i].0.as_str(), name.as_str()) {
            return Some(&children[i].1);
        }
        assert(children@.skip(i as int).drop_first() =~= children@.skip(i + 1));
        i = i + 1;
    }
    None
}

/// The entry at `path`, from its name number `from` on, in `entry`.
fn descend_entry(entry: &SharedEntry, path: &ProjectRelativePathBuf, from: usize) -> (r: Option<
    SharedEntry,
>)
    requires
        from <= path@.len(),
    ensures
        r == descend(*entry, path@.skip(from as int)),
{
    let mut current = artifact::dupe_entry(entry);
    let mut i: usize = from;
    while i < path.parts.len()
        invariant
            i <= path@.len(),
            path@.len() == path.parts@.len(),
            from <= path@.len(),
            descend(*entry, path@.skip(from as int)) == descend(current, path@.skip(i as int)),
        decreases path@.len() - i,
    {
        let ghost names = path@.skip(i as int);
        assert(names[0] == path.parts@[i as int]@);
        assert(names.drop_first() =~= path@.skip(i + 1));
        let next = match &current {
            ActionDirectoryEntry::Dir(d) => match find_child(&d.children, &path.parts[i]) {
                Some(e) => artifact::dupe_entry(e),
                None => {
                    return None;
                },
            },
            ActionDirectoryEntry::Leaf(_) => {
                return Some(current);
            },
        };
        current = next;
        i = i + 1;
    }
    Some(current)
}

/// Where the contents of `path` can be found. The path itself is an answer too: it is given for
/// what is on disk and for what is not known.
pub fn file_contents_path(tree: &ArtifactTree, path: ProjectRelativePathBuf) -> (r: Result<
    ProjectRelativePathBuf,
    ArtifactNotMaterializedReason,
>)
    requires
        tree.wf(),
        processor::stages_wf(tree@),
        chain_ends(tree@, path@),
    ensures
        contents_view(r) == contents_of(tree@, path@),
    decreases hops_needed(tree@, path@),
{
    proof {
        let n = choose|n: nat| #[trigger] contents(tree@, path@, n) is Some;
        lemma_hops_needed(tree@, path@, n);
    }
    let i = match tree.find(&path) {
        None => {
            return Ok(path);
        },
        Some(i) => i,
    };
    let depth = tree.key(i).depth();
    let ghost key = tree.key_at(i as int);
    let data = tree.value(i);
    match &data.stage {
        ArtifactMaterializationStage::Materialized { .. } => Ok(path),
        ArtifactMaterializationStage::Declared { entry, method } => match &**method {
            ArtifactMaterializationMethod::CasDownload { info } => match descend_entry(
                entry,
                &path,
                depth,
            ) {
                Some(e) => Err(
                    ArtifactNotMaterializedReason::RequiresCasDownload {
                        path,
                        entry: e,
                        info: info.clone(),
                    },
                ),
                None => Err(
                    ArtifactNotMaterializedReason::DeferredMaterializerCorruption {
                        path,
                        entry: artifact::dupe_entry(entry),
                        info: info.clone(),
                    },
                ),
            },
            ArtifactMaterializationMethod::HttpDownload { .. } => Err(
                ArtifactNotMaterializedReason::RequiresMaterialization { path },
            ),
            ArtifactMaterializationMethod::Write(_) => Err(
                ArtifactNotMaterializedReason::RequiresMaterialization { path },
            ),
            ArtifactMaterializationMethod::LocalCopy(srcs, _) => {
                let rest = path.rest(depth);
                match srcs.find(&rest) {
                    None => Ok(path),
                    Some(j) => {
                        proof {
                            lemma_follow_copy(tree@, path@, key, srcs@);
                        }
                        file_contents_path(tree, srcs.value(j).clone())
                    },
                }
            },
        },
    }
}

/// Whether at most `hops` local copies stand between `path` and its contents.
pub fn reaches_contents(tree: &ArtifactTree, path: &ProjectRelativePathBuf, hops: usize) -> (r: bool)
    requires
        tree.wf(),
        processor::stages_wf(tree@),
    ensures
        r == (contents(tree@, path@, hops as nat) is Some),
        r ==> chain_ends(tree@, path@),
    decreases hops,
{
    let i = match tree.find(path) {
        None => {
            return true;
        },
        Some(i) => i,
    };
    let depth = tree.key(i).depth();
    let data = tree.value(i);
    match &data.stage {
        ArtifactMaterializationStage::Materialized { .. } => true,
        ArtifactMaterializationStage::Declared { method, .. } => match &**method {
            ArtifactMaterializationMethod::LocalCopy(srcs, _) => {
                let rest = path.rest(depth);
                match srcs.find(&rest) {
                    None => true,
                    Some(j) => srcs.key(j).depth() >= rest.depth() && hops > 0
                        && reaches_contents(tree, srcs.value(j), hops - 1),
                }
            },
            _ => true,
        },
    }
}

/// An artifact as it was restored from the database: its path, its metadata, and when it was
/// last used.
pub struct RestoredArtifact {
    pub path: ProjectRelativePathBuf,
    pub metadata: ArtifactMetadata,
    pub last_access_time: i64,
}

/// What is kept of a restored artifact: it is on disk, nobody has declared it yet, and its
/// version is older than all others.
pub open spec fn restored_data(a: RestoredArtifact) -> ArtifactMaterializationData {
    ArtifactMaterializationData {
        deps: None,
        stage: ArtifactMaterializationStage::Materialized {
            metadata: a.metadata,
            last_access_time: a.last_access_time,
            active: false,
        },
        processing: Processing::Done(Version(0)),
    }
}

/// The tree of the restored artifacts. Where two overlap, the later one counts.
pub open spec fn restored_tree(state: Seq<RestoredArtifact>) -> TreeView
    decreases state.len(),
{
    if state.len() == 0 {
        Map::empty()
    } else {
        file_tree::without_overlaps(
            restored_tree(state.drop_last()),
            state.last().path@,
        ).insert(state.last().path@, restored_data(state.last()))
    }
}

/// The tree to start with: what was restored from the database, if there is one.
pub fn initialize(sqlite_state: Option<Vec<RestoredArtifact>>) -> (r: ArtifactTree)
    ensures
        r.wf(),
        processor::stages_wf(r@),
        r@ == (match sqlite_state {
            Some(state) => restored_tree(state@),
            None => Map::empty(),
        }),
{
    let mut tree: ArtifactTree = ArtifactTree::new();
    match sqlite_state {
        None => {},
        Some(state) => {
            let ghost all = state@;
            assert(all.take(0) =~= Seq::empty());
            for a in it: state
                invariant
                    it.seq() == all,
                    tree.wf(),
                    processor::stages_wf(tree@),
                    tree@ == restored_tree(all.take(it.index() as int)),
            {
                let ghost i = it.index() as int;
                let ghost restored = a;
                proof {
                    let next = all.take(i + 1);
                    assert(next.drop_last() =~= all.take(i));
                    assert(next.last() == a);
                }
                let RestoredArtifact { path, metadata, last_access_time } = a;
                tree.insert(
                    path,
                    ArtifactMaterializationData {
                        deps: None,
                        stage: ArtifactMaterializationStage::Materialized {
                            metadata,
                            last_access_time,
                            active: false,
                        },
                        processing: Processing::Done(Version(0)),
                    },
                );
            }
            assert(all.take(all.len() as int) =~= all);
        },
    }
    tree
}

/// Among the entries of a directory, the first with a name is the one found under it, and none is
/// found where none has it.
pub proof fn law_entry_found_by_name(
    children: Seq<(String, SharedEntry)>,
    name: Seq<char>,
    i: int,
)
    ensures
        0 <= i < children.len() && children[i].0@ == name && (forall|k: int|
            0 <= k < i ==> (#[trigger] children[k]).0@ != name) ==> child_named(children, name)
            == Some(children[i].1),
        child_named(children, name) is None <==> forall|k: int|
            0 <= k < children.len() ==> (#[trigger] children[k]).0@ != name,
    decreases children.len(),
{
    if children.len() > 0 {
        let rest = children.drop_first();
        law_entry_found_by_name(rest, name, i - 1);
        assert(forall|k: int| 0 <= k < rest.len() ==> #[trigger] rest[k] == children[k + 1]);
        if child_named(children, name) is None {
            assert forall|k: int| 0 <= k < children.len() implies (#[trigger] children[k]).0@
                != name by {
                if k > 0 {
                    assert(rest[k - 1].0@ != name);
                }
            }
        }
        if forall|k: int| 0 <= k < children.len() ==> (#[trigger] children[k]).0@ != name {
            assert forall|k: int| 0 <= k < rest.len() implies (#[trigger] rest[k]).0@ != name by {
                assert(children[k + 1].0@ != name);
            }
        }
    }
}

/// Going down a path is going down its first part and then the rest; a leaf stays itself.
pub proof fn law_descent_goes_part_by_part(entry: SharedEntry, names: PathView, more: PathView)
    ensures
        descend(entry, Seq::empty()) == Some(entry),
        entry is Leaf ==> descend(entry, names) == Some(entry),
        entry is Dir ==> descend(entry, seq![names[0]]) == child_named(
            entry->Dir_0.children@,
            names[0],
        ),
        descend(entry, names + more) == (match descend(entry, names) {
            Some(e) => descend(e, more),
            None => None,
        }),
    decreases names.len(),
{
    let one = seq![names[0]];
    assert(one.drop_first() =~= Seq::empty());
    if entry is Dir {
        if let Some(e) = child_named(entry->Dir_0.children@, names[0]) {
            assert(descend(e, one.drop_first()) == Some(e));
        }
    }
    if names.len() == 0 {
        assert(names + more =~= more);
    } else {
        assert((names + more).drop_first() =~= names.drop_first() + more);
        if entry is Dir {
            if let Some(e) = child_named(entry->Dir_0.children@, names[0]) {
                law_descent_goes_part_by_part(e, names.drop_first(), more);
            }
        } else if more.len() > 0 {
            assert(descend(entry, more) == Some(entry));
        }
    }
}

proof fn lemma_contents_of(tree: TreeView, path: PathView, n: nat)
    requires
        contents(tree, path, n) is Some,
    ensures
        contents_of(tree, path) == contents(tree, path, n)->0,
{
    lemma_hops_needed(tree, path, n);
    law_contents_do_not_depend_on_hops(tree, path, hops_needed(tree, path), n);
}

/// A path that nothing is known of, and one that is on disk, has its contents itself.
pub proof fn law_what_is_on_disk_has_its_contents(tree: TreeView, path: PathView, key: PathView)
    requires
        file_tree::prefix_free(tree.dom()),
    ensures
        !(exists|k: PathView| tree.contains_key(k) && paths::is_prefix(k, path)) ==> contents_of(
            tree,
            path,
        ) == ContentsView::At(path),
        tree.contains_key(key) && paths::is_prefix(key, path) && tree[key].stage is Materialized
            ==> contents_of(tree, path) == ContentsView::At(path),
{
    if tree.contains_key(key) && paths::is_prefix(key, path) {
        file_tree::lemma_owner_unique(tree, path, key);
    }
    if contents(tree, path, 0) is Some {
        lemma_contents_of(tree, path, 0);
    }
}

/// What is yet to be written or fetched over HTTP has to be materialized. What is to be downloaded
/// has the digest that its entry gives at that path; where its entry gives none, the state is
/// corrupt.
pub proof fn law_contents_that_are_to_be_fetched(
    tree: TreeView,
    path: PathView,
    key: PathView,
    entry: SharedEntry,
    method: ArtifactMaterializationMethod,
)
    requires
        file_tree::prefix_free(tree.dom()),
        tree.contains_key(key),
        paths::is_prefix(key, path),
        tree[key].stage matches ArtifactMaterializationStage::Declared { entry: e, method: m } && e
            == entry && *m == method,
        !(method is LocalCopy),
    ensures
        ({
            let rest = path.skip(key.len() as int);
            let found = contents_of(tree, path);
            &&& method is Write || method is HttpDownload ==> found
                == (ContentsView::RequiresMaterialization { path })
            &&& method is CasDownload && descend(entry, rest) is Some ==> found
                == (ContentsView::RequiresCasDownload {
                path,
                entry: descend(entry, rest)->0,
                info: method->CasDownload_info,
            })
            &&& method is CasDownload && descend(entry, rest) is None ==> found
                == (ContentsView::Corruption { path, entry, info: method->CasDownload_info })
        }),
{
    file_tree::lemma_owner_unique(tree, path, key);
    assert(contents(tree, path, 0) is Some);
    lemma_contents_of(tree, path, 0);
}

/// What is copied has the contents of the file that it is copied from.
pub proof fn law_contents_of_a_copy(
    tree: TreeView,
    path: PathView,
    key: PathView,
    method: ArtifactMaterializationMethod,
)
    requires
        file_tree::prefix_free(tree.dom()),
        chain_ends(tree, path),
        tree.contains_key(key),
        paths::is_prefix(key, path),
        tree[key].stage matches ArtifactMaterializationStage::Declared { method: m, .. } && *m
            == method,
        method is LocalCopy,
        file_tree::prefix_free(method->LocalCopy_0@.dom()),
        method->LocalCopy_0@.contains_key(path.skip(key.len() as int)),
    ensures
        ({
            let source = method->LocalCopy_0@[path.skip(key.len() as int)]@;
            chain_ends(tree, source) && contents_of(tree, path) == contents_of(tree, source)
        }),
{
    let n = choose|n: nat| #[trigger] contents(tree, path, n) is Some;
    let rest = path.skip(key.len() as int);
    let srcs = method->LocalCopy_0@;
    file_tree::lemma_owner_unique(tree, path, key);
    file_tree::lemma_owner_of_key(srcs, rest);
    assert(contents(tree, srcs[rest]@, (n - 1) as nat) is Some);
    lemma_contents_of(tree, path, n);
    lemma_contents_of(tree, srcs[rest]@, (n - 1) as nat);
}

/// What was restored is on disk as it was recorded, not in use and without links; of entries that
/// overlap, the last counts; and nothing else is known.
pub proof fn law_restored_artifacts(state: Seq<RestoredArtifact>, i: int, k: PathView)
    ensures
        0 <= i < state.len() && (forall|j: int|
            i < j < state.len() ==> !paths::overlaps(
                state[i].path@,
                (#[trigger] state[j]).path@,
            )) ==> {
            let tree = restored_tree(state);
            &&& tree.contains_key(state[i].path@)
            &&& tree[state[i].path@].stage is Materialized
            &&& tree[state[i].path@].stage->metadata == state[i].metadata
            &&& tree[state[i].path@].stage->last_access_time == state[i].last_access_time
            &&& !tree[state[i].path@].stage->active
            &&& tree[state[i].path@].deps is None
            &&& tree[state[i].path@].processing == Processing::Done(Version(0))
        },
        restored_tree(state).contains_key(k) ==> exists|j: int|
            0 <= j < state.len() && (#[trigger] state[j]).path@ == k,
    decreases state.len(),
{
    if state.len() > 0 {
        let init = state.drop_last();
        let last = state.len() - 1;
        law_restored_artifacts(init, i, k);
        assert(forall|j: int| 0 <= j < last ==> #[trigger] init[j] == state[j]);
        if restored_tree(state).contains_key(k) {
            if k == state.last().path@ {
                assert(state[last].path@ == k);
            } else {
                let j = choose|j: int| 0 <= j < init.len() && (#[trigger] init[j]).path@ == k;
                assert(state[j].path@ == k);
            }
        }
        if 0 <= i < last && (forall|j: int|
            i < j < state.len() ==> !paths::overlaps(
                state[i].path@,
                (#[trigger] state[j]).path@,
            )) {
            assert(!paths::overlaps(state[i].path@, state[last].path@));
            paths::lemma_prefix_order(state[i].path@, state[i].path@, state[i].path@);
            assert(state[i].path@ != state[last].path@);
        }
    }
}

} // verus!
