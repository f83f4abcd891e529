//! Artifacts: what is expected on disk at a path, and the metadata kept of it.
use std::sync::Arc;
use vstd::prelude::*;
use vstd::string::*;

use crate::file_tree;
use crate::file_tree::FileTree;
use crate::file_tree::TreeNode;
use crate::paths::PathView;
use crate::paths::ProjectRelativePathBuf;
use crate::text::str_eq;

verus! {

/// The digest of a file or a directory: a hash and the size of what was hashed.
#[derive(Debug)]
pub struct TrackedFileDigest {
    pub hash: String,
    pub size: u64,
}

/// Fingerprint used to identify a directory.
pub type ActionDirectoryFingerprint = TrackedFileDigest;

/// The two digests are the same.
pub open spec fn same_digest(a: TrackedFileDigest, b: TrackedFileDigest) -> bool {
    a.hash@ == b.hash@ && a.size == b.size
}

impl TrackedFileDigest {
    /// Whether the two digests are the same.
    pub fn same_as(&self, other: &Self) -> (r: bool)
        ensures
            r == same_digest(*self, *other),
    {
        self.size == other.size && str_eq(self.hash.as_str(), other.hash.as_str())
    }

    /// Another handle on the same digest.
    pub fn dupe(&self) -> (r: Self)
        ensures
            r == *self,
    {
        TrackedFileDigest { hash: self.hash.clone(), size: self.size }
    }
}

/// What is known of a file: its digest, and whether it is executable.
#[derive(Debug)]
pub struct FileMetadata {
    pub digest: TrackedFileDigest,
    pub is_executable: bool,
}

/// A leaf of a directory.
#[derive(Debug)]
pub enum ActionDirectoryMember {
    File(FileMetadata),
    /// A link within the project, with its target.
    Symlink(String),
    /// A link out of the project, with its target.
    ExternalSymlink(String),
}

/// The two leaves are the same.
pub open spec fn same_member(a: ActionDirectoryMember, b: ActionDirectoryMember) -> bool {
    match (a, b) {
        (ActionDirectoryMember::File(x), ActionDirectoryMember::File(y)) => same_digest(
            x.digest,
            y.digest,
        ) && x.is_executable == y.is_executable,
        (ActionDirectoryMember::Symlink(x), ActionDirectoryMember::Symlink(y)) => x@ == y@,
        (
            ActionDirectoryMember::ExternalSymlink(x),
            ActionDirectoryMember::ExternalSymlink(y),
        ) => x@ == y@,
        _ => false,
    }
}

impl ActionDirectoryMember {
    /// Whether the two leaves are the same.
    pub fn same_as(&self, other: &Self) -> (r: bool)
        ensures
            r == same_member(*self, *other),
    {
        match (self, other) {
            (ActionDirectoryMember::File(x), ActionDirectoryMember::File(y)) => {
                x.digest.same_as(&y.digest) && x.is_executable == y.is_executable
            },
            (ActionDirectoryMember::Symlink(x), ActionDirectoryMember::Symlink(y)) => {
                str_eq(x.as_str(), y.as_str())
            },
            (
                ActionDirectoryMember::ExternalSymlink(x),
                ActionDirectoryMember::ExternalSymlink(y),
            ) => str_eq(x.as_str(), y.as_str()),
            _ => false,
        }
    }

    /// Another handle on the same leaf.
    pub fn dupe(&self) -> (r: Self)
        ensures
            r == *self,
    {
        match self {
            ActionDirectoryMember::File(m) => ActionDirectoryMember::File(
                FileMetadata { digest: m.digest.dupe(), is_executable: m.is_executable },
            ),
            ActionDirectoryMember::Symlink(t) => ActionDirectoryMember::Symlink(t.clone()),
            ActionDirectoryMember::ExternalSymlink(t) => ActionDirectoryMember::ExternalSymlink(
                t.clone(),
            ),
        }
    }
}

/// Either a directory, described by a `D`, or a leaf.
#[derive(Debug)]
pub enum ActionDirectoryEntry<D> {
    Dir(D),
    Leaf(ActionDirectoryMember),
}

/// A directory with its contents.
#[derive(Debug)]
pub struct ActionSharedDirectory {
    pub fingerprint: ActionDirectoryFingerprint,
    pub children: Vec<(String, ActionDirectoryEntry<Arc<ActionSharedDirectory>>)>,
}

/// An entry whose directory is given with its contents.
pub type SharedEntry = ActionDirectoryEntry<Arc<ActionSharedDirectory>>;

/// Another handle on the same entry.
pub fn dupe_entry(entry: &SharedEntry) -> (r: SharedEntry)
    ensures
        r == *entry,
{
    match entry {
        ActionDirectoryEntry::Dir(d) => ActionDirectoryEntry::Dir(d.clone()),
        ActionDirectoryEntry::Leaf(l) => ActionDirectoryEntry::Leaf(l.dupe()),
    }
}

/// The two entries are the same: directories by their fingerprints.
pub open spec fn same_entry(a: SharedEntry, b: SharedEntry) -> bool {
    match (a, b) {
        (ActionDirectoryEntry::Dir(x), ActionDirectoryEntry::Dir(y)) => same_digest(
            x.fingerprint,
            y.fingerprint,
        ),
        (ActionDirectoryEntry::Leaf(x), ActionDirectoryEntry::Leaf(y)) => same_member(x, y),
        _ => false,
    }
}

/// Whether the two entries are the same.
pub fn entries_match(a: &SharedEntry, b: &SharedEntry) -> (r: bool)
    ensures
        r == same_entry(*a, *b),
{
    match (a, b) {
        (ActionDirectoryEntry::Dir(x), ActionDirectoryEntry::Dir(y)) => x.fingerprint.same_as(
            &y.fingerprint,
        ),
        (ActionDirectoryEntry::Leaf(x), ActionDirectoryEntry::Leaf(y)) => x.same_as(y),
        _ => false,
    }
}

/// The size of all files of an entry.
pub open spec fn entry_bytes(entry: SharedEntry) -> nat
    decreases entry,
{
    match entry {
        ActionDirectoryEntry::Leaf(ActionDirectoryMember::File(m)) => m.digest.size as nat,
        ActionDirectoryEntry::Leaf(_) => 0,
        ActionDirectoryEntry::Dir(d) => children_bytes(d.children@),
    }
}

/// The size of all files of some entries of a directory.
pub open spec fn children_bytes(children: Seq<(String, SharedEntry)>) -> nat
    decreases children,
{
    if children.len() == 0 {
        0
    } else {
        children_bytes(children.drop_last()) + entry_bytes(children[children.len() - 1].1)
    }
}

proof fn lemma_children_bytes_monotonic(children: Seq<(String, SharedEntry)>, n: int)
    requires
        0 <= n <= children.len(),
    ensures
        children_bytes(children.take(n)) <= children_bytes(children),
    decreases children.len(),
{
    if n == children.len() {
        assert(children.take(n) =~= children);
    } else {
        lemma_children_bytes_monotonic(children.drop_last(), n);
        assert(children.drop_last().take(n) =~= children.take(n));
    }
}

/// The size of all files of `entry`.
pub fn calc_output_bytes(entry: &SharedEntry) -> (r: u64)
    requires
        entry_bytes(*entry) <= u64::MAX,
    ensures
        r == entry_bytes(*entry),
    decreases *entry,
{
    match entry {
        ActionDirectoryEntry::Leaf(l) => match l {
            ActionDirectoryMember::File(m) => m.digest.size,
            _ => 0,
        },
        ActionDirectoryEntry::Dir(d) => {
            let mut total: u64 = 0;
            let mut i: usize = 0;
            let ghost all = d.children@;
            assert(all.take(0) =~= Seq::empty());
            while i < d.children.len()
                invariant
                    *entry == ActionDirectoryEntry::Dir(*d),
                    all == d.children@,
                    i <= all.len(),
                    total == children_bytes(all.take(i as int)),
                    children_bytes(all) <= u64::MAX,
                decreases all.len() - i,
            {
                proof {
                    let next = all.take(i + 1);
                    assert(next.drop_last() =~= all.take(i as int));
                    assert(next[next.len() - 1] == all[i as int]);
                    lemma_children_bytes_monotonic(all, i + 1);
                    assert(decreases_to!(*entry => entry->Dir_0));
                    assert(decreases_to!(entry->Dir_0 => entry->Dir_0.children));
                    assert(decreases_to!(d.children => d.children@));
                    assert(decreases_to!(all => all[i as int]));
                    assert(decreases_to!(all[i as int] => all[i as int].1));
                    assert(decreases_to!(*entry => all[i as int].1));
                }
                total = total + calc_output_bytes(&d.children[i].1);
                i = i + 1;
            }
            assert(all.take(all.len() as int) =~= all);
            total
        },
    }
}

/// What is kept of a directory once it is on disk.
#[derive(Debug)]
pub struct DirectoryMetadata {
    pub fingerprint: ActionDirectoryFingerprint,
    /// Size on disk.
    pub total_size: u64,
}

/// Metadata used to identify an artifact entry without all of its content.
#[derive(Debug)]
pub struct ArtifactMetadata(pub ActionDirectoryEntry<DirectoryMetadata>);

/// The kept metadata describes `entry`. On Windows the executable bit of a file does not count.
pub open spec fn metadata_matches(metadata: ArtifactMetadata, entry: SharedEntry, windows: bool)
    -> bool {
    match (metadata.0, entry) {
        (ActionDirectoryEntry::Dir(m), ActionDirectoryEntry::Dir(d)) => same_digest(
            m.fingerprint,
            d.fingerprint,
        ),
        (
            ActionDirectoryEntry::Leaf(ActionDirectoryMember::File(a)),
            ActionDirectoryEntry::Leaf(ActionDirectoryMember::File(b)),
        ) => same_digest(a.digest, b.digest) && (windows || a.is_executable == b.is_executable),
        (ActionDirectoryEntry::Leaf(a), ActionDirectoryEntry::Leaf(b)) => same_member(a, b),
        _ => false,
    }
}

/// The metadata to keep of `entry`.
pub open spec fn metadata_of(entry: SharedEntry) -> ArtifactMetadata {
    ArtifactMetadata(
        match entry {
            ActionDirectoryEntry::Dir(d) => ActionDirectoryEntry::Dir(
                DirectoryMetadata {
                    fingerprint: d.fingerprint,
                    total_size: entry_bytes(entry) as u64,
                },
            ),
            ActionDirectoryEntry::Leaf(l) => ActionDirectoryEntry::Leaf(l),
        },
    )
}

/// The size that the metadata records.
pub open spec fn metadata_size(metadata: ArtifactMetadata) -> nat {
    match metadata.0 {
        ActionDirectoryEntry::Dir(d) => d.total_size as nat,
        ActionDirectoryEntry::Leaf(ActionDirectoryMember::File(m)) => m.digest.size as nat,
        ActionDirectoryEntry::Leaf(_) => 0,
    }
}

/// The metadata kept of an entry describes that entry, and records its size.
pub proof fn law_metadata_describes_its_entry(entry: SharedEntry, windows: bool)
    requires
        entry_bytes(entry) <= u64::MAX,
    ensures
        metadata_matches(metadata_of(entry), entry, windows),
        metadata_size(metadata_of(entry)) == entry_bytes(entry),
{
}

/// Metadata that describes an entry describes every entry that is the same.
pub proof fn law_metadata_respects_same_entry(
    metadata: ArtifactMetadata,
    a: SharedEntry,
    b: SharedEntry,
    windows: bool,
)
    requires
        same_entry(a, b),
    ensures
        metadata_matches(metadata, a, windows) == metadata_matches(metadata, b, windows),
{
}

/// Digests are the same only of the same contents: the hash and the size both count.
pub proof fn law_digests_tell_contents_apart(a: TrackedFileDigest, b: TrackedFileDigest)
    ensures
        same_digest(a, b) ==> a.hash@ == b.hash@,
        same_digest(a, b) ==> a.size == b.size,
        a.hash@ == b.hash@ && a.size == b.size ==> same_digest(a, b),
{
}

/// Two leaves are the same only if they are of one kind and hold the same: a file its digest and
/// its executable bit, a link its target.
pub proof fn law_leaves_are_told_apart(a: ActionDirectoryMember, b: ActionDirectoryMember)
    ensures
        same_member(a, b) ==> (a is File <==> b is File),
        same_member(a, b) ==> (a is Symlink <==> b is Symlink),
        same_member(a, b) ==> (a is ExternalSymlink <==> b is ExternalSymlink),
        a is File && b is File ==> (same_member(a, b) <==> a->File_0.digest.hash@
            == b->File_0.digest.hash@ && a->File_0.digest.size == b->File_0.digest.size
            && a->File_0.is_executable == b->File_0.is_executable),
        a is Symlink && b is Symlink ==> (same_member(a, b) <==> a->Symlink_0@ == b->Symlink_0@),
        a is ExternalSymlink && b is ExternalSymlink ==> (same_member(a, b)
            <==> a->ExternalSymlink_0@ == b->ExternalSymlink_0@),
{
}

/// Two entries are the same only if both are directories with one fingerprint or both are the same
/// leaf.
pub proof fn law_entries_are_told_apart(a: SharedEntry, b: SharedEntry)
    ensures
        same_entry(a, b) ==> (a is Dir <==> b is Dir),
        a is Dir && b is Dir ==> (same_entry(a, b) <==> a->Dir_0.fingerprint.hash@
            == b->Dir_0.fingerprint.hash@ && a->Dir_0.fingerprint.size
            == b->Dir_0.fingerprint.size),
        a is Leaf && b is Leaf ==> same_entry(a, b) == same_member(a->Leaf_0, b->Leaf_0),
{
}

/// What is kept of an entry describes no entry but the same: a directory is known by its
/// fingerprint, a link by its kind and target, and a file by its digest and, but on Windows, its
/// executable bit.
pub proof fn law_metadata_tells_entries_apart(a: SharedEntry, b: SharedEntry, windows: bool)
    ensures
        !windows ==> metadata_matches(metadata_of(a), b, windows) == same_entry(a, b),
        metadata_matches(metadata_of(a), b, windows) ==> (a is Dir <==> b is Dir),
        a is Dir && b is Dir && metadata_matches(metadata_of(a), b, windows)
            ==> a->Dir_0.fingerprint.hash@ == b->Dir_0.fingerprint.hash@
            && a->Dir_0.fingerprint.size == b->Dir_0.fingerprint.size,
        a is Leaf && b is Leaf && metadata_matches(metadata_of(a), b, windows) ==> {
            &&& a->Leaf_0 is File <==> b->Leaf_0 is File
            &&& a->Leaf_0 is Symlink <==> b->Leaf_0 is Symlink
            &&& a->Leaf_0 is Symlink ==> a->Leaf_0->Symlink_0@ == b->Leaf_0->Symlink_0@
            &&& a->Leaf_0 is ExternalSymlink ==> a->Leaf_0->ExternalSymlink_0@
                == b->Leaf_0->ExternalSymlink_0@
            &&& a->Leaf_0 is File ==> a->Leaf_0->File_0.digest.hash@
                == b->Leaf_0->File_0.digest.hash@ && a->Leaf_0->File_0.digest.size
                == b->Leaf_0->File_0.digest.size
            &&& a->Leaf_0 is File && !windows ==> a->Leaf_0->File_0.is_executable
                == b->Leaf_0->File_0.is_executable
        },
        windows && a is Leaf && b is Leaf && a->Leaf_0 is File && b->Leaf_0 is File ==> (
        metadata_matches(metadata_of(a), b, windows) <==> a->Leaf_0->File_0.digest.hash@
            == b->Leaf_0->File_0.digest.hash@ && a->Leaf_0->File_0.digest.size
            == b->Leaf_0->File_0.digest.size),
{
}

/// The same as above of metadata that was kept, whatever it was kept of: it describes an entry only
/// where both are directories with one fingerprint or leaves that hold the same.
pub proof fn law_kept_metadata_is_specific(
    metadata: ArtifactMetadata,
    entry: SharedEntry,
    windows: bool,
)
    requires
        metadata_matches(metadata, entry, windows),
    ensures
        metadata.0 is Dir <==> entry is Dir,
        entry is Dir ==> metadata.0->Dir_0.fingerprint.hash@ == entry->Dir_0.fingerprint.hash@
            && metadata.0->Dir_0.fingerprint.size == entry->Dir_0.fingerprint.size,
        entry is Leaf ==> {
            &&& metadata.0->Leaf_0 is File <==> entry->Leaf_0 is File
            &&& metadata.0->Leaf_0 is Symlink <==> entry->Leaf_0 is Symlink
            &&& entry->Leaf_0 is Symlink ==> metadata.0->Leaf_0->Symlink_0@
                == entry->Leaf_0->Symlink_0@
            &&& entry->Leaf_0 is ExternalSymlink ==> metadata.0->Leaf_0->ExternalSymlink_0@
                == entry->Leaf_0->ExternalSymlink_0@
            &&& entry->Leaf_0 is File ==> metadata.0->Leaf_0->File_0.digest.hash@
                == entry->Leaf_0->File_0.digest.hash@
                && metadata.0->Leaf_0->File_0.digest.size == entry->Leaf_0->File_0.digest.size
            &&& entry->Leaf_0 is File && !windows ==> metadata.0->Leaf_0->File_0.is_executable
                == entry->Leaf_0->File_0.is_executable
        },
{
}

/// Every file of a directory counts towards its size once, whatever its place: taking one entry
/// away takes away the size of that entry, and nothing is left of the size of an empty directory.
pub proof fn law_every_file_counts(children: Seq<(String, SharedEntry)>, i: int)
    requires
        0 <= i < children.len(),
    ensures
        children_bytes(children) == children_bytes(children.remove(i)) + entry_bytes(
            children[i].1,
        ),
        children_bytes(Seq::<(String, SharedEntry)>::empty()) == 0,
    decreases children.len(),
{
    if i == children.len() - 1 {
        assert(children.remove(i) =~= children.drop_last());
    } else {
        let init = children.drop_last();
        law_every_file_counts(init, i);
        assert(children.remove(i).drop_last() =~= init.remove(i));
        assert(children.remove(i).last() == children.last());
        let rest = children.remove(i);
        assert(rest[rest.len() - 1] == children[children.len() - 1]);
        assert(init[i] == children[i]);
    }
}

/// The size of an entry: a file has the size of its digest, a link none, and a directory what its
/// entries have.
pub proof fn law_size_of_an_entry(entry: SharedEntry)
    ensures
        entry is Leaf && entry->Leaf_0 is File ==> entry_bytes(entry)
            == entry->Leaf_0->File_0.digest.size,
        entry is Leaf && !(entry->Leaf_0 is File) ==> entry_bytes(entry) == 0,
        entry is Dir ==> entry_bytes(entry) == children_bytes(entry->Dir_0.children@),
{
}

impl ArtifactMetadata {
    /// The metadata to keep of `entry`.
    pub fn new(entry: &SharedEntry) -> (r: Self)
        requires
            entry_bytes(*entry) <= u64::MAX,
        ensures
            r == metadata_of(*entry),
    {
        match entry {
            ActionDirectoryEntry::Dir(d) => ArtifactMetadata(
                ActionDirectoryEntry::Dir(
                    DirectoryMetadata {
                        fingerprint: d.fingerprint.dupe(),
                        total_size: calc_output_bytes(entry),
                    },
                ),
            ),
            ActionDirectoryEntry::Leaf(l) => ArtifactMetadata(
                ActionDirectoryEntry::Leaf(l.dupe()),
            ),
        }
    }

    /// Whether the metadata describes `entry`.
    pub fn matches_entry(&self, entry: &SharedEntry, windows: bool) -> (r: bool)
        ensures
            r == metadata_matches(*self, *entry, windows),
    {
        match (&self.0, entry) {
            (
                ActionDirectoryEntry::Dir(m),
                ActionDirectoryEntry::Dir(d),
            ) => m.fingerprint.same_as(&d.fingerprint),
            (ActionDirectoryEntry::Leaf(a), ActionDirectoryEntry::Leaf(b)) => {
                if windows {
                    match (a, b) {
                        (ActionDirectoryMember::File(x), ActionDirectoryMember::File(y)) => {
                            return x.digest.same_as(&y.digest);
                        },
                        _ => {},
                    }
                }
                a.same_as(b)
            },
            _ => false,
        }
    }

    /// The size that the metadata records.
    pub fn size(&self) -> (r: u64)
        ensures
            r == metadata_size(*self),
    {
        match &self.0 {
            ActionDirectoryEntry::Dir(d) => d.total_size,
            ActionDirectoryEntry::Leaf(l) => match l {
                ActionDirectoryMember::File(m) => m.digest.size,
                _ => 0,
            },
        }
    }

    /// Another handle on the same metadata.
    pub fn dupe(&self) -> (r: Self)
        ensures
            r == *self,
    {
        match &self.0 {
            ActionDirectoryEntry::Dir(d) => ArtifactMetadata(
                ActionDirectoryEntry::Dir(
                    DirectoryMetadata {
                        fingerprint: d.fingerprint.dupe(),
                        total_size: d.total_size,
                    },
                ),
            ),
            ActionDirectoryEntry::Leaf(l) => ArtifactMetadata(
                ActionDirectoryEntry::Leaf(l.dupe()),
            ),
        }
    }
}

/// The value of an artifact: its entry, and the directory of what its links point to.
#[derive(Debug)]
pub struct ArtifactValue {
    pub entry: SharedEntry,
    pub deps: Option<Arc<ActionSharedDirectory>>,
}

/// What a walk of a directory over a tree finds at a path.
#[derive(Clone, Copy, Debug, PartialEq, Eq, Structural)]
pub enum FoundArtifact {
    /// Proper artifact.
    Found,
    /// A directory artifact with dependencies inside it.
    FoundForDir,
    /// Dependency dir not found in tree.
    DirNotFound,
    /// Leaf pointing to a dir.
    LeafPointsToDir,
}

/// What a walk of `entry`, placed at `path`, finds in the tree `m`, in the order of the walk.
pub open spec fn walk_deps<V>(m: Map<PathView, V>, entry: SharedEntry, path: PathView) -> Seq<
    (PathView, FoundArtifact),
>
    decreases entry,
{
    match (file_tree::node_at(m, path), entry) {
        (TreeNode::Data, ActionDirectoryEntry::Leaf(_)) => seq![(path, FoundArtifact::Found)],
        (TreeNode::Data, ActionDirectoryEntry::Dir(_)) => seq![(path, FoundArtifact::FoundForDir)],
        (TreeNode::Tree, ActionDirectoryEntry::Dir(d)) => walk_children(m, d.children@, path),
        (TreeNode::Tree, ActionDirectoryEntry::Leaf(_)) => seq![
            (path, FoundArtifact::LeafPointsToDir),
        ],
        (TreeNode::Missing, _) => seq![(path, FoundArtifact::DirNotFound)],
    }
}

/// What a walk of some entries of a directory at `path` finds.
pub open spec fn walk_children<V>(
    m: Map<PathView, V>,
    children: Seq<(String, SharedEntry)>,
    path: PathView,
) -> Seq<(PathView, FoundArtifact)>
    decreases children,
{
    if children.len() == 0 {
        Seq::empty()
    } else {
        walk_children(m, children.drop_last(), path) + walk_deps(
            m,
            children[children.len() - 1].1,
            path.push(children[children.len() - 1].0@),
        )
    }
}

/// The paths among `found` at which there is an artifact.
pub open spec fn artifact_paths(found: Seq<(PathView, FoundArtifact)>) -> Seq<PathView>
    decreases found.len(),
{
    if found.len() == 0 {
        Seq::empty()
    } else {
        let init = artifact_paths(found.drop_last());
        match found.last().1 {
            FoundArtifact::Found | FoundArtifact::FoundForDir => init.push(found.last().0),
            _ => init,
        }
    }
}

/// The findings, each with the mathematical form of its path.
pub open spec fn found_views(found: Seq<(ProjectRelativePathBuf, FoundArtifact)>) -> Seq<
    (PathView, FoundArtifact),
> {
    Seq::new(found.len(), |i: int| (found[i].0@, found[i].1))
}

/// There is an entry in `entry` at the path `rest` below it; at the empty path that is `entry`
/// itself.
pub open spec fn has_entry_at(entry: SharedEntry, rest: PathView) -> bool
    decreases rest.len(),
{
    rest.len() == 0 || (entry is Dir && exists|i: int|
        0 <= i < entry->Dir_0.children@.len() && (#[trigger] entry->Dir_0.children@[i]).0@
            == rest[0] && has_entry_at(entry->Dir_0.children@[i].1, rest.skip(1)))
}

/// Some of `children` has an entry at the path `rest` below the directory.
spec fn some_child_at(children: Seq<(String, SharedEntry)>, rest: PathView) -> bool {
    exists|i: int|
        0 <= i < children.len() && (#[trigger] children[i]).0@ == rest[0] && has_entry_at(
            children[i].1,
            rest.skip(1),
        )
}

proof fn lemma_artifact_paths_append(
    a: Seq<(PathView, FoundArtifact)>,
    b: Seq<(PathView, FoundArtifact)>,
)
    ensures
        artifact_paths(a + b) == artifact_paths(a) + artifact_paths(b),
    decreases b.len(),
{
    if b.len() == 0 {
        assert(a + b =~= a);
        assert(artifact_paths(a) + artifact_paths(b) =~= artifact_paths(a));
    } else {
        lemma_artifact_paths_append(a, b.drop_last());
        assert((a + b).drop_last() =~= a + b.drop_last());
        assert(artifact_paths(a + b) =~= artifact_paths(a) + artifact_paths(b));
    }
}

proof fn lemma_one_path(at: PathView, found: FoundArtifact, k: PathView)
    ensures
        artifact_paths(seq![(at, found)]).contains(k) <==> k == at && (found is Found
            || found is FoundForDir),
{
    let one = seq![(at, found)];
    assert(one.drop_last() =~= Seq::empty());
    assert(one.last() == (at, found));
    let r = artifact_paths(one);
    let none = artifact_paths(Seq::<(PathView, FoundArtifact)>::empty());
    assert(none =~= Seq::<PathView>::empty());
    if found is Found || found is FoundForDir {
        assert(r =~= seq![at]);
        assert(r[0] == at);
    } else {
        assert(r =~= Seq::<PathView>::empty());
    }
}

proof fn lemma_contains_append(a: Seq<PathView>, b: Seq<PathView>, k: PathView)
    ensures
        (a + b).contains(k) <==> a.contains(k) || b.contains(k),
{
    if a.contains(k) {
        let i = choose|i: int| 0 <= i < a.len() && a[i] == k;
        assert((a + b)[i] == k);
    }
    if b.contains(k) {
        let i = choose|i: int| 0 <= i < b.len() && b[i] == k;
        assert((a + b)[a.len() + i] == k);
    }
}

/// No key stands above `path`.
spec fn none_above<V>(m: Map<PathView, V>, path: PathView) -> bool {
    forall|k: PathView| #[trigger]
        m.contains_key(k) && crate::paths::is_prefix(k, path) ==> k == path
}

proof fn lemma_walk_finds<V>(m: Map<PathView, V>, entry: SharedEntry, path: PathView, k: PathView)
    requires
        file_tree::prefix_free(m.dom()),
        none_above(m, path),
    ensures
        artifact_paths(walk_deps(m, entry, path)).contains(k) <==> m.contains_key(k)
            && crate::paths::is_prefix(path, k) && has_entry_at(
            entry,
            k.skip(path.len() as int),
        ),
    decreases entry,
{
    crate::paths::lemma_prefix_order(path, path, path);
    let rest = k.skip(path.len() as int);
    match (file_tree::node_at(m, path), entry) {
        (TreeNode::Data, _) => {
            assert(m.dom().contains(path));
            if m.contains_key(k) && crate::paths::is_prefix(path, k) {
                assert(m.dom().contains(k));
                assert(k == path);
            }
            assert(k == path ==> rest =~= Seq::empty());
            if entry is Leaf {
                lemma_one_path(path, FoundArtifact::Found, k);
            } else {
                lemma_one_path(path, FoundArtifact::FoundForDir, k);
            }
        },
        (TreeNode::Tree, ActionDirectoryEntry::Dir(d)) => {
            assert(decreases_to!(entry => entry->Dir_0));
            assert(decreases_to!(entry->Dir_0 => entry->Dir_0.children));
            assert(decreases_to!(d.children => d.children@));
            lemma_walk_children_finds(m, d.children@, path, k);
            if crate::paths::is_prefix(path, k) && rest.len() == 0 {
                assert(k =~= path);
            }
        },
        (TreeNode::Tree, ActionDirectoryEntry::Leaf(_)) => {
            lemma_one_path(path, FoundArtifact::LeafPointsToDir, k);
            if crate::paths::is_prefix(path, k) && rest.len() == 0 {
                assert(k =~= path);
            }
        },
        (TreeNode::Missing, _) => {
            lemma_one_path(path, FoundArtifact::DirNotFound, k);
        },
    }
}

proof fn lemma_walk_children_finds<V>(
    m: Map<PathView, V>,
    children: Seq<(String, SharedEntry)>,
    path: PathView,
    k: PathView,
)
    requires
        file_tree::prefix_free(m.dom()),
        none_above(m, path),
        !m.contains_key(path),
    ensures
        artifact_paths(walk_children(m, children, path)).contains(k) <==> m.contains_key(k)
            && crate::paths::is_prefix(path, k) && k.len() > path.len() && some_child_at(
            children,
            k.skip(path.len() as int),
        ),
    decreases children,
{
    let rest = k.skip(path.len() as int);
    if children.len() > 0 {
        let n = children.len() - 1;
        let init = children.drop_last();
        let name = children[n].0@;
        let below = path.push(name);
        assert(decreases_to!(children => children[n]));
        assert(decreases_to!(children[n] => children[n].1));
        lemma_walk_children_finds(m, init, path, k);
        assert forall|q: PathView| #[trigger]
            m.contains_key(q) && crate::paths::is_prefix(q, below) implies q == below by {
            if q.len() < below.len() {
                assert(crate::paths::is_prefix(q, path)) by {
                    assert(q =~= path.take(q.len() as int));
                }
            } else {
                assert(q =~= below);
            }
        }
        lemma_walk_finds(m, children[n].1, below, k);
        let a = walk_children(m, init, path);
        let b = walk_deps(m, children[n].1, below);
        lemma_artifact_paths_append(a, b);
        lemma_contains_append(artifact_paths(a), artifact_paths(b), k);
        if crate::paths::is_prefix(path, k) && k.len() > path.len() {
            assert(rest[0] == k[path.len() as int]);
            assert(rest.skip(1) =~= k.skip(below.len() as int));
            if rest[0] == name {
                assert(crate::paths::is_prefix(below, k)) by {
                    assert(k.take(below.len() as int) =~= below);
                }
            }
            if some_child_at(init, rest) {
                let i = choose|i: int|
                    0 <= i < init.len() && (#[trigger] init[i]).0@ == rest[0] && has_entry_at(
                        init[i].1,
                        rest.skip(1),
                    );
                assert(children[i] == init[i]);
            }
            if some_child_at(children, rest) {
                let i = choose|i: int|
                    0 <= i < children.len() && (#[trigger] children[i]).0@ == rest[0]
                        && has_entry_at(children[i].1, rest.skip(1));
                if i < n {
                    assert(init[i] == children[i]);
                }
            }
        }
        if crate::paths::is_prefix(below, k) {
            assert(k[path.len() as int] == below[path.len() as int]);
            assert(crate::paths::is_prefix(path, k)) by {
                assert(k.take(path.len() as int) =~= path);
            }
            assert(children[n].0@ == rest[0]);
        }
    }
}

/// The artifacts that a directory of links points to are the ones of the tree at whose path the
/// directory has an entry, all of them and no others.
pub proof fn law_links_lead_to_artifacts<V>(
    m: Map<PathView, V>,
    deps: Arc<ActionSharedDirectory>,
    k: PathView,
)
    requires
        file_tree::prefix_free(m.dom()),
    ensures
        artifact_paths(
            walk_deps(m, ActionDirectoryEntry::Dir(deps), Seq::<Seq<char>>::empty()),
        ).contains(k) <==> m.contains_key(k) && has_entry_at(ActionDirectoryEntry::Dir(deps), k),
{
    let root = Seq::<Seq<char>>::empty();
    assert(k.skip(0) =~= k);
    assert(k.take(0) =~= root);
    assert forall|q: PathView| #[trigger]
        m.contains_key(q) && crate::paths::is_prefix(q, root) implies q == root by {
        assert(q =~= root);
    }
    lemma_walk_finds(m, ActionDirectoryEntry::Dir(deps), root, k);
}

fn find_in_entry<V>(
    tree: &FileTree<V>,
    entry: &SharedEntry,
    path: &ProjectRelativePathBuf,
    found: &mut Vec<(ProjectRelativePathBuf, FoundArtifact)>,
)
    requires
        tree.wf(),
    ensures
        found_views(final(found)@) == found_views(old(found)@) + walk_deps(tree@, *entry, path@),
    decreases *entry,
{
    let ghost before = found@;
    match (tree.node(path), entry) {
        (TreeNode::Data, ActionDirectoryEntry::Leaf(_)) => {
            found.push((path.clone(), FoundArtifact::Found));
            assert(found_views(found@) =~= found_views(before) + walk_deps(tree@, *entry, path@));
        },
        (TreeNode::Data, ActionDirectoryEntry::Dir(_)) => {
            found.push((path.clone(), FoundArtifact::FoundForDir));
            assert(found_views(found@) =~= found_views(before) + walk_deps(tree@, *entry, path@));
        },
        (TreeNode::Tree, ActionDirectoryEntry::Leaf(_)) => {
            found.push((path.clone(), FoundArtifact::LeafPointsToDir));
            assert(found_views(found@) =~= found_views(before) + walk_deps(tree@, *entry, path@));
        },
        (TreeNode::Missing, _) => {
            found.push((path.clone(), FoundArtifact::DirNotFound));
            assert(found_views(found@) =~= found_views(before) + walk_deps(tree@, *entry, path@));
        },
        (TreeNode::Tree, ActionDirectoryEntry::Dir(d)) => {
            let ghost all = d.children@;
            let mut i: usize = 0;
            assert(all.take(0) =~= Seq::empty());
            assert(found_views(found@) =~= found_views(before) + walk_children(
                tree@,
                all.take(0),
                path@,
            ));
            while i < d.children.len()
                invariant
                    tree.wf(),
                    *entry == ActionDirectoryEntry::Dir(*d),
                    all == d.children@,
                    i <= all.len(),
                    found_views(found@) == found_views(before) + walk_children(
                        tree@,
                        all.take(i as int),
                        path@,
                    ),
                decreases all.len() - i,
            {
                let child_path = path.child(&d.children[i].0);
                proof {
                    let next = all.take(i + 1);
                    assert(next.drop_last() =~= all.take(i as int));
                    assert(next[next.len() - 1] == all[i as int]);
                    assert(decreases_to!(*entry => entry->Dir_0));
                    assert(decreases_to!(entry->Dir_0 => entry->Dir_0.children));
                    assert(decreases_to!(d.children => d.children@));
                    assert(decreases_to!(all => all[i as int]));
                    assert(decreases_to!(all[i as int] => all[i as int].1));
                    assert(decreases_to!(*entry => all[i as int].1));
                }
                find_in_entry(tree, &d.children[i].1, &child_path, found);
                assert(found_views(found@) =~= found_views(before) + walk_children(
                    tree@,
                    all.take(i + 1),
                    path@,
                ));
                i = i + 1;
            }
            assert(all.take(all.len() as int) =~= all);
        },
    }
}

impl<V> FileTree<V> {
    /// What a walk of the directory `deps` from the root finds in this tree.
    pub fn find_artifacts_for_debug(&self, deps: &Arc<ActionSharedDirectory>) -> (r: Vec<
        (ProjectRelativePathBuf, FoundArtifact),
    >)
        requires
            self.wf(),
        ensures
            found_views(r@) == walk_deps(
                self@,
                ActionDirectoryEntry::Dir(*deps),
                Seq::<Seq<char>>::empty(),
            ),
    {
        let mut found: Vec<(ProjectRelativePathBuf, FoundArtifact)> = Vec::new();
        let root = ProjectRelativePathBuf::root();
        let entry = ActionDirectoryEntry::Dir(deps.clone());
        find_in_entry(self, &entry, &root, &mut found);
        proof {
            let w = walk_deps(self@, entry, root@);
            assert(found_views(Seq::<(ProjectRelativePathBuf, FoundArtifact)>::empty()) + w =~= w);
        }
        found
    }

    /// All the paths in `deps` that are artifacts in this tree.
    pub fn find_artifacts(&self, deps: &Arc<ActionSharedDirectory>) -> (r: Vec<
        ProjectRelativePathBuf,
    >)
        requires
            self.wf(),
        ensures
            crate::paths::path_views(r@) == artifact_paths(
                walk_deps(self@, ActionDirectoryEntry::Dir(*deps), Seq::<Seq<char>>::empty()),
            ),
    {
        let found = self.find_artifacts_for_debug(deps);
        let mut paths: Vec<ProjectRelativePathBuf> = Vec::new();
        let mut i: usize = 0;
        let ghost all = found_views(found@);
        assert(all.take(0) =~= Seq::empty());
        assert(crate::paths::path_views(paths@) =~= artifact_paths(all.take(0)));
        while i < found.len()
            invariant
                all == found_views(found@),
                i <= found.len(),
                crate::paths::path_views(paths@) == artifact_paths(all.take(i as int)),
            decreases found.len() - i,
        {
            let ghost before = crate::paths::path_views(paths@);
            proof {
                let next = all.take(i + 1);
                assert(next.drop_last() =~= all.take(i as int));
                assert(next.last() == all[i as int]);
            }
            match found[i].1 {
                FoundArtifact::Found | FoundArtifact::FoundForDir => {
                    paths.push(found[i].0.clone());
                    assert(crate::paths::path_views(paths@) =~= before.push(all[i as int].0));
                },
                _ => {},
            }
            i = i + 1;
        }
        assert(all.take(all.len() as int) =~= all);
        paths
    }
}

/// The name under which a finding is shown.
pub fn found_label(found: FoundArtifact) -> (r: &'static str)
    ensures
        r@ == (match found {
            FoundArtifact::Found => "Found"@,
            FoundArtifact::FoundForDir => "FoundForDir"@,
            FoundArtifact::DirNotFound => "DirNotFound"@,
            FoundArtifact::LeafPointsToDir => "LeafPointsToDir"@,
        }),
{
    match found {
        FoundArtifact::Found => "Found",
        FoundArtifact::FoundForDir => "FoundForDir",
        FoundArtifact::DirNotFound => "DirNotFound",
        FoundArtifact::LeafPointsToDir => "LeafPointsToDir",
    }
}

} // verus!
