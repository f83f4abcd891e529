//! A map from paths to values in which no key lies above another key.
use vstd::prelude::*;

use crate::paths;
use crate::paths::PathView;
use crate::paths::ProjectRelativePathBuf;

verus! {

/// No key of `keys` lies above another one.
pub open spec fn prefix_free(keys: Set<PathView>) -> bool {
    forall|a: PathView, b: PathView| #[trigger]
        keys.contains(a) && #[trigger] keys.contains(b) && paths::is_prefix(a, b) ==> a == b
}

/// The part of `m` whose keys do not overlap `path`.
pub open spec fn without_overlaps<V>(m: Map<PathView, V>, path: PathView) -> Map<PathView, V> {
    Map::new(|k: PathView| m.contains_key(k) && !paths::overlaps(k, path), |k: PathView| m[k])
}

/// The key of `m` at or above `path`.
pub open spec fn owner<V>(m: Map<PathView, V>, path: PathView) -> Option<PathView> {
    if exists|k: PathView| m.contains_key(k) && paths::is_prefix(k, path) {
        Some(choose|k: PathView| m.contains_key(k) && paths::is_prefix(k, path))
    } else {
        None
    }
}

/// `pairs` lists every entry of `m` whose key overlaps `path`, each once, and nothing else.
pub open spec fn lists_overlaps<V>(
    pairs: Seq<(ProjectRelativePathBuf, V)>,
    m: Map<PathView, V>,
    path: PathView,
) -> bool {
    &&& no_duplicates(pairs)
    &&& forall|k: PathView| #[trigger]
        assoc(pairs).contains_key(k) <==> m.contains_key(k) && paths::overlaps(k, path)
    &&& forall|k: PathView| #[trigger] assoc(pairs).contains_key(k) ==> assoc(pairs)[k] == m[k]
}

/// The map that `pairs` lists.
pub open spec fn assoc<V>(pairs: Seq<(ProjectRelativePathBuf, V)>) -> Map<PathView, V>
    decreases pairs.len(),
{
    if pairs.len() == 0 {
        Map::empty()
    } else {
        assoc(pairs.drop_last()).insert(pairs.last().0@, pairs.last().1)
    }
}

/// No key occurs twice in `pairs`.
pub open spec fn no_duplicates<V>(pairs: Seq<(ProjectRelativePathBuf, V)>) -> bool
    decreases pairs.len(),
{
    pairs.len() == 0 || (no_duplicates(pairs.drop_last()) && !assoc(
        pairs.drop_last(),
    ).contains_key(pairs.last().0@))
}

/// A tree with values at its leaves; the path to a leaf is the leaf's key.
#[derive(Debug)]
pub struct FileTree<V> {
    entries: Vec<(ProjectRelativePathBuf, V)>,
}

impl<V> View for FileTree<V> {
    type V = Map<PathView, V>;

    closed spec fn view(&self) -> Map<PathView, V> {
        assoc(self.entries@)
    }
}

/// Where a path stands in a tree.
#[derive(Clone, Copy, Debug, PartialEq, Eq, Structural)]
pub enum TreeNode {
    /// A leaf: the path is a key.
    Data,
    /// An inner node: there are keys below the path, or the path is the root.
    Tree,
    /// Neither.
    Missing,
}

/// Where `path` stands in the tree with the entries `m`.
pub open spec fn node_at<V>(m: Map<PathView, V>, path: PathView) -> TreeNode {
    if m.contains_key(path) {
        TreeNode::Data
    } else if path.len() == 0 || exists|k: PathView| m.contains_key(k) && paths::is_prefix(path, k) {
        TreeNode::Tree
    } else {
        TreeNode::Missing
    }
}

proof fn lemma_assoc<V>(pairs: Seq<(ProjectRelativePathBuf, V)>)
    requires
        no_duplicates(pairs),
    ensures
        forall|i: int|
            0 <= i < pairs.len() ==> assoc(pairs).contains_key((#[trigger] pairs[i]).0@)
                && assoc(pairs)[pairs[i].0@] == pairs[i].1,
        forall|i: int, j: int|
            0 <= i < j < pairs.len() ==> (#[trigger] pairs[i]).0@ != (#[trigger] pairs[j]).0@,
        forall|k: PathView| #[trigger]
            assoc(pairs).contains_key(k) ==> exists|i: int|
                0 <= i < pairs.len() && (#[trigger] pairs[i]).0@ == k,
    decreases pairs.len(),
{
    if pairs.len() > 0 {
        let init = pairs.drop_last();
        lemma_assoc(init);
        assert forall|i: int| 0 <= i < pairs.len() implies assoc(pairs).contains_key(
            (#[trigger] pairs[i]).0@,
        ) && assoc(pairs)[pairs[i].0@] == pairs[i].1 by {
            if i < init.len() {
                assert(pairs[i] == init[i]);
                assert(assoc(init).contains_key(init[i].0@));
            }
        }
        assert forall|i: int, j: int| 0 <= i < j < pairs.len() implies (#[trigger] pairs[i]).0@ != (
        #[trigger] pairs[j]).0@ by {
            assert(pairs[i] == init[i]);
            assert(assoc(init).contains_key(init[i].0@));
            if j < init.len() {
                assert(pairs[j] == init[j]);
            }
        }
        assert forall|k: PathView| #[trigger] assoc(pairs).contains_key(k) implies exists|i: int|
            0 <= i < pairs.len() && (#[trigger] pairs[i]).0@ == k by {
            if k == pairs.last().0@ {
                assert(pairs[pairs.len() - 1].0@ == k);
            } else {
                assert(assoc(init).contains_key(k));
                let i = choose|i: int| 0 <= i < init.len() && (#[trigger] init[i]).0@ == k;
                assert(pairs[i].0@ == k);
            }
        }
    }
}

/// Changing the value of one entry changes the value of its key.
proof fn lemma_assoc_update<V>(pairs: Seq<(ProjectRelativePathBuf, V)>, i: int, value: V)
    requires
        no_duplicates(pairs),
        0 <= i < pairs.len(),
    ensures
        no_duplicates(pairs.update(i, (pairs[i].0, value))),
        assoc(pairs.update(i, (pairs[i].0, value))) == assoc(pairs).insert(pairs[i].0@, value),
    decreases pairs.len(),
{
    let init = pairs.drop_last();
    let updated = pairs.update(i, (pairs[i].0, value));
    lemma_assoc(pairs);
    if i == pairs.len() - 1 {
        assert(updated.drop_last() =~= init);
        assert(assoc(updated) =~= assoc(pairs).insert(pairs[i].0@, value));
    } else {
        lemma_assoc_update(init, i, value);
        assert(updated.drop_last() =~= init.update(i, (init[i].0, value)));
        assert(pairs[pairs.len() - 1].0@ != pairs[i].0@);
        lemma_assoc(init);
        assert(assoc(init).contains_key(init[i].0@));
        assert(assoc(updated.drop_last()).dom() =~= assoc(init).dom());
        assert(assoc(updated) =~= assoc(pairs).insert(pairs[i].0@, value));
    }
}

/// The key at or above a path is unique.
pub proof fn lemma_owner_unique<V>(m: Map<PathView, V>, path: PathView, key: PathView)
    requires
        prefix_free(m.dom()),
        m.contains_key(key),
        paths::is_prefix(key, path),
    ensures
        owner(m, path) == Some(key),
{
    let k = owner(m, path)->0;
    assert(m.contains_key(k) && paths::is_prefix(k, path));
    paths::lemma_prefix_order(k, key, path);
    assert(m.dom().contains(k) && m.dom().contains(key));
}

/// A key that is in the tree is its own owner.
pub proof fn lemma_owner_of_key<V>(m: Map<PathView, V>, key: PathView)
    requires
        prefix_free(m.dom()),
        m.contains_key(key),
    ensures
        owner(m, key) == Some(key),
{
    paths::lemma_prefix_order(key, key, key);
    lemma_owner_unique(m, key, key);
}

/// The owner of a path depends on the keys alone.
pub proof fn lemma_owner_same_keys<V>(a: Map<PathView, V>, b: Map<PathView, V>, path: PathView)
    requires
        prefix_free(a.dom()),
        a.dom() == b.dom(),
    ensures
        owner(a, path) == owner(b, path),
{
    if owner(a, path) is Some {
        let k = owner(a, path)->0;
        assert(a.contains_key(k) && paths::is_prefix(k, path));
        assert(b.dom().contains(k));
        lemma_owner_unique(b, path, k);
    } else if owner(b, path) is Some {
        let k = owner(b, path)->0;
        assert(b.contains_key(k) && paths::is_prefix(k, path));
        assert(a.dom().contains(k));
        assert(a.contains_key(k) && paths::is_prefix(k, path));
    }
}

/// Putting a value at `path` into a tree from which all overlapping keys are gone keeps keys
/// from lying above each other.
pub proof fn lemma_insert_prefix_free<V>(m: Map<PathView, V>, path: PathView, value: V)
    requires
        prefix_free(m.dom()),
    ensures
        prefix_free(without_overlaps(m, path).dom()),
        prefix_free(without_overlaps(m, path).insert(path, value).dom()),
        !without_overlaps(m, path).contains_key(path),
{
    paths::lemma_prefix_order(path, path, path);
    let rest = without_overlaps(m, path);
    assert forall|a: PathView, b: PathView| #[trigger]
        rest.dom().contains(a) && #[trigger] rest.dom().contains(b) && paths::is_prefix(a, b) implies a
        == b by {
        assert(m.dom().contains(a) && m.dom().contains(b));
    }
    let m2 = rest.insert(path, value);
    assert forall|a: PathView, b: PathView| #[trigger]
        m2.dom().contains(a) && #[trigger] m2.dom().contains(b) && paths::is_prefix(a, b) implies a
        == b by {
        if a != path && b != path {
            assert(rest.dom().contains(a) && rest.dom().contains(b));
        } else if a != path {
            assert(rest.dom().contains(a));
        } else if b != path {
            assert(rest.dom().contains(b));
        }
    }
}

/// What was put into the tree at `path` is what a look-up at or below `path` finds; a look-up
/// elsewhere finds what it found before.
pub proof fn law_insert_then_get<V>(m: Map<PathView, V>, path: PathView, value: V, q: PathView)
    requires
        prefix_free(m.dom()),
    ensures
        paths::is_prefix(path, q) ==> owner(without_overlaps(m, path).insert(path, value), q) == Some(
            path,
        ),
        !paths::overlaps(path, q) ==> owner(without_overlaps(m, path).insert(path, value), q) == (
        match owner(m, q) {
            Some(k) if paths::overlaps(k, path) => None::<PathView>,
            other => other,
        }),
{
    lemma_insert_prefix_free(m, path, value);
    let m2 = without_overlaps(m, path).insert(path, value);
    if paths::is_prefix(path, q) {
        lemma_owner_unique(m2, q, path);
    }
    if !paths::overlaps(path, q) {
        match owner(m, q) {
            Some(k) => {
                assert(m.contains_key(k) && paths::is_prefix(k, q));
                if paths::overlaps(k, path) {
                    if owner(m2, q) is Some {
                        let k2 = owner(m2, q)->0;
                        assert(m2.contains_key(k2) && paths::is_prefix(k2, q));
                        assert(m.contains_key(k2));
                        lemma_owner_unique(m, q, k2);
                    }
                } else {
                    lemma_owner_unique(m2, q, k);
                }
            },
            None => {
                if owner(m2, q) is Some {
                    let k2 = owner(m2, q)->0;
                    assert(m2.contains_key(k2) && paths::is_prefix(k2, q));
                    assert(m.contains_key(k2));
                }
            },
        }
    }
}

impl<V> FileTree<V> {
    /// Keys occur once, and none lies above another.
    pub closed spec fn wf(&self) -> bool {
        no_duplicates(self.entries@) && prefix_free(self@.dom())
    }

    /// The number of leaves.
    pub closed spec fn spec_size(&self) -> nat {
        self.entries@.len()
    }

    /// The key of the leaf with number `i`.
    pub closed spec fn key_at(&self, i: int) -> PathView {
        self.entries@[i].0@
    }

    /// A well-formed tree has no key above another.
    pub proof fn lemma_wf(&self)
        requires
            self.wf(),
        ensures
            prefix_free(self@.dom()),
    {
    }

    /// The empty tree.
    pub fn new() -> (r: Self)
        ensures
            r.wf(),
            r@ == Map::<PathView, V>::empty(),
    {
        FileTree { entries: Vec::new() }
    }

    /// The number of leaves.
    pub fn size(&self) -> (n: usize)
        ensures
            n == self.spec_size(),
    {
        self.entries.len()
    }

    /// The leaf at or above `path`, by number.
    pub fn find(&self, path: &ProjectRelativePathBuf) -> (r: Option<usize>)
        requires
            self.wf(),
        ensures
            r is Some <==> owner(self@, path@) is Some,
            r matches Some(i) ==> {
                &&& i < self.spec_size()
                &&& owner(self@, path@) == Some(self.key_at(i as int))
                &&& self@.contains_key(self.key_at(i as int))
                &&& paths::is_prefix(self.key_at(i as int), path@)
            },
    {
        proof {
            lemma_assoc(self.entries@);
        }
        let mut i: usize = 0;
        while i < self.entries.len()
            invariant
                self.wf(),
                i <= self.entries.len(),
                forall|j: int| 0 <= j < i ==> !paths::is_prefix((#[trigger] self.entries@[j]).0@, path@),
            decreases self.entries.len() - i,
        {
            if self.entries[i].0.is_prefix_of(path) {
                proof {
                    lemma_assoc(self.entries@);
                    lemma_owner_unique(self@, path@, self.entries@[i as int].0@);
                }
                return Some(i);
            }
            i = i + 1;
        }
        None
    }

    /// The key of leaf `i`.
    pub fn key(&self, i: usize) -> (r: &ProjectRelativePathBuf)
        requires
            i < self.spec_size(),
        ensures
            r@ == self.key_at(i as int),
    {
        &self.entries[i].0
    }

    /// The value of leaf `i`.
    pub fn value(&self, i: usize) -> (r: &V)
        requires
            self.wf(),
            i < self.spec_size(),
        ensures
            self@.contains_key(self.key_at(i as int)),
            *r == self@[self.key_at(i as int)],
    {
        proof {
            lemma_assoc(self.entries@);
        }
        &self.entries[i].1
    }

    /// The value of leaf `i`, to be changed in place.
    pub fn value_mut(&mut self, i: usize) -> (r: &mut V)
        requires
            old(self).wf(),
            i < old(self).spec_size(),
        ensures
            old(self)@.contains_key(old(self).key_at(i as int)),
            *r == old(self)@[old(self).key_at(i as int)],
            final(self).wf(),
            final(self)@ == old(self)@.insert(old(self).key_at(i as int), *final(r)),
            final(self).spec_size() == old(self).spec_size(),
            forall|j: int|
                0 <= j < old(self).spec_size() ==> final(self).key_at(j) == old(self).key_at(j),
    {
        proof {
            lemma_assoc(self.entries@);
            assert forall|v: V|
                {
                    &&& no_duplicates(
                        #[trigger] self.entries@.update(i as int, (self.entries@[i as int].0, v)),
                    )
                    &&& assoc(self.entries@.update(i as int, (self.entries@[i as int].0, v)))
                        == assoc(self.entries@).insert(self.entries@[i as int].0@, v)
                    &&& assoc(self.entries@).insert(self.entries@[i as int].0@, v).dom() == assoc(
                        self.entries@,
                    ).dom()
                } by {
                lemma_assoc_update(self.entries@, i as int, v);
                assert(assoc(self.entries@).insert(self.entries@[i as int].0@, v).dom() =~= assoc(
                    self.entries@,
                ).dom());
            }
        }
        &mut self.entries[i].1
    }

    /// The value at or above `path`, and the number of names of `path` down to it.
    pub fn prefix_get(&self, path: &ProjectRelativePathBuf) -> (r: Option<(usize, &V)>)
        requires
            self.wf(),
        ensures
            match (r, owner(self@, path@)) {
                (Some((n, v)), Some(k)) => n == k.len() && k == path@.take(n as int) && n
                    <= path@.len() && *v == self@[k],
                (None, None) => true,
                _ => false,
            },
    {
        match self.find(path) {
            Some(i) => Some((self.entries[i].0.depth(), self.value(i))),
            None => None,
        }
    }

    /// Takes every leaf that overlaps `path` out of the tree.
    pub fn remove_path(&mut self, path: &ProjectRelativePathBuf) -> (removed: Vec<
        (ProjectRelativePathBuf, V),
    >)
        requires
            old(self).wf(),
        ensures
            final(self).wf(),
            final(self)@ == without_overlaps(old(self)@, path@),
            lists_overlaps(removed@, old(self)@, path@),
    {
        let ghost all = self.entries@;
        let ghost tree = self@;
        let mut taken: Vec<(ProjectRelativePathBuf, V)> = Vec::new();
        std::mem::swap(&mut taken, &mut self.entries);
        let mut kept: Vec<(ProjectRelativePathBuf, V)> = Vec::new();
        let mut removed: Vec<(ProjectRelativePathBuf, V)> = Vec::new();
        proof {
            assert(all.take(0) =~= Seq::empty());
            assert(without_overlaps(assoc(all.take(0)), path@) =~= Map::empty());
        }
        for entry in it: taken
            invariant
                it.seq() == all,
                no_duplicates(all.take(it.index() as int)),
                no_duplicates(all),
                no_duplicates(kept@),
                assoc(kept@) == without_overlaps(assoc(all.take(it.index() as int)), path@),
                lists_overlaps(removed@, assoc(all.take(it.index() as int)), path@),
        {
            proof {
                let i = it.index() as int;
                let next = all.take(i + 1);
                assert(next.drop_last() =~= all.take(i));
                assert(next.last() == entry);
                lemma_take_no_duplicates(all, i + 1);
                let m = assoc(all.take(i));
                let k = entry.0@;
                assert(assoc(next) == m.insert(k, entry.1));
                if paths::overlaps(k, path@) {
                    assert(without_overlaps(assoc(next), path@) =~= without_overlaps(m, path@));
                    let r2 = removed@.push(entry);
                    assert(r2.drop_last() =~= removed@);
                    assert(assoc(r2) == assoc(removed@).insert(k, entry.1));
                } else {
                    assert(without_overlaps(assoc(next), path@) =~= without_overlaps(
                        m,
                        path@,
                    ).insert(k, entry.1));
                    let k2 = kept@.push(entry);
                    assert(k2.drop_last() =~= kept@);
                }
            }
            if entry.0.overlaps_with(path) {
                removed.push(entry);
            } else {
                kept.push(entry);
            }
        }
        proof {
            assert(all.take(all.len() as int) =~= all);
            lemma_insert_prefix_free(tree, path@, arbitrary());
        }
        self.entries = kept;
        removed
    }

    /// Puts `value` at `path`, in place of every leaf that overlaps it.
    pub fn insert(&mut self, path: ProjectRelativePathBuf, value: V)
        requires
            old(self).wf(),
        ensures
            final(self).wf(),
            final(self)@ == without_overlaps(old(self)@, path@).insert(path@, value),
    {
        let ghost before = self@;
        let _removed = self.remove_path(&path);
        proof {
            lemma_insert_prefix_free(before, path@, value);
            let pushed = self.entries@.push((path, value));
            assert(pushed.drop_last() =~= self.entries@);
            assert(assoc(pushed) == self@.insert(path@, value));
        }
        self.entries.push((path, value));
    }

    /// Where `path` stands in the tree.
    pub fn node(&self, path: &ProjectRelativePathBuf) -> (r: TreeNode)
        requires
            self.wf(),
        ensures
            r == node_at(self@, path@),
    {
        proof {
            lemma_assoc(self.entries@);
            paths::lemma_prefix_order(path@, path@, path@);
        }
        let mut below = path.depth() == 0;
        let mut i: usize = 0;
        while i < self.entries.len()
            invariant
                self.wf(),
                i <= self.entries.len(),
                forall|j: int| 0 <= j < i ==> (#[trigger] self.entries@[j]).0@ != path@,
                below == (path@.len() == 0 || exists|j: int|
                    0 <= j < i && paths::is_prefix(path@, (#[trigger] self.entries@[j]).0@)),
            decreases self.entries.len() - i,
        {
            if self.entries[i].0.same_as(path) {
                proof {
                    lemma_assoc(self.entries@);
                }
                return TreeNode::Data;
            }
            if path.is_prefix_of(&self.entries[i].0) {
                below = true;
            }
            i = i + 1;
        }
        proof {
            lemma_assoc(self.entries@);
            if exists|k: PathView| self@.contains_key(k) && paths::is_prefix(path@, k) {
                let k = choose|k: PathView| self@.contains_key(k) && paths::is_prefix(path@, k);
                let j = choose|j: int|
                    0 <= j < self.entries@.len() && (#[trigger] self.entries@[j]).0@ == k;
                assert(paths::is_prefix(path@, self.entries@[j].0@));
            }
        }
        if below {
            TreeNode::Tree
        } else {
            TreeNode::Missing
        }
    }
}

proof fn lemma_take_no_duplicates<V>(pairs: Seq<(ProjectRelativePathBuf, V)>, n: int)
    requires
        no_duplicates(pairs),
        0 <= n <= pairs.len(),
    ensures
        no_duplicates(pairs.take(n)),
    decreases pairs.len(),
{
    if n == pairs.len() {
        assert(pairs.take(n) =~= pairs);
    } else {
        lemma_take_no_duplicates(pairs.drop_last(), n);
        assert(pairs.drop_last().take(n) =~= pairs.take(n));
    }
}

/// A look-up finds a key exactly where one stands at or above the path.
pub proof fn law_owner_stands_above<V>(m: Map<PathView, V>, path: PathView, k: PathView)
    requires
        prefix_free(m.dom()),
    ensures
        owner(m, path) == Some(k) <==> m.contains_key(k) && paths::is_prefix(k, path),
        owner(m, path) is None ==> !(m.contains_key(k) && paths::is_prefix(k, path)),
{
    if m.contains_key(k) && paths::is_prefix(k, path) {
        lemma_owner_unique(m, path, k);
    }
}

/// Taking a path out takes out what stands at it, above it and below it, and nothing else.
pub proof fn law_what_is_taken_out<V>(m: Map<PathView, V>, path: PathView, rest: PathView, k: PathView)
    ensures
        !without_overlaps(m, path).contains_key(path + rest),
        path == k + rest ==> !without_overlaps(m, path).contains_key(k),
        without_overlaps(m, path).contains_key(k) ==> m.contains_key(k) && without_overlaps(
            m,
            path,
        )[k] == m[k],
        m.contains_key(k) && !paths::is_prefix(k, path) && !paths::is_prefix(path, k)
            ==> without_overlaps(m, path).contains_key(k),
{
    paths::law_paths_above_others(path, k, rest);
    paths::law_paths_above_others(k, path, rest);
}

/// A path is a leaf where it is a key, an inner node where a key stands below it or it is the
/// root, and otherwise not there.
pub proof fn law_where_a_path_stands<V>(m: Map<PathView, V>, path: PathView, rest: PathView)
    ensures
        node_at(m, path) is Data <==> m.contains_key(path),
        rest.len() > 0 && m.contains_key(path + rest) ==> !(node_at(m, path) is Missing),
        path.len() == 0 ==> !(node_at(m, path) is Missing),
        node_at(m, path) is Missing ==> !m.contains_key(path + rest),
        node_at(m, path) is Tree && path.len() > 0 ==> exists|k: PathView|
            m.contains_key(k) && paths::is_prefix(path, k) && k != path,
{
    paths::law_paths_above_others(path, path, rest);
    if m.contains_key(path + rest) {
        assert(paths::is_prefix(path, path + rest));
    }
    if node_at(m, path) is Tree && path.len() > 0 {
        let k = choose|k: PathView| m.contains_key(k) && paths::is_prefix(path, k);
        assert(m.contains_key(k) && paths::is_prefix(path, k) && k != path);
    }
}

/// What was taken out is listed, each with what it held, once.
pub proof fn law_what_was_taken_out_is_listed<V>(
    pairs: Seq<(ProjectRelativePathBuf, V)>,
    m: Map<PathView, V>,
    path: PathView,
    k: PathView,
    i: int,
    j: int,
)
    requires
        lists_overlaps(pairs, m, path),
    ensures
        0 <= i < pairs.len() ==> m.contains_key(pairs[i].0@) && pairs[i].1 == m[pairs[i].0@] && (
        paths::is_prefix(pairs[i].0@, path) || paths::is_prefix(path, pairs[i].0@)),
        0 <= i < j < pairs.len() ==> pairs[i].0@ != pairs[j].0@,
        m.contains_key(k) && (paths::is_prefix(k, path) || paths::is_prefix(path, k)) ==> exists|
            n: int,
        |
            0 <= n < pairs.len() && (#[trigger] pairs[n]).0@ == k,
{
    lemma_assoc(pairs);
    if m.contains_key(k) && (paths::is_prefix(k, path) || paths::is_prefix(path, k)) {
        assert(assoc(pairs).contains_key(k));
    }
}

} // verus!
