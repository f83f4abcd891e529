//! Paths relative to the project root, as sequences of file names.
use vstd::prelude::*;
use vstd::string::*;

use crate::text;
use crate::text::clone_strings;
use crate::text::join;

verus! {

/// The mathematical form of a path: the characters of each of its names.
pub type PathView = Seq<Seq<char>>;

/// `a` is `b` or one of the directories above it.
pub open spec fn is_prefix(a: PathView, b: PathView) -> bool {
    a.len() <= b.len() && a == b.take(a.len() as int)
}

/// One of the two paths lies at or above the other.
pub open spec fn overlaps(a: PathView, b: PathView) -> bool {
    is_prefix(a, b) || is_prefix(b, a)
}

/// A path relative to the project root. The root itself is the path without names.
#[derive(Debug)]
pub struct ProjectRelativePathBuf {
    pub parts: Vec<String>,
}

impl View for ProjectRelativePathBuf {
    type V = PathView;

    open spec fn view(&self) -> PathView {
        text::views(self.parts@)
    }
}

impl Clone for ProjectRelativePathBuf {
    fn clone(&self) -> (r: Self)
        ensures
            r@ == self@,
            r.parts@ == self.parts@,
    {
        ProjectRelativePathBuf { parts: clone_strings(&self.parts) }
    }
}

/// How a path is written: its names with slashes between them.
pub open spec fn path_text(path: PathView) -> Seq<char> {
    text::joined(path, "/"@)
}

impl ProjectRelativePathBuf {
    /// The project root.
    pub fn root() -> (r: Self)
        ensures
            r@ == Seq::<Seq<char>>::empty(),
    {
        let r = ProjectRelativePathBuf { parts: Vec::new() };
        assert(r@ =~= Seq::<Seq<char>>::empty());
        r
    }

    /// The path with the given names.
    pub fn from_parts(parts: Vec<String>) -> (r: Self)
        ensures
            r@ == text::views(parts@),
    {
        ProjectRelativePathBuf { parts }
    }

    /// The number of names in the path.
    pub fn depth(&self) -> (n: usize)
        ensures
            n == self@.len(),
    {
        self.parts.len()
    }

    /// Whether this path lies at or above `other`.
    pub fn is_prefix_of(&self, other: &Self) -> (r: bool)
        ensures
            r == is_prefix(self@, other@),
    {
        if self.parts.len() > other.parts.len() {
            return false;
        }
        let mut i: usize = 0;
        while i < self.parts.len()
            invariant
                self.parts.len() <= other.parts.len(),
                i <= self.parts.len(),
                forall|k: int| 0 <= k < i ==> self@[k] == other@[k],
            decreases self.parts.len() - i,
        {
            if !(self.parts[i] == other.parts[i]) {
                assert(self@[i as int] != other@[i as int]);
                assert(other@.take(self@.len() as int)[i as int] == other@[i as int]);
                return false;
            }
            i = i + 1;
        }
        assert(self@ =~= other@.take(self@.len() as int));
        true
    }

    /// Whether the two paths are the same.
    pub fn same_as(&self, other: &Self) -> (r: bool)
        ensures
            r == (self@ == other@),
    {
        let r = self.parts.len() == other.parts.len() && self.is_prefix_of(other);
        assert(other@.take(other@.len() as int) =~= other@);
        r
    }

    /// Whether one of the two paths lies at or above the other.
    pub fn overlaps_with(&self, other: &Self) -> (r: bool)
        ensures
            r == overlaps(self@, other@),
    {
        self.is_prefix_of(other) || other.is_prefix_of(self)
    }

    /// The first `n` names of the path.
    pub fn ancestor(&self, n: usize) -> (r: Self)
        requires
            n <= self@.len(),
        ensures
            r@ == self@.take(n as int),
    {
        let mut parts = clone_strings(&self.parts);
        parts.truncate(n);
        let r = ProjectRelativePathBuf { parts };
        assert(r@ =~= self@.take(n as int));
        r
    }

    /// The names of the path from the `n`-th on.
    pub fn rest(&self, n: usize) -> (r: Self)
        requires
            n <= self@.len(),
        ensures
            r@ == self@.skip(n as int),
    {
        let mut parts = clone_strings(&self.parts);
        let tail = parts.split_off(n);
        let r = ProjectRelativePathBuf { parts: tail };
        assert(r@ =~= self@.skip(n as int));
        r
    }

    /// This path followed by the names of `tail`.
    pub fn join(&self, tail: &Self) -> (r: Self)
        ensures
            r@ == self@ + tail@,
    {
        let mut parts = clone_strings(&self.parts);
        let mut more = clone_strings(&tail.parts);
        parts.append(&mut more);
        let r = ProjectRelativePathBuf { parts };
        assert(r@ =~= self@ + tail@);
        r
    }

    /// This path followed by one more name.
    pub fn child(&self, name: &String) -> (r: Self)
        ensures
            r@ == self@.push(name@),
    {
        let mut parts = clone_strings(&self.parts);
        parts.push(name.clone());
        let r = ProjectRelativePathBuf { parts };
        assert(r@ =~= self@.push(name@));
        r
    }

    /// The path as text.
    pub fn display(&self) -> (r: String)
        ensures
            r@ == path_text(self@),
    {
        join(&self.parts, "/")
    }
}

/// The mathematical forms of `paths`, in order.
pub open spec fn path_views(paths: Seq<ProjectRelativePathBuf>) -> Seq<PathView> {
    Seq::new(paths.len(), |i: int| paths[i]@)
}

/// Whether `path` is one of `paths`.
pub fn contains_path(paths: &Vec<ProjectRelativePathBuf>, path: &ProjectRelativePathBuf) -> (r:
    bool)
    ensures
        r == path_views(paths@).contains(path@),
{
    let mut i: usize = 0;
    while i < paths.len()
        invariant
            i <= paths.len(),
            forall|k: int| 0 <= k < i ==> paths@[k]@ != path@,
        decreases paths.len() - i,
    {
        if paths[i].same_as(path) {
            assert(path_views(paths@)[i as int] == path@);
            return true;
        }
        i = i + 1;
    }
    false
}

/// A path lies at or above itself, and being above is transitive.
pub proof fn lemma_prefix_order(a: PathView, b: PathView, c: PathView)
    ensures
        is_prefix(a, a),
        is_prefix(a, b) && is_prefix(b, c) ==> is_prefix(a, c),
        is_prefix(a, b) && is_prefix(b, a) ==> a == b,
        is_prefix(a, c) && is_prefix(b, c) ==> overlaps(a, b),
{
    assert(a.take(a.len() as int) =~= a);
    assert(b.take(b.len() as int) =~= b);
    if is_prefix(a, b) && is_prefix(b, c) {
        assert(c.take(b.len() as int).take(a.len() as int) =~= c.take(a.len() as int));
    }
    if is_prefix(a, c) && is_prefix(b, c) {
        if a.len() <= b.len() {
            assert(c.take(b.len() as int).take(a.len() as int) =~= c.take(a.len() as int));
        } else {
            assert(c.take(a.len() as int).take(b.len() as int) =~= c.take(b.len() as int));
        }
    }
}

/// A path lies at or above another exactly where the other goes on from it.
pub proof fn law_paths_above_others(a: PathView, b: PathView, rest: PathView)
    ensures
        is_prefix(a, a + rest),
        is_prefix(a, b) ==> b =~= a + b.skip(a.len() as int),
        overlaps(a, b) == overlaps(b, a),
        overlaps(a, a + rest) && overlaps(a + rest, a),
        overlaps(a, b) && a.len() == b.len() ==> a == b,
        overlaps(a, b) && a.len() > 0 && b.len() > 0 ==> a[0] == b[0],
{
    assert((a + rest).take(a.len() as int) =~= a);
    assert(a.take(a.len() as int) =~= a);
    assert(b.take(b.len() as int) =~= b);
    if is_prefix(a, b) && a.len() > 0 {
        assert(b.take(a.len() as int)[0] == b[0]);
    }
    if is_prefix(b, a) && b.len() > 0 {
        assert(a.take(b.len() as int)[0] == a[0]);
    }
}

} // verus!
