//! Describing Rust targets to rust-analyzer.
use vstd::prelude::*;
use vstd::string::*;

use crate::text;

verus! {

/// The hasher of `FxHashSet`.
#[verifier::external_type_specification]
#[verifier::external_body]
pub struct ExFxHasher(rustc_hash::FxHasher);

/// Makes hashers of one type.
#[verifier::external_type_specification]
#[verifier::external_body]
#[verifier::reject_recursive_types(H)]
pub struct ExBuildHasherDefault<H>(core::hash::BuildHasherDefault<H>);

/// The strings in an `FxHashSet`.
pub uninterp spec fn fx_set_items(s: rustc_hash::FxHashSet<String>) -> Set<Seq<char>>;

/// `FxHashSet::default`: nothing is in it.
#[verifier::external_body]
fn fx_set_new() -> (r: rustc_hash::FxHashSet<String>)
    ensures
        fx_set_items(r) == Set::<Seq<char>>::empty(),
{
    rustc_hash::FxHashSet::default()
}

/// `FxHashSet::insert`: the string is in the set afterwards, with all that was there before.
/// Returns whether it is new.
#[verifier::external_body]
fn fx_set_insert(s: &mut rustc_hash::FxHashSet<String>, item: String) -> (r: bool)
    ensures
        fx_set_items(*final(s)) == fx_set_items(*old(s)).insert(item@),
        r == !fx_set_items(*old(s)).contains(item@),
{
    s.insert(item)
}

/// `FxHashSet::contains`.
#[verifier::external_body]
fn fx_set_contains(s: &rustc_hash::FxHashSet<String>, item: &String) -> (r: bool)
    ensures
        r == fx_set_items(*s).contains(item@),
{
    s.contains(item)
}

/// A target of the build.
#[derive(Debug, PartialEq, Eq)]
pub struct Target(pub String);

impl Target {
    pub fn new(name: String) -> (r: Self)
        ensures
            r.0 == name,
    {
        Target(name)
    }

    /// Another handle on the same target.
    pub fn dupe(&self) -> (r: Self)
        ensures
            r == *self,
    {
        Target(self.0.clone())
    }
}

/// The names of targets, in order.
pub open spec fn target_names(targets: Seq<Target>) -> Seq<Seq<char>> {
    Seq::new(targets.len(), |i: int| targets[i].0@)
}

/// The name of the unit tests of a target.
pub open spec fn unittest_name(name: Seq<char>) -> Seq<char> {
    name + "-unittest"@
}

/// Those of the first `n` names that stay: neither a name that stands there already, nor one
/// whose unit tests are among `all`.
pub open spec fn deduped(all: Seq<Seq<char>>, n: int) -> Seq<Seq<char>>
    decreases n,
{
    if n <= 0 {
        Seq::empty()
    } else {
        let before = deduped(all, n - 1);
        let name = all[n - 1];
        if all.contains(unittest_name(name)) || before.contains(name) {
            before
        } else {
            before.push(name)
        }
    }
}

/// Removes duplicate targets, but preserves order.
///
/// This also removes `foo` if `foo-unittest` is present.
pub fn dedupe_targets(targets: &Vec<Target>) -> (r: Vec<Target>)
    ensures
        target_names(r@) == deduped(target_names(targets@), targets@.len() as int),
{
    let ghost all = target_names(targets@);
    let mut unique_targets = fx_set_new();
    let mut i: usize = 0;
    while i < targets.len()
        invariant
            i <= targets@.len(),
            all == target_names(targets@),
            fx_set_items(unique_targets) == all.take(i as int).to_set(),
        decreases targets@.len() - i,
    {
        fx_set_insert(&mut unique_targets, targets[i].0.clone());
        proof {
            let before = all.take(i as int);
            let after = all.take(i + 1);
            assert(after =~= before.push(all[i as int]));
            assert(after.to_set() =~= before.to_set().insert(all[i as int])) by {
                assert forall|s: Seq<char>| after.contains(s) implies before.contains(s) || s
                    == all[i as int] by {
                    let k = choose|k: int| 0 <= k < after.len() && after[k] == s;
                    if k < i {
                        assert(before[k] == s);
                    }
                }
                assert forall|s: Seq<char>| before.contains(s) || s == all[i as int] implies
                    after.contains(s) by {
                    if before.contains(s) {
                        let k = choose|k: int| 0 <= k < before.len() && before[k] == s;
                        assert(after[k] == s);
                    } else {
                        assert(after[i as int] == s);
                    }
                }
            }
        }
        i = i + 1;
    }
    assert(all.take(all.len() as int) =~= all);
    let mut seen = fx_set_new();
    let mut unique_targets_acc: Vec<Target> = Vec::new();
    let mut j: usize = 0;
    assert(target_names(unique_targets_acc@) =~= Seq::empty());
    while j < targets.len()
        invariant
            j <= targets@.len(),
            all == target_names(targets@),
            fx_set_items(unique_targets) == all.to_set(),
            target_names(unique_targets_acc@) == deduped(all, j as int),
            forall|s: Seq<char>| #[trigger]
                fx_set_items(seen).contains(s) <==> deduped(all, j as int).contains(s),
        decreases targets@.len() - j,
    {
        let ghost before = deduped(all, j as int);
        let ghost acc = unique_targets_acc@;
        let unittest = text::concat2(targets[j].0.as_str(), "-unittest");
        assert(all.to_set().contains(unittest@) <==> all.contains(unittest@));
        if !fx_set_contains(&unique_targets, &unittest) {
            if !fx_set_contains(&seen, &targets[j].0) {
                fx_set_insert(&mut seen, targets[j].0.clone());
                unique_targets_acc.push(targets[j].dupe());
                proof {
                    let name = all[j as int];
                    assert(target_names(unique_targets_acc@) =~= target_names(acc).push(name));
                    assert forall|s: Seq<char>| #[trigger]
                        fx_set_items(seen).contains(s) <==> before.push(name).contains(s) by {
                        if before.contains(s) {
                            let k = choose|k: int| 0 <= k < before.len() && before[k] == s;
                            assert(before.push(name)[k] == s);
                        }
                        if s == name {
                            assert(before.push(name)[before.len() as int] == s);
                        }
                        if before.push(name).contains(s) && s != name {
                            let k = choose|k: int|
                                0 <= k < before.push(name).len() && before.push(name)[k] == s;
                            assert(before[k] == s);
                        }
                    }
                }
            }
        }
        j = j + 1;
    }
    unique_targets_acc
}

/// No target stays twice.
pub proof fn law_deduped_targets_are_distinct(all: Seq<Seq<char>>, n: int)
    requires
        0 <= n <= all.len(),
    ensures
        deduped(all, n).no_duplicates(),
    decreases n,
{
    if n > 0 {
        law_deduped_targets_are_distinct(all, n - 1);
        let before = deduped(all, n - 1);
        let name = all[n - 1];
        if !before.contains(name) {
            assert forall|i: int, j: int|
                0 <= i < before.push(name).len() && 0 <= j < before.push(name).len() && i
                    != j implies before.push(name)[i] != before.push(name)[j] by {
                if i < before.len() {
                    assert(before.contains(before[i]));
                }
                if j < before.len() {
                    assert(before.contains(before[j]));
                }
            }
        }
    }
}

proof fn lemma_deduped_contains(all: Seq<Seq<char>>, n: int, name: Seq<char>)
    requires
        0 <= n <= all.len(),
    ensures
        deduped(all, n).contains(name) <==> all.take(n).contains(name) && !all.contains(
            unittest_name(name),
        ),
    decreases n,
{
    if n > 0 {
        lemma_deduped_contains(all, n - 1, name);
        let before = deduped(all, n - 1);
        let last = all[n - 1];
        let shorter = all.take(n - 1);
        assert(all.take(n) =~= shorter.push(last));
        assert(shorter.push(last).contains(name) <==> shorter.contains(name) || name == last) by {
            if shorter.contains(name) {
                let k = choose|k: int| 0 <= k < shorter.len() && shorter[k] == name;
                assert(shorter.push(last)[k] == name);
            }
            if name == last {
                assert(shorter.push(last)[n - 1] == name);
            }
            if shorter.push(last).contains(name) && name != last {
                let k = choose|k: int| 0 <= k < n && shorter.push(last)[k] == name;
                assert(shorter[k] == name);
            }
        }
        assert(before.push(last).contains(name) <==> before.contains(name) || name == last) by {
            if before.contains(name) {
                let k = choose|k: int| 0 <= k < before.len() && before[k] == name;
                assert(before.push(last)[k] == name);
            }
            if name == last {
                assert(before.push(last)[before.len() as int] == name);
            }
            if before.push(last).contains(name) && name != last {
                let k = choose|k: int|
                    0 <= k < before.push(last).len() && before.push(last)[k] == name;
                assert(before[k] == name);
            }
        }
    } else {
        assert(!all.take(0).contains(name));
    }
}

/// A target stays exactly if it was there and its unit tests were not.
pub proof fn law_deduped_keeps_the_rest(all: Seq<Seq<char>>, name: Seq<char>)
    ensures
        deduped(all, all.len() as int).contains(name) <==> all.contains(name) && !all.contains(
            unittest_name(name),
        ),
{
    lemma_deduped_contains(all, all.len() as int, name);
    assert(all.take(all.len() as int) =~= all);
}

proof fn lemma_deduped_order(all: Seq<Seq<char>>, n: int, i: int, j: int, at: int)
    requires
        0 <= n <= all.len(),
        0 <= i < j < deduped(all, n).len(),
        0 <= at < n,
        all[at] == deduped(all, n)[j],
    ensures
        exists|k: int| 0 <= k < at && #[trigger] all[k] == deduped(all, n)[i],
    decreases n,
{
    let before = deduped(all, n - 1);
    let name = all[n - 1];
    let kept = deduped(all, n)[i];
    assert(kept == before[i]);
    assert(before.contains(kept));
    lemma_deduped_contains(all, n - 1, kept);
    if at == n - 1 {
        let shorter = all.take(n - 1);
        let k = choose|k: int| 0 <= k < shorter.len() && shorter[k] == kept;
        assert(all[k] == kept);
    } else {
        assert(all.take(n - 1)[at] == all[at]);
        lemma_deduped_contains(all, n - 1, name);
        lemma_deduped_order(all, n - 1, i, j, at);
    }
}

/// Removing duplicates preserves the order: wherever a target stands among all of them, each target
/// that comes before it in the result stands further to the front too.
pub proof fn law_deduped_preserves_order(all: Seq<Seq<char>>, i: int, j: int, at: int)
    requires
        0 <= i < j < deduped(all, all.len() as int).len(),
        0 <= at < all.len(),
        all[at] == deduped(all, all.len() as int)[j],
    ensures
        exists|k: int|
            0 <= k < at && #[trigger] all[k] == deduped(all, all.len() as int)[i],
{
    lemma_deduped_order(all, all.len() as int, i, j, at);
}

/// A target goes where its unit tests are there, and the unit tests stay unless they have unit tests
/// themselves.
pub proof fn law_unit_tests_replace_their_target(all: Seq<Seq<char>>, name: Seq<char>)
    requires
        all.contains(name + "-unittest"@),
        !all.contains(name + "-unittest"@ + "-unittest"@),
    ensures
        !deduped(all, all.len() as int).contains(name),
        deduped(all, all.len() as int).contains(name + "-unittest"@),
{
    law_deduped_keeps_the_rest(all, name);
    law_deduped_keeps_the_rest(all, name + "-unittest"@);
}

} // verus!
