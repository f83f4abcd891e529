//! Joining the results of many computations: whether the first error ends it all.
use std::collections::HashMap;
use vstd::prelude::*;

verus! {

broadcast use vstd::std_specs::hash::group_hash_axioms;

/// A map that remembers the order of its keys.
#[verifier::external_type_specification]
#[verifier::external_body]
#[verifier::reject_recursive_types(K)]
#[verifier::reject_recursive_types(V)]
#[verifier::reject_recursive_types(S)]
pub struct ExIndexMap<K, V, S>(indexmap::IndexMap<K, V, S>);

/// The entries of an `IndexMap`, in its order.
pub uninterp spec fn index_map_entries(m: indexmap::IndexMap<u64, u64>) -> Seq<(u64, u64)>;

/// `entries` after `value` was put under `key`: a key that is there keeps its place, a new one
/// comes last.
pub open spec fn entry_insert(entries: Seq<(u64, u64)>, key: u64, value: u64) -> Seq<(u64, u64)>
    decreases entries.len(),
{
    if entries.len() == 0 {
        seq![(key, value)]
    } else if entries[0].0 == key {
        entries.update(0, (key, value))
    } else {
        seq![entries[0]] + entry_insert(entries.drop_first(), key, value)
    }
}

/// `entries` after all of `items` were put into them, in order.
pub open spec fn entry_insert_all(items: Seq<(u64, u64)>) -> Seq<(u64, u64)>
    decreases items.len(),
{
    if items.len() == 0 {
        Seq::empty()
    } else {
        entry_insert(entry_insert_all(items.drop_last()), items.last().0, items.last().1)
    }
}

/// The map that putting `items` in, in order, gives.
pub open spec fn map_of_items<K, V>(items: Seq<(K, V)>) -> Map<K, V>
    decreases items.len(),
{
    if items.len() == 0 {
        Map::empty()
    } else {
        map_of_items(items.drop_last()).insert(items.last().0, items.last().1)
    }
}

/// A capacity that is asked for is no larger than this. A capacity is only a hint.
pub const MAX_CAPACITY_HINT: usize = 65536;

/// A capacity to ask for.
fn capacity_hint(cap: usize) -> (r: usize)
    ensures
        r == (if cap < MAX_CAPACITY_HINT {
            cap
        } else {
            MAX_CAPACITY_HINT
        }),
{
    if cap < MAX_CAPACITY_HINT {
        cap
    } else {
        MAX_CAPACITY_HINT
    }
}

/// `IndexMap::with_capacity`: an empty map.
#[verifier::external_body]
fn index_map_with_capacity(cap: usize) -> (r: indexmap::IndexMap<u64, u64>)
    requires
        cap <= MAX_CAPACITY_HINT,
    ensures
        index_map_entries(r) == Seq::<(u64, u64)>::empty(),
{
    indexmap::IndexMap::with_capacity(cap)
}

/// `IndexMap::insert`: the value of a key that is there is replaced in place; a new key comes
/// last.
#[verifier::external_body]
fn index_map_insert(m: &mut indexmap::IndexMap<u64, u64>, key: u64, value: u64)
    ensures
        index_map_entries(*final(m)) == entry_insert(index_map_entries(*old(m)), key, value),
{
    m.insert(key, value);
}

/// A vector that holds one item without allocating.
#[verifier::external_body]
pub struct SmallItems {
    inner: smallvec::SmallVec<[u64; 1]>,
}

/// The items of a `SmallVec`.
pub uninterp spec fn small_items(v: SmallItems) -> Seq<u64>;

/// `SmallVec::into_vec`: the items in order.
#[verifier::external_body]
fn small_items_into_vec(v: SmallItems) -> (r: Vec<u64>)
    ensures
        r@ == small_items(v),
{
    v.inner.into_vec()
}

impl SmallItems {
    /// The items in order.
    pub fn into_items(self) -> (r: Vec<u64>)
        ensures
            r@ == small_items(self),
    {
        small_items_into_vec(self)
    }
}

/// `SmallVec::with_capacity`: no items.
#[verifier::external_body]
fn small_items_with_capacity(cap: usize) -> (r: SmallItems)
    requires
        cap <= MAX_CAPACITY_HINT,
    ensures
        small_items(r) == Seq::<u64>::empty(),
{
    SmallItems { inner: smallvec::SmallVec::with_capacity(cap) }
}

/// `SmallVec::push`: the item comes last.
#[verifier::external_body]
fn small_items_push(v: &mut SmallItems, item: u64)
    ensures
        small_items(*final(v)) == small_items(*old(v)).push(item),
{
    v.inner.push(item);
}

/// Something that results can be collected into.
pub trait KeepGoingCollectable<I>: Sized {
    /// The collection is what adding `items` one after the other gives.
    spec fn collected(&self, items: Seq<I>) -> bool;

    /// An empty collection, with room for about `cap` items.
    fn with_capacity(cap: usize) -> (r: Self)
        ensures
            r.collected(Seq::empty()),
    ;

    fn push(&mut self, item: I)
        ensures
            forall|items: Seq<I>| #[trigger]
                old(self).collected(items) ==> final(self).collected(items.push(item)),
    ;
}

impl<I> KeepGoingCollectable<I> for Vec<I> {
    open spec fn collected(&self, items: Seq<I>) -> bool {
        self@ == items
    }

    fn with_capacity(cap: usize) -> (r: Self) {
        Vec::with_capacity(capacity_hint(cap))
    }

    fn push(&mut self, item: I) {
        Vec::push(self, item);
    }
}

impl<V> KeepGoingCollectable<(u64, V)> for HashMap<u64, V> {
    open spec fn collected(&self, items: Seq<(u64, V)>) -> bool {
        self@ == map_of_items(items)
    }

    fn with_capacity(cap: usize) -> (r: Self) {
        HashMap::with_capacity(capacity_hint(cap))
    }

    fn push(&mut self, item: (u64, V)) {
        let ghost before = self@;
        let (k, v) = item;
        self.insert(k, v);
        proof {
            assert forall|items: Seq<(u64, V)>| #[trigger]
                old(self).collected(items) implies self.collected(items.push((k, v))) by {
                assert(items.push((k, v)).drop_last() =~= items);
            }
        }
    }
}

impl KeepGoingCollectable<(u64, u64)> for indexmap::IndexMap<u64, u64> {
    open spec fn collected(&self, items: Seq<(u64, u64)>) -> bool {
        index_map_entries(*self) == entry_insert_all(items)
    }

    fn with_capacity(cap: usize) -> (r: Self) {
        index_map_with_capacity(capacity_hint(cap))
    }

    fn push(&mut self, item: (u64, u64)) {
        let (k, v) = item;
        index_map_insert(self, k, v);
        proof {
            assert forall|items: Seq<(u64, u64)>| #[trigger]
                old(self).collected(items) implies self.collected(items.push((k, v))) by {
                assert(items.push((k, v)).drop_last() =~= items);
            }
        }
    }
}

impl KeepGoingCollectable<u64> for SmallItems {
    open spec fn collected(&self, items: Seq<u64>) -> bool {
        small_items(*self) == items
    }

    fn with_capacity(cap: usize) -> (r: Self) {
        small_items_with_capacity(capacity_hint(cap))
    }

    fn push(&mut self, item: u64) {
        small_items_push(self, item);
    }
}

/// The good results among `inputs`, in order.
pub open spec fn ok_values<R, E>(inputs: Seq<Result<R, E>>) -> Seq<R>
    decreases inputs.len(),
{
    if inputs.len() == 0 {
        Seq::empty()
    } else {
        let before = ok_values(inputs.drop_last());
        match inputs.last() {
            Ok(r) => before.push(r),
            Err(_) => before,
        }
    }
}

/// There is an error among `inputs`.
pub open spec fn has_error<R, E>(inputs: Seq<Result<R, E>>) -> bool {
    exists|i: int| 0 <= i < inputs.len() && (#[trigger] inputs[i]) is Err
}

/// Whether computations go on after one of them failed.
pub struct KeepGoingHolder(pub bool);

/// Data of a request.
pub struct UserComputationData {
    pub keep_going: Option<KeepGoingHolder>,
}

pub trait HasKeepGoing {
    /// Whether computations go on, where that has been decided.
    spec fn keep_going_view(&self) -> Option<bool>;

    fn set_keep_going(&mut self, keep_going: bool)
        ensures
            final(self).keep_going_view() == Some(keep_going),
    ;

    fn get_keep_going(&self) -> (r: bool)
        requires
            self.keep_going_view() is Some,
        ensures
            Some(r) == self.keep_going_view(),
    ;
}

impl HasKeepGoing for UserComputationData {
    open spec fn keep_going_view(&self) -> Option<bool> {
        match self.keep_going {
            Some(h) => Some(h.0),
            None => None,
        }
    }

    fn set_keep_going(&mut self, keep_going: bool) {
        self.keep_going = Some(KeepGoingHolder(keep_going));
    }

    fn get_keep_going(&self) -> (r: bool) {
        match &self.keep_going {
            Some(h) => h.0,
            None => {
                assert(false);
                false
            },
        }
    }
}

pub struct KeepGoing;

impl KeepGoing {
    /// Joins the results of computations of a request, in their order.
    pub fn try_compute_join_all<C: KeepGoingCollectable<R>, R, E>(
        data: &UserComputationData,
        results: Vec<Result<R, E>>,
    ) -> (r: Result<C, E>)
        requires
            data.keep_going_view() is Some,
        ensures
            joins(r, data.keep_going_view()->0, results@),
    {
        let keep_going = data.get_keep_going();
        Self::try_join_all(keep_going, results)
    }

    /// Joins results. Without `keep_going` the first error is the result; with it all are awaited,
    /// and the last error is.
    pub fn try_join_all<C: KeepGoingCollectable<R>, R, E>(
        keep_going: bool,
        inputs: Vec<Result<R, E>>,
    ) -> (r: Result<C, E>)
        ensures
            joins(r, keep_going, inputs@),
    {
        let ghost all = inputs@;
        let mut joining: Joining<C, E> = Joining::start::<R>(keep_going, inputs.len());
        assert(all.take(0) =~= Seq::empty());
        for x in it: inputs
            invariant
                it.seq() == all,
                joining.keep_going == keep_going,
                has_seen(joining, all.take(it.index() as int)),
        {
            let ghost n = it.index() as int;
            proof {
                assert(all[n] == x);
                assert(all.take(n).push(x) =~= all.take(n + 1));
            }
            match joining.step(x) {
                JoinStep::GoOn(next) => {
                    joining = next;
                },
                JoinStep::Stop(e) => {
                    proof {
                        let seen = all.take(n);
                        assert forall|k: int| 0 <= k < n implies (#[trigger] all[k]) is Ok by {
                            assert(all[k] == seen[k]);
                        }
                    }
                    return Err(e);
                },
            }
        }
        assert(all.take(all.len() as int) =~= all);
        joining.finish()
    }
}

/// What has come of joining the results that are there so far.
pub struct Joining<C, E> {
    pub keep_going: bool,
    pub collected: C,
    /// The last error.
    pub err: Option<E>,
}

/// What follows on one more result.
pub enum JoinStep<C, E> {
    /// The next result is awaited.
    GoOn(Joining<C, E>),
    /// Nothing more is awaited: this error is the result.
    Stop(E),
}

/// The results so far were `inputs`.
pub open spec fn has_seen<C: KeepGoingCollectable<R>, R, E>(
    joining: Joining<C, E>,
    inputs: Seq<Result<R, E>>,
) -> bool {
    &&& joining.collected.collected(ok_values(inputs))
    &&& !joining.keep_going ==> joining.err is None
    &&& match joining.err {
        None => !has_error(inputs),
        Some(e) => exists|i: int|
            0 <= i < inputs.len() && #[trigger] inputs[i] == Err::<R, E>(e) && forall|k: int|
                i < k < inputs.len() ==> (#[trigger] inputs[k]) is Ok,
    }
}

impl<C, E> Joining<C, E> {
    /// Before the first of about `size` results.
    pub fn start<R>(keep_going: bool, size: usize) -> (r: Self) where C: KeepGoingCollectable<R>
        ensures
            r.keep_going == keep_going,
            has_seen(r, Seq::<Result<R, E>>::empty()),
    {
        assert(ok_values(Seq::<Result<R, E>>::empty()) =~= Seq::empty());
        Joining { keep_going, collected: C::with_capacity(size), err: None }
    }

    /// Takes one more result, and says whether another is awaited: after an error only with
    /// `keep_going`.
    pub fn step<R>(self, x: Result<R, E>) -> (r: JoinStep<C, E>) where C: KeepGoingCollectable<R>
        ensures
            match r {
                JoinStep::GoOn(next) => {
                    &&& self.keep_going || x is Ok
                    &&& next.keep_going == self.keep_going
                    &&& forall|inputs: Seq<Result<R, E>>| #[trigger]
                        has_seen(self, inputs) ==> has_seen(next, inputs.push(x))
                },
                JoinStep::Stop(e) => {
                    &&& !self.keep_going
                    &&& x == Err::<R, E>(e)
                    &&& forall|inputs: Seq<Result<R, E>>| #[trigger]
                        has_seen(self, inputs) ==> forall|k: int|
                            0 <= k < inputs.len() ==> (#[trigger] inputs[k]) is Ok
                },
            },
    {
        let ghost before = self;
        let mut joining = self;
        match x {
            Ok(value) => {
                joining.collected.push(value);
                proof {
                    assert forall|inputs: Seq<Result<R, E>>| #[trigger]
                        has_seen(before, inputs) implies has_seen(joining, inputs.push(x)) by {
                        lemma_seen_ok(before, joining, inputs, value);
                    }
                }
                JoinStep::GoOn(joining)
            },
            Err(e) => {
                if !joining.keep_going {
                    return JoinStep::Stop(e);
                }
                joining.err = Some(e);
                proof {
                    assert forall|inputs: Seq<Result<R, E>>| #[trigger]
                        has_seen(before, inputs) implies has_seen(joining, inputs.push(x)) by {
                        let next = inputs.push(x);
                        assert(next.drop_last() =~= inputs);
                        assert(next[inputs.len() as int] == Err::<R, E>(e));
                    }
                }
                JoinStep::GoOn(joining)
            },
        }
    }

    /// After the last result.
    pub fn finish<R>(self) -> (r: Result<C, E>) where C: KeepGoingCollectable<R>
        ensures
            r == (match self.err {
                Some(e) => Err::<C, E>(e),
                None => Ok(self.collected),
            }),
            forall|inputs: Seq<Result<R, E>>| #[trigger]
                has_seen(self, inputs) ==> joins(r, self.keep_going, inputs),
    {
        match self.err {
            Some(e) => Err(e),
            None => Ok(self.collected),
        }
    }
}

proof fn lemma_seen_ok<C: KeepGoingCollectable<R>, R, E>(
    before: Joining<C, E>,
    after: Joining<C, E>,
    inputs: Seq<Result<R, E>>,
    value: R,
)
    requires
        has_seen(before, inputs),
        after.keep_going == before.keep_going,
        after.err == before.err,
        after.collected.collected(ok_values(inputs).push(value)),
    ensures
        has_seen(after, inputs.push(Ok(value))),
{
    let next = inputs.push(Ok(value));
    assert(next.drop_last() =~= inputs);
    assert forall|k: int| 0 <= k < inputs.len() implies #[trigger] next[k] == inputs[k] by {}
    if let Some(e) = before.err {
        let i = choose|i: int|
            0 <= i < inputs.len() && #[trigger] inputs[i] == Err::<R, E>(e) && forall|k: int|
                i < k < inputs.len() ==> (#[trigger] inputs[k]) is Ok;
        assert(next[i] == Err::<R, E>(e));
        assert forall|k: int| i < k < next.len() implies (#[trigger] next[k]) is Ok by {
            if k < inputs.len() {
                assert(next[k] == inputs[k]);
            }
        }
    } else {
        assert forall|k: int| 0 <= k < next.len() implies !((#[trigger] next[k]) is Err) by {
            if k < inputs.len() {
                assert(next[k] == inputs[k]);
            }
        }
    }
}

/// `r` is what joining `inputs` gives.
pub open spec fn joins<C: KeepGoingCollectable<R>, R, E>(
    r: Result<C, E>,
    keep_going: bool,
    inputs: Seq<Result<R, E>>,
) -> bool {
    match r {
        Ok(c) => !has_error(inputs) && c.collected(ok_values(inputs)),
        Err(e) => exists|i: int|
            {
                &&& 0 <= i < inputs.len()
                &&& #[trigger] inputs[i] == Err::<R, E>(e)
                &&& !keep_going ==> forall|k: int| 0 <= k < i ==> (#[trigger] inputs[k]) is Ok
                &&& keep_going ==> forall|k: int|
                    i < k < inputs.len() ==> (#[trigger] inputs[k]) is Ok
            },
    }
}

/// Whether computations go on after an error decides which error is reported, but not whether one
/// is.
pub proof fn law_keep_going_keeps_the_verdict<C: KeepGoingCollectable<R>, R, E>(
    a: Result<C, E>,
    b: Result<C, E>,
    inputs: Seq<Result<R, E>>,
)
    requires
        joins(a, true, inputs),
        joins(b, false, inputs),
    ensures
        a is Ok <==> b is Ok,
        a is Ok <==> !has_error(inputs),
{
}

/// Where nothing failed, every value is collected, in order; and whether anything failed or not, a
/// value is among those that are collected exactly where an input gave it.
pub proof fn law_every_value_is_collected<R, E>(inputs: Seq<Result<R, E>>, i: int)
    ensures
        !has_error(inputs) ==> ok_values(inputs).len() == inputs.len(),
        !has_error(inputs) && 0 <= i < inputs.len() ==> inputs[i] == Ok::<R, E>(
            ok_values(inputs)[i],
        ),
        0 <= i < inputs.len() && inputs[i] is Ok ==> ok_values(inputs).contains(inputs[i]->Ok_0),
        0 <= i < ok_values(inputs).len() ==> exists|k: int|
            0 <= k < inputs.len() && #[trigger] inputs[k] == Ok::<R, E>(ok_values(inputs)[i]),
    decreases inputs.len(),
{
    if inputs.len() > 0 {
        let init = inputs.drop_last();
        let last = inputs.len() - 1;
        let before = ok_values(init);
        let after = ok_values(inputs);
        law_every_value_is_collected(init, i);
        assert(inputs[last] == inputs.last());
        assert(forall|k: int| 0 <= k < last ==> #[trigger] init[k] == inputs[k]);
        if !has_error(inputs) {
            assert(inputs[last] is Ok);
            if has_error(init) {
                let k = choose|k: int| 0 <= k < init.len() && (#[trigger] init[k]) is Err;
                assert(inputs[k] is Err);
            }
        }
        if 0 <= i < inputs.len() && inputs[i] is Ok {
            if i < last {
                let n = choose|n: int| 0 <= n < before.len() && before[n] == init[i]->Ok_0;
                assert(after[n] == inputs[i]->Ok_0);
            } else {
                assert(after[after.len() - 1] == inputs[i]->Ok_0);
            }
        }
        if 0 <= i < after.len() {
            if i < before.len() {
                let k = choose|k: int|
                    0 <= k < init.len() && #[trigger] init[k] == Ok::<R, E>(before[i]);
                assert(inputs[k] == Ok::<R, E>(after[i]));
            } else {
                assert(inputs[last] == Ok::<R, E>(after[i]));
            }
        }
    }
}

/// In a map, a key has the value of the last item with that key, and only keys of items are there.
pub proof fn law_last_value_of_a_key<K, V>(items: Seq<(K, V)>, i: int, key: K)
    ensures
        0 <= i < items.len() && (forall|k: int|
            i < k < items.len() ==> (#[trigger] items[k]).0 != items[i].0) ==> map_of_items(
            items,
        ).contains_key(items[i].0) && map_of_items(items)[items[i].0] == items[i].1,
        map_of_items(items).contains_key(key) <==> exists|k: int|
            0 <= k < items.len() && (#[trigger] items[k]).0 == key,
    decreases items.len(),
{
    if items.len() > 0 {
        let init = items.drop_last();
        let last = items.len() - 1;
        law_last_value_of_a_key(init, i, key);
        assert(items[last] == items.last());
        assert(forall|k: int| 0 <= k < last ==> #[trigger] init[k] == items[k]);
        if exists|k: int| 0 <= k < init.len() && (#[trigger] init[k]).0 == key {
            let k = choose|k: int| 0 <= k < init.len() && (#[trigger] init[k]).0 == key;
            assert(items[k].0 == key);
        }
        if exists|k: int| 0 <= k < items.len() && (#[trigger] items[k]).0 == key {
            let k = choose|k: int| 0 <= k < items.len() && (#[trigger] items[k]).0 == key;
            if k < last {
                assert(init[k].0 == key);
            }
        }
        if 0 <= i < last && (forall|k: int|
            i < k < items.len() ==> (#[trigger] items[k]).0 != items[i].0) {
            assert(items[last].0 != items[i].0);
        }
    }
}

/// Putting an entry into an ordered map leaves all other entries where they are; the entry is there
/// afterwards, at its old place or at the end.
pub proof fn law_entries_keep_their_places(
    entries: Seq<(u64, u64)>,
    key: u64,
    value: u64,
    i: int,
)
    ensures
        ({
            let after = entry_insert(entries, key, value);
            &&& after.contains((key, value))
            &&& entries.len() <= after.len() <= entries.len() + 1
            &&& 0 <= i < entries.len() ==> after[i].0 == entries[i].0
            &&& 0 <= i < entries.len() && entries[i].0 != key ==> after[i] == entries[i]
            &&& (exists|k: int| 0 <= k < entries.len() && (#[trigger] entries[k]).0 == key)
                <==> after.len() == entries.len()
        }),
    decreases entries.len(),
{
    let after = entry_insert(entries, key, value);
    if entries.len() == 0 {
        assert(after[0] == (key, value));
    } else if entries[0].0 == key {
        assert(after[0] == (key, value));
    } else {
        let rest = entries.drop_first();
        let tail = entry_insert(rest, key, value);
        law_entries_keep_their_places(rest, key, value, i - 1);
        let n = choose|n: int| 0 <= n < tail.len() && tail[n] == (key, value);
        assert(after[n + 1] == (key, value));
        if exists|k: int| 0 <= k < rest.len() && (#[trigger] rest[k]).0 == key {
            let k = choose|k: int| 0 <= k < rest.len() && (#[trigger] rest[k]).0 == key;
            assert(entries[k + 1].0 == key);
        }
        if exists|k: int| 0 <= k < entries.len() && (#[trigger] entries[k]).0 == key {
            let k = choose|k: int| 0 <= k < entries.len() && (#[trigger] entries[k]).0 == key;
            assert(rest[k - 1] == entries[k]);
        }
        if 0 < i < entries.len() {
            assert(rest[i - 1] == entries[i]);
            assert(after[i] == tail[i - 1]);
        }
    }
}

/// An ordered map that is filled item by item takes in every item: one more item is put into what
/// the items before it gave.
pub proof fn law_every_item_is_put_in(items: Seq<(u64, u64)>, item: (u64, u64))
    ensures
        entry_insert_all(Seq::empty()).len() == 0,
        entry_insert_all(items.push(item)) == entry_insert(entry_insert_all(items), item.0, item.1),
{
    assert(items.push(item).drop_last() =~= items);
}

/// Which failure is reported: the first where the rest is given up, and the last where one keeps
/// going.
pub proof fn law_which_failure_is_reported<C: KeepGoingCollectable<R>, R, E>(
    r: Result<C, E>,
    keep_going: bool,
    inputs: Seq<Result<R, E>>,
    i: int,
)
    requires
        joins(r, keep_going, inputs),
        0 <= i < inputs.len(),
        inputs[i] is Err,
    ensures
        r is Err,
        !keep_going && (forall|k: int| 0 <= k < i ==> (#[trigger] inputs[k]) is Ok) ==> r->Err_0
            == inputs[i]->Err_0,
        keep_going && (forall|k: int| i < k < inputs.len() ==> (#[trigger] inputs[k]) is Ok)
            ==> r->Err_0 == inputs[i]->Err_0,
{
    if let Err(e) = r {
        let n = choose|n: int|
            {
                &&& 0 <= n < inputs.len()
                &&& #[trigger] inputs[n] == Err::<R, E>(e)
                &&& !keep_going ==> forall|k: int| 0 <= k < n ==> (#[trigger] inputs[k]) is Ok
                &&& keep_going ==> forall|k: int|
                    n < k < inputs.len() ==> (#[trigger] inputs[k]) is Ok
            };
        assert(inputs[n] is Err);
    }
}

} // verus!
