//! Contexts of incremental computations: which task computes a key, what a computation depends
//! on, and the version it belongs to.
use std::collections::HashMap;
use std::collections::HashSet;
use std::sync::Arc;
use vstd::prelude::*;

verus! {

broadcast use vstd::std_specs::hash::group_hash_axioms;

/// The index of a key.
#[derive(Clone, Copy, Debug, PartialEq, Eq, Structural)]
pub struct DiceKey(pub u32);

/// The key for the sake of which another one is computed.
#[derive(Clone, Copy, Debug, PartialEq, Eq, Structural)]
pub enum ParentKey {
    /// It is asked for from outside.
    Root,
    Key(DiceKey),
}

/// The version of the state that a computation sees.
#[derive(Clone, Copy, Debug, PartialEq, Eq, Structural)]
pub struct VersionNumber(pub u64);

/// Tells apart computations of the same version.
#[derive(Clone, Copy, Debug, PartialEq, Eq, Structural)]
pub struct VersionEpoch(pub u64);

/// A task that computes a key.
pub struct DiceTask {
    pub id: u64,
    pub cancelled: bool,
    /// For whom the key is computed.
    pub dependents: Vec<ParentKey>,
}

/// What is known of the keys of one version, shared by all computations of that version.
pub struct SharedCache<V> {
    pub completed: HashMap<u32, Arc<V>>,
    pub tasks: HashMap<u32, DiceTask>,
    pub is_cancelled: bool,
    /// The number of the next task.
    pub next_task: u64,
}

/// What the cache has for a key.
pub enum CacheState<V> {
    Computed(Arc<V>),
    TransactionCancelled,
    /// A task is computing the key.
    Running(u64),
    /// The task that was computing the key has been cancelled.
    TaskCancelled(u64),
    Vacant,
}

/// What the cache has for `key`. Values that are there can be had even after the transaction was
/// cancelled.
pub open spec fn cache_state<V>(cache: SharedCache<V>, key: DiceKey) -> CacheState<V> {
    if cache.completed@.contains_key(key.0) {
        CacheState::Computed(cache.completed@[key.0])
    } else if cache.is_cancelled {
        CacheState::TransactionCancelled
    } else if cache.tasks@.contains_key(key.0) {
        if cache.tasks@[key.0].cancelled {
            CacheState::TaskCancelled(cache.tasks@[key.0].id)
        } else {
            CacheState::Running(cache.tasks@[key.0].id)
        }
    } else {
        CacheState::Vacant
    }
}

/// A computation that is to be spawned.
pub struct SpawnForKey {
    pub task: u64,
    pub key: DiceKey,
    pub version_epoch: VersionEpoch,
    /// The cancelled task that this one takes over from; it has to end first.
    pub previously_cancelled: Option<u64>,
}

/// How a computed value can be had.
pub enum DicePromise<V> {
    Ready(Arc<V>),
    /// It is being computed, under this number.
    Task(u64),
}

/// The computation was cancelled.
#[derive(Clone, Copy, Debug, PartialEq, Eq, Structural)]
pub struct Cancelled;

/// The promise of the value of a key, and the computation to be spawned for it.
pub struct Requested<V> {
    pub promise: DicePromise<V>,
    pub spawn: Option<SpawnForKey>,
}

/// How a projection can be had.
pub enum ProjectionPromise<V> {
    Ready(Arc<V>),
    /// Another computation is at it.
    Existing(u64),
    /// It is to be computed right away, by the task with this number.
    Compute(u64),
}

/// Context that is shared for all current live computations of the same version.
#[derive(Clone, Copy, Debug, PartialEq, Eq, Structural)]
pub struct SharedLiveTransactionCtx {
    pub version: VersionNumber,
    pub version_epoch: VersionEpoch,
}

/// A new task for `parent`.
pub open spec fn is_new_task(task: DiceTask, id: u64, parent: ParentKey) -> bool {
    task.id == id && !task.cancelled && task.dependents@ == seq![parent]
}

/// `after` is `before` with a new task for `key`.
pub open spec fn with_new_task<V>(
    before: SharedCache<V>,
    after: SharedCache<V>,
    key: DiceKey,
    parent: ParentKey,
) -> bool {
    &&& after.completed@ == before.completed@
    &&& after.is_cancelled == before.is_cancelled
    &&& after.next_task == before.next_task + 1
    &&& after.tasks@.dom() == before.tasks@.dom().insert(key.0)
    &&& is_new_task(after.tasks@[key.0], before.next_task, parent)
    &&& forall|k: u32|
        k != key.0 && before.tasks@.contains_key(k) ==> #[trigger] after.tasks@[k]
            == before.tasks@[k]
}

/// `after` is `before` with one more dependent of the task of `key`.
pub open spec fn with_dependent<V>(
    before: SharedCache<V>,
    after: SharedCache<V>,
    key: DiceKey,
    parent: ParentKey,
) -> bool {
    &&& after.completed@ == before.completed@
    &&& after.is_cancelled == before.is_cancelled
    &&& after.next_task == before.next_task
    &&& after.tasks@.dom() == before.tasks@.dom()
    &&& after.tasks@[key.0].id == before.tasks@[key.0].id
    &&& after.tasks@[key.0].cancelled == before.tasks@[key.0].cancelled
    &&& after.tasks@[key.0].dependents@ == before.tasks@[key.0].dependents@.push(parent)
    &&& forall|k: u32|
        k != key.0 && before.tasks@.contains_key(k) ==> #[trigger] after.tasks@[k]
            == before.tasks@[k]
}

impl<V> SharedCache<V> {
    /// The empty cache.
    pub fn new() -> (r: Self)
        ensures
            r.completed@ == Map::<u32, Arc<V>>::empty(),
            r.tasks@ == Map::<u32, DiceTask>::empty(),
            !r.is_cancelled,
            r.next_task == 0,
    {
        SharedCache {
            completed: HashMap::new(),
            tasks: HashMap::new(),
            is_cancelled: false,
            next_task: 0,
        }
    }

    /// What the cache has for `key`.
    pub fn get(&self, key: DiceKey) -> (r: CacheState<V>)
        ensures
            r == cache_state(*self, key),
    {
        match self.completed.get(&key.0) {
            Some(v) => CacheState::Computed(v.clone()),
            None => {
                if self.is_cancelled {
                    CacheState::TransactionCancelled
                } else {
                    match self.tasks.get(&key.0) {
                        Some(task) => if task.cancelled {
                            CacheState::TaskCancelled(task.id)
                        } else {
                            CacheState::Running(task.id)
                        },
                        None => CacheState::Vacant,
                    }
                }
            },
        }
    }

    fn put_new_task(&mut self, key: DiceKey, parent: ParentKey) -> (id: u64)
        requires
            old(self).next_task < u64::MAX,
        ensures
            id == old(self).next_task,
            with_new_task(*old(self), *final(self), key, parent),
    {
        let id = self.next_task;
        let mut dependents: Vec<ParentKey> = Vec::new();
        dependents.push(parent);
        assert(dependents@ =~= seq![parent]);
        self.tasks.insert(key.0, DiceTask { id, cancelled: false, dependents });
        self.next_task = id + 1;
        id
    }

    fn depend_on(&mut self, key: DiceKey, parent: ParentKey)
        requires
            old(self).tasks@.contains_key(key.0),
        ensures
            with_dependent(*old(self), *final(self), key, parent),
    {
        match self.tasks.remove(&key.0) {
            Some(task) => {
                let mut task = task;
                task.dependents.push(parent);
                self.tasks.insert(key.0, task);
                assert(self.tasks@.dom() =~= old(self).tasks@.dom());
            },
            None => {},
        }
    }
}

impl SharedLiveTransactionCtx {
    pub fn new(v: VersionNumber, version_epoch: VersionEpoch) -> (r: Self)
        ensures
            r.version == v && r.version_epoch == version_epoch,
    {
        SharedLiveTransactionCtx { version: v, version_epoch }
    }

    pub fn get_version(&self) -> (r: VersionNumber)
        ensures
            r == self.version,
    {
        self.version
    }

    /// How the value of `key` can be had for the sake of `parent_key`. A key that is being
    /// computed is waited for; a key whose task was cancelled is computed anew, by a task that
    /// takes over from it; a key that nobody computes gets a task. Once the transaction is
    /// cancelled nothing is computed any more.
    pub fn compute_opaque<V>(
        &self,
        cache: &mut SharedCache<V>,
        key: DiceKey,
        parent_key: ParentKey,
    ) -> (r: Result<Requested<V>, Cancelled>)
        requires
            old(cache).next_task < u64::MAX,
        ensures
            match cache_state(*old(cache), key) {
                CacheState::Computed(v) => {
                    &&& *final(cache) == *old(cache)
                    &&& r matches Ok(q) && q.promise == DicePromise::Ready(v) && q.spawn is None
                },
                CacheState::Running(id) => {
                    &&& with_dependent(*old(cache), *final(cache), key, parent_key)
                    &&& r matches Ok(q) && q.promise == DicePromise::<V>::Task(id)
                        && q.spawn is None
                },
                CacheState::TaskCancelled(id) => {
                    &&& with_new_task(*old(cache), *final(cache), key, parent_key)
                    &&& r matches Ok(q) && q.promise == DicePromise::<V>::Task(
                        old(cache).next_task,
                    ) && q.spawn == Some(
                        SpawnForKey {
                            task: old(cache).next_task,
                            key,
                            version_epoch: self.version_epoch,
                            previously_cancelled: Some(id),
                        },
                    )
                },
                CacheState::Vacant => {
                    &&& with_new_task(*old(cache), *final(cache), key, parent_key)
                    &&& r matches Ok(q) && q.promise == DicePromise::<V>::Task(
                        old(cache).next_task,
                    ) && q.spawn == Some(
                        SpawnForKey {
                            task: old(cache).next_task,
                            key,
                            version_epoch: self.version_epoch,
                            previously_cancelled: None,
                        },
                    )
                },
                CacheState::TransactionCancelled => r is Err && *final(cache) == *old(cache),
            },
    {
        match cache.get(key) {
            CacheState::Computed(v) => Ok(
                Requested { promise: DicePromise::Ready(v), spawn: None },
            ),
            CacheState::Running(id) => {
                cache.depend_on(key, parent_key);
                Ok(Requested { promise: DicePromise::Task(id), spawn: None })
            },
            CacheState::TaskCancelled(previous) => {
                let task = cache.put_new_task(key, parent_key);
                Ok(
                    Requested {
                        promise: DicePromise::Task(task),
                        spawn: Some(
                            SpawnForKey {
                                task,
                                key,
                                version_epoch: self.version_epoch,
                                previously_cancelled: Some(previous),
                            },
                        ),
                    },
                )
            },
            CacheState::Vacant => {
                let task = cache.put_new_task(key, parent_key);
                Ok(
                    Requested {
                        promise: DicePromise::Task(task),
                        spawn: Some(
                            SpawnForKey {
                                task,
                                key,
                                version_epoch: self.version_epoch,
                                previously_cancelled: None,
                            },
                        ),
                    },
                )
            },
            CacheState::TransactionCancelled => Err(Cancelled),
        }
    }

    /// How a projection can be had. Projections are cheap and computed in place, so they are
    /// never cancelled: after the transaction was cancelled they are computed without being
    /// shared.
    pub fn compute_projection<V>(
        &self,
        cache: &mut SharedCache<V>,
        key: DiceKey,
        parent_key: ParentKey,
    ) -> (r: ProjectionPromise<V>)
        requires
            old(cache).next_task < u64::MAX,
        ensures
            match cache_state(*old(cache), key) {
                CacheState::Computed(v) => *final(cache) == *old(cache) && r
                    == ProjectionPromise::Ready(v),
                CacheState::Running(id) => {
                    &&& with_dependent(*old(cache), *final(cache), key, parent_key)
                    &&& r == ProjectionPromise::<V>::Existing(id)
                },
                CacheState::TransactionCancelled => {
                    &&& final(cache).completed@ == old(cache).completed@
                    &&& final(cache).tasks@ == old(cache).tasks@
                    &&& final(cache).is_cancelled
                    &&& final(cache).next_task == old(cache).next_task + 1
                    &&& r == ProjectionPromise::<V>::Compute(old(cache).next_task)
                },
                _ => {
                    &&& with_new_task(*old(cache), *final(cache), key, parent_key)
                    &&& r == ProjectionPromise::<V>::Compute(old(cache).next_task)
                },
            },
    {
        match cache.get(key) {
            CacheState::Computed(v) => ProjectionPromise::Ready(v),
            CacheState::Running(id) => {
                cache.depend_on(key, parent_key);
                ProjectionPromise::Existing(id)
            },
            CacheState::TaskCancelled(_) => {
                let task = cache.put_new_task(key, parent_key);
                ProjectionPromise::Compute(task)
            },
            CacheState::Vacant => {
                let task = cache.put_new_task(key, parent_key);
                ProjectionPromise::Compute(task)
            },
            CacheState::TransactionCancelled => {
                let task = cache.next_task;
                cache.next_task = task + 1;
                ProjectionPromise::Compute(task)
            },
        }
    }
}

/// A key that a task was put to is from then on computed by that task: whoever asks next waits
/// for it.
pub proof fn law_key_is_computed_once<V>(
    before: SharedCache<V>,
    after: SharedCache<V>,
    key: DiceKey,
    parent: ParentKey,
)
    requires
        cache_state(before, key) is Vacant || cache_state(before, key) is TaskCancelled,
        with_new_task(before, after, key, parent),
    ensures
        cache_state(after, key) == CacheState::<V>::Running(before.next_task),
{
    assert(after.tasks@.dom().contains(key.0));
}

/// Asking for a key does not change what the cache has for other keys.
pub proof fn law_keys_are_independent<V>(
    before: SharedCache<V>,
    after: SharedCache<V>,
    key: DiceKey,
    parent: ParentKey,
    other: DiceKey,
)
    requires
        with_new_task(before, after, key, parent) || (with_dependent(before, after, key, parent)
            && before.tasks@.contains_key(key.0)),
        other != key,
    ensures
        cache_state(after, other) == cache_state(before, other),
{
    assert(after.tasks@.dom().contains(other.0) <==> before.tasks@.dom().contains(other.0));
    if before.tasks@.contains_key(other.0) {
        assert(after.tasks@[other.0] == before.tasks@[other.0]);
    }
}

/// Whether a value may be kept.
#[derive(Clone, Copy, Debug, PartialEq, Eq, Structural)]
pub enum DiceValidity {
    Valid,
    Transient,
}

/// Something is valid only if all it is made of is.
pub open spec fn validity_and(a: DiceValidity, b: DiceValidity) -> DiceValidity {
    if a == DiceValidity::Valid && b == DiceValidity::Valid {
        DiceValidity::Valid
    } else {
        DiceValidity::Transient
    }
}

/// Collects what a computation depends on.
pub struct RecordingDepsTracker {
    pub deps: HashSet<u32>,
    pub validity: DiceValidity,
}

impl RecordingDepsTracker {
    pub fn new() -> (r: Self)
        ensures
            r.deps@ == Set::<u32>::empty(),
            r.validity == DiceValidity::Valid,
    {
        RecordingDepsTracker { deps: HashSet::new(), validity: DiceValidity::Valid }
    }

    /// Notes that the computation depends on `key`.
    pub fn record(&mut self, key: DiceKey, validity: DiceValidity)
        ensures
            final(self).deps@ == old(self).deps@.insert(key.0),
            final(self).validity == validity_and(old(self).validity, validity),
    {
        self.deps.insert(key.0);
        if validity == DiceValidity::Transient {
            self.validity = DiceValidity::Transient;
        }
    }
}

#[derive(Clone, Copy, Debug, PartialEq, Eq, Structural)]
pub enum DiceError {
    Cancelled,
    /// Data was stored twice for one evaluation.
    DuplicateActivationData,
}

/// Data that a key may have provided during its evaluation.
pub struct EvaluationData<A>(pub Option<A>);

/// What becomes known of the evaluation of a key.
pub enum ActivationData<A> {
    Evaluated(Option<A>),
}

impl<A> EvaluationData<A> {
    pub fn none() -> (r: Self)
        ensures
            r.0 is None,
    {
        EvaluationData(None)
    }

    pub fn into_activation_data(self) -> (r: ActivationData<A>)
        ensures
            r == ActivationData::Evaluated(self.0),
    {
        ActivationData::Evaluated(self.0)
    }
}

/// How cycles are looked for while a key is computed.
#[derive(Clone, Copy, Debug, PartialEq, Eq, Structural)]
pub enum KeyComputingUserCycleDetectorData {
    Untracked,
    /// By the detector, which knows the computation under this number.
    Detecting(u64),
}

/// What is needed to evaluate keys.
pub struct AsyncEvaluator<U, D> {
    pub per_live_version_ctx: SharedLiveTransactionCtx,
    pub user_data: Arc<U>,
    pub dice: Arc<D>,
}

impl<U, D> AsyncEvaluator<U, D> {
    /// Another handle on the same evaluator.
    pub fn dupe(&self) -> (r: Self)
        ensures
            r == *self,
    {
        AsyncEvaluator {
            per_live_version_ctx: self.per_live_version_ctx,
            user_data: self.user_data.clone(),
            dice: self.dice.clone(),
        }
    }
}

/// The part of a context that does not record dependencies.
pub struct CoreCtx<U, D, A> {
    pub async_evaluator: AsyncEvaluator<U, D>,
    pub parent_key: ParentKey,
    pub cycles: KeyComputingUserCycleDetectorData,
    /// Data for the entire computation of a key, parallel parts of it included.
    pub evaluation_data: EvaluationData<A>,
}

/// Leads to the next transaction.
pub struct TransactionUpdater<U, D> {
    pub dice: Arc<D>,
    pub user_data: Arc<U>,
}

impl<U, D, A> CoreCtx<U, D, A> {
    pub fn get_version(&self) -> (r: VersionNumber)
        ensures
            r == self.async_evaluator.per_live_version_ctx.version,
    {
        self.async_evaluator.per_live_version_ctx.get_version()
    }

    pub fn into_updater(self) -> (r: TransactionUpdater<U, D>)
        ensures
            r.dice == self.async_evaluator.dice,
            r.user_data == self.async_evaluator.user_data,
    {
        TransactionUpdater {
            dice: self.async_evaluator.dice,
            user_data: self.async_evaluator.user_data,
        }
    }

    /// Takes the result of a projection: what the computation depends on is the projection, and
    /// not all of what it was derived from.
    pub fn project<V>(
        &self,
        key: DiceKey,
        result: Result<(Arc<V>, DiceValidity), Cancelled>,
        dep_trackers: &mut RecordingDepsTracker,
    ) -> (r: Result<Arc<V>, DiceError>)
        ensures
            match result {
                Err(_) => r == Err::<Arc<V>, DiceError>(DiceError::Cancelled)
                    && *final(dep_trackers) == *old(dep_trackers),
                Ok((value, validity)) => {
                    &&& r == Ok::<Arc<V>, DiceError>(value)
                    &&& final(dep_trackers).deps@ == old(dep_trackers).deps@.insert(key.0)
                    &&& final(dep_trackers).validity == validity_and(
                        old(dep_trackers).validity,
                        validity,
                    )
                },
            },
    {
        match result {
            Err(_) => Err(DiceError::Cancelled),
            Ok((value, validity)) => {
                dep_trackers.record(key, validity);
                Ok(value)
            },
        }
    }

    /// Stores data of the evaluation; this may be done once.
    pub fn store_evaluation_data(&mut self, value: A) -> (r: Result<(), DiceError>)
        ensures
            final(self).async_evaluator == old(self).async_evaluator,
            final(self).parent_key == old(self).parent_key,
            final(self).cycles == old(self).cycles,
            match old(self).evaluation_data.0 {
                Some(_) => r == Err::<(), DiceError>(DiceError::DuplicateActivationData) && final(
                    self).evaluation_data == old(self).evaluation_data,
                None => r is Ok && final(self).evaluation_data.0 == Some(value),
            },
    {
        if self.evaluation_data.0.is_some() {
            return Err(DiceError::DuplicateActivationData);
        }
        self.evaluation_data = EvaluationData(Some(value));
        Ok(())
    }
}

/// The data of a context.
pub struct Data<U, D, A> {
    pub ctx_data: CoreCtx<U, D, A>,
    pub dep_trackers: RecordingDepsTracker,
}

/// Context given to the computation of a key. What the computation looks at is recorded in the data
/// of the context.
pub enum ModernComputeCtx<'a, U, D, A> {
    Owned(Data<U, D, A>),
    Borrowed(&'a mut Data<U, D, A>),
}

/// `after` is `before`, and in it the computation also depends on `key`.
pub open spec fn recorded<U, D, A>(
    before: Data<U, D, A>,
    after: Data<U, D, A>,
    key: DiceKey,
    validity: DiceValidity,
) -> bool {
    &&& after.ctx_data == before.ctx_data
    &&& after.dep_trackers.deps@ == before.dep_trackers.deps@.insert(key.0)
    &&& after.dep_trackers.validity == validity_and(before.dep_trackers.validity, validity)
}

/// The key is among those that were looked at.
pub open spec fn looked_at(keys: Seq<(DiceKey, DiceValidity)>, key: u32) -> bool {
    exists|i: int| 0 <= i < keys.len() && (#[trigger] keys[i]).0.0 == key
}

/// Results are recorded as dependencies of the computation: what a computation reports at its end is
/// what it reported so far and all that it looked at since, and it may be kept only if all of that
/// may be.
pub proof fn law_what_was_looked_at_is_reported<U, D, A>(
    states: Seq<Data<U, D, A>>,
    keys: Seq<(DiceKey, DiceValidity)>,
)
    requires
        states.len() == keys.len() + 1,
        forall|i: int|
            0 <= i < keys.len() ==> recorded(
                states[i],
                #[trigger] states[i + 1],
                keys[i].0,
                keys[i].1,
            ),
    ensures
        forall|key: u32| #[trigger]
            states.last().dep_trackers.deps@.contains(key)
                <==> states[0].dep_trackers.deps@.contains(key) || looked_at(keys, key),
        states.last().dep_trackers.validity == DiceValidity::Valid
            <==> states[0].dep_trackers.validity == DiceValidity::Valid && forall|i: int|
            0 <= i < keys.len() ==> (#[trigger] keys[i]).1 == DiceValidity::Valid,
    decreases keys.len(),
{
    if keys.len() > 0 {
        let n = keys.len() - 1;
        let earlier = states.drop_last();
        let rest = keys.drop_last();
        assert forall|i: int| 0 <= i < rest.len() implies recorded(
            earlier[i],
            #[trigger] earlier[i + 1],
            rest[i].0,
            rest[i].1,
        ) by {
            assert(earlier[i + 1] == states[i + 1]);
        }
        law_what_was_looked_at_is_reported(earlier, rest);
        assert(recorded(states[n], states[n + 1], keys[n].0, keys[n].1));
        assert(earlier.last() == states[n]);
        assert forall|key: u32| looked_at(keys, key) <==> looked_at(rest, key) || keys[n].0.0
            == key by {
            if looked_at(keys, key) {
                let i = choose|i: int| 0 <= i < keys.len() && (#[trigger] keys[i]).0.0 == key;
                if i < n {
                    assert(rest[i].0.0 == key);
                }
            }
            if looked_at(rest, key) {
                let i = choose|i: int| 0 <= i < rest.len() && (#[trigger] rest[i]).0.0 == key;
                assert(keys[i].0.0 == key);
            }
            if keys[n].0.0 == key {
                assert(looked_at(keys, key));
            }
        }
        if forall|i: int| 0 <= i < rest.len() ==> (#[trigger] rest[i]).1 == DiceValidity::Valid {
            assert forall|i: int| 0 <= i < n implies (#[trigger] keys[i]).1
                == DiceValidity::Valid by {
                assert(rest[i].1 == DiceValidity::Valid);
            }
        } else {
            let i = choose|i: int|
                0 <= i < rest.len() && (#[trigger] rest[i]).1 != DiceValidity::Valid;
            assert(keys[i].1 != DiceValidity::Valid);
        }
    }
}

/// The data of a context.
pub open spec fn ctx_data_of<U, D, A>(ctx: ModernComputeCtx<'_, U, D, A>) -> Data<U, D, A> {
    match ctx {
        ModernComputeCtx::Owned(d) => d,
        ModernComputeCtx::Borrowed(d) => *d,
    }
}

/// A value that can be looked at only through projections.
pub struct OpaqueValueModern<V> {
    pub derive_from_key: DiceKey,
    pub derive_from: Arc<V>,
    pub validity: DiceValidity,
}

impl<'a, U, D, A> ModernComputeCtx<'a, U, D, A> {
    /// A context that has not recorded anything.
    pub fn new(
        parent_key: ParentKey,
        cycles: KeyComputingUserCycleDetectorData,
        async_evaluator: AsyncEvaluator<U, D>,
    ) -> (r: Self)
        ensures
            r is Owned,
            ctx_data_of(r).ctx_data.async_evaluator == async_evaluator,
            ctx_data_of(r).ctx_data.parent_key == parent_key,
            ctx_data_of(r).ctx_data.cycles == cycles,
            ctx_data_of(r).ctx_data.evaluation_data.0 is None,
            ctx_data_of(r).dep_trackers.deps@ == Set::<u32>::empty(),
            ctx_data_of(r).dep_trackers.validity == DiceValidity::Valid,
    {
        ModernComputeCtx::Owned(
            Data {
                dep_trackers: RecordingDepsTracker::new(),
                ctx_data: CoreCtx {
                    async_evaluator,
                    parent_key,
                    cycles,
                    evaluation_data: EvaluationData::none(),
                },
            },
        )
    }

    pub fn data(&self) -> (r: &Data<U, D, A>)
        ensures
            *r == ctx_data_of(*self),
    {
        match self {
            ModernComputeCtx::Owned(data) => data,
            ModernComputeCtx::Borrowed(data) => data,
        }
    }

    fn data_mut(&mut self) -> (r: &mut Data<U, D, A>)
        ensures
            *r == ctx_data_of(*old(self)),
            ctx_data_of(*final(self)) == *final(r),
            match (*old(self), *final(self)) {
                (ModernComputeCtx::Owned(_), ModernComputeCtx::Owned(_)) => true,
                (ModernComputeCtx::Borrowed(a), ModernComputeCtx::Borrowed(b)) => *final(a)
                    == *final(b),
                _ => false,
            },
    {
        match self {
            ModernComputeCtx::Owned(data) => data,
            ModernComputeCtx::Borrowed(data) => &mut **data,
        }
    }

    /// A context on the same data, for a part of the computation. What the part looks at is recorded
    /// for the whole.
    pub fn borrowed<'b>(&'b mut self) -> (r: ModernComputeCtx<'b, U, D, A>)
        ensures
            ctx_data_of(r) == ctx_data_of(*old(self)),
            r matches ModernComputeCtx::Borrowed(data) && ctx_data_of(*final(self)) == *final(data),
            match (*old(self), *final(self)) {
                (ModernComputeCtx::Owned(_), ModernComputeCtx::Owned(_)) => true,
                (ModernComputeCtx::Borrowed(a), ModernComputeCtx::Borrowed(b)) => *final(a)
                    == *final(b),
                _ => false,
            },
    {
        ModernComputeCtx::Borrowed(self.data_mut())
    }

    pub fn get_version(&self) -> (r: VersionNumber)
        ensures
            r == ctx_data_of(*self).ctx_data.async_evaluator.per_live_version_ctx.version,
    {
        self.data().ctx_data.get_version()
    }

    /// What a computed key can be looked at through. Nothing is recorded: the computation does not
    /// depend on the key before it looks.
    pub fn compute_opaque<V>(
        &self,
        key: DiceKey,
        result: Result<(Arc<V>, DiceValidity), Cancelled>,
    ) -> (r: Result<OpaqueValueModern<V>, DiceError>)
        ensures
            r == (match result {
                Err(_) => Err::<OpaqueValueModern<V>, DiceError>(DiceError::Cancelled),
                Ok((value, validity)) => Ok(
                    OpaqueValueModern { derive_from_key: key, derive_from: value, validity },
                ),
            }),
    {
        match result {
            Err(_) => Err(DiceError::Cancelled),
            Ok((value, validity)) => Ok(
                OpaqueValueModern { derive_from_key: key, derive_from: value, validity },
            ),
        }
    }

    /// The value of a computed key, on which the computation then depends.
    pub fn compute<V>(
        &mut self,
        key: DiceKey,
        result: Result<(Arc<V>, DiceValidity), Cancelled>,
    ) -> (r: Result<Arc<V>, DiceError>)
        ensures
            match result {
                Err(_) => r == Err::<Arc<V>, DiceError>(DiceError::Cancelled) && ctx_data_of(
                    *final(self),
                ) == ctx_data_of(*old(self)),
                Ok((value, validity)) => r == Ok::<Arc<V>, DiceError>(value) && recorded(
                    ctx_data_of(*old(self)),
                    ctx_data_of(*final(self)),
                    key,
                    validity,
                ),
            },
            match (*old(self), *final(self)) {
                (ModernComputeCtx::Owned(_), ModernComputeCtx::Owned(_)) => true,
                (ModernComputeCtx::Borrowed(a), ModernComputeCtx::Borrowed(b)) => *final(a)
                    == *final(b),
                _ => false,
            },
    {
        match self.compute_opaque(key, result) {
            Err(e) => Err(e),
            Ok(opaque) => Ok(self.opaque_into_value(opaque)),
        }
    }

    /// The value itself; from then on the computation depends on all of it.
    pub fn opaque_into_value<V>(&mut self, opaque: OpaqueValueModern<V>) -> (r: Arc<V>)
        ensures
            r == opaque.derive_from,
            recorded(
                ctx_data_of(*old(self)),
                ctx_data_of(*final(self)),
                opaque.derive_from_key,
                opaque.validity,
            ),
            match (*old(self), *final(self)) {
                (ModernComputeCtx::Owned(_), ModernComputeCtx::Owned(_)) => true,
                (ModernComputeCtx::Borrowed(a), ModernComputeCtx::Borrowed(b)) => *final(a)
                    == *final(b),
                _ => false,
            },
    {
        self.data_mut().dep_trackers.record(opaque.derive_from_key, opaque.validity);
        opaque.derive_from
    }

    /// Takes the result of a projection: what the computation depends on is the projection, and
    /// not all of what it was derived from.
    pub fn projection<V>(
        &mut self,
        key: DiceKey,
        result: Result<(Arc<V>, DiceValidity), Cancelled>,
    ) -> (r: Result<Arc<V>, DiceError>)
        ensures
            match result {
                Err(_) => r == Err::<Arc<V>, DiceError>(DiceError::Cancelled) && ctx_data_of(
                    *final(self),
                ) == ctx_data_of(*old(self)),
                Ok((value, validity)) => r == Ok::<Arc<V>, DiceError>(value) && recorded(
                    ctx_data_of(*old(self)),
                    ctx_data_of(*final(self)),
                    key,
                    validity,
                ),
            },
            match (*old(self), *final(self)) {
                (ModernComputeCtx::Owned(_), ModernComputeCtx::Owned(_)) => true,
                (ModernComputeCtx::Borrowed(a), ModernComputeCtx::Borrowed(b)) => *final(a)
                    == *final(b),
                _ => false,
            },
    {
        let data = self.data_mut();
        data.ctx_data.project(key, result, &mut data.dep_trackers)
    }

    /// Stores data of the evaluation; this may be done once.
    pub fn store_evaluation_data(&mut self, value: A) -> (r: Result<(), DiceError>)
        ensures
            ({
                let before = ctx_data_of(*old(self));
                let after = ctx_data_of(*final(self));
                match before.ctx_data.evaluation_data.0 {
                    Some(_) => r == Err::<(), DiceError>(DiceError::DuplicateActivationData)
                        && after == before,
                    None => r is Ok && after == (Data {
                        ctx_data: CoreCtx {
                            evaluation_data: EvaluationData(Some(value)),
                            ..before.ctx_data
                        },
                        ..before
                    }),
                }
            }),
            match (*old(self), *final(self)) {
                (ModernComputeCtx::Owned(_), ModernComputeCtx::Owned(_)) => true,
                (ModernComputeCtx::Borrowed(a), ModernComputeCtx::Borrowed(b)) => *final(a)
                    == *final(b),
                _ => false,
            },
    {
        self.data_mut().ctx_data.store_evaluation_data(value)
    }

    /// What the computation depends on, its evaluation data, and how cycles were looked for.
    pub fn finalize(self) -> (r: (
        RecordingDepsTracker,
        EvaluationData<A>,
        KeyComputingUserCycleDetectorData,
    ))
        requires
            self is Owned,
        ensures
            r.0 == ctx_data_of(self).dep_trackers,
            r.1 == ctx_data_of(self).ctx_data.evaluation_data,
            r.2 == ctx_data_of(self).ctx_data.cycles,
    {
        match self {
            ModernComputeCtx::Owned(v) => {
                let Data { ctx_data, dep_trackers } = v;
                (dep_trackers, ctx_data.evaluation_data, ctx_data.cycles)
            },
            ModernComputeCtx::Borrowed(_) => {
                assert(false);
                (
                    RecordingDepsTracker::new(),
                    EvaluationData::none(),
                    KeyComputingUserCycleDetectorData::Untracked,
                )
            },
        }
    }
}

/// Context that is the base for which all requests start from.
pub struct BaseComputeCtx<U, D, A> {
    pub data: Data<U, D, A>,
    /// Keeps the version alive.
    pub live_version_guard: u64,
}

impl<U, D, A> BaseComputeCtx<U, D, A> {
    pub fn new(
        per_live_version_ctx: SharedLiveTransactionCtx,
        user_data: Arc<U>,
        dice: Arc<D>,
        live_version_guard: u64,
    ) -> (r: Self)
        ensures
            r.data.ctx_data.async_evaluator == (AsyncEvaluator {
                per_live_version_ctx,
                user_data,
                dice,
            }),
            r.is_fresh(),
            r.live_version_guard == live_version_guard,
    {
        let async_evaluator = AsyncEvaluator { per_live_version_ctx, user_data, dice };
        Self::with_evaluator(async_evaluator, live_version_guard)
    }

    /// Nothing has been computed with the context: it has no parent and no dependencies, and does
    /// not look for cycles.
    pub open spec fn is_fresh(&self) -> bool {
        &&& self.data.ctx_data.parent_key == ParentKey::Root
        &&& self.data.ctx_data.cycles == KeyComputingUserCycleDetectorData::Untracked
        &&& self.data.ctx_data.evaluation_data.0 is None
        &&& self.data.dep_trackers.deps@ == Set::<u32>::empty()
        &&& self.data.dep_trackers.validity == DiceValidity::Valid
    }

    fn with_evaluator(async_evaluator: AsyncEvaluator<U, D>, live_version_guard: u64) -> (r: Self)
        ensures
            r.data.ctx_data.async_evaluator == async_evaluator,
            r.is_fresh(),
            r.live_version_guard == live_version_guard,
    {
        BaseComputeCtx {
            data: Data {
                dep_trackers: RecordingDepsTracker::new(),
                ctx_data: CoreCtx {
                    async_evaluator,
                    parent_key: ParentKey::Root,
                    cycles: KeyComputingUserCycleDetectorData::Untracked,
                    evaluation_data: EvaluationData::none(),
                },
            },
            live_version_guard,
        }
    }

    /// Another base for requests on the same version. What was recorded stays with this one.
    pub fn dupe(&self) -> (r: Self)
        ensures
            r.data.ctx_data.async_evaluator == self.data.ctx_data.async_evaluator,
            r.is_fresh(),
            r.live_version_guard == self.live_version_guard,
    {
        Self::with_evaluator(self.data.ctx_data.async_evaluator.dupe(), self.live_version_guard)
    }

    pub fn get_version(&self) -> (r: VersionNumber)
        ensures
            r == self.data.ctx_data.async_evaluator.per_live_version_ctx.version,
    {
        self.data.ctx_data.get_version()
    }

    pub fn into_updater(self) -> (r: TransactionUpdater<U, D>)
        ensures
            r.dice == self.data.ctx_data.async_evaluator.dice,
            r.user_data == self.data.ctx_data.async_evaluator.user_data,
    {
        self.data.ctx_data.into_updater()
    }

    pub fn as_computations(&self) -> (r: &Data<U, D, A>)
        ensures
            *r == self.data,
    {
        &self.data
    }

    /// A context to compute with. What is looked at is recorded for this base.
    pub fn as_computations_mut(&mut self) -> (r: ModernComputeCtx<'_, U, D, A>)
        ensures
            ctx_data_of(r) == old(self).data,
            r matches ModernComputeCtx::Borrowed(data) && final(self).data == *final(data),
            final(self).live_version_guard == old(self).live_version_guard,
    {
        ModernComputeCtx::Borrowed(&mut self.data)
    }
}

/// What the cache says of a key. A value that was computed is there even after a cancellation. Then
/// nothing is computed after the transaction was cancelled. A task that is running is waited for,
/// and one that was cancelled is not; a key without a task is vacant.
pub proof fn law_what_the_cache_says<V>(cache: SharedCache<V>, key: DiceKey)
    ensures
        cache.completed@.contains_key(key.0) ==> cache_state(cache, key) == CacheState::Computed(
            cache.completed@[key.0],
        ),
        cache_state(cache, key) is Computed ==> cache.completed@.contains_key(key.0),
        !cache.completed@.contains_key(key.0) && cache.is_cancelled ==> cache_state(
            cache,
            key,
        ) is TransactionCancelled,
        cache_state(cache, key) is Running <==> !cache.completed@.contains_key(key.0)
            && !cache.is_cancelled && cache.tasks@.contains_key(key.0)
            && !cache.tasks@[key.0].cancelled,
        cache_state(cache, key) is Running ==> cache_state(cache, key) == CacheState::<V>::Running(
            cache.tasks@[key.0].id,
        ),
        cache_state(cache, key) is TaskCancelled <==> !cache.completed@.contains_key(key.0)
            && !cache.is_cancelled && cache.tasks@.contains_key(key.0)
            && cache.tasks@[key.0].cancelled,
        cache_state(cache, key) is TaskCancelled ==> cache_state(cache, key)
            == CacheState::<V>::TaskCancelled(cache.tasks@[key.0].id),
        cache_state(cache, key) is Vacant <==> !cache.completed@.contains_key(key.0)
            && !cache.is_cancelled && !cache.tasks@.contains_key(key.0),
{
}

/// Whoever asks for a key is noted with its task: a new task has the one who asked, and a task that
/// is waited for has all who asked before and then the one who asked now.
pub proof fn law_who_depends_on_a_task<V>(
    before: SharedCache<V>,
    after: SharedCache<V>,
    key: DiceKey,
    parent: ParentKey,
    i: int,
)
    ensures
        with_new_task(before, after, key, parent) ==> {
            &&& after.tasks@.contains_key(key.0)
            &&& after.tasks@[key.0].dependents@ =~= seq![parent]
            &&& !after.tasks@[key.0].cancelled
            &&& after.tasks@[key.0].id == before.next_task
            &&& after.next_task == before.next_task + 1
            &&& after.completed@ == before.completed@
        },
        with_dependent(before, after, key, parent) && before.tasks@.contains_key(key.0) ==> {
            &&& after.tasks@.contains_key(key.0)
            &&& after.tasks@[key.0].dependents@.len() == before.tasks@[key.0].dependents@.len() + 1
            &&& after.tasks@[key.0].dependents@.last() == parent
            &&& 0 <= i < before.tasks@[key.0].dependents@.len()
                ==> after.tasks@[key.0].dependents@[i] == before.tasks@[key.0].dependents@[i]
            &&& after.tasks@[key.0].id == before.tasks@[key.0].id
            &&& after.next_task == before.next_task
            &&& after.completed@ == before.completed@
        },
{
    if with_new_task(before, after, key, parent) {
        assert(after.tasks@.dom().contains(key.0));
    }
    if with_dependent(before, after, key, parent) && before.tasks@.contains_key(key.0) {
        assert(after.tasks@.dom().contains(key.0));
    }
}

/// Something may be kept only if both parts may.
pub proof fn law_when_a_value_may_be_kept(a: DiceValidity, b: DiceValidity)
    ensures
        validity_and(a, b) == DiceValidity::Valid <==> a == DiceValidity::Valid && b
            == DiceValidity::Valid,
        validity_and(a, b) == validity_and(b, a),
{
}

/// A context leads to the same data whether it owns it or not.
pub proof fn law_data_of_a_context<U, D, A>(data: Data<U, D, A>)
    ensures
        ctx_data_of(ModernComputeCtx::Owned(data)) == data,
{
}

} // verus!
