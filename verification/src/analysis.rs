//! Results of analysing a target, and values that belong to a module while it is analysed.
use std::sync::Arc;
use vstd::prelude::*;
use vstd::string::*;

use crate::action_key::BaseDeferredKey;
use crate::action_key;
use crate::text;

verus! {

/// The number of something that is computed later.
#[derive(Clone, Copy, Debug, PartialEq, Eq, Structural)]
pub struct DeferredId(pub u32);

/// What an analysis leaves to be computed later, by number.
pub struct DeferredTable<D> {
    pub deferreds: Vec<D>,
}

/// Why a look-up failed.
#[derive(Debug)]
pub enum LookupError {
    /// There is nothing with this number.
    NoSuchDeferred(u32),
    /// There is no provider collection under this name.
    NoSuchProvider(String),
    /// Nothing was built at all.
    NothingBuilt,
    /// Something that cannot happen.
    Internal(String),
}

impl LookupError {
    /// The message shown for the error.
    pub fn message(&self) -> (r: String)
        ensures
            r@ == (match *self {
                LookupError::NoSuchDeferred(id) => "no deferred with id `"@ + text::decimal_chars(
                    id as nat,
                ) + "`"@,
                LookupError::NoSuchProvider(name) => "no providers named `"@ + name@ + "`"@,
                LookupError::NothingBuilt => "Bxl never attempted to build anything"@,
                LookupError::Internal(m) => m@,
            }),
    {
        match self {
            LookupError::NoSuchDeferred(id) => {
                let n = text::decimal(*id as u64);
                text::concat3("no deferred with id `", n.as_str(), "`")
            },
            LookupError::NoSuchProvider(name) => text::concat3(
                "no providers named `",
                name.as_str(),
                "`",
            ),
            LookupError::NothingBuilt => "Bxl never attempted to build anything".to_owned(),
            LookupError::Internal(m) => m.clone(),
        }
    }
}

impl<D> DeferredTable<D> {
    pub fn lookup_deferred(&self, id: DeferredId) -> (r: Result<&D, LookupError>)
        ensures
            if id.0 < self.deferreds@.len() {
                r == Ok::<&D, LookupError>(&self.deferreds@[id.0 as int])
            } else {
                r == Err::<&D, LookupError>(LookupError::NoSuchDeferred(id.0))
            },
    {
        let i: usize = id.0 as usize;
        if i < self.deferreds.len() {
            Ok(&self.deferreds[i])
        } else {
            Err(LookupError::NoSuchDeferred(id.0))
        }
    }
}

/// The providers of a target: the default ones, and collections under names.
pub struct ProviderCollection<P> {
    pub default: Arc<P>,
    pub named: Vec<(String, Arc<P>)>,
}

/// Collection number `i` is the first called `name`.
pub open spec fn provider_at<P>(named: Seq<(String, Arc<P>)>, name: Seq<char>, i: int) -> bool {
    &&& 0 <= i < named.len()
    &&& named[i].0@ == name
    &&& forall|k: int| 0 <= k < i ==> (#[trigger] named[k]).0@ != name
}

impl<P> ProviderCollection<P> {
    /// The collection under a name; the empty name stands for the default one.
    pub fn lookup_inner(&self, name: &String) -> (r: Result<Arc<P>, LookupError>)
        ensures
            if name@.len() == 0 {
                r == Ok::<Arc<P>, LookupError>(self.default)
            } else {
                match r {
                    Ok(p) => exists|i: int| #[trigger]
                        provider_at(self.named@, name@, i) && p == self.named@[i].1,
                    Err(e) => {
                        &&& e == LookupError::NoSuchProvider(*name)
                        &&& forall|k: int|
                            0 <= k < self.named@.len() ==> (#[trigger] self.named@[k]).0@ != name@
                    },
                }
            },
    {
        if name.as_str().is_empty() {
            return Ok(self.default.clone());
        }
        let mut i: usize = 0;
        while i < self.named.len()
            invariant
                i <= self.named@.len(),
                name@.len() > 0,
                forall|k: int| 0 <= k < i ==> (#[trigger] self.named@[k]).0@ != name@,
            decreases self.named@.len() - i,
        {
            if text::str_eq(self.named[i].0.as_str(), name.as_str()) {
                assert(provider_at(self.named@, name@, i as int));
                return Ok(self.named[i].1.clone());
            }
            i = i + 1;
        }
        Err(LookupError::NoSuchProvider(name.clone()))
    }
}

/// The number of an artifact that an anonymous target promises, and that target.
#[derive(Debug)]
pub struct PromiseArtifactId {
    pub owner: BaseDeferredKey,
    pub id: usize,
}

/// Two promised artifacts are the same.
pub open spec fn same_promise(a: PromiseArtifactId, b: PromiseArtifactId) -> bool {
    action_key::same_owner(a.owner, b.owner) && a.id == b.id
}

impl PromiseArtifactId {
    pub fn new(owner: BaseDeferredKey, id: usize) -> (r: Self)
        ensures
            r == (PromiseArtifactId { owner, id }),
    {
        PromiseArtifactId { owner, id }
    }

    pub fn same_as(&self, other: &Self) -> (r: bool)
        ensures
            r == same_promise(*self, *other),
    {
        self.id == other.id && self.owner.same_as(&other.owner)
    }

    /// Another handle on the same number.
    pub fn dupe(&self) -> (r: Self)
        ensures
            r == *self,
    {
        PromiseArtifactId { owner: self.owner.dupe(), id: self.id }
    }
}

/// The result of analysing a target.
pub struct AnalysisResult<P, D, F, A> {
    pub provider_collection: ProviderCollection<P>,
    pub deferred: DeferredTable<D>,
    /// Profiling data of this analysis only, without dependencies.
    pub profile_data: Option<Arc<F>>,
    pub promise_artifact_map: Vec<(PromiseArtifactId, Arc<A>)>,
    pub num_declared_actions: u64,
    pub num_declared_artifacts: u64,
}

impl<P, D, F, A> AnalysisResult<P, D, F, A> {
    pub fn new(
        provider_collection: ProviderCollection<P>,
        deferred: DeferredTable<D>,
        profile_data: Option<Arc<F>>,
        promise_artifact_map: Vec<(PromiseArtifactId, Arc<A>)>,
        num_declared_actions: u64,
        num_declared_artifacts: u64,
    ) -> (r: Self)
        ensures
            r == (AnalysisResult {
                provider_collection,
                deferred,
                profile_data,
                promise_artifact_map,
                num_declared_actions,
                num_declared_artifacts,
            }),
    {
        AnalysisResult {
            provider_collection,
            deferred,
            profile_data,
            promise_artifact_map,
            num_declared_actions,
            num_declared_artifacts,
        }
    }

    pub fn providers(&self) -> (r: &ProviderCollection<P>)
        ensures
            *r == self.provider_collection,
    {
        &self.provider_collection
    }

    pub fn promise_artifact_map(&self) -> (r: &Vec<(PromiseArtifactId, Arc<A>)>)
        ensures
            *r == self.promise_artifact_map,
    {
        &self.promise_artifact_map
    }

    /// The providers under a name.
    pub fn lookup_inner(&self, name: &String) -> (r: Result<Arc<P>, LookupError>)
        ensures
            if name@.len() == 0 {
                r == Ok::<Arc<P>, LookupError>(self.provider_collection.default)
            } else {
                match r {
                    Ok(p) => exists|i: int| #[trigger]
                        provider_at(self.provider_collection.named@, name@, i) && p
                            == self.provider_collection.named@[i].1,
                    Err(e) => {
                        &&& e == LookupError::NoSuchProvider(*name)
                        &&& forall|k: int|
                            0 <= k < self.provider_collection.named@.len() ==> (
                            #[trigger] self.provider_collection.named@[k]).0@ != name@
                    },
                }
            },
    {
        self.provider_collection.lookup_inner(name)
    }

    pub fn lookup_deferred(&self, id: DeferredId) -> (r: Result<&D, LookupError>)
        ensures
            if id.0 < self.deferred.deferreds@.len() {
                r == Ok::<&D, LookupError>(&self.deferred.deferreds@[id.0 as int])
            } else {
                r == Err::<&D, LookupError>(LookupError::NoSuchDeferred(id.0))
            },
    {
        self.deferred.lookup_deferred(id)
    }

    /// All that is computed later, in order.
    pub fn iter_deferreds(&self) -> (r: &Vec<D>)
        ensures
            *r == self.deferred.deferreds,
    {
        &self.deferred.deferreds
    }

    pub fn testing_deferred(&self) -> (r: &DeferredTable<D>)
        ensures
            *r == self.deferred,
    {
        &self.deferred
    }
}

/// The value that belongs to a module besides its variables, and what kind of value it is.
pub enum ExtraValue<T> {
    Analysis(T),
    /// A value of another kind.
    Other,
}

/// A module that is being evaluated.
pub struct Module<T> {
    pub extra_value: Option<ExtraValue<T>>,
}

/// What is collected while a target is analysed; each item is set once.
pub struct AnalysisExtraValue<P, S> {
    /// Set after running the rule function.
    pub provider_collection: Option<P>,
    pub analysis_value_storage: Option<S>,
}

/// The message of a value of another kind.
pub open spec fn wrong_kind_text() -> Seq<char> {
    "extra_value is of another type"@
}

impl<P, S> AnalysisExtraValue<P, S> {
    /// Nothing has been collected.
    pub open spec fn is_empty(&self) -> bool {
        self.provider_collection is None && self.analysis_value_storage is None
    }

    /// The value of a module, if it has one.
    pub fn get(module: &Module<AnalysisExtraValue<P, S>>) -> (r: Result<
        Option<&AnalysisExtraValue<P, S>>,
        LookupError,
    >)
        ensures
            match module.extra_value {
                None => r matches Ok(None),
                Some(ExtraValue::Analysis(v)) => r == Ok::<
                    Option<&AnalysisExtraValue<P, S>>,
                    LookupError,
                >(Some(&v)),
                Some(ExtraValue::Other) => r matches Err(LookupError::Internal(m)) && m@
                    == wrong_kind_text(),
            },
    {
        match &module.extra_value {
            None => Ok(None),
            Some(ExtraValue::Analysis(v)) => Ok(Some(v)),
            Some(ExtraValue::Other) => Err(
                LookupError::Internal("extra_value is of another type".to_owned()),
            ),
        }
    }

    /// The value of a module; where it has none, an empty one is put there. A value that is there
    /// is never overwritten.
    pub fn get_or_init(module: &mut Module<AnalysisExtraValue<P, S>>) -> (r: Result<
        &mut AnalysisExtraValue<P, S>,
        LookupError,
    >)
        ensures
            match (old(module).extra_value, r) {
                (None, Ok(v)) => v.is_empty() && final(module).extra_value == Some(
                    ExtraValue::Analysis(*final(v)),
                ),
                (Some(ExtraValue::Analysis(before)), Ok(v)) => *v == before && final(
                    module).extra_value == Some(ExtraValue::Analysis(*final(v))),
                (Some(ExtraValue::Other), Err(LookupError::Internal(m))) => m@
                    == wrong_kind_text() && *final(module) == *old(module),
                _ => false,
            },
    {
        if module.extra_value.is_none() {
            module.extra_value = Some(
                ExtraValue::Analysis(
                    AnalysisExtraValue { provider_collection: None, analysis_value_storage: None },
                ),
            );
        }
        match &mut module.extra_value {
            Some(ExtraValue::Analysis(v)) => Ok(v),
            _ => Err(LookupError::Internal("extra_value is of another type".to_owned())),
        }
    }
}

/// What freezing a value came to: the frozen value, of the type that it has to have.
pub enum Frozen<T> {
    Value(T),
    /// Freezing failed, or gave a value of another type.
    Error(String),
}

/// The freezing of a value that may be missing failed.
pub open spec fn freeze_failed<T>(outcome: Option<Frozen<T>>) -> bool {
    outcome matches Some(Frozen::Error(_))
}

/// A value that may be missing, where it was frozen without error.
pub open spec fn frozen_value<T>(outcome: Option<Frozen<T>>) -> Option<T> {
    match outcome {
        Some(Frozen::Value(v)) => Some(v),
        _ => None,
    }
}

fn frozen_or_error<T>(outcome: Option<Frozen<T>>) -> (r: Result<Option<T>, LookupError>)
    ensures
        match outcome {
            Some(Frozen::Error(e)) => r == Err::<Option<T>, LookupError>(LookupError::Internal(e)),
            _ => r == Ok::<Option<T>, LookupError>(frozen_value(outcome)),
        },
{
    match outcome {
        Some(Frozen::Value(v)) => Ok(Some(v)),
        Some(Frozen::Error(e)) => Err(LookupError::Internal(e)),
        None => Ok(None),
    }
}

impl<P, S> AnalysisExtraValue<P, S> {
    /// What was collected, frozen: the providers first, then the storage. A value that is missing
    /// stays so; the first error ends it.
    pub fn freeze<FP, FS>(
        &self,
        provider_collection: Option<Frozen<FP>>,
        analysis_value_storage: Option<Frozen<FS>>,
    ) -> (r: Result<FrozenAnalysisExtraValue<FP, FS>, LookupError>)
        requires
            provider_collection is Some <==> self.provider_collection is Some,
            analysis_value_storage is Some <==> self.analysis_value_storage is Some,
        ensures
            if freeze_failed(provider_collection) {
                r == Err::<FrozenAnalysisExtraValue<FP, FS>, LookupError>(
                    LookupError::Internal(provider_collection->0->Error_0),
                )
            } else if freeze_failed(analysis_value_storage) {
                r == Err::<FrozenAnalysisExtraValue<FP, FS>, LookupError>(
                    LookupError::Internal(analysis_value_storage->0->Error_0),
                )
            } else {
                r == Ok::<FrozenAnalysisExtraValue<FP, FS>, LookupError>(
                    FrozenAnalysisExtraValue {
                        provider_collection: frozen_value(provider_collection),
                        analysis_value_storage: frozen_value(analysis_value_storage),
                    },
                )
            },
    {
        let provider_collection = match frozen_or_error(provider_collection) {
            Ok(v) => v,
            Err(e) => {
                return Err(e);
            },
        };
        let analysis_value_storage = match frozen_or_error(analysis_value_storage) {
            Ok(v) => v,
            Err(e) => {
                return Err(e);
            },
        };
        Ok(FrozenAnalysisExtraValue { provider_collection, analysis_value_storage })
    }
}

/// What was collected while a target was analysed, once the module is frozen.
pub struct FrozenAnalysisExtraValue<P, S> {
    pub provider_collection: Option<P>,
    pub analysis_value_storage: Option<S>,
}

impl<P, S> FrozenAnalysisExtraValue<P, S> {
    /// The value of a frozen module; it has to be there.
    pub fn get(module: &Module<FrozenAnalysisExtraValue<P, S>>) -> (r: Result<
        &FrozenAnalysisExtraValue<P, S>,
        LookupError,
    >)
        ensures
            match module.extra_value {
                None => r matches Err(LookupError::Internal(m)) && m@ == "extra_value not set"@,
                Some(ExtraValue::Analysis(v)) => r == Ok::<
                    &FrozenAnalysisExtraValue<P, S>,
                    LookupError,
                >(&v),
                Some(ExtraValue::Other) => r matches Err(LookupError::Internal(m)) && m@
                    == wrong_kind_text(),
            },
    {
        match &module.extra_value {
            None => Err(LookupError::Internal("extra_value not set".to_owned())),
            Some(ExtraValue::Analysis(v)) => Ok(v),
            Some(ExtraValue::Other) => Err(
                LookupError::Internal("extra_value is of another type".to_owned()),
            ),
        }
    }
}

/// A provider is looked up by its name; of several of that name the first counts, so that there is
/// at most one.
pub proof fn law_provider_of_a_name<P>(
    named: Seq<(String, Arc<P>)>,
    name: Seq<char>,
    i: int,
    j: int,
)
    requires
        provider_at(named, name, i),
    ensures
        0 <= i < named.len(),
        named[i].0@ == name,
        0 <= j < i ==> named[j].0@ != name,
        provider_at(named, name, j) ==> j == i,
{
}

/// Promises are told apart by who made them and by their numbers.
pub proof fn law_promises_are_told_apart(a: PromiseArtifactId, b: PromiseArtifactId)
    ensures
        same_promise(a, a),
        same_promise(a, b) <==> same_promise(b, a),
        a.id != b.id ==> !same_promise(a, b),
        !action_key::same_owner(a.owner, b.owner) ==> !same_promise(a, b),
        a.owner == b.owner && a.id == b.id ==> same_promise(a, b),
{
}

/// What was frozen is kept, and what was not there stays away.
pub proof fn law_what_freezing_gives<T>(v: T, reason: String)
    ensures
        frozen_value(Some(Frozen::Value(v))) == Some(v),
        frozen_value(None::<Frozen<T>>) is None,
        !freeze_failed(Some(Frozen::Value(v))),
        !freeze_failed(None::<Frozen<T>>),
        freeze_failed(Some(Frozen::<T>::Error(reason))),
{
}

} // verus!
