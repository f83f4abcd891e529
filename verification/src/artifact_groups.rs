//! Transitive sets of an analysis.
use std::sync::Arc;
use vstd::prelude::*;
use vstd::string::*;

use crate::action_key::DeferredHolderKey;

verus! {

/// The key of a transitive set: what holds it, and its number there.
#[derive(Debug)]
pub struct TransitiveSetKey {
    pub holder: Arc<DeferredHolderKey>,
    pub index: u32,
}

/// The transitive sets that an analysis has made so far.
pub struct AnalysisValueStorage<S> {
    pub transitive_sets: Vec<Arc<S>>,
}

/// Makes transitive sets.
#[derive(Clone, Copy, Debug, PartialEq, Eq, Structural)]
pub struct ArtifactGroupRegistry;

impl ArtifactGroupRegistry {
    pub fn new() -> (r: Self)
        ensures
            r == ArtifactGroupRegistry,
    {
        ArtifactGroupRegistry
    }

    /// The key for the next set.
    pub fn next_key<S>(&self, holder: &Arc<DeferredHolderKey>, storage: &AnalysisValueStorage<S>) -> (r:
        Option<TransitiveSetKey>)
        ensures
            match r {
                Some(key) => key.holder == *holder && key.index == storage.transitive_sets@.len(),
                None => storage.transitive_sets@.len() > u32::MAX,
            },
    {
        let n: usize = storage.transitive_sets.len();
        if n as u64 > 0xffff_ffff {
            None
        } else {
            Some(TransitiveSetKey { holder: holder.clone(), index: n as u32 })
        }
    }

    /// Keeps the set that was made under the next key, if it could be made.
    pub fn create_transitive_set<S>(
        &self,
        storage: &mut AnalysisValueStorage<S>,
        made: Result<Arc<S>, String>,
    ) -> (r: Result<Arc<S>, String>)
        ensures
            r == made,
            match made {
                Ok(set) => final(storage).transitive_sets@ == old(storage).transitive_sets@.push(
                    set,
                ),
                Err(_) => final(storage).transitive_sets@ == old(storage).transitive_sets@,
            },
    {
        match made {
            Ok(set) => {
                storage.transitive_sets.push(set.clone());
                Ok(set)
            },
            Err(e) => Err(e),
        }
    }

    /// Every set is bound as soon as it is made.
    pub fn ensure_bound(self) -> (r: Result<(), String>)
        ensures
            r is Ok,
    {
        Ok(())
    }
}

} // verus!
