//! The result of evaluating a BXL function.
use vstd::prelude::*;

use crate::analysis::DeferredId;
use crate::analysis::DeferredTable;
use crate::analysis::LookupError;

verus! {

/// A set that remembers the order of its items.
#[verifier::external_type_specification]
#[verifier::external_body]
#[verifier::reject_recursive_types(T)]
#[verifier::reject_recursive_types(S)]
pub struct ExIndexSet<T, S>(indexmap::IndexSet<T, S>);

/// The items of an `IndexSet`, in its order.
pub uninterp spec fn index_set_items(s: indexmap::IndexSet<u64>) -> Seq<u64>;

/// `IndexSet::is_empty`.
#[verifier::external_body]
fn index_set_is_empty(s: &indexmap::IndexSet<u64>) -> (r: bool)
    ensures
        r == (index_set_items(*s).len() == 0),
{
    s.is_empty()
}

/// `IndexSet::into_iter`: the items in the order of the set.
#[verifier::external_body]
fn index_set_into_vec(s: indexmap::IndexSet<u64>) -> (r: Vec<u64>)
    ensures
        r@ == index_set_items(s),
{
    s.into_iter().collect()
}

/// The result of evaluating a BXL function. Artifact groups are known by their numbers.
pub enum BxlResult<L, B, D, V> {
    /// The function has no built results.
    NoBuilds { output_loc: L, error_loc: L, analysis_values: V },
    /// A function that deals with builds.
    BuildsArtifacts {
        output_loc: L,
        error_loc: L,
        built: Vec<B>,
        artifacts: Vec<u64>,
        deferred: DeferredTable<D>,
        analysis_values: V,
    },
}

impl<L, B, D, V> BxlResult<L, B, D, V> {
    pub fn new(
        output_loc: L,
        error_loc: L,
        ensured_artifacts: indexmap::IndexSet<u64>,
        deferred: DeferredTable<D>,
        analysis_values: V,
    ) -> (r: Self)
        ensures
            if index_set_items(ensured_artifacts).len() == 0 {
                r == (BxlResult::<L, B, D, V>::NoBuilds { output_loc, error_loc, analysis_values })
            } else {
                &&& r matches BxlResult::BuildsArtifacts {
                    output_loc: o,
                    error_loc: e,
                    built,
                    artifacts,
                    deferred: d,
                    analysis_values: a,
                }
                &&& o == output_loc
                &&& e == error_loc
                &&& built@.len() == 0
                &&& artifacts@ == index_set_items(ensured_artifacts)
                &&& d == deferred
                &&& a == analysis_values
            },
    {
        if index_set_is_empty(&ensured_artifacts) {
            BxlResult::NoBuilds { output_loc, error_loc, analysis_values }
        } else {
            BxlResult::BuildsArtifacts {
                output_loc,
                error_loc,
                built: Vec::new(),
                artifacts: index_set_into_vec(ensured_artifacts),
                deferred,
                analysis_values,
            }
        }
    }

    /// Looks up something that is computed later.
    pub fn lookup_deferred(&self, id: DeferredId) -> (r: Result<&D, LookupError>)
        ensures
            match *self {
                BxlResult::NoBuilds { .. } => r == Err::<&D, LookupError>(
                    LookupError::NothingBuilt,
                ),
                BxlResult::BuildsArtifacts { deferred, .. } => if id.0
                    < deferred.deferreds@.len() {
                    r == Ok::<&D, LookupError>(&deferred.deferreds@[id.0 as int])
                } else {
                    r == Err::<&D, LookupError>(LookupError::NoSuchDeferred(id.0))
                },
            },
    {
        match self {
            BxlResult::NoBuilds { .. } => Err(LookupError::NothingBuilt),
            BxlResult::BuildsArtifacts { deferred, .. } => deferred.lookup_deferred(id),
        }
    }

    pub fn analysis_values(&self) -> (r: &V)
        ensures
            *r == (match *self {
                BxlResult::NoBuilds { analysis_values, .. } => analysis_values,
                BxlResult::BuildsArtifacts { analysis_values, .. } => analysis_values,
            }),
    {
        match self {
            BxlResult::NoBuilds { analysis_values, .. } => analysis_values,
            BxlResult::BuildsArtifacts { analysis_values, .. } => analysis_values,
        }
    }

    pub fn get_output_loc(&self) -> (r: &L)
        ensures
            *r == (match *self {
                BxlResult::NoBuilds { output_loc, .. } => output_loc,
                BxlResult::BuildsArtifacts { output_loc, .. } => output_loc,
            }),
    {
        match self {
            BxlResult::NoBuilds { output_loc, .. } => output_loc,
            BxlResult::BuildsArtifacts { output_loc, .. } => output_loc,
        }
    }

    pub fn get_error_loc(&self) -> (r: &L)
        ensures
            *r == (match *self {
                BxlResult::NoBuilds { error_loc, .. } => error_loc,
                BxlResult::BuildsArtifacts { error_loc, .. } => error_loc,
            }),
    {
        match self {
            BxlResult::NoBuilds { error_loc, .. } => error_loc,
            BxlResult::BuildsArtifacts { error_loc, .. } => error_loc,
        }
    }

    pub fn get_artifacts_opt(&self) -> (r: Option<&Vec<u64>>)
        ensures
            r == (match *self {
                BxlResult::NoBuilds { .. } => None,
                BxlResult::BuildsArtifacts { artifacts, .. } => Some(&artifacts),
            }),
    {
        match self {
            BxlResult::NoBuilds { .. } => None,
            BxlResult::BuildsArtifacts { artifacts, .. } => Some(artifacts),
        }
    }

    pub fn get_build_result_opt(&self) -> (r: Option<&Vec<B>>)
        ensures
            r == (match *self {
                BxlResult::NoBuilds { .. } => None,
                BxlResult::BuildsArtifacts { built, .. } => Some(&built),
            }),
    {
        match self {
            BxlResult::NoBuilds { .. } => None,
            BxlResult::BuildsArtifacts { built, .. } => Some(built),
        }
    }
}

} // verus!
