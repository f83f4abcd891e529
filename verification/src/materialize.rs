//! Which built artifacts are put on disk for a request.
use vstd::prelude::*;
use vstd::string::*;

use crate::text;

verus! {

/// A map that many computations may use at the same time.
#[verifier::external_type_specification]
#[verifier::external_body]
#[verifier::reject_recursive_types(K)]
#[verifier::reject_recursive_types(V)]
#[verifier::reject_recursive_types(S)]
pub struct ExDashMap<K, V, S>(dashmap::DashMap<K, V, S>);

/// The keys of a `DashMap`: the artifacts that have been requested, by number.
pub uninterp spec fn requested(m: dashmap::DashMap<u64, ()>) -> Set<u64>;

/// `DashMap::new`: no keys.
#[verifier::external_body]
fn no_requests() -> (r: dashmap::DashMap<u64, ()>)
    ensures
        requested(r) == Set::<u64>::empty(),
{
    dashmap::DashMap::new()
}

/// `DashMap::insert`: the key is in the map from then on; the result says whether it was before.
#[verifier::external_body]
fn note_request(m: &mut dashmap::DashMap<u64, ()>, artifact: u64) -> (known: bool)
    ensures
        requested(*final(m)) == requested(*old(m)).insert(artifact),
        known == requested(*old(m)).contains(artifact),
{
    m.insert(artifact, ()).is_some()
}

/// What is to be done with the outputs of a build.
#[derive(Clone, Copy, Debug, PartialEq, Eq, Structural)]
pub enum Materializations {
    Skip,
    /// As the configuration says.
    Default,
    Materialize,
}

/// The artifacts that were enqueued: of one context, or of all contexts that use the map one after
/// the other.
pub enum RequestMap<'a> {
    Own(dashmap::DashMap<u64, ()>),
    Shared(&'a mut dashmap::DashMap<u64, ()>),
}

/// The artifacts in a map.
pub open spec fn requested_of(m: RequestMap<'_>) -> Set<u64> {
    match m {
        RequestMap::Own(map) => requested(map),
        RequestMap::Shared(map) => requested(*map),
    }
}

/// Whether, and how, artifacts are put on disk.
pub enum MaterializationContext<'a> {
    Skip,
    Materialize {
        /// All the artifacts that were enqueued. This ensures that nothing is enqueued more than
        /// once.
        map: RequestMap<'a>,
        /// Whether the artifacts are put on disk whatever the configuration says.
        force: bool,
    },
}

/// The artifacts that have been requested in a context.
pub open spec fn requested_in(c: MaterializationContext<'_>) -> Set<u64> {
    match c {
        MaterializationContext::Skip => Set::empty(),
        MaterializationContext::Materialize { map, .. } => requested_of(map),
    }
}

impl<'a> MaterializationContext<'a> {
    /// A context in which everything is put on disk.
    pub fn force_materializations() -> (r: Self)
        ensures
            r matches MaterializationContext::Materialize { map, force } && force && requested_of(
                map,
            ) == Set::<u64>::empty(),
    {
        MaterializationContext::Materialize { map: RequestMap::Own(no_requests()), force: true }
    }
}

/// The context that a choice stands for has this kind.
pub open spec fn converts(m: Materializations, c: MaterializationContext<'_>) -> bool {
    match m {
        Materializations::Skip => c is Skip,
        Materializations::Default => c
            matches MaterializationContext::Materialize { force, .. } && !force,
        Materializations::Materialize => c
            matches MaterializationContext::Materialize { force, .. } && force,
    }
}

pub trait ConvertMaterializationContext: Sized {
    /// The choice that is converted.
    spec fn choice(&self) -> Materializations;

    /// The context, in which nothing has been requested yet.
    fn from(self) -> (r: MaterializationContext<'static>)
        ensures
            converts(self.choice(), r),
            requested_in(r) == Set::<u64>::empty(),
    ;

    /// The context, with what has been requested before. What is requested in it is then in the
    /// map, for the contexts that come after.
    fn with_existing_map<'a>(self, map: &'a mut dashmap::DashMap<u64, ()>) -> (r:
        MaterializationContext<'a>)
        ensures
            converts(self.choice(), r),
            match r {
                MaterializationContext::Skip => *final(map) == *old(map),
                MaterializationContext::Materialize { map: RequestMap::Shared(m), .. } => *m
                    == *old(map) && *final(map) == *final(m),
                _ => false,
            },
    ;
}

impl ConvertMaterializationContext for Materializations {
    open spec fn choice(&self) -> Materializations {
        *self
    }

    fn from(self) -> (r: MaterializationContext<'static>) {
        match self {
            Materializations::Skip => MaterializationContext::Skip,
            Materializations::Default => MaterializationContext::Materialize {
                map: RequestMap::Own(no_requests()),
                force: false,
            },
            Materializations::Materialize => MaterializationContext::Materialize {
                map: RequestMap::Own(no_requests()),
                force: true,
            },
        }
    }

    fn with_existing_map<'a>(self, map: &'a mut dashmap::DashMap<u64, ()>) -> (r:
        MaterializationContext<'a>) {
        match self {
            Materializations::Skip => MaterializationContext::Skip,
            Materializations::Default => MaterializationContext::Materialize {
                map: RequestMap::Shared(map),
                force: false,
            },
            Materializations::Materialize => MaterializationContext::Materialize {
                map: RequestMap::Shared(map),
                force: true,
            },
        }
    }
}

/// An artifact of a group.
#[derive(Clone, Copy, Debug, PartialEq, Eq, Structural)]
pub enum BaseArtifactKind {
    Source(u64),
    /// An artifact that is built, by number.
    Build(u64),
}

/// The built artifacts of a group that are to be requested, where those of `known` have been, and
/// what has been requested after that.
pub open spec fn to_request(values: Seq<BaseArtifactKind>, known: Set<u64>) -> (Seq<u64>, Set<u64>)
    decreases values.len(),
{
    if values.len() == 0 {
        (Seq::empty(), known)
    } else {
        let (before, seen) = to_request(values.drop_last(), known);
        match values.last() {
            BaseArtifactKind::Build(a) if !seen.contains(a) => (before.push(a), seen.insert(a)),
            _ => (before, seen),
        }
    }
}

/// Artifacts to put on disk.
pub struct MaterializeRequest {
    pub artifacts: Vec<u64>,
    pub force: bool,
}

/// Which of the artifacts of a group are to be put on disk: the built ones that have not been
/// requested before.
pub fn materialize_artifact_group(
    values: &Vec<BaseArtifactKind>,
    context: &mut MaterializationContext<'_>,
) -> (r: Option<MaterializeRequest>)
    ensures
        match *old(context) {
            MaterializationContext::Skip => r is None && *final(context) is Skip,
            MaterializationContext::Materialize { map, force } => {
                &&& r matches Some(q)
                &&& q.force == force
                &&& (q.artifacts@, requested_in(*final(context))) == to_request(
                    values@,
                    requested_of(map),
                )
                &&& *final(context) matches MaterializationContext::Materialize {
                    map: after,
                    force: f,
                }
                &&& f == force
                &&& match (map, after) {
                    (RequestMap::Own(_), RequestMap::Own(_)) => true,
                    (RequestMap::Shared(a), RequestMap::Shared(b)) => *final(a) == *final(b),
                    _ => false,
                }
            },
        },
{
    match context {
        MaterializationContext::Skip => None,
        MaterializationContext::Materialize { map, force } => {
            let artifacts = match map {
                RequestMap::Own(m) => note_group(values, m),
                RequestMap::Shared(m) => note_group(values, &mut **m),
            };
            Some(MaterializeRequest { artifacts, force: *force })
        },
    }
}

/// Notes the built artifacts of a group; those that were not in the map are the result.
fn note_group(values: &Vec<BaseArtifactKind>, map: &mut dashmap::DashMap<u64, ()>) -> (r: Vec<u64>)
    ensures
        (r@, requested(*final(map))) == to_request(values@, requested(*old(map))),
{
    let ghost known = requested(*map);
    let mut artifacts: Vec<u64> = Vec::new();
    let mut i: usize = 0;
    proof {
        assert(values@.take(0) =~= Seq::empty());
        assert(artifacts@ =~= Seq::empty());
    }
    while i < values.len()
        invariant
            i <= values@.len(),
            (artifacts@, requested(*map)) == to_request(values@.take(i as int), known),
        decreases values@.len() - i,
    {
        proof {
            let next = values@.take(i + 1);
            assert(next.drop_last() =~= values@.take(i as int));
            assert(next.last() == values@[i as int]);
        }
        match values[i] {
            BaseArtifactKind::Build(artifact) => {
                let ghost before = requested(*map);
                if !note_request(map, artifact) {
                    artifacts.push(artifact);
                } else {
                    // This artifact has been requested already, no use requesting it again.
                    assert(before.insert(artifact) =~= before);
                }
            },
            BaseArtifactKind::Source(_) => {},
        }
        i = i + 1;
    }
    assert(values@.take(values@.len() as int) =~= values@);
    artifacts
}

/// What is requested had not been requested before, is requested once, and counts as requested
/// afterwards.
pub proof fn law_nothing_is_requested_twice(values: Seq<BaseArtifactKind>, known: Set<u64>)
    ensures
        ({
            let (asked, seen) = to_request(values, known);
            &&& asked.no_duplicates()
            &&& forall|i: int|
                0 <= i < asked.len() ==> !known.contains(#[trigger] asked[i]) && seen.contains(
                    asked[i],
                )
            &&& known.subset_of(seen)
        }),
    decreases values.len(),
{
    if values.len() > 0 {
        law_nothing_is_requested_twice(values.drop_last(), known);
    }
}

/// Across the contexts that use a map one after the other nothing is requested twice: what a later
/// group asks for, an earlier one has not.
pub proof fn law_contexts_share_what_was_requested(
    first: Seq<BaseArtifactKind>,
    second: Seq<BaseArtifactKind>,
    known: Set<u64>,
)
    ensures
        ({
            let (asked, seen) = to_request(first, known);
            let (asked_later, _) = to_request(second, seen);
            forall|i: int, j: int|
                0 <= i < asked.len() && 0 <= j < asked_later.len() ==> #[trigger] asked[i]
                    != #[trigger] asked_later[j]
        }),
{
    law_nothing_is_requested_twice(first, known);
    law_nothing_is_requested_twice(second, to_request(first, known).1);
}

/// A second request for the same group asks for nothing.
pub proof fn law_second_request_is_empty(values: Seq<BaseArtifactKind>, known: Set<u64>)
    ensures
        to_request(values, to_request(values, known).1).0 == Seq::<u64>::empty(),
{
    let seen = to_request(values, known).1;
    lemma_all_seen(values, known);
    lemma_nothing_new(values, seen);
}

proof fn lemma_all_seen(values: Seq<BaseArtifactKind>, known: Set<u64>)
    ensures
        forall|i: int|
            0 <= i < values.len() && (#[trigger] values[i]) is Build ==> to_request(
                values,
                known,
            ).1.contains(values[i]->Build_0),
    decreases values.len(),
{
    if values.len() > 0 {
        let init = values.drop_last();
        lemma_all_seen(init, known);
        law_nothing_is_requested_twice(init, known);
        assert forall|i: int| 0 <= i < values.len() && (
        #[trigger] values[i]) is Build implies to_request(values, known).1.contains(
            values[i]->Build_0,
        ) by {
            if i < init.len() {
                assert(values[i] == init[i]);
            }
        }
    }
}

proof fn lemma_nothing_new(values: Seq<BaseArtifactKind>, seen: Set<u64>)
    requires
        forall|i: int|
            0 <= i < values.len() && (#[trigger] values[i]) is Build ==> seen.contains(
                values[i]->Build_0,
            ),
    ensures
        to_request(values, seen) == (Seq::<u64>::empty(), seen),
    decreases values.len(),
{
    if values.len() > 0 {
        let init = values.drop_last();
        assert forall|i: int| 0 <= i < init.len() && (
        #[trigger] init[i]) is Build implies seen.contains(init[i]->Build_0) by {
            assert(init[i] == values[i]);
        }
        lemma_nothing_new(init, seen);
        assert(values[values.len() - 1] == values.last());
    }
}

/// Why artifacts could not be put on disk.
pub fn materialize_error(source: &str) -> (r: String)
    ensures
        r@ == "Failed to materialize artifacts: "@ + source@,
{
    text::concat2("Failed to materialize artifacts: ", source)
}

/// Of a group, exactly the built artifacts that had not been requested are requested; afterwards
/// those count as requested too, and no others. Sources never are.
pub proof fn law_every_built_artifact_is_requested(
    values: Seq<BaseArtifactKind>,
    known: Set<u64>,
    a: u64,
)
    ensures
        to_request(values, known).0.contains(a) <==> !known.contains(a) && exists|i: int|
            0 <= i < values.len() && #[trigger] values[i] == BaseArtifactKind::Build(a),
        to_request(values, known).1.contains(a) <==> known.contains(a) || exists|i: int|
            0 <= i < values.len() && #[trigger] values[i] == BaseArtifactKind::Build(a),
    decreases values.len(),
{
    if values.len() > 0 {
        let init = values.drop_last();
        let last = values.len() - 1;
        let before = to_request(init, known).0;
        let after = to_request(values, known).0;
        law_every_built_artifact_is_requested(init, known, a);
        assert(values[last] == values.last());
        if exists|i: int| 0 <= i < init.len() && #[trigger] init[i] == BaseArtifactKind::Build(a) {
            let i = choose|i: int|
                0 <= i < init.len() && #[trigger] init[i] == BaseArtifactKind::Build(a);
            assert(values[i] == BaseArtifactKind::Build(a));
        }
        if exists|i: int|
            0 <= i < values.len() && #[trigger] values[i] == BaseArtifactKind::Build(a) {
            let i = choose|i: int|
                0 <= i < values.len() && #[trigger] values[i] == BaseArtifactKind::Build(a);
            if i < last {
                assert(init[i] == BaseArtifactKind::Build(a));
            }
        }
        if before.contains(a) {
            let n = choose|n: int| 0 <= n < before.len() && before[n] == a;
            assert(after[n] == a);
        }
        if after.contains(a) && !before.contains(a) {
            let n = choose|n: int| 0 <= n < after.len() && after[n] == a;
            if n < before.len() {
                assert(before[n] == a);
            }
        }
        if values.last() == BaseArtifactKind::Build(a) && !to_request(init, known).1.contains(a) {
            assert(after[after.len() - 1] == a);
        }
    }
}

/// A choice to skip materializes nothing; only the choice to materialize forces it.
pub proof fn law_what_a_choice_means(m: Materializations, c: MaterializationContext<'_>)
    requires
        converts(m, c),
    ensures
        c is Skip <==> m is Skip,
        c is Materialize ==> (c->force <==> m is Materialize),
{
}

} // verus!
