//! Profiling of interpreted code.
//!
//! Points of time count nanoseconds from some beginning. What the interpreter collects is of type
//! `D`.
use vstd::prelude::*;
use vstd::string::*;

use crate::text;

verus! {

/// When a file is profiled, all that it loads must be instrumented.
#[derive(Clone, Copy, Debug, PartialEq, Eq, Structural)]
pub struct StarlarkProfilerInstrumentation {}

impl StarlarkProfilerInstrumentation {
    pub fn new() -> (r: Self)
        ensures
            r == (StarlarkProfilerInstrumentation {  }),
    {
        StarlarkProfilerInstrumentation {  }
    }
}

/// What is profiled, by name, and whether that takes a frozen module.
#[derive(Debug)]
pub struct ProfileMode {
    pub name: String,
    pub requires_frozen_module: bool,
}

impl ProfileMode {
    pub fn same_as(&self, other: &Self) -> (r: bool)
        ensures
            r == (self.name@ == other.name@ && self.requires_frozen_module
                == other.requires_frozen_module),
    {
        self.requires_frozen_module == other.requires_frozen_module && text::str_eq(
            self.name.as_str(),
            other.name.as_str(),
        )
    }

    /// Another handle on the same mode.
    pub fn dupe(&self) -> (r: Self)
        ensures
            r == *self,
    {
        ProfileMode {
            name: self.name.clone(),
            requires_frozen_module: self.requires_frozen_module,
        }
    }
}

/// Two modes are the same.
pub open spec fn same_mode(a: ProfileMode, b: ProfileMode) -> bool {
    a.name@ == b.name@ && a.requires_frozen_module == b.requires_frozen_module
}

/// Why there is no profile.
#[derive(Debug)]
pub enum StarlarkProfilerError {
    RetainedMemoryNotFrozen,
    Empty,
    /// What cannot happen, or what the interpreter reports.
    Message(String),
}

/// The message of an error.
pub open spec fn profiler_error_text(e: StarlarkProfilerError) -> Seq<char> {
    match e {
        StarlarkProfilerError::RetainedMemoryNotFrozen =>
            "Retained memory profiling is available only for analysis profile or bxl profile (which freezes the module)"@,
        StarlarkProfilerError::Empty => "empty collection of profile data"@,
        StarlarkProfilerError::Message(m) => m@,
    }
}

impl StarlarkProfilerError {
    /// The message shown for the error.
    pub fn message(&self) -> (r: String)
        ensures
            r@ == profiler_error_text(*self),
    {
        match self {
            StarlarkProfilerError::RetainedMemoryNotFrozen =>
                "Retained memory profiling is available only for analysis profile or bxl profile (which freezes the module)".to_owned(),
            StarlarkProfilerError::Empty => "empty collection of profile data".to_owned(),
            StarlarkProfilerError::Message(m) => m.clone(),
        }
    }
}

/// A profile.
#[derive(Debug)]
pub struct StarlarkProfileDataAndStats<D> {
    pub profile_mode: ProfileMode,
    pub profile_data: D,
    pub initialized_at: u64,
    pub finalized_at: u64,
    pub total_retained_bytes: usize,
}

/// The bytes that some profiles retain together.
pub open spec fn total_bytes<D>(datas: Seq<&StarlarkProfileDataAndStats<D>>) -> nat
    decreases datas.len(),
{
    if datas.len() == 0 {
        0
    } else {
        total_bytes(datas.drop_last()) + datas.last().total_retained_bytes as nat
    }
}

proof fn lemma_total_grows<D>(datas: Seq<&StarlarkProfileDataAndStats<D>>, n: int)
    requires
        0 <= n <= datas.len(),
    ensures
        total_bytes(datas.take(n)) <= total_bytes(datas),
    decreases datas.len(),
{
    if n == datas.len() {
        assert(datas.take(n) =~= datas);
    } else {
        lemma_total_grows(datas.drop_last(), n);
        assert(datas.drop_last().take(n) =~= datas.take(n));
    }
}

/// All profiles are of the mode of the first.
pub open spec fn one_mode<D>(datas: Seq<&StarlarkProfileDataAndStats<D>>) -> bool {
    forall|i: int|
        0 <= i < datas.len() ==> same_mode(
            (#[trigger] datas[i]).profile_mode,
            datas[0].profile_mode,
        )
}

/// `start` is the earliest beginning and `end` the latest end.
pub open spec fn spans<D>(
    datas: Seq<&StarlarkProfileDataAndStats<D>>,
    start: u64,
    end: u64,
) -> bool {
    &&& forall|i: int|
        0 <= i < datas.len() ==> start <= (#[trigger] datas[i]).initialized_at
            && datas[i].finalized_at <= end
    &&& exists|i: int| 0 <= i < datas.len() && (#[trigger] datas[i]).initialized_at == start
    &&& exists|i: int| 0 <= i < datas.len() && (#[trigger] datas[i]).finalized_at == end
}

impl<D> StarlarkProfileDataAndStats<D> {
    /// How long the profiled code ran, in nanoseconds.
    pub fn elapsed(&self) -> (r: u64)
        ensures
            r == (if self.finalized_at >= self.initialized_at {
                self.finalized_at - self.initialized_at
            } else {
                0
            }),
    {
        if self.finalized_at >= self.initialized_at {
            self.finalized_at - self.initialized_at
        } else {
            0
        }
    }

    pub fn total_retained_bytes(&self) -> (r: usize)
        ensures
            r == self.total_retained_bytes,
    {
        self.total_retained_bytes
    }

    /// One profile out of several of one mode. `merged` is what the interpreter makes of what was
    /// collected.
    pub fn merge(datas: &Vec<&StarlarkProfileDataAndStats<D>>, merged: Result<D, String>) -> (r:
        Result<StarlarkProfileDataAndStats<D>, StarlarkProfilerError>)
        requires
            total_bytes(datas@) <= usize::MAX,
        ensures
            match r {
                Ok(all) => {
                    &&& datas@.len() > 0
                    &&& one_mode(datas@)
                    &&& merged == Ok::<D, String>(all.profile_data)
                    &&& all.profile_mode == datas@[0].profile_mode
                    &&& spans(datas@, all.initialized_at, all.finalized_at)
                    &&& all.total_retained_bytes == total_bytes(datas@)
                },
                Err(StarlarkProfilerError::Empty) => datas@.len() == 0,
                Err(StarlarkProfilerError::Message(m)) => {
                    &&& datas@.len() > 0
                    &&& if one_mode(datas@) {
                        merged == Err::<D, String>(m)
                    } else {
                        m@ == "profile mode are inconsistent"@
                    }
                },
                Err(_) => false,
            },
    {
        if datas.len() == 0 {
            return Err(StarlarkProfilerError::Empty);
        }
        let first = datas[0];
        let mut total_retained_bytes: usize = first.total_retained_bytes;
        let mut initialized_at: u64 = first.initialized_at;
        let mut finalized_at: u64 = first.finalized_at;
        let mut i: usize = 1;
        proof {
            let one = datas@.take(1);
            assert(one.drop_last() =~= Seq::empty());
            assert(total_bytes(one.drop_last()) == 0);
            assert(one.last() == datas@[0]);
            assert(one[0].initialized_at == initialized_at);
            assert(one[0].finalized_at == finalized_at);
        }
        while i < datas.len()
            invariant
                1 <= i <= datas@.len(),
                first == datas@[0],
                total_bytes(datas@) <= usize::MAX,
                total_retained_bytes == total_bytes(datas@.take(i as int)),
                one_mode(datas@.take(i as int)),
                spans(datas@.take(i as int), initialized_at, finalized_at),
            decreases datas@.len() - i,
        {
            let data = datas[i];
            let ghost before = datas@.take(i as int);
            let ghost after = datas@.take(i + 1);
            let ghost start = initialized_at;
            let ghost end = finalized_at;
            proof {
                assert(after.drop_last() =~= before);
                assert(after.last() == datas@[i as int]);
                lemma_total_grows(datas@, i + 1);
            }
            if !data.profile_mode.same_as(&first.profile_mode) {
                assert(!same_mode(datas@[i as int].profile_mode, datas@[0].profile_mode));
                return Err(
                    StarlarkProfilerError::Message("profile mode are inconsistent".to_owned()),
                );
            }
            if data.initialized_at < initialized_at {
                initialized_at = data.initialized_at;
            }
            if data.finalized_at > finalized_at {
                finalized_at = data.finalized_at;
            }
            total_retained_bytes = total_retained_bytes + data.total_retained_bytes;
            proof {
                assert forall|k: int| 0 <= k < after.len() implies same_mode(
                    (#[trigger] after[k]).profile_mode,
                    after[0].profile_mode,
                ) && initialized_at <= after[k].initialized_at && after[k].finalized_at
                    <= finalized_at by {
                    if k < i {
                        assert(before[k] == after[k]);
                        assert(before[0] == after[0]);
                    }
                }
                let a = choose|k: int|
                    0 <= k < before.len() && (#[trigger] before[k]).initialized_at == start;
                let b = choose|k: int|
                    0 <= k < before.len() && (#[trigger] before[k]).finalized_at == end;
                if initialized_at == start {
                    assert(after[a].initialized_at == initialized_at);
                } else {
                    assert(after[i as int].initialized_at == initialized_at);
                }
                if finalized_at == end {
                    assert(after[b].finalized_at == finalized_at);
                } else {
                    assert(after[i as int].finalized_at == finalized_at);
                }
            }
            i = i + 1;
        }
        assert(datas@.take(datas@.len() as int) =~= datas@);
        match merged {
            Ok(profile_data) => Ok(
                StarlarkProfileDataAndStats {
                    profile_mode: first.profile_mode.dupe(),
                    profile_data,
                    initialized_at,
                    finalized_at,
                    total_retained_bytes,
                },
            ),
            Err(m) => Err(StarlarkProfilerError::Message(m)),
        }
    }
}

/// A profile that is being made.
#[derive(Debug)]
pub struct StarlarkProfiler<D> {
    pub profile_mode: ProfileMode,
    /// The module will be frozen, and the frozen module visited.
    pub will_freeze: bool,
    pub initialized_at: Option<u64>,
    pub finalized_at: Option<u64>,
    pub profile_data: Option<D>,
    pub total_retained_bytes: Option<usize>,
}

/// A frozen module: what its heap profile came to, and how much it holds.
#[derive(Debug)]
pub struct FrozenHeap<D> {
    pub heap_profile: Result<D, String>,
    pub total_allocated_bytes: usize,
}

/// A profiler once the code ended at `now`. What was collected counts unless the mode takes a
/// frozen module.
pub open spec fn completed<D>(
    p: StarlarkProfiler<D>,
    now: u64,
    generated: Result<D, String>,
) -> StarlarkProfiler<D> {
    StarlarkProfiler {
        finalized_at: Some(now),
        profile_data: match generated {
            Ok(d) if !p.profile_mode.requires_frozen_module => Some(d),
            _ => p.profile_data,
        },
        ..p
    }
}

/// A module, or none, is what the profiler was told to expect, and can be profiled if the mode
/// takes that.
pub open spec fn can_visit<D>(p: StarlarkProfiler<D>, module: Option<FrozenHeap<D>>) -> bool {
    &&& p.will_freeze == (module is Some)
    &&& p.profile_mode.requires_frozen_module ==> module is Some && module->0.heap_profile is Ok
}

/// A profiler once it has seen a module, or that there is none.
pub open spec fn visited<D>(p: StarlarkProfiler<D>, module: Option<FrozenHeap<D>>) -> StarlarkProfiler<
    D,
> {
    StarlarkProfiler {
        profile_data: if p.profile_mode.requires_frozen_module {
            Some(module->0.heap_profile->Ok_0)
        } else {
            p.profile_data
        },
        total_retained_bytes: Some(
            match module {
                Some(heap) => heap.total_allocated_bytes,
                None => 0,
            },
        ),
        ..p
    }
}

/// Why a module, or its absence, is refused.
pub open spec fn visit_error<D>(
    p: StarlarkProfiler<D>,
    module: Option<FrozenHeap<D>>,
    e: StarlarkProfilerError,
) -> bool {
    if p.will_freeze != (module is Some) {
        e matches StarlarkProfilerError::Message(m) && m@
            == "will_freeze field was initialized incorrectly"@
    } else {
        match module {
            None => e is RetainedMemoryNotFrozen,
            Some(heap) => e == StarlarkProfilerError::Message(heap.heap_profile->Err_0),
        }
    }
}

impl<D> StarlarkProfiler<D> {
    pub fn new(profile_mode: ProfileMode, will_freeze: bool) -> (r: Self)
        ensures
            r == (StarlarkProfiler::<D> {
                profile_mode,
                will_freeze,
                initialized_at: None,
                finalized_at: None,
                profile_data: None,
                total_retained_bytes: None,
            }),
    {
        StarlarkProfiler {
            profile_mode,
            will_freeze,
            initialized_at: None,
            finalized_at: None,
            profile_data: None,
            total_retained_bytes: None,
        }
    }

    /// Collects all profiling data.
    pub fn finish(self) -> (r: Result<StarlarkProfileDataAndStats<D>, StarlarkProfilerError>)
        ensures
            match (
                self.initialized_at,
                self.finalized_at,
                self.total_retained_bytes,
                self.profile_data,
            ) {
                (Some(initialized_at), Some(finalized_at), Some(bytes), Some(data)) => r == Ok::<
                    StarlarkProfileDataAndStats<D>,
                    StarlarkProfilerError,
                >(
                    StarlarkProfileDataAndStats {
                        profile_mode: self.profile_mode,
                        profile_data: data,
                        initialized_at,
                        finalized_at,
                        total_retained_bytes: bytes,
                    },
                ),
                (None, _, _, _) => r matches Err(StarlarkProfilerError::Message(m)) && m@
                    == "did not initialize"@,
                (_, None, _, _) => r matches Err(StarlarkProfilerError::Message(m)) && m@
                    == "did not finalize"@,
                (_, _, None, _) => r matches Err(StarlarkProfilerError::Message(m)) && m@
                    == "did not visit heap"@,
                (_, _, _, None) => r matches Err(StarlarkProfilerError::Message(m)) && m@
                    == "profile_data not initialized"@,
            },
    {
        let initialized_at = match self.initialized_at {
            Some(t) => t,
            None => {
                return Err(StarlarkProfilerError::Message("did not initialize".to_owned()));
            },
        };
        let finalized_at = match self.finalized_at {
            Some(t) => t,
            None => {
                return Err(StarlarkProfilerError::Message("did not finalize".to_owned()));
            },
        };
        let total_retained_bytes = match self.total_retained_bytes {
            Some(n) => n,
            None => {
                return Err(StarlarkProfilerError::Message("did not visit heap".to_owned()));
            },
        };
        let profile_data = match self.profile_data {
            Some(d) => d,
            None => {
                return Err(
                    StarlarkProfilerError::Message("profile_data not initialized".to_owned()),
                );
            },
        };
        Ok(
            StarlarkProfileDataAndStats {
                profile_mode: self.profile_mode,
                profile_data,
                initialized_at,
                finalized_at,
                total_retained_bytes,
            },
        )
    }

    /// The instrumentation that the files loaded by the profiled module need.
    pub fn instrumentation(&self) -> (r: Option<StarlarkProfilerInstrumentation>)
        ensures
            r is Some,
    {
        Some(StarlarkProfilerInstrumentation {  })
    }

    /// Notes when profiling began, if the interpreter could begin it.
    pub fn initialize(&mut self, enabled: Result<(), String>, now: u64) -> (r: Result<
        (),
        StarlarkProfilerError,
    >)
        ensures
            match enabled {
                Ok(_) => r is Ok && *final(self) == (StarlarkProfiler {
                    initialized_at: Some(now),
                    ..*old(self)
                }),
                Err(e) => *final(self) == *old(self) && r == Err::<(), StarlarkProfilerError>(
                    StarlarkProfilerError::Message(e),
                ),
            },
    {
        match enabled {
            Ok(_) => {
                self.initialized_at = Some(now);
                Ok(())
            },
            Err(e) => Err(StarlarkProfilerError::Message(e)),
        }
    }

    /// Notes when the code ended, and what was collected unless that takes a frozen module.
    pub fn evaluation_complete(&mut self, now: u64, generated: Result<D, String>) -> (r: Result<
        (),
        StarlarkProfilerError,
    >)
        ensures
            *final(self) == completed(*old(self), now, generated),
            r is Err <==> !old(self).profile_mode.requires_frozen_module && generated is Err,
            r matches Err(e) ==> e == StarlarkProfilerError::Message(generated->Err_0),
    {
        self.finalized_at = Some(now);
        if !self.profile_mode.requires_frozen_module {
            match generated {
                Ok(d) => {
                    self.profile_data = Some(d);
                },
                Err(e) => {
                    return Err(StarlarkProfilerError::Message(e));
                },
            }
        }
        Ok(())
    }

    /// Looks at the frozen module, or notes that there is none.
    pub fn visit_frozen_module(&mut self, module: Option<FrozenHeap<D>>) -> (r: Result<
        (),
        StarlarkProfilerError,
    >)
        ensures
            match r {
                Ok(_) => can_visit(*old(self), module) && *final(self) == visited(
                    *old(self),
                    module,
                ),
                Err(e) => {
                    &&& !can_visit(*old(self), module)
                    &&& visit_error(*old(self), module, e)
                    &&& *final(self) == *old(self)
                },
            },
    {
        if self.will_freeze != module.is_some() {
            return Err(
                StarlarkProfilerError::Message(
                    "will_freeze field was initialized incorrectly".to_owned(),
                ),
            );
        }
        if self.profile_mode.requires_frozen_module {
            match module {
                None => Err(StarlarkProfilerError::RetainedMemoryNotFrozen),
                Some(heap) => match heap.heap_profile {
                    Ok(d) => {
                        self.profile_data = Some(d);
                        self.total_retained_bytes = Some(heap.total_allocated_bytes);
                        Ok(())
                    },
                    Err(e) => Err(StarlarkProfilerError::Message(e)),
                },
            }
        } else {
            let bytes: usize = match module {
                Some(heap) => heap.total_allocated_bytes,
                None => 0,
            };
            self.total_retained_bytes = Some(bytes);
            Ok(())
        }
    }
}

/// How code is interpreted.
#[derive(Debug)]
pub enum StarlarkProfileModeOrInstrumentation {
    NotProfiled,
    Profile(ProfileMode),
}

impl StarlarkProfileModeOrInstrumentation {
    pub fn profile_mode(&self) -> (r: Option<&ProfileMode>)
        ensures
            r == (match *self {
                StarlarkProfileModeOrInstrumentation::Profile(mode) => Some(&mode),
                StarlarkProfileModeOrInstrumentation::NotProfiled => None,
            }),
    {
        match self {
            StarlarkProfileModeOrInstrumentation::Profile(mode) => Some(mode),
            StarlarkProfileModeOrInstrumentation::NotProfiled => None,
        }
    }
}

/// A profiler for a module, or none.
#[derive(Debug)]
pub struct StarlarkProfilerOrInstrumentation<D> {
    pub profiler: Option<StarlarkProfiler<D>>,
}

impl<D> StarlarkProfilerOrInstrumentation<D> {
    /// Profiles a module, all loads of which are instrumented.
    pub fn new(
        profiler: StarlarkProfiler<D>,
        instrumentation: Option<StarlarkProfilerInstrumentation>,
    ) -> (r: Self)
        requires
            instrumentation is Some,
        ensures
            r.profiler == Some(profiler),
    {
        Self::for_profiler(profiler)
    }

    pub fn for_profiler(profiler: StarlarkProfiler<D>) -> (r: Self)
        ensures
            r.profiler == Some(profiler),
    {
        StarlarkProfilerOrInstrumentation { profiler: Some(profiler) }
    }

    /// No profiling.
    pub fn disabled() -> (r: Self)
        ensures
            r.profiler is None,
    {
        StarlarkProfilerOrInstrumentation { profiler: None }
    }

    /// Begins to profile; says whether there is a profiler at all.
    pub fn initialize(&mut self, enabled: Result<(), String>, now: u64) -> (r: Result<
        bool,
        StarlarkProfilerError,
    >)
        ensures
            match old(self).profiler {
                None => *final(self) == *old(self) && r == Ok::<bool, StarlarkProfilerError>(false),
                Some(p) => match enabled {
                    Ok(_) => {
                        &&& r == Ok::<bool, StarlarkProfilerError>(true)
                        &&& final(self).profiler == Some(
                            StarlarkProfiler { initialized_at: Some(now), ..p },
                        )
                    },
                    Err(e) => *final(self) == *old(self) && r == Err::<
                        bool,
                        StarlarkProfilerError,
                    >(StarlarkProfilerError::Message(e)),
                },
            },
    {
        match &mut self.profiler {
            None => Ok(false),
            Some(p) => match p.initialize(enabled, now) {
                Ok(_) => Ok(true),
                Err(e) => Err(e),
            },
        }
    }

    /// Looks at the frozen module if there is a profiler.
    pub fn visit_frozen_module(&mut self, module: Option<FrozenHeap<D>>) -> (r: Result<
        (),
        StarlarkProfilerError,
    >)
        ensures
            match (old(self).profiler, r) {
                (None, _) => r is Ok && *final(self) == *old(self),
                (Some(p), Ok(_)) => can_visit(p, module) && final(self).profiler == Some(
                    visited(p, module),
                ),
                (Some(p), Err(e)) => {
                    &&& !can_visit(p, module)
                    &&& visit_error(p, module, e)
                    &&& *final(self) == *old(self)
                },
            },
    {
        match &mut self.profiler {
            None => Ok(()),
            Some(p) => p.visit_frozen_module(module),
        }
    }

    /// Ends profiling if there is a profiler.
    pub fn evaluation_complete(&mut self, now: u64, generated: Result<D, String>) -> (r: Result<
        (),
        StarlarkProfilerError,
    >)
        ensures
            match old(self).profiler {
                None => r is Ok && *final(self) == *old(self),
                Some(p) => {
                    &&& final(self).profiler == Some(completed(p, now, generated))
                    &&& r is Err <==> !p.profile_mode.requires_frozen_module && generated is Err
                    &&& r matches Err(e) ==> e == StarlarkProfilerError::Message(generated->Err_0)
                },
            },
    {
        match &mut self.profiler {
            None => Ok(()),
            Some(p) => p.evaluation_complete(now, generated),
        }
    }
}

/// A profiler that was begun, ended, and shown the module it was told of gives a profile: where its
/// mode takes a frozen module, one that could be profiled, and else whatever was collected.
pub proof fn law_full_run_gives_a_profile<D>(
    p: StarlarkProfiler<D>,
    start: u64,
    end: u64,
    generated: Result<D, String>,
    module: Option<FrozenHeap<D>>,
)
    requires
        p.profile_mode.requires_frozen_module || generated is Ok,
        can_visit(p, module),
    ensures
        ({
            let begun = StarlarkProfiler { initialized_at: Some(start), ..p };
            let all = visited(completed(begun, end, generated), module);
            &&& all.initialized_at == Some(start)
            &&& all.finalized_at == Some(end)
            &&& all.total_retained_bytes is Some
            &&& all.profile_data is Some
        }),
{
}

/// The memory that was retained is the sum over all profiles, whatever their order: each adds what
/// it has.
pub proof fn law_every_profile_counts<D>(
    a: Seq<&StarlarkProfileDataAndStats<D>>,
    b: Seq<&StarlarkProfileDataAndStats<D>>,
    d: &StarlarkProfileDataAndStats<D>,
)
    ensures
        total_bytes(Seq::<&StarlarkProfileDataAndStats<D>>::empty()) == 0,
        total_bytes(seq![d]) == d.total_retained_bytes,
        total_bytes(a + b) == total_bytes(a) + total_bytes(b),
        total_bytes(a.push(d)) == total_bytes(a) + d.total_retained_bytes,
    decreases b.len(),
{
    assert(seq![d].drop_last() =~= Seq::<&StarlarkProfileDataAndStats<D>>::empty());
    assert(total_bytes(seq![d].drop_last()) == 0);
    assert(a.push(d).drop_last() =~= a);
    if b.len() > 0 {
        law_every_profile_counts(a, b.drop_last(), d);
        assert((a + b).drop_last() =~= a + b.drop_last());
    } else {
        assert(a + b =~= a);
    }
}

/// Profiles can be put together only if they are of one mode: of the same name and the same need
/// for a frozen module.
pub proof fn law_profiles_of_one_mode<D>(
    datas: Seq<&StarlarkProfileDataAndStats<D>>,
    i: int,
    j: int,
)
    requires
        0 <= i < datas.len(),
        0 <= j < datas.len(),
    ensures
        one_mode(datas) ==> datas[i].profile_mode.name@ == datas[j].profile_mode.name@
            && datas[i].profile_mode.requires_frozen_module
            == datas[j].profile_mode.requires_frozen_module,
        (forall|k: int|
            0 <= k < datas.len() ==> (#[trigger] datas[k]).profile_mode
                == datas[0].profile_mode) ==> one_mode(datas),
{
}

/// Profiles that are put together last from the first beginning to the last end.
pub proof fn law_time_of_all_profiles<D>(
    datas: Seq<&StarlarkProfileDataAndStats<D>>,
    start: u64,
    end: u64,
    i: int,
)
    requires
        spans(datas, start, end),
        0 <= i < datas.len(),
    ensures
        start <= datas[i].initialized_at,
        datas[i].finalized_at <= end,
        exists|k: int| 0 <= k < datas.len() && (#[trigger] datas[k]).initialized_at == start,
        exists|k: int| 0 <= k < datas.len() && (#[trigger] datas[k]).finalized_at == end,
{
}

/// The end of an evaluation is noted, and the profile that came of it is kept, except in a mode that
/// takes its profile from the frozen module.
pub proof fn law_what_an_evaluation_leaves<D>(
    p: StarlarkProfiler<D>,
    now: u64,
    d: D,
    reason: String,
)
    ensures
        completed(p, now, Ok(d)).finalized_at == Some(now),
        completed(p, now, Err(reason)).finalized_at == Some(now),
        !p.profile_mode.requires_frozen_module ==> completed(p, now, Ok(d)).profile_data == Some(d),
        p.profile_mode.requires_frozen_module ==> completed(p, now, Ok(d)).profile_data
            == p.profile_data,
        completed(p, now, Err(reason)).profile_data == p.profile_data,
        completed(p, now, Ok(d)).profile_mode == p.profile_mode,
        completed(p, now, Ok(d)).will_freeze == p.will_freeze,
        completed(p, now, Ok(d)).initialized_at == p.initialized_at,
        completed(p, now, Ok(d)).total_retained_bytes == p.total_retained_bytes,
{
}

/// A frozen module can be looked at where one was announced, and gives the memory that it has and,
/// in a mode that needs it, the profile; without a module nothing is retained.
pub proof fn law_what_a_frozen_module_gives<D>(p: StarlarkProfiler<D>, heap: FrozenHeap<D>)
    ensures
        can_visit(p, Some(heap)) <==> p.will_freeze && (p.profile_mode.requires_frozen_module
            ==> heap.heap_profile is Ok),
        can_visit(p, None) <==> !p.will_freeze && !p.profile_mode.requires_frozen_module,
        visited(p, Some(heap)).total_retained_bytes == Some(heap.total_allocated_bytes),
        visited(p, None).total_retained_bytes == Some(0usize),
        p.profile_mode.requires_frozen_module && heap.heap_profile is Ok ==> visited(
            p,
            Some(heap),
        ).profile_data == Some(heap.heap_profile->Ok_0),
        !p.profile_mode.requires_frozen_module ==> visited(p, Some(heap)).profile_data
            == p.profile_data && visited(p, None).profile_data == p.profile_data,
        visited(p, Some(heap)).initialized_at == p.initialized_at,
        visited(p, Some(heap)).finalized_at == p.finalized_at,
        visited(p, Some(heap)).profile_mode == p.profile_mode,
{
}

/// Why a module cannot be looked at.
pub proof fn law_why_a_module_is_refused<D>(
    p: StarlarkProfiler<D>,
    heap: FrozenHeap<D>,
    e: StarlarkProfilerError,
)
    ensures
        !p.will_freeze && visit_error(p, Some(heap), e) ==> e is Message && e->Message_0@
            == "will_freeze field was initialized incorrectly"@,
        p.will_freeze && visit_error(p, None, e) ==> e is Message && e->Message_0@
            == "will_freeze field was initialized incorrectly"@,
        !p.will_freeze && visit_error(p, None, e) ==> e is RetainedMemoryNotFrozen,
        p.will_freeze && heap.heap_profile is Err && visit_error(p, Some(heap), e) ==> e
            == StarlarkProfilerError::Message(heap.heap_profile->Err_0),
{
}

} // verus!
