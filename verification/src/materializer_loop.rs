//! The loop that deals, one after the other, with what the materializer is told and with its
//! timers.
use vstd::prelude::*;

use crate::artifact;
use crate::commands;
use crate::commands::CleanupOutcome;
use crate::commands::DeclaredWork;
use crate::commands::ExistingFutures;
use crate::commands::FinishedEffect;
use crate::deferred;
use crate::deferred::AccessTimesUpdates;
use crate::deferred::CleanStaleConfig;
use crate::deferred::CommandStream;
use crate::deferred::DeferredMaterializerConfigs;
use crate::deferred::MaterializerSender;
use crate::deferred::Op;
use crate::deferred::TtlRefreshConfiguration;
use crate::paths::ProjectRelativePathBuf;
use crate::processor;
use crate::processor::DeferredMaterializerCommandProcessor;
use crate::processor::MaterializingFuture;
use crate::run_loop;
use crate::run_loop::clean_stale_request;
use crate::run_loop::flushes_on_tick;
use crate::run_loop::CleanStaleArtifactsCommand;
use crate::run_loop::CommandOutcome;
use crate::run_loop::DeclareBegun;
use crate::run_loop::FlushDecision;
use crate::run_loop::TryRecv;
use crate::run_loop::TtlRefreshes;

verus! {

/// A timer: when it goes off first, and how often from then on.
#[derive(Clone, Copy, Debug, PartialEq, Eq, Structural)]
pub struct Timer {
    pub first_ms: u64,
    pub period_ms: u64,
}

/// The timers of the loop.
#[derive(Clone, Copy, Debug, PartialEq, Eq, Structural)]
pub struct Timers {
    pub refresh_ttl: Option<Timer>,
    pub io_buffer: Timer,
    pub clean_stale: Option<Timer>,
}

/// The timers that the configuration asks for. The one for the access times is always there.
pub fn timers(ttl_refresh: &TtlRefreshConfiguration, clean_stale: &Option<CleanStaleConfig>) -> (r:
    Timers)
    ensures
        r.refresh_ttl == (if ttl_refresh.enabled {
            Some(
                Timer { first_ms: ttl_refresh.frequency_ms, period_ms: ttl_refresh.frequency_ms },
            )
        } else {
            None
        }),
        r.io_buffer == (Timer { first_ms: 0, period_ms: 5000 }),
        r.clean_stale == (match *clean_stale {
            Some(c) => Some(Timer { first_ms: c.start_offset_ms, period_ms: c.clean_period_ms }),
            None => None,
        }),
{
    let refresh_ttl = if ttl_refresh.enabled {
        Some(Timer { first_ms: ttl_refresh.frequency_ms, period_ms: ttl_refresh.frequency_ms })
    } else {
        None
    };
    let clean_stale = match clean_stale {
        Some(c) => Some(Timer { first_ms: c.start_offset_ms, period_ms: c.clean_period_ms }),
        None => None,
    };
    Timers { refresh_ttl, io_buffer: Timer { first_ms: 0, period_ms: 5000 }, clean_stale }
}

/// The loop with all that it works on.
pub struct MaterializerLoop {
    pub processor: DeferredMaterializerCommandProcessor,
    pub stream: CommandStream,
    pub ttl_refreshes: TtlRefreshes,
    /// How many access times are collected before they are flushed.
    pub max_buffer_size: usize,
    pub access_time_updates: AccessTimesUpdates,
    pub clean_stale_config: Option<CleanStaleConfig>,
}

/// What is left to be done outside the loop.
pub enum OpEffect {
    Command(CommandOutcome),
    /// A materialization or, as the error, a clean-up has ended.
    Notified(Result<FinishedEffect, CleanupOutcome>),
    /// The running refresh of expiry times, if any, is to be looked at.
    RefreshTtls,
    Flush(FlushDecision),
    Nothing,
    CleanStale(CleanStaleArtifactsCommand),
    /// A clean-up was scheduled without being configured.
    CleanNotConfigured,
}

/// `after` is `before` with one more entry in the record of recent commands.
pub open spec fn logged(
    before: DeferredMaterializerCommandProcessor,
    shown: String,
    after: DeferredMaterializerCommandProcessor,
) -> bool {
    &&& after.log_buffer@ == deferred::last_items(
        before.log_buffer@.push(shown),
        before.log_buffer.limit(),
    )
    &&& after.log_buffer.limit() == before.log_buffer.limit()
    &&& after == (DeferredMaterializerCommandProcessor { log_buffer: after.log_buffer, ..before })
}

/// The settings of the loop and its refreshes are the same.
pub open spec fn same_settings(before: MaterializerLoop, after: MaterializerLoop) -> bool {
    &&& after.ttl_refreshes == before.ttl_refreshes
    &&& after.max_buffer_size == before.max_buffer_size
    &&& after.access_time_updates == before.access_time_updates
    &&& after.clean_stale_config == before.clean_stale_config
}

/// What is needed to deal with `op`.
pub open spec fn can_run(l: MaterializerLoop, op: Op, now: i64) -> bool {
    match op {
        Op::Command(command) => run_loop::can_process(l.processor, command),
        Op::LowPriorityCommand(_) => l.processor.version_tracker.0.0 < u64::MAX,
        Op::CleanStaleRequest => l.clean_stale_config matches Some(c) ==> i64::MIN <= now
            - c.artifact_ttl_ms <= i64::MAX,
        _ => true,
    }
}

/// Dealing with `op` takes `before` to `after` with this effect.
pub open spec fn op_follows(
    before: MaterializerLoop,
    op: Op,
    shown: String,
    now: i64,
    depth: u32,
    force_mismatch: bool,
    after: MaterializerLoop,
    effect: OpEffect,
) -> bool {
    &&& same_settings(before, after)
    &&& match op {
        Op::Command(command) => {
            &&& effect matches OpEffect::Command(outcome)
            &&& after.stream == before.stream
            &&& exists|mid: DeferredMaterializerCommandProcessor| #[trigger]
                logged(before.processor, shown, mid) && run_loop::command_follows(
                    mid,
                    command,
                    now,
                    depth,
                    force_mismatch,
                    after.processor,
                    outcome,
                )
        },
        Op::LowPriorityCommand(command) => {
            &&& effect matches OpEffect::Notified(outcome)
            &&& after.stream == before.stream
            &&& exists|mid: DeferredMaterializerCommandProcessor| #[trigger]
                logged(before.processor, shown, mid) && run_loop::notification_follows(
                    mid,
                    command,
                    after.processor,
                    outcome,
                )
        },
        Op::RefreshTtls => effect is RefreshTtls && after == before,
        Op::Tick => {
            &&& after.stream == before.stream
            &&& if before.access_time_updates is Full {
                effect matches OpEffect::Flush(decision) && run_loop::flush_follows(
                    before.processor,
                    0,
                    after.processor,
                    decision,
                )
            } else {
                effect is Nothing && after.processor == before.processor
            }
        },
        Op::CleanStaleRequest => {
            &&& after.processor == before.processor
            &&& match before.clean_stale_config {
                Some(c) => {
                    &&& effect == OpEffect::CleanStale(
                        CleanStaleArtifactsCommand {
                            keep_since_time: (now - c.artifact_ttl_ms) as i64,
                            dry_run: c.dry_run,
                            tracked_only: false,
                        },
                    )
                    &&& after.stream == (CommandStream { clean_stale_running: true, ..before.stream
                    })
                },
                None => effect is CleanNotConfigured && after.stream == before.stream,
            }
        },
    }
}

/// The end of dealing with a declaration takes `before` to `after`: the declaration is finished
/// unless it was reused, and the artifact is materialized if someone is waiting for it.
pub open spec fn declaration_ends(
    before: DeferredMaterializerCommandProcessor,
    path: ProjectRelativePathBuf,
    begun: DeclareBegun,
    existing: ExistingFutures,
    eager: bool,
    now: i64,
    depth: u32,
    after: DeferredMaterializerCommandProcessor,
    work: Option<DeclaredWork>,
    future: Option<MaterializingFuture>,
) -> bool {
    exists|mid: DeferredMaterializerCommandProcessor|
        {
            &&& #[trigger] declaration_finished(before, path, begun, existing, mid, work)
            &&& if eager {
                processor::materialize_follows(mid, path@, now, depth, after, future)
            } else {
                after == mid && future is None
            }
        }
}

/// The declaration is finished unless it was reused.
pub open spec fn declaration_finished(
    before: DeferredMaterializerCommandProcessor,
    path: ProjectRelativePathBuf,
    begun: DeclareBegun,
    existing: ExistingFutures,
    after: DeferredMaterializerCommandProcessor,
    work: Option<DeclaredWork>,
) -> bool {
    match begun {
        DeclareBegun::Reused => after == before && work is None,
        DeclareBegun::Continue { version, value, method, .. } => {
            &&& work matches Some(w)
            &&& commands::declare_finishes(
                before,
                path@,
                value,
                *method,
                version,
                existing,
                after,
                w,
            )
        },
    }
}

impl MaterializerLoop {
    /// A loop that has done nothing yet.
    pub fn new(
        processor: DeferredMaterializerCommandProcessor,
        commands: MaterializerSender,
        configs: &DeferredMaterializerConfigs,
        max_buffer_size: usize,
    ) -> (r: Self)
        ensures
            r.processor == processor,
            r.stream == (CommandStream {
                commands,
                refresh_ttl_ticker: configs.ttl_refresh.enabled,
                clean_stale_ticker: configs.clean_stale_config is Some,
                clean_stale_running: false,
            }),
            r.ttl_refreshes.history@.len() == 0,
            !r.ttl_refreshes.running,
            r.max_buffer_size == max_buffer_size,
            r.access_time_updates == configs.update_access_times,
            r.clean_stale_config == configs.clean_stale_config,
    {
        MaterializerLoop {
            processor,
            stream: CommandStream {
                commands,
                refresh_ttl_ticker: configs.ttl_refresh.enabled,
                clean_stale_ticker: configs.clean_stale_config.is_some(),
                clean_stale_running: false,
            },
            ttl_refreshes: TtlRefreshes { history: Vec::new(), running: false },
            max_buffer_size,
            access_time_updates: configs.update_access_times,
            clean_stale_config: configs.clean_stale_config,
        }
    }

    /// Deals with one thing. A command, which reads `shown`, is recorded first. What comes after a
    /// command is left to `end_command`.
    pub fn run(
        &mut self,
        op: Op,
        shown: String,
        now: i64,
        depth: u32,
        force_mismatch: bool,
    ) -> (r: OpEffect)
        requires
            old(self).processor.wf(),
            can_run(*old(self), op, now),
        ensures
            final(self).processor.wf(),
            op_follows(*old(self), op, shown, now, depth, force_mismatch, *final(self), r),
    {
        match op {
            Op::Command(command) => {
                self.processor.log_buffer.push(shown);
                let ghost mid = self.processor;
                assert(logged(old(self).processor, shown, mid));
                assert(mid.wf());
                OpEffect::Command(
                    self.processor.process_one_command(command, now, depth, force_mismatch),
                )
            },
            Op::LowPriorityCommand(command) => {
                self.processor.log_buffer.push(shown);
                let ghost mid = self.processor;
                assert(logged(old(self).processor, shown, mid));
                OpEffect::Notified(self.processor.process_one_low_priority_command(&command))
            },
            Op::RefreshTtls => OpEffect::RefreshTtls,
            Op::Tick => if flushes_on_tick(self.access_time_updates) {
                OpEffect::Flush(self.processor.begin_flush_access_times(0))
            } else {
                OpEffect::Nothing
            },
            Op::CleanStaleRequest => match clean_stale_request(&self.clean_stale_config, now) {
                Some(command) => {
                    self.stream.clean_stale_running = true;
                    OpEffect::CleanStale(command)
                },
                None => OpEffect::CleanNotConfigured,
            },
        }
    }

    /// Ends dealing with a command: it counts as dealt with, and after one of high priority the
    /// access times are flushed if there are enough of them.
    pub fn end_command(&mut self, high_priority: bool) -> (r: Option<FlushDecision>)
        requires
            old(self).processor.wf(),
        ensures
            final(self).processor.wf(),
            same_settings(*old(self), *final(self)),
            final(self).stream.commands.counters.received == old(
                self,
            ).stream.commands.counters.received.wrapping_add(1),
            final(self).stream.commands.counters.sent == old(self).stream.commands.counters.sent,
            final(self).stream == (CommandStream {
                commands: MaterializerSender {
                    counters: final(self).stream.commands.counters,
                    ..old(self).stream.commands
                },
                ..old(self).stream
            }),
            if high_priority {
                r matches Some(decision) && run_loop::flush_follows(
                    old(self).processor,
                    old(self).max_buffer_size,
                    final(self).processor,
                    decision,
                )
            } else {
                r is None && final(self).processor == old(self).processor
            },
    {
        self.stream.commands.counters.ack_received();
        if high_priority {
            Some(self.processor.begin_flush_access_times(self.max_buffer_size))
        } else {
            None
        }
    }

    /// Ends dealing with a declaration. `existing` says what was going on at the path, or why the
    /// database could not be brought up to date; `eager` that someone asked for all that is
    /// declared there.
    pub fn end_declaration(
        &mut self,
        path: &ProjectRelativePathBuf,
        begun: DeclareBegun,
        existing: ExistingFutures,
        eager: bool,
        now: i64,
        depth: u32,
    ) -> (r: (Option<DeclaredWork>, Option<MaterializingFuture>))
        requires
            old(self).processor.wf(),
            begun matches DeclareBegun::Continue { value, method, .. } ==> artifact::entry_bytes(
                value.entry,
            ) <= u64::MAX && processor::method_wf(*method),
        ensures
            final(self).processor.wf(),
            same_settings(*old(self), *final(self)),
            final(self).stream == old(self).stream,
            declaration_ends(
                old(self).processor,
                *path,
                begun,
                existing,
                eager,
                now,
                depth,
                final(self).processor,
                r.0,
                r.1,
            ),
    {
        let work = match begun {
            DeclareBegun::Reused => None,
            DeclareBegun::Continue { version, invalidated: _, value, method } => Some(
                self.processor.finish_declare(path, value, method, version, existing),
            ),
        };
        let ghost mid = self.processor;
        assert(declaration_finished(old(self).processor, *path, begun, existing, mid, work));
        if eager {
            (work, self.processor.materialize_artifact(path, now, depth))
        } else {
            (work, None)
        }
    }

    /// Looks at the running refresh of expiry times; says whether another one is to be created.
    pub fn poll_ttl_refresh(&mut self, received: TryRecv, now: i64) -> (r: bool)
        ensures
            r == !final(self).ttl_refreshes.running,
            final(self).ttl_refreshes.running == (old(self).ttl_refreshes.running
                && received is Empty),
            run_loop::refresh_polled(
                old(self).ttl_refreshes,
                received,
                now,
                final(self).ttl_refreshes,
            ),
            *final(self) == (MaterializerLoop {
                ttl_refreshes: final(self).ttl_refreshes,
                ..*old(self)
            }),
    {
        self.ttl_refreshes.poll_current_ttl_refresh(received, now);
        !self.ttl_refreshes.running
    }
}

/// While the loop runs, commands leave its queue in the order in which they came, one for each
/// poll, and all of high priority before any other.
pub proof fn law_commands_in_order(
    before: CommandStream,
    ticks: deferred::Ticks,
    after: CommandStream,
    r: deferred::NextOp,
)
    requires
        deferred::polled(before, ticks, after, r),
    ensures
        before.commands.high_priority@.len() > 0 ==> {
            &&& after.commands.high_priority@ == before.commands.high_priority@.drop_first()
            &&& after.commands.low_priority@ == before.commands.low_priority@
            &&& !(r matches deferred::NextOp::Ready(Op::LowPriorityCommand(_)))
        },
        before.commands.high_priority@.len() == 0 && before.commands.low_priority@.len() > 0 ==> {
            &&& r == deferred::NextOp::Ready(
                Op::LowPriorityCommand(before.commands.low_priority@[0]),
            )
            &&& after.commands.low_priority@ == before.commands.low_priority@.drop_first()
        },
        r is Finished ==> before.commands.high_priority@.len() > 0
            && before.commands.high_priority@[0] is Abort,
{
}

/// A clean-up of stale artifacts is not asked for while one is running, nor where none is
/// configured.
pub proof fn law_one_cleanup_at_a_time(
    before: CommandStream,
    ticks: deferred::Ticks,
    after: CommandStream,
    r: deferred::NextOp,
)
    requires
        deferred::polled(before, ticks, after, r),
        r == deferred::NextOp::Ready(Op::CleanStaleRequest),
    ensures
        !before.clean_stale_running,
        before.clean_stale_ticker,
        before.commands.high_priority@.len() == 0,
        before.commands.low_priority@.len() == 0,
{
}

/// What is dealt with leaves the settings as they are, and nothing but a clean-up that begins
/// changes what is waiting.
pub proof fn law_settings_stay(
    before: MaterializerLoop,
    op: Op,
    shown: String,
    now: i64,
    depth: u32,
    force_mismatch: bool,
    after: MaterializerLoop,
    effect: OpEffect,
)
    requires
        op_follows(before, op, shown, now, depth, force_mismatch, after, effect),
    ensures
        after.ttl_refreshes == before.ttl_refreshes,
        after.max_buffer_size == before.max_buffer_size,
        after.access_time_updates == before.access_time_updates,
        after.clean_stale_config == before.clean_stale_config,
        after.stream.commands == before.stream.commands,
        after.stream.refresh_ttl_ticker == before.stream.refresh_ttl_ticker,
        after.stream.clean_stale_ticker == before.stream.clean_stale_ticker,
        after.stream.clean_stale_running <==> before.stream.clean_stale_running
            || effect is CleanStale,
{
}

/// Every command is shown in the log before it is dealt with, and is dealt with as the command that
/// it is.
pub proof fn law_every_command_is_dealt_with(
    before: MaterializerLoop,
    command: deferred::MaterializerCommand,
    notification: deferred::LowPriorityMaterializerCommand,
    shown: String,
    now: i64,
    depth: u32,
    force_mismatch: bool,
    after: MaterializerLoop,
    effect: OpEffect,
)
    ensures
        op_follows(
            before,
            Op::Command(command),
            shown,
            now,
            depth,
            force_mismatch,
            after,
            effect,
        ) ==> effect is Command && exists|mid: DeferredMaterializerCommandProcessor|
            {
                &&& mid.log_buffer@ == deferred::last_items(
                    before.processor.log_buffer@.push(shown),
                    before.processor.log_buffer.limit(),
                )
                &&& mid.tree == before.processor.tree
                &&& mid.version_tracker == before.processor.version_tracker
                &&& mid.tasks == before.processor.tasks
                &&& #[trigger] run_loop::command_follows(
                    mid,
                    command,
                    now,
                    depth,
                    force_mismatch,
                    after.processor,
                    effect->Command_0,
                )
            },
        op_follows(
            before,
            Op::LowPriorityCommand(notification),
            shown,
            now,
            depth,
            force_mismatch,
            after,
            effect,
        ) ==> effect is Notified && exists|mid: DeferredMaterializerCommandProcessor|
            {
                &&& mid.log_buffer@ == deferred::last_items(
                    before.processor.log_buffer@.push(shown),
                    before.processor.log_buffer.limit(),
                )
                &&& mid.tree == before.processor.tree
                &&& mid.version_tracker == before.processor.version_tracker
                &&& mid.tasks == before.processor.tasks
                &&& #[trigger] run_loop::notification_follows(
                    mid,
                    notification,
                    after.processor,
                    effect->Notified_0,
                )
            },
{
}

/// What the timers lead to: times to live are refreshed; uses are flushed on each tick where they
/// are all noted; stale artifacts are cleaned where that is configured, those that were not used for
/// as long as is configured.
pub proof fn law_what_timers_lead_to(
    before: MaterializerLoop,
    op: Op,
    shown: String,
    now: i64,
    depth: u32,
    force_mismatch: bool,
    after: MaterializerLoop,
    effect: OpEffect,
)
    requires
        can_run(before, op, now),
        op_follows(before, op, shown, now, depth, force_mismatch, after, effect),
    ensures
        op is RefreshTtls ==> effect is RefreshTtls && after == before,
        op is Tick && before.access_time_updates is Full ==> effect is Flush
            && run_loop::flush_follows(before.processor, 0, after.processor, effect->Flush_0),
        op is Tick && !(before.access_time_updates is Full) ==> effect is Nothing
            && after.processor == before.processor,
        op is CleanStaleRequest ==> after.processor == before.processor,
        op is CleanStaleRequest && before.clean_stale_config is None ==> effect
            is CleanNotConfigured,
        op is CleanStaleRequest && before.clean_stale_config is Some ==> {
            &&& effect is CleanStale
            &&& effect->CleanStale_0.keep_since_time == now
                - before.clean_stale_config->0.artifact_ttl_ms
            &&& effect->CleanStale_0.dry_run == before.clean_stale_config->0.dry_run
            &&& !effect->CleanStale_0.tracked_only
            &&& after.stream.clean_stale_running
        },
{
}

/// A declaration that was taken over by what is on disk is at its end; another goes on with the
/// value, method and version that it began with, and is materialized at once where that was asked
/// for.
pub proof fn law_how_a_declaration_ends(
    before: DeferredMaterializerCommandProcessor,
    path: ProjectRelativePathBuf,
    begun: DeclareBegun,
    existing: ExistingFutures,
    now: i64,
    depth: u32,
    after: DeferredMaterializerCommandProcessor,
    work: Option<DeclaredWork>,
    future: Option<MaterializingFuture>,
)
    ensures
        begun is Reused && declaration_ends(
            before,
            path,
            begun,
            existing,
            false,
            now,
            depth,
            after,
            work,
            future,
        ) ==> after == before && work is None && future is None,
        begun is Reused && declaration_ends(
            before,
            path,
            begun,
            existing,
            true,
            now,
            depth,
            after,
            work,
            future,
        ) ==> work is None && processor::materialize_follows(
            before,
            path@,
            now,
            depth,
            after,
            future,
        ),
        begun is Continue && declaration_ends(
            before,
            path,
            begun,
            existing,
            false,
            now,
            depth,
            after,
            work,
            future,
        ) ==> future is None && work is Some && commands::declare_finishes(
            before,
            path@,
            begun->value,
            *begun->method,
            begun->version,
            existing,
            after,
            work->0,
        ),
{
}

} // verus!
