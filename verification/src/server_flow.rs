//! The build daemon: how it starts, and how it goes about a request.
use vstd::prelude::*;
use vstd::string::*;

use crate::proto_times::ProtoTimestamp;
use crate::proto_times::Span;
use crate::server::BuckdServer;
use crate::server::CommandOptions;
use crate::server::CommandProgress;
use crate::server::CommandResult;
use crate::server::DaemonShutdown;
use crate::server::Status;
use crate::server::error_to_command_result;
use crate::server::error_to_response_stream;
use crate::server::inactivity_seconds;
use crate::server::result_to_command_result;
use crate::server;
use crate::text;

verus! {

/// What a daemon is told when it starts.
#[derive(Debug)]
pub struct BuckdServerInitPreferences {
    pub detect_cycles: Option<String>,
    pub which_dice: Option<String>,
    pub enable_trace_io: bool,
    pub reject_materializer_state: Option<String>,
    /// How artifacts are put on disk, as configured.
    pub materializations: Option<String>,
}

/// With what the graph of computations is set up.
#[derive(Debug)]
pub struct DiceConfiguration {
    pub with_root_config: bool,
    pub detect_cycles: Option<String>,
    pub which_dice: Option<String>,
}

/// A copy of an optional string.
fn dupe_opt(s: &Option<String>) -> (r: Option<String>)
    ensures
        r == *s,
{
    match s {
        Some(s) => Some(s.clone()),
        None => None,
    }
}

impl BuckdServerInitPreferences {
    /// With what the graph of computations is set up.
    pub fn construct_dice(&self) -> (r: DiceConfiguration)
        ensures
            r == (DiceConfiguration {
                with_root_config: true,
                detect_cycles: self.detect_cycles,
                which_dice: self.which_dice,
            }),
    {
        DiceConfiguration {
            with_root_config: true,
            detect_cycles: dupe_opt(&self.detect_cycles),
            which_dice: dupe_opt(&self.which_dice),
        }
    }
}

/// What a daemon is made of, besides its start.
#[derive(Debug)]
pub struct DaemonParts {
    pub process_info: String,
    pub auth_token: Vec<u8>,
    pub base_daemon_constraints: String,
    pub project_root: String,
    pub isolation_dir: String,
    pub materializations: Option<String>,
}

/// How far the start of a daemon is. `M` is how artifacts are put on disk.
pub enum StartStage<M> {
    Clock,
    Materializations(ProtoTimestamp),
    BuckOut(ProtoTimestamp, M),
    OpenBuckOut(ProtoTimestamp, M),
    ChangeDirectory(ProtoTimestamp, M),
    State(ProtoTimestamp),
    Timeout(ProtoTimestamp),
    Serving,
    Done,
}

/// What came of what was asked for.
pub enum StartEvent<M> {
    /// How long after the beginning of 1970 it is; there may be no answer.
    Clock(Result<Span, String>),
    Materializations(Result<M, String>),
    Settled(Result<(), String>),
    /// Whether a test wants the daemon to end soon.
    Testing(Result<bool, String>),
}

/// What is asked for next.
pub enum StartRequest<M> {
    ReadClock,
    /// Find out how artifacts are put on disk.
    ParseMaterializations(Option<String>),
    CreateBuckOut,
    OpenBuckOut,
    ChangeDirectory,
    MakeState(M),
    ReadTestSwitch,
    /// Take requests that carry the token, until nothing happens for a while.
    Serve { server: BuckdServer, auth_token: Vec<u8>, inactivity_seconds: u64 },
    Finish(Result<(), String>),
}

/// An event that can come at a stage.
pub open spec fn start_answers<M>(stage: StartStage<M>, event: StartEvent<M>) -> bool {
    match stage {
        StartStage::Clock => event is Clock && (event matches StartEvent::Clock(Ok(now)) ==> now.wf()
            && now.seconds <= i64::MAX),
        StartStage::Materializations(_) => event is Materializations,
        StartStage::Timeout(_) => event is Testing,
        StartStage::Done => false,
        _ => event is Settled,
    }
}

/// What follows an event.
pub open spec fn start_follows<M>(
    parts: DaemonParts,
    stage: StartStage<M>,
    event: StartEvent<M>,
    next: StartStage<M>,
    request: StartRequest<M>,
) -> bool {
    match (stage, event) {
        (StartStage::Clock, StartEvent::Clock(Ok(now))) => {
            &&& next matches StartStage::Materializations(t)
            &&& t.seconds == now.seconds
            &&& t.nanos == now.nanos
            &&& request == StartRequest::<M>::ParseMaterializations(parts.materializations)
        },
        (_, StartEvent::Clock(Err(e))) => next is Done && request == StartRequest::<M>::Finish(
            Err(e),
        ),
        (StartStage::Materializations(t), StartEvent::Materializations(Ok(m))) => {
            &&& next == StartStage::BuckOut(t, m)
            &&& request is CreateBuckOut
        },
        (_, StartEvent::Materializations(Err(e))) => next is Done && request == StartRequest::<
            M,
        >::Finish(Err(e)),
        (StartStage::BuckOut(t, m), StartEvent::Settled(Ok(_))) => {
            &&& next == StartStage::OpenBuckOut(t, m)
            &&& request is OpenBuckOut
        },
        (StartStage::BuckOut(_, _), StartEvent::Settled(Err(e))) => {
            &&& next is Done
            &&& request matches StartRequest::Finish(Err(m))
            &&& m@ == "Error creating buck_out_path: "@ + e@
        },
        (StartStage::OpenBuckOut(t, m), StartEvent::Settled(Ok(_))) => {
            &&& next == StartStage::ChangeDirectory(t, m)
            &&& request is ChangeDirectory
        },
        (StartStage::ChangeDirectory(t, m), StartEvent::Settled(Ok(_))) => {
            &&& next == StartStage::<M>::State(t)
            &&& request == StartRequest::MakeState(m)
        },
        (StartStage::State(t), StartEvent::Settled(Ok(_))) => {
            &&& next == StartStage::<M>::Timeout(t)
            &&& request is ReadTestSwitch
        },
        (StartStage::Timeout(t), StartEvent::Testing(Ok(testing))) => {
            &&& next is Serving
            &&& request matches StartRequest::Serve { server, auth_token, inactivity_seconds }
            &&& server == (BuckdServer {
                stop_accepting_requests: false,
                process_info: parts.process_info,
                base_daemon_constraints: parts.base_daemon_constraints,
                start_time: t,
                project_root: parts.project_root,
                isolation_dir: parts.isolation_dir,
            })
            &&& auth_token@ == parts.auth_token@
            &&& inactivity_seconds == (if testing {
                1u64
            } else {
                server::DEFAULT_INACTIVITY_SECONDS
            })
        },
        (_, StartEvent::Testing(Err(e))) => next is Done && request == StartRequest::<M>::Finish(
            Err(e),
        ),
        (StartStage::Serving, StartEvent::Settled(Ok(_))) => next is Done && request
            == StartRequest::<M>::Finish(Ok(())),
        (_, StartEvent::Settled(Err(e))) => next is Done && request == StartRequest::<M>::Finish(
            Err(e),
        ),
        _ => true,
    }
}

fn dupe_bytes(bytes: &Vec<u8>) -> (r: Vec<u8>)
    ensures
        r@ == bytes@,
{
    let r = bytes.clone();
    assert(r@ =~= bytes@);
    r
}

impl BuckdServer {
    /// The next step of the start of a daemon.
    pub fn run<M>(parts: &DaemonParts, stage: StartStage<M>, event: StartEvent<M>) -> (r: (
        StartStage<M>,
        StartRequest<M>,
    ))
        requires
            start_answers(stage, event),
        ensures
            start_follows(*parts, stage, event, r.0, r.1),
    {
        match (stage, event) {
            (StartStage::Clock, StartEvent::Clock(Ok(now))) => {
                let start_time = ProtoTimestamp {
                    seconds: now.seconds as i64,
                    nanos: now.nanos as i32,
                };
                (
                    StartStage::Materializations(start_time),
                    StartRequest::ParseMaterializations(dupe_opt(&parts.materializations)),
                )
            },
            (_, StartEvent::Clock(Err(e))) => (StartStage::Done, StartRequest::Finish(Err(e))),
            (StartStage::Materializations(t), StartEvent::Materializations(Ok(m))) => (
                StartStage::BuckOut(t, m),
                StartRequest::CreateBuckOut,
            ),
            (_, StartEvent::Materializations(Err(e))) => (
                StartStage::Done,
                StartRequest::Finish(Err(e)),
            ),
            (StartStage::BuckOut(t, m), StartEvent::Settled(Ok(_))) => (
                StartStage::OpenBuckOut(t, m),
                StartRequest::OpenBuckOut,
            ),
            (StartStage::BuckOut(_, _), StartEvent::Settled(Err(e))) => (
                StartStage::Done,
                StartRequest::Finish(
                    Err(text::concat2("Error creating buck_out_path: ", e.as_str())),
                ),
            ),
            (StartStage::OpenBuckOut(t, m), StartEvent::Settled(Ok(_))) => (
                StartStage::ChangeDirectory(t, m),
                StartRequest::ChangeDirectory,
            ),
            (StartStage::ChangeDirectory(t, m), StartEvent::Settled(Ok(_))) => (
                StartStage::State(t),
                StartRequest::MakeState(m),
            ),
            (StartStage::State(t), StartEvent::Settled(Ok(_))) => (
                StartStage::Timeout(t),
                StartRequest::ReadTestSwitch,
            ),
            (StartStage::Timeout(t), StartEvent::Testing(Ok(testing))) => {
                let server = BuckdServer {
                    stop_accepting_requests: false,
                    process_info: parts.process_info.clone(),
                    base_daemon_constraints: parts.base_daemon_constraints.clone(),
                    start_time: t,
                    project_root: parts.project_root.clone(),
                    isolation_dir: parts.isolation_dir.clone(),
                };
                (
                    StartStage::Serving,
                    StartRequest::Serve {
                        server,
                        auth_token: dupe_bytes(&parts.auth_token),
                        inactivity_seconds: inactivity_seconds(testing),
                    },
                )
            },
            (_, StartEvent::Testing(Err(e))) => (StartStage::Done, StartRequest::Finish(Err(e))),
            (StartStage::Serving, StartEvent::Settled(Ok(_))) => (
                StartStage::Done,
                StartRequest::Finish(Ok(())),
            ),
            (_, StartEvent::Settled(Err(e))) => (StartStage::Done, StartRequest::Finish(Err(e))),
            (_, _) => (StartStage::Done, StartRequest::ReadClock),
        }
    }

    /// A request that needs only one answer: whether it is let in is settled before the command
    /// runs, and the answer is what the command came to.
    pub fn oneshot<R>(&self, options: CommandOptions, stage: OneshotStage<R>) -> (r: OneshotStep<R>)
        ensures
            match stage {
                OneshotStage::Start => if server::lets_in(*self, options) {
                    r is Run
                } else {
                    r matches OneshotStep::Refuse(Status::FailedPrecondition(m)) && m@
                        == server::shutting_down_text()
                },
                OneshotStage::Ran(Ok(v)) => r == OneshotStep::Answer(CommandResult::<R>::Result(v)),
                OneshotStage::Ran(Err(report)) => r matches OneshotStep::Answer(
                    CommandResult::Error(errors),
                ) && errors@ == seq![report],
            },
    {
        match stage {
            OneshotStage::Start => match self.pre_run(options) {
                Ok(_) => OneshotStep::Run,
                Err(status) => OneshotStep::Refuse(status),
            },
            OneshotStage::Ran(result) => OneshotStep::Answer(result_to_command_result(result)),
        }
    }
}

/// How far a request that needs only one answer is.
pub enum OneshotStage<R> {
    Start,
    /// The command has run; its result, or the report of what went wrong.
    Ran(Result<R, String>),
}

/// What happens to a request that needs only one answer.
pub enum OneshotStep<R> {
    Refuse(Status),
    Run,
    Answer(CommandResult<R>),
}

/// How far the preparation of a streaming command is.
#[derive(Clone, Copy, Debug, PartialEq, Eq, Structural)]
pub enum StreamStage {
    /// The client's context is read.
    ClientContext,
    /// It is configured which errors are hard.
    HardErrors,
    /// The identity of the command is read.
    TraceId,
    /// The channels for events are made.
    Events,
    /// The state of the daemon is looked up.
    Data,
}

/// What follows a stage of the preparation of a streaming command.
pub enum StreamStep<R, B, Q> {
    Next(StreamStage),
    /// The command runs.
    Run,
    /// The whole answer, in place of a run.
    Answer(Vec<CommandProgress<R, B, Q>>),
}

/// The answer reports one error.
pub open spec fn reports<R, B, Q>(answer: Seq<CommandProgress<R, B, Q>>, report: Seq<char>) -> bool {
    &&& answer.len() == 1
    &&& answer[0] matches CommandProgress::Result(CommandResult::Error(errors))
    &&& errors@.len() == 1
    &&& errors@[0]@ == report
}

/// What follows a stage of the preparation of a streaming command. A command that is not let in,
/// or whose preparation fails, is answered with one message that says so.
pub fn run_streaming<R, B, Q>(
    server: &BuckdServer,
    options: CommandOptions,
    stage: StreamStage,
    outcome: Result<(), String>,
) -> (r: StreamStep<R, B, Q>)
    ensures
        match outcome {
            Err(report) => r matches StreamStep::Answer(answer) && reports(answer@, report@),
            Ok(_) => match stage {
                StreamStage::ClientContext => r == StreamStep::<R, B, Q>::Next(
                    StreamStage::HardErrors,
                ),
                StreamStage::HardErrors => if server::lets_in(*server, options) {
                    r == StreamStep::<R, B, Q>::Next(StreamStage::TraceId)
                } else {
                    r matches StreamStep::Answer(answer) && reports(
                        answer@,
                        server::refusal_report(),
                    )
                },
                StreamStage::TraceId => r == StreamStep::<R, B, Q>::Next(StreamStage::Events),
                StreamStage::Events => r == StreamStep::<R, B, Q>::Next(StreamStage::Data),
                StreamStage::Data => r is Run,
            },
        },
{
    match outcome {
        Err(report) => StreamStep::Answer(error_to_response_stream(report)),
        Ok(_) => match stage {
            StreamStage::ClientContext => StreamStep::Next(StreamStage::HardErrors),
            StreamStage::HardErrors => match server.pre_run(options) {
                Ok(_) => StreamStep::Next(StreamStage::TraceId),
                Err(status) => StreamStep::Answer(error_to_response_stream(status.report())),
            },
            StreamStage::TraceId => StreamStep::Next(StreamStage::Events),
            StreamStage::Events => StreamStep::Next(StreamStage::Data),
            StreamStage::Data => StreamStep::Run,
        },
    }
}

/// What a request to measure memory has come to.
#[derive(Clone, Copy, Debug, PartialEq, Eq, Structural)]
pub enum AllocativeStage {
    Start,
    ClientContext,
    TraceId,
    Events,
    OutputPath,
    Measure,
}

/// What happens to a request to measure memory.
pub enum AllocativeStep<R, B, Q> {
    Refuse(Status),
    Next(AllocativeStage),
    /// The whole answer, before the command began.
    Answer(Vec<CommandProgress<R, B, Q>>),
    /// The result with which the command ends.
    Result(CommandResult<()>),
}

/// A request to measure memory goes stage by stage; `outcome` is what the stage came to. A failure
/// to begin is the whole answer, and one after that is the result of the command.
pub fn allocative<R, B, Q>(
    server: &BuckdServer,
    stage: AllocativeStage,
    outcome: Result<(), String>,
) -> (r: AllocativeStep<R, B, Q>)
    ensures
        match (stage, outcome) {
            (AllocativeStage::Start, _) => if server.stop_accepting_requests {
                r matches AllocativeStep::Refuse(Status::FailedPrecondition(m)) && m@
                    == server::shutting_down_text()
            } else {
                r == AllocativeStep::<R, B, Q>::Next(AllocativeStage::ClientContext)
            },
            (AllocativeStage::ClientContext, Ok(_)) => r == AllocativeStep::<R, B, Q>::Next(
                AllocativeStage::TraceId,
            ),
            (AllocativeStage::TraceId, Ok(_)) => r == AllocativeStep::<R, B, Q>::Next(
                AllocativeStage::Events,
            ),
            (AllocativeStage::Events, Ok(_)) => r == AllocativeStep::<R, B, Q>::Next(
                AllocativeStage::OutputPath,
            ),
            (AllocativeStage::OutputPath, Ok(_)) => r == AllocativeStep::<R, B, Q>::Next(
                AllocativeStage::Measure,
            ),
            (AllocativeStage::Measure, Ok(_)) => r matches AllocativeStep::Result(
                CommandResult::Result(_),
            ),
            (AllocativeStage::OutputPath | AllocativeStage::Measure, Err(e)) => r
                matches AllocativeStep::Result(CommandResult::Error(errors)) && errors@ == seq![e],
            (_, Err(e)) => r matches AllocativeStep::Answer(answer) && reports(answer@, e@),
        },
{
    match stage {
        AllocativeStage::Start => match server.check_if_accepting_requests() {
            Ok(_) => AllocativeStep::Next(AllocativeStage::ClientContext),
            Err(status) => AllocativeStep::Refuse(status),
        },
        AllocativeStage::Measure => AllocativeStep::Result(result_to_command_result(outcome)),
        AllocativeStage::OutputPath => match outcome {
            Ok(_) => AllocativeStep::Next(AllocativeStage::Measure),
            Err(e) => AllocativeStep::Result(error_to_command_result(e)),
        },
        _ => match outcome {
            Err(e) => AllocativeStep::Answer(error_to_response_stream(e)),
            Ok(_) => AllocativeStep::Next(
                match stage {
                    AllocativeStage::ClientContext => AllocativeStage::TraceId,
                    AllocativeStage::TraceId => AllocativeStage::Events,
                    _ => AllocativeStage::OutputPath,
                },
            ),
        },
    }
}

/// The first message of a request that goes on talking.
#[derive(Clone, Copy, Debug, PartialEq, Eq, Structural)]
pub enum FirstMessage {
    /// The context of the client.
    Context,
    Other,
    Missing,
}

/// A request that goes on talking has to begin with the context of the client.
pub fn run_bidirectional(first: FirstMessage) -> (r: Result<(), Status>)
    ensures
        match r {
            Ok(_) => first == FirstMessage::Context,
            Err(Status::FailedPrecondition(m)) => first != FirstMessage::Context && m@
                == "no client context message was received"@,
            Err(_) => false,
        },
{
    match first {
        FirstMessage::Context => Ok(()),
        _ => Err(Status::FailedPrecondition("no client context message was received".to_owned())),
    }
}

/// The event that tells a client of a shutdown. It goes to the client directly, past all events
/// that wait.
#[derive(Debug)]
pub struct ShutdownEvent {
    pub timestamp: ProtoTimestamp,
    pub trace_id: String,
    pub span_id: u64,
    pub parent_id: u64,
    pub shutdown: DaemonShutdown,
}

/// What a client is told where its daemon shuts down; nothing where it does not.
pub fn shutdown_event(trace_id: &String, now: ProtoTimestamp, shutdown: Option<DaemonShutdown>) -> (r:
    Option<ShutdownEvent>)
    ensures
        r == (match shutdown {
            Some(shutdown) => Some(
                ShutdownEvent {
                    timestamp: now,
                    trace_id: *trace_id,
                    span_id: 0,
                    parent_id: 0,
                    shutdown,
                },
            ),
            None => None,
        }),
{
    match shutdown {
        Some(shutdown) => Some(
            ShutdownEvent {
                timestamp: now,
                trace_id: trace_id.clone(),
                span_id: 0,
                parent_id: 0,
                shutdown,
            },
        ),
        None => None,
    }
}

/// The answer to a command whose events cannot be passed on.
pub fn pump_failed<R, B, Q>(error: &str) -> (r: Vec<CommandProgress<R, B, Q>>)
    ensures
        reports(r@, "failed to spawn pump-events: "@ + error@),
{
    error_to_response_stream(text::concat2("failed to spawn pump-events: ", error))
}

/// A request for a dump of the heap.
#[derive(Debug)]
pub struct HeapDumpRequest {
    pub destination_path: String,
    /// Where the dump of a test executor goes, if there is to be one.
    pub test_executor_destination_path: Option<String>,
}

/// How far a request for a dump of the heap is.
#[derive(Clone, Copy, Debug, PartialEq, Eq, Structural)]
pub enum HeapDumpStage {
    Start,
    /// The heap of the daemon was to be dumped.
    Own,
    /// The heap of the last test executor was to be dumped.
    Executor,
}

/// What is done next.
#[derive(Debug)]
pub enum HeapDumpStep {
    DumpOwn(String),
    DumpExecutor(String),
    Done,
    Fail(Status),
}

/// A request for a dump of the heap goes stage by stage; `outcome` is what the stage came to. The
/// heap of the daemon comes first and then, if asked for, that of the last test executor there is.
pub fn unstable_heap_dump(
    server: &BuckdServer,
    req: &HeapDumpRequest,
    has_test_executor: bool,
    stage: HeapDumpStage,
    outcome: Result<(), String>,
) -> (r: HeapDumpStep)
    ensures
        match (stage, outcome) {
            (HeapDumpStage::Start, _) => if server.stop_accepting_requests {
                r matches HeapDumpStep::Fail(Status::FailedPrecondition(m)) && m@
                    == server::shutting_down_text()
            } else {
                r == HeapDumpStep::DumpOwn(req.destination_path)
            },
            (HeapDumpStage::Own, Ok(_)) => match req.test_executor_destination_path {
                Some(path) if has_test_executor => r == HeapDumpStep::DumpExecutor(path),
                _ => r is Done,
            },
            (HeapDumpStage::Executor, Ok(_)) => r is Done,
            (_, Err(e)) => r matches HeapDumpStep::Fail(Status::InvalidArgument(m)) && m@
                == "failed to perform heap dump: "@ + e@,
        },
{
    match stage {
        HeapDumpStage::Start => match server.check_if_accepting_requests() {
            Ok(_) => HeapDumpStep::DumpOwn(req.destination_path.clone()),
            Err(status) => HeapDumpStep::Fail(status),
        },
        _ => match outcome {
            Err(e) => HeapDumpStep::Fail(
                Status::InvalidArgument(text::concat2("failed to perform heap dump: ", e.as_str())),
            ),
            Ok(_) => match stage {
                HeapDumpStage::Own => match &req.test_executor_destination_path {
                    Some(path) => if has_test_executor {
                        HeapDumpStep::DumpExecutor(path.clone())
                    } else {
                        HeapDumpStep::Done
                    },
                    None => HeapDumpStep::Done,
                },
                _ => HeapDumpStep::Done,
            },
        },
    }
}

/// How far a request for the statistics of the allocator is.
#[derive(Debug)]
pub enum AllocatorStatsStage {
    Start,
    Read(Result<String, String>),
}

/// What is done next.
#[derive(Debug)]
pub enum AllocatorStatsStep {
    /// The statistics are read, with these options.
    Read(String),
    Answer(String),
    Fail(Status),
}

/// A request for the statistics of the allocator.
pub fn unstable_allocator_stats(
    server: &BuckdServer,
    options: &String,
    stage: AllocatorStatsStage,
) -> (r: AllocatorStatsStep)
    ensures
        match stage {
            AllocatorStatsStage::Start => if server.stop_accepting_requests {
                r matches AllocatorStatsStep::Fail(Status::FailedPrecondition(m)) && m@
                    == server::shutting_down_text()
            } else {
                r == AllocatorStatsStep::Read(*options)
            },
            AllocatorStatsStage::Read(Ok(stats)) => r == AllocatorStatsStep::Answer(stats),
            AllocatorStatsStage::Read(Err(e)) => r matches AllocatorStatsStep::Fail(
                Status::InvalidArgument(m),
            ) && m@ == "Failed to retrieve allocator stats: "@ + e@,
        },
{
    match stage {
        AllocatorStatsStage::Start => match server.check_if_accepting_requests() {
            Ok(_) => AllocatorStatsStep::Read(options.clone()),
            Err(status) => AllocatorStatsStep::Fail(status),
        },
        AllocatorStatsStage::Read(Ok(stats)) => AllocatorStatsStep::Answer(stats),
        AllocatorStatsStage::Read(Err(e)) => AllocatorStatsStep::Fail(
            Status::InvalidArgument(
                text::concat2("Failed to retrieve allocator stats: ", e.as_str()),
            ),
        ),
    }
}

/// How far a request for a dump of the graph of computations is.
#[derive(Clone, Copy, Debug, PartialEq, Eq, Structural)]
pub enum DiceDumpStage {
    Start,
    /// The state of the daemon was looked up.
    Data,
    Dump,
}

/// What is done next.
#[derive(Debug)]
pub enum DiceDumpStep {
    LookUpData,
    Dump(String),
    Done,
    Fail(Status),
}

/// A request for a dump of the graph of computations to `path` goes stage by stage; `outcome` is what
/// the stage came to.
pub fn unstable_dice_dump(
    server: &BuckdServer,
    path: &String,
    format_is_known: bool,
    stage: DiceDumpStage,
    outcome: Result<(), String>,
) -> (r: DiceDumpStep)
    ensures
        match (stage, outcome) {
            (DiceDumpStage::Start, _) => if server.stop_accepting_requests {
                r matches DiceDumpStep::Fail(Status::FailedPrecondition(m)) && m@
                    == server::shutting_down_text()
            } else if !format_is_known {
                r matches DiceDumpStep::Fail(Status::Internal(m)) && m@
                    == "Invalid DICE dump format"@
            } else {
                r is LookUpData
            },
            (DiceDumpStage::Data, Ok(_)) => r == DiceDumpStep::Dump(*path),
            (DiceDumpStage::Data, Err(e)) => r == DiceDumpStep::Fail(Status::Internal(e)),
            (DiceDumpStage::Dump, Ok(_)) => r is Done,
            (DiceDumpStage::Dump, Err(e)) => r matches DiceDumpStep::Fail(Status::Internal(m))
                && m@ == "Failed to perform dice dump to "@ + path@ + ": "@ + e@,
        },
{
    match (stage, outcome) {
        (DiceDumpStage::Start, _) => match server.check_if_accepting_requests() {
            Ok(_) => if format_is_known {
                DiceDumpStep::LookUpData
            } else {
                DiceDumpStep::Fail(Status::Internal("Invalid DICE dump format".to_owned()))
            },
            Err(status) => DiceDumpStep::Fail(status),
        },
        (DiceDumpStage::Data, Ok(_)) => DiceDumpStep::Dump(path.clone()),
        (DiceDumpStage::Data, Err(e)) => DiceDumpStep::Fail(Status::Internal(e)),
        (DiceDumpStage::Dump, Ok(_)) => DiceDumpStep::Done,
        (DiceDumpStage::Dump, Err(e)) => DiceDumpStep::Fail(
            Status::Internal(
                text::concat4("Failed to perform dice dump to ", path.as_str(), ": ", e.as_str()),
            ),
        ),
    }
}

/// A request to change what is logged.
#[derive(Debug)]
pub struct SetLogFilterRequest {
    pub log_filter: String,
    pub daemon: bool,
    pub forkserver: bool,
}

/// How far a request to change what is logged is.
#[derive(Clone, Copy, Debug, PartialEq, Eq, Structural)]
pub enum LogFilterStage {
    Start,
    /// The daemon's filter was to be updated.
    Daemon,
    /// The filter was to be passed to the fork server.
    Forkserver,
}

/// What is done next.
#[derive(Debug)]
pub enum LogFilterStep {
    UpdateDaemon(String),
    UpdateForkserver(String),
    Done,
    Fail(Status),
}

/// What follows the daemon's own part.
pub open spec fn forkserver_step(
    req: SetLogFilterRequest,
    has_forkserver: bool,
    r: LogFilterStep,
) -> bool {
    if req.forkserver && has_forkserver {
        r == LogFilterStep::UpdateForkserver(req.log_filter)
    } else {
        r is Done
    }
}

/// The next step of a request to change what is logged. A fork server that is not there is passed
/// over.
pub fn set_log_filter(
    req: &SetLogFilterRequest,
    has_forkserver: bool,
    stage: LogFilterStage,
    outcome: Result<(), String>,
) -> (r: LogFilterStep)
    ensures
        match (stage, outcome) {
            (LogFilterStage::Start, _) => if req.daemon {
                r == LogFilterStep::UpdateDaemon(req.log_filter)
            } else {
                forkserver_step(*req, has_forkserver, r)
            },
            (LogFilterStage::Daemon, Ok(_)) => forkserver_step(*req, has_forkserver, r),
            (LogFilterStage::Daemon, Err(e)) => r matches LogFilterStep::Fail(
                Status::InvalidArgument(m),
            ) && m@ == "Error updating daemon log filter: "@ + e@,
            (LogFilterStage::Forkserver, Ok(_)) => r is Done,
            (LogFilterStage::Forkserver, Err(e)) => r matches LogFilterStep::Fail(
                Status::InvalidArgument(m),
            ) && m@ == "Error forwarding daemon log filter to forkserver: "@ + e@,
        },
{
    match (stage, outcome) {
        (LogFilterStage::Daemon, Err(e)) => LogFilterStep::Fail(
            Status::InvalidArgument(
                text::concat2("Error updating daemon log filter: ", e.as_str()),
            ),
        ),
        (LogFilterStage::Forkserver, Err(e)) => LogFilterStep::Fail(
            Status::InvalidArgument(
                text::concat2("Error forwarding daemon log filter to forkserver: ", e.as_str()),
            ),
        ),
        (LogFilterStage::Forkserver, Ok(_)) => LogFilterStep::Done,
        (LogFilterStage::Start, _) if req.daemon => LogFilterStep::UpdateDaemon(
            req.log_filter.clone(),
        ),
        _ => if req.forkserver && has_forkserver {
            LogFilterStep::UpdateForkserver(req.log_filter.clone())
        } else {
            LogFilterStep::Done
        },
    }
}

/// A daemon starts step by step: the clock, how to materialize, its directory, its state, and how
/// long to stay. Each step waits for the one before, and the start time is that of the clock.
pub proof fn law_order_of_a_start<M>(
    parts: DaemonParts,
    now: Span,
    t: ProtoTimestamp,
    m: M,
    next: StartStage<M>,
    request: StartRequest<M>,
)
    ensures
        start_follows(parts, StartStage::Clock, StartEvent::Clock(Ok(now)), next, request) ==> {
            &&& next is Materializations
            &&& next->Materializations_0.seconds == now.seconds
            &&& next->Materializations_0.nanos == now.nanos
            &&& request == StartRequest::<M>::ParseMaterializations(parts.materializations)
        },
        start_follows(
            parts,
            StartStage::Materializations(t),
            StartEvent::Materializations(Ok(m)),
            next,
            request,
        ) ==> next == StartStage::BuckOut(t, m) && request is CreateBuckOut,
        start_follows(
            parts,
            StartStage::BuckOut(t, m),
            StartEvent::Settled(Ok(())),
            next,
            request,
        ) ==> next == StartStage::OpenBuckOut(t, m) && request is OpenBuckOut,
        start_follows(
            parts,
            StartStage::OpenBuckOut(t, m),
            StartEvent::Settled(Ok(())),
            next,
            request,
        ) ==> next == StartStage::ChangeDirectory(t, m) && request is ChangeDirectory,
        start_follows(
            parts,
            StartStage::ChangeDirectory(t, m),
            StartEvent::Settled(Ok(())),
            next,
            request,
        ) ==> next == StartStage::<M>::State(t) && request == StartRequest::MakeState(m),
        start_follows(parts, StartStage::State(t), StartEvent::Settled(Ok(())), next, request)
            ==> next == StartStage::<M>::Timeout(t) && request is ReadTestSwitch,
        start_follows(parts, StartStage::Serving, StartEvent::Settled(Ok(())), next, request)
            ==> next is Done && request == StartRequest::<M>::Finish(Ok(())),
{
}

/// What a daemon that has started is: it takes requests from those who know its token, and is made
/// of the parts that it was given.
pub proof fn law_what_a_started_daemon_is<M>(
    parts: DaemonParts,
    t: ProtoTimestamp,
    testing: bool,
    next: StartStage<M>,
    request: StartRequest<M>,
)
    requires
        start_follows(
            parts,
            StartStage::Timeout(t),
            StartEvent::Testing(Ok(testing)),
            next,
            request,
        ),
    ensures
        next is Serving,
        request is Serve,
        !request->server.stop_accepting_requests,
        request->server.start_time == t,
        request->server.process_info == parts.process_info,
        request->server.base_daemon_constraints == parts.base_daemon_constraints,
        request->server.project_root == parts.project_root,
        request->server.isolation_dir == parts.isolation_dir,
        request->auth_token@ == parts.auth_token@,
        testing ==> request->inactivity_seconds == 1,
        !testing ==> request->inactivity_seconds == server::DEFAULT_INACTIVITY_SECONDS,
{
}

/// A step that fails ends the start with its reason.
pub proof fn law_failed_step_ends_a_start<M>(
    parts: DaemonParts,
    stage: StartStage<M>,
    reason: String,
    next: StartStage<M>,
    request: StartRequest<M>,
)
    ensures
        start_follows(parts, stage, StartEvent::Clock(Err(reason)), next, request) ==> next is Done
            && request == StartRequest::<M>::Finish(Err(reason)),
        start_follows(parts, stage, StartEvent::Materializations(Err(reason)), next, request)
            ==> next is Done && request == StartRequest::<M>::Finish(Err(reason)),
        start_follows(parts, stage, StartEvent::Testing(Err(reason)), next, request)
            ==> next is Done && request == StartRequest::<M>::Finish(Err(reason)),
        start_follows(parts, stage, StartEvent::Settled(Err(reason)), next, request) && !(
        stage is BuckOut) ==> next is Done && request == StartRequest::<M>::Finish(Err(reason)),
        start_follows(parts, stage, StartEvent::Settled(Err(reason)), next, request)
            && stage is BuckOut ==> {
            &&& next is Done
            &&& request is Finish
            &&& request->Finish_0 is Err
            &&& request->Finish_0->Err_0@ == "Error creating buck_out_path: "@ + reason@
        },
{
}

/// An answer that reports is a single result with that one message.
pub proof fn law_what_an_answer_reports<R, B, Q>(
    answer: Seq<CommandProgress<R, B, Q>>,
    report: Seq<char>,
    other: Seq<char>,
)
    requires
        reports(answer, report),
    ensures
        answer.len() == 1,
        answer[0] is Result,
        answer[0]->Result_0 is Error,
        text::views(answer[0]->Result_0->Error_0@) == seq![report],
        reports(answer, other) ==> other == report,
{
}

/// The filter reaches the forkserver where that was asked for and there is one.
pub proof fn law_when_the_forkserver_gets_the_filter(
    req: SetLogFilterRequest,
    has_forkserver: bool,
    r: LogFilterStep,
)
    requires
        forkserver_step(req, has_forkserver, r),
    ensures
        req.forkserver && has_forkserver ==> r == LogFilterStep::UpdateForkserver(req.log_filter),
        !req.forkserver || !has_forkserver ==> r is Done,
{
}

} // verus!
