//! The build daemon: what it does with requests.
use vstd::prelude::*;
use vstd::string::*;

use crate::proto_times::ProtoDuration;
use crate::proto_times::ProtoTimestamp;
use crate::proto_times::Span;
use crate::proto_times::convert_positive_duration;
use crate::proto_times::to_proto_duration;
use crate::proto_times;

verus! {

/// Why a request was turned down.
#[derive(Debug)]
pub enum Status {
    Unauthenticated(String),
    FailedPrecondition(String),
    InvalidArgument(String),
    Internal(String),
    Unknown(String),
}

/// The number of a refusal in the protocol.
pub open spec fn status_code(status: Status) -> i32 {
    match status {
        Status::Unknown(_) => 2,
        Status::InvalidArgument(_) => 3,
        Status::FailedPrecondition(_) => 9,
        Status::Internal(_) => 13,
        Status::Unauthenticated(_) => 16,
    }
}

/// The message of a refusal.
pub open spec fn status_message(status: Status) -> Seq<char> {
    match status {
        Status::Unauthenticated(m) => m@,
        Status::FailedPrecondition(m) => m@,
        Status::InvalidArgument(m) => m@,
        Status::Internal(m) => m@,
        Status::Unknown(m) => m@,
    }
}

/// How a `tonic::Status` with this code and message, without details or metadata, is shown.
pub uninterp spec fn tonic_status_text(code: i32, message: Seq<char>) -> Seq<char>;

/// How a `tonic::Status` made by `tonic::Status::new` is shown: with the name of its code, its
/// message, and that there are no details and no metadata. This depends on the code and the message
/// alone.
#[verifier::external_body]
fn show_tonic_status(code: i32, message: &str) -> (r: String)
    ensures
        r@ == tonic_status_text(code, message@),
{
    tonic::Status::new(tonic::Code::from(code), message).to_string()
}

/// How a refusal is shown where it is reported as an error.
pub open spec fn status_text(status: Status) -> Seq<char> {
    tonic_status_text(status_code(status), status_message(status))
}

impl Status {
    /// The number of the refusal in the protocol.
    pub fn code(&self) -> (r: i32)
        ensures
            r == status_code(*self),
    {
        match self {
            Status::Unknown(_) => 2,
            Status::InvalidArgument(_) => 3,
            Status::FailedPrecondition(_) => 9,
            Status::Internal(_) => 13,
            Status::Unauthenticated(_) => 16,
        }
    }

    pub fn message(&self) -> (r: &str)
        ensures
            r@ == status_message(*self),
    {
        match self {
            Status::Unauthenticated(m) => m.as_str(),
            Status::FailedPrecondition(m) => m.as_str(),
            Status::InvalidArgument(m) => m.as_str(),
            Status::Internal(m) => m.as_str(),
            Status::Unknown(m) => m.as_str(),
        }
    }

    /// The refusal as it is shown where it is reported as an error.
    pub fn report(&self) -> (r: String)
        ensures
            r@ == status_text(*self),
    {
        show_tonic_status(self.code(), self.message())
    }
}

/// What is sent to the daemon, or back, has been put together elsewhere: `R` is what a command
/// results in, `B` an event of the build, `Q` a part of a result.
#[derive(Debug)]
pub enum CommandResult<R> {
    Result(R),
    /// The reports of what went wrong.
    Error(Vec<String>),
}

/// A message to the client while a command runs.
#[derive(Debug)]
pub enum CommandProgress<R, B, Q> {
    Result(CommandResult<R>),
    PartialResult(Q),
    Event(B),
}

/// `constant_time_eq::constant_time_eq`: whether two byte strings are equal.
#[verifier::external_body]
fn bytes_eq(a: &Vec<u8>, b: &Vec<u8>) -> (r: bool)
    ensures
        r == (a@ == b@),
{
    constant_time_eq::constant_time_eq(a, b)
}

/// Lets only those requests pass that carry the token of the daemon.
#[derive(Debug)]
pub struct BuckCheckAuthTokenInterceptor {
    pub auth_token: Vec<u8>,
}

impl BuckCheckAuthTokenInterceptor {
    /// Whether a request with this token may pass. A test can have it fail.
    pub fn call(&self, token: Option<&Vec<u8>>, injected_failure: bool) -> (r: Result<(), Status>)
        ensures
            match r {
                Ok(_) => token matches Some(t) && t@ == self.auth_token@ && !injected_failure,
                Err(Status::Unauthenticated(m)) => match token {
                    None => m@ == "missing auth token"@,
                    Some(t) => if t@ != self.auth_token@ {
                        m@ == "invalid auth token"@
                    } else {
                        injected_failure && m@ == "injected auth error"@
                    },
                },
                Err(_) => false,
            },
    {
        match token {
            None => Err(Status::Unauthenticated("missing auth token".to_owned())),
            Some(token) => if !bytes_eq(token, &self.auth_token) {
                Err(Status::Unauthenticated("invalid auth token".to_owned()))
            } else if injected_failure {
                Err(Status::Unauthenticated("injected auth error".to_owned()))
            } else {
                Ok(())
            },
        }
    }
}

/// A list with one string in it.
fn single(s: String) -> (r: Vec<String>)
    ensures
        r@ == seq![s],
{
    let mut v: Vec<String> = Vec::new();
    v.push(s);
    v
}

/// The result that reports an error.
pub fn error_to_command_result<R>(report: String) -> (r: CommandResult<R>)
    ensures
        r matches CommandResult::Error(errors) && errors@ == seq![report],
{
    CommandResult::Error(single(report))
}

/// What the client is told of the outcome of a command.
pub fn result_to_command_result<R>(result: Result<R, String>) -> (r: CommandResult<R>)
    ensures
        match result {
            Ok(v) => r == CommandResult::<R>::Result(v),
            Err(report) => r matches CommandResult::Error(errors) && errors@ == seq![report],
        },
{
    match result {
        Ok(v) => CommandResult::Result(v),
        Err(report) => error_to_command_result(report),
    }
}

/// The message that reports an error.
pub fn error_to_command_progress<R, B, Q>(report: String) -> (r: CommandProgress<R, B, Q>)
    ensures
        r matches CommandProgress::Result(CommandResult::Error(errors)) && errors@ == seq![report],
{
    CommandProgress::Result(error_to_command_result(report))
}

/// A whole response that only reports an error: one message.
pub fn error_to_response_stream<R, B, Q>(report: String) -> (r: Vec<CommandProgress<R, B, Q>>)
    ensures
        r@.len() == 1,
        r@[0] matches CommandProgress::Result(CommandResult::Error(errors)) && errors@ == seq![
            report,
        ],
{
    let mut v: Vec<CommandProgress<R, B, Q>> = Vec::new();
    v.push(error_to_command_progress(report));
    v
}

/// What a command reports.
#[derive(Debug)]
pub enum Event<R, B, Q> {
    /// The command is done: nothing follows.
    CommandResult(CommandResult<R>),
    PartialResult(Q),
    Buck(B),
}

/// The message for what a command reports.
pub open spec fn progress_of<R, B, Q>(event: Event<R, B, Q>) -> CommandProgress<R, B, Q> {
    match event {
        Event::CommandResult(r) => CommandProgress::Result(r),
        Event::PartialResult(q) => CommandProgress::PartialResult(q),
        Event::Buck(b) => CommandProgress::Event(b),
    }
}

/// How many of the events are passed on: all up to the first result of a command.
pub open spec fn passed_on<R, B, Q>(events: Seq<Event<R, B, Q>>) -> nat
    decreases events.len(),
{
    if events.len() == 0 {
        0
    } else if events[0] is CommandResult {
        1
    } else {
        1 + passed_on(events.subrange(1, events.len() as int))
    }
}

/// The message for an event, and whether more may follow.
pub fn pump_event<R, B, Q>(event: Event<R, B, Q>) -> (r: (CommandProgress<R, B, Q>, bool))
    ensures
        r.0 == progress_of(event),
        r.1 == !(event is CommandResult),
{
    match event {
        Event::CommandResult(r) => (CommandProgress::Result(r), false),
        Event::PartialResult(q) => (CommandProgress::PartialResult(q), true),
        Event::Buck(b) => (CommandProgress::Event(b), true),
    }
}

/// The messages for all events up to the first result of a command.
pub fn pump_events<R, B, Q>(events: Vec<Event<R, B, Q>>) -> (r: Vec<CommandProgress<R, B, Q>>)
    ensures
        r@.len() == passed_on(events@),
        forall|i: int| 0 <= i < r@.len() ==> #[trigger] r@[i] == progress_of(events@[i]),
{
    let ghost all = events@;
    let mut sent: Vec<CommandProgress<R, B, Q>> = Vec::new();
    assert(all.subrange(0, all.len() as int) =~= all);
    for event in it: events
        invariant
            it.seq() == all,
            all == events@,
            sent@.len() == it.index(),
            forall|i: int| 0 <= i < sent@.len() ==> #[trigger] sent@[i] == progress_of(all[i]),
            passed_on(all) == it.index() + passed_on(
                all.subrange(it.index() as int, all.len() as int),
            ),
    {
        proof {
            let rest = all.subrange(it.index() as int, all.len() as int);
            assert(rest[0] == event);
            assert(rest.subrange(1, rest.len() as int) =~= all.subrange(
                it.index() + 1,
                all.len() as int,
            ));
        }
        let (progress, more) = pump_event(event);
        sent.push(progress);
        if !more {
            return sent;
        }
    }
    assert(all.subrange(all.len() as int, all.len() as int) =~= Seq::empty());
    sent
}

proof fn lemma_passed_on<R, B, Q>(events: Seq<Event<R, B, Q>>)
    ensures
        passed_on(events) <= events.len(),
        forall|i: int| 0 <= i < passed_on(events) - 1 ==> !((#[trigger] events[i]) is CommandResult),
        passed_on(events) < events.len() ==> passed_on(events) > 0 && events[passed_on(events)
            - 1] is CommandResult,
    decreases events.len(),
{
    if events.len() > 0 && !(events[0] is CommandResult) {
        let rest = events.subrange(1, events.len() as int);
        lemma_passed_on(rest);
        assert forall|i: int| 0 <= i < passed_on(events) - 1 implies !(
        (#[trigger] events[i]) is CommandResult) by {
            if i > 0 {
                assert(rest[i - 1] == events[i]);
            }
        }
    }
}

/// The client hears nothing after the result of its command, and everything before it.
pub proof fn law_nothing_follows_the_result<R, B, Q>(events: Seq<Event<R, B, Q>>, i: int)
    requires
        0 <= i < events.len(),
        events[i] is CommandResult,
        forall|k: int| 0 <= k < i ==> !((#[trigger] events[k]) is CommandResult),
    ensures
        passed_on(events) == i + 1,
{
    lemma_passed_on(events);
    let n = passed_on(events);
    if n > i + 1 {
        assert(!(events[i] is CommandResult));
    }
    if n < i + 1 {
        assert(events[n - 1] is CommandResult);
    }
}

/// Why and at whose wish the daemon shuts down.
#[derive(Debug)]
pub struct DaemonShutdown {
    pub reason: String,
    pub callers: Vec<String>,
}

/// What the daemon does to shut down, in order: tell the running commands, stop taking requests,
/// and end itself after a while.
#[derive(Debug)]
pub struct ShutdownPlan {
    pub broadcast: DaemonShutdown,
    pub force_after: Span,
}

/// How long the daemon waits for running commands unless it is told otherwise.
pub open spec fn default_kill_timeout() -> nat {
    500_000_000
}

/// How long the daemon waits for a command before it ends itself.
pub const DEFAULT_INACTIVITY_SECONDS: u64 = 345_600;

/// The shutdown for a reason.
pub fn start_shutdown(reason: DaemonShutdown, timeout: Option<Span>) -> (r: ShutdownPlan)
    requires
        timeout matches Some(t) ==> t.wf(),
    ensures
        r.broadcast == reason,
        r.force_after.wf(),
        match timeout {
            Some(t) => r.force_after == t,
            None => r.force_after.total_nanos() == default_kill_timeout(),
        },
{
    let force_after = match timeout {
        Some(t) => t,
        None => Span::from_millis(500),
    };
    ShutdownPlan { broadcast: reason, force_after }
}

/// After how long without a command the daemon ends. Tests can have it end soon.
pub fn inactivity_seconds(testing: bool) -> (r: u64)
    ensures
        r == (if testing {
            1
        } else {
            DEFAULT_INACTIVITY_SECONDS
        }),
{
    if testing {
        1
    } else {
        DEFAULT_INACTIVITY_SECONDS
    }
}

/// What the daemon was waiting for.
#[derive(Clone, Copy, Debug, PartialEq, Eq, Structural)]
pub enum Wakeup {
    Command,
    Timer,
    Shutdown,
}

/// Whether the daemon goes on waiting: a command starts the time anew.
pub fn inactivity_timeout(wakeup: Wakeup) -> (r: bool)
    ensures
        r == (wakeup == Wakeup::Command),
{
    match wakeup {
        Wakeup::Command => true,
        Wakeup::Timer => false,
        Wakeup::Shutdown => false,
    }
}

/// The constraints under which a daemon runs.
#[derive(Debug)]
pub struct DaemonConstraints {
    /// What is known from the start, as it is shown.
    pub base: String,
    pub extra: Option<ExtraDaemonConstraints>,
}

/// What is known of a daemon once it has started.
#[derive(Debug)]
pub struct ExtraDaemonConstraints {
    pub trace_io_enabled: bool,
    pub materializer_state_identity: Option<String>,
}

/// What the daemon knows of itself once it has started.
#[derive(Debug)]
pub struct DaemonData {
    pub trace_io_enabled: bool,
    pub materializer_state_identity: Option<String>,
    pub forkserver_pid: Option<u32>,
    pub supports_vpnless: bool,
    pub http2: bool,
}

/// The daemon.
#[derive(Debug)]
pub struct BuckdServer {
    /// Set once the daemon is about to shut down.
    pub stop_accepting_requests: bool,
    pub process_info: String,
    pub base_daemon_constraints: String,
    pub start_time: ProtoTimestamp,
    pub project_root: String,
    pub isolation_dir: String,
}

/// What a client is told of the daemon.
#[derive(Debug)]
pub struct StatusResponse<S> {
    pub process_info: String,
    pub start_time: ProtoTimestamp,
    pub uptime: ProtoDuration,
    pub snapshot: Option<S>,
    pub daemon_constraints: DaemonConstraints,
    pub project_root: String,
    pub isolation_dir: String,
    pub forkserver_pid: Option<u32>,
    pub supports_vpnless: Option<bool>,
    pub http2: Option<bool>,
    pub valid_working_directory: bool,
    pub valid_buck_out_mount: bool,
}

/// How a request that needs one answer is let in.
#[derive(Clone, Copy, Debug, PartialEq, Eq, Structural)]
pub enum CommandOptions {
    /// Only while the daemon takes requests.
    Default,
    /// Always, as a request to end.
    Kill,
}

/// The message to a client that comes too late.
pub open spec fn shutting_down_text() -> Seq<char> {
    "Failed to run command, `buckd` is shutting down soon!"@
}

/// The first `len` bytes that a `rand::rngs::SmallRng` gives from `seed`, on a machine whose words have
/// `word_bits` bits.
pub uninterp spec fn small_rng_stream(word_bits: u32, seed: u64, len: nat) -> Seq<u8>;

/// `rand::rngs::SmallRng::seed_from_u64`, then `RngCore::fill_bytes`: as many bytes as were asked
/// for. Which bytes they are depends on the seed, on how many they are, and on the word size of the
/// machine, by which the generator is chosen.
#[verifier::external_body]
fn small_rng_bytes(seed: u64, len: usize) -> (r: Vec<u8>)
    requires
        len <= isize::MAX,
    ensures
        r@.len() == len,
        r@ == small_rng_stream(usize::BITS, seed, len as nat),
{
    let mut payload = vec![0; len];
    let mut rng = <rand::rngs::SmallRng as rand::SeedableRng>::seed_from_u64(seed);
    rand::RngCore::fill_bytes(&mut rng, &mut payload);
    payload
}

/// A copy of an optional string.
fn dupe_opt(s: &Option<String>) -> (r: Option<String>)
    ensures
        r == *s,
{
    match s {
        Some(s) => Some(s.clone()),
        None => None,
    }
}

/// The report on a request that is not let in.
pub open spec fn refusal_report() -> Seq<char> {
    tonic_status_text(9, shutting_down_text())
}

/// The report on a time that makes no sense: a refusal of no particular kind.
pub open spec fn invalid_time_report(d: ProtoDuration) -> Seq<char> {
    tonic_status_text(
        2,
        "received invalid timeout: `"@ + proto_times::proto_duration_text(d) + "`"@,
    )
}

fn positive_duration(d: &ProtoDuration) -> (r: Result<Span, String>)
    ensures
        match r {
            Ok(span) => {
                &&& d.seconds >= 0
                &&& d.nanos >= 0
                &&& span.wf()
                &&& span.total_nanos() == d.seconds * proto_times::NANOS_PER_SECOND + d.nanos
            },
            Err(report) => (d.seconds < 0 || d.nanos < 0) && report@ == invalid_time_report(*d),
        },
{
    match convert_positive_duration(d) {
        Ok(span) => Ok(span),
        Err(m) => Err(Status::Unknown(m).report()),
    }
}

/// A request is let in.
pub open spec fn lets_in(server: BuckdServer, options: CommandOptions) -> bool {
    options == CommandOptions::Kill || !server.stop_accepting_requests
}

/// The daemon after a request to end.
pub open spec fn killed(server: BuckdServer) -> BuckdServer {
    BuckdServer { stop_accepting_requests: true, ..server }
}

impl BuckdServer {
    /// Checks if the server is accepting requests.
    pub fn check_if_accepting_requests(&self) -> (r: Result<(), Status>)
        ensures
            match r {
                Ok(_) => !self.stop_accepting_requests,
                Err(Status::FailedPrecondition(m)) => self.stop_accepting_requests && m@
                    == shutting_down_text(),
                Err(_) => false,
            },
    {
        if self.stop_accepting_requests {
            Err(
                Status::FailedPrecondition(
                    "Failed to run command, `buckd` is shutting down soon!".to_owned(),
                ),
            )
        } else {
            Ok(())
        }
    }

    /// Whether a request is let in.
    pub fn pre_run(&self, options: CommandOptions) -> (r: Result<(), Status>)
        ensures
            match r {
                Ok(_) => lets_in(*self, options),
                Err(Status::FailedPrecondition(m)) => {
                    &&& !lets_in(*self, options)
                    &&& m@ == shutting_down_text()
                },
                Err(_) => false,
            },
    {
        match options {
            CommandOptions::Default => self.check_if_accepting_requests(),
            CommandOptions::Kill => Ok(()),
        }
    }

    /// The request to end: from now on no other request is let in, whether or not the time that
    /// it gives makes sense. A time that does not is reported as an error.
    pub fn kill(&mut self, timeout: Option<ProtoDuration>, reason: DaemonShutdown) -> (r: Result<
        ShutdownPlan,
        String,
    >)
        ensures
            *final(self) == killed(*old(self)),
            match r {
                Ok(plan) => {
                    &&& plan.broadcast == reason
                    &&& plan.force_after.wf()
                    &&& match timeout {
                        Some(d) => {
                            &&& d.seconds >= 0
                            &&& d.nanos >= 0
                            &&& plan.force_after.total_nanos() == d.seconds
                                * proto_times::NANOS_PER_SECOND + d.nanos
                        },
                        None => plan.force_after.total_nanos() == default_kill_timeout(),
                    }
                },
                Err(report) => {
                    &&& timeout matches Some(d)
                    &&& d.seconds < 0 || d.nanos < 0
                    &&& report@ == invalid_time_report(d)
                },
            },
    {
        self.stop_accepting_requests = true;
        let timeout = match timeout {
            Some(d) => match positive_duration(&d) {
                Ok(span) => Some(span),
                Err(report) => {
                    return Err(report);
                },
            },
            None => None,
        };
        Ok(start_shutdown(reason, timeout))
    }

    /// How long to wait before the answer to a ping. A time that makes no sense is reported as an
    /// error.
    pub fn ping_delay(&self, delay: Option<ProtoDuration>) -> (r: Result<Option<Span>, String>)
        ensures
            match (delay, r) {
                (None, Ok(None)) => true,
                (Some(d), Ok(Some(span))) => {
                    &&& d.seconds >= 0
                    &&& d.nanos >= 0
                    &&& span.wf()
                    &&& span.total_nanos() == d.seconds * proto_times::NANOS_PER_SECOND + d.nanos
                },
                (Some(d), Err(report)) => {
                    &&& d.seconds < 0 || d.nanos < 0
                    &&& report@ == invalid_time_report(d)
                },
                _ => false,
            },
    {
        match delay {
            Some(d) => match positive_duration(&d) {
                Ok(span) => Ok(Some(span)),
                Err(report) => Err(report),
            },
            None => Ok(None),
        }
    }

    /// The payload of the answer to a ping: as many bytes as were asked for, always the same ones.
    /// A size that the machine cannot count is reported as an error.
    pub fn ping(&self, response_payload_size: u64) -> (r: Result<Vec<u8>, String>)
        requires
            response_payload_size <= isize::MAX || response_payload_size > usize::MAX,
        ensures
            match r {
                Ok(payload) => {
                    &&& response_payload_size <= usize::MAX
                    &&& payload@.len() == response_payload_size
                    &&& payload@ == small_rng_stream(
                        usize::BITS,
                        10,
                        response_payload_size as nat,
                    )
                },
                Err(report) => response_payload_size > usize::MAX && report@
                    == "requested payload too large: out of range integral type conversion attempted"@,
            },
    {
        if response_payload_size > usize::MAX as u64 {
            return Err(
                "requested payload too large: out of range integral type conversion attempted".to_owned(),
            );
        }
        Ok(small_rng_bytes(10, response_payload_size as usize))
    }

    /// What a client is told of the daemon. A snapshot is taken where one was asked for; it needs
    /// a daemon that has started.
    pub fn status<S>(
        &self,
        data: &Result<DaemonData, String>,
        snapshot: Option<S>,
        snapshot_asked: bool,
        uptime: Span,
        valid_working_directory: bool,
        valid_buck_out_mount: bool,
    ) -> (r: Result<StatusResponse<S>, String>)
        requires
            uptime.wf(),
            snapshot is Some <==> snapshot_asked && data is Ok,
        ensures
            match r {
                Ok(s) => {
                    &&& snapshot_asked ==> data is Ok
                    &&& uptime.seconds <= i64::MAX
                    &&& s.process_info == self.process_info
                    &&& s.start_time == self.start_time
                    &&& s.uptime.seconds == uptime.seconds
                    &&& s.uptime.nanos == uptime.nanos
                    &&& s.snapshot == snapshot
                    &&& s.daemon_constraints.base == self.base_daemon_constraints
                    &&& s.project_root == self.project_root
                    &&& s.isolation_dir == self.isolation_dir
                    &&& s.valid_working_directory == valid_working_directory
                    &&& s.valid_buck_out_mount == valid_buck_out_mount
                    &&& match *data {
                        Ok(d) => {
                            &&& s.daemon_constraints.extra == Some(
                                ExtraDaemonConstraints {
                                    trace_io_enabled: d.trace_io_enabled,
                                    materializer_state_identity: d.materializer_state_identity,
                                },
                            )
                            &&& s.forkserver_pid == d.forkserver_pid
                            &&& s.supports_vpnless == Some(d.supports_vpnless)
                            &&& s.http2 == Some(d.http2)
                        },
                        Err(_) => {
                            &&& s.daemon_constraints.extra is None
                            &&& s.forkserver_pid is None
                            &&& s.supports_vpnless is None
                            &&& s.http2 is None
                        },
                    }
                },
                Err(e) => match *data {
                    Err(d) if snapshot_asked => e == d,
                    _ => uptime.seconds > i64::MAX && e@ == "failed to convert duration out of range"@,
                },
            },
    {
        if snapshot_asked {
            match data {
                Err(e) => {
                    return Err(e.clone());
                },
                Ok(_) => {},
            }
        }
        let uptime = match to_proto_duration(&uptime) {
            Some(d) => d,
            None => {
                return Err("failed to convert duration out of range".to_owned());
            },
        };
        let (extra, forkserver_pid, supports_vpnless, http2) = match data {
            Ok(d) => (
                Some(
                    ExtraDaemonConstraints {
                        trace_io_enabled: d.trace_io_enabled,
                        materializer_state_identity: dupe_opt(&d.materializer_state_identity),
                    },
                ),
                d.forkserver_pid,
                Some(d.supports_vpnless),
                Some(d.http2),
            ),
            Err(_) => (None, None, None, None),
        };
        Ok(
            StatusResponse {
                process_info: self.process_info.clone(),
                start_time: self.start_time,
                uptime,
                snapshot,
                daemon_constraints: DaemonConstraints {
                    base: self.base_daemon_constraints.clone(),
                    extra,
                },
                project_root: self.project_root.clone(),
                isolation_dir: self.isolation_dir.clone(),
                forkserver_pid,
                supports_vpnless,
                http2,
                valid_working_directory,
                valid_buck_out_mount,
            },
        )
    }
}

/// Once a request to end came in, every other request is turned down, and another one to end is
/// not.
pub proof fn law_no_requests_after_kill(before: BuckdServer, options: CommandOptions)
    ensures
        lets_in(killed(before), options) <==> options == CommandOptions::Kill,
{
}

/// As long as there is no result every event is passed on.
pub proof fn law_every_event_is_passed_on<R, B, Q>(events: Seq<Event<R, B, Q>>)
    requires
        forall|i: int| 0 <= i < events.len() ==> !((#[trigger] events[i]) is CommandResult),
    ensures
        passed_on(events) == events.len(),
    decreases events.len(),
{
    if events.len() > 0 {
        let rest = events.subrange(1, events.len() as int);
        assert forall|i: int| 0 <= i < rest.len() implies !((
        #[trigger] rest[i]) is CommandResult) by {
            assert(rest[i] == events[i + 1]);
        }
        assert(!(events[0] is CommandResult));
        law_every_event_is_passed_on(rest);
    }
}

/// Each kind of event becomes the progress of its kind, with what it holds.
pub proof fn law_what_an_event_becomes<R, B, Q>(r: CommandResult<R>, q: Q, b: B)
    ensures
        progress_of(Event::<R, B, Q>::CommandResult(r)) == CommandProgress::<R, B, Q>::Result(r),
        progress_of(Event::<R, B, Q>::PartialResult(q)) == CommandProgress::<
            R,
            B,
            Q,
        >::PartialResult(q),
        progress_of(Event::<R, B, Q>::Buck(b)) == CommandProgress::<R, B, Q>::Event(b),
{
}

/// A server that is to stop lets in only what kills it, and one that is not lets in everything; to
/// kill a server leaves the rest of it as it was.
pub proof fn law_who_is_let_in(server: BuckdServer)
    ensures
        lets_in(server, CommandOptions::Kill),
        lets_in(server, CommandOptions::Default) <==> !server.stop_accepting_requests,
        killed(server).stop_accepting_requests,
        killed(server).process_info == server.process_info,
        killed(server).base_daemon_constraints == server.base_daemon_constraints,
        killed(server).start_time == server.start_time,
        killed(server).project_root == server.project_root,
        killed(server).isolation_dir == server.isolation_dir,
        default_kill_timeout() * 2 == proto_times::NANOS_PER_SECOND,
{
}

/// Every failure has a code of its own and keeps its message.
pub proof fn law_failures_are_told_apart(m: String, n: String)
    ensures
        status_code(Status::Unknown(m)) == 2,
        status_code(Status::InvalidArgument(m)) == 3,
        status_code(Status::FailedPrecondition(m)) == 9,
        status_code(Status::Internal(m)) == 13,
        status_code(Status::Unauthenticated(m)) == 16,
        status_message(Status::Unknown(m)) == m@,
        status_message(Status::InvalidArgument(m)) == m@,
        status_message(Status::FailedPrecondition(m)) == m@,
        status_message(Status::Internal(m)) == m@,
        status_message(Status::Unauthenticated(m)) == m@,
        n@ == shutting_down_text() ==> refusal_report() == status_text(
            Status::FailedPrecondition(n),
        ),
{
}

/// A time that cannot be waited for is reported with what was asked for.
pub proof fn law_report_of_an_invalid_time(d: ProtoDuration)
    ensures
        invalid_time_report(d) == tonic_status_text(
            2,
            "received invalid timeout: `"@ + proto_times::proto_duration_text(d) + "`"@,
        ),
{
}

} // verus!
