//! The deferred materializer: configuration, commands, versions and per-artifact state.
//!
//! Artifacts are declared first and put on disk only when they are asked for. The processor
//! that keeps track of them is in `processor`; this module holds what it is made of.
use std::collections::VecDeque;
use std::sync::Arc;
use vstd::prelude::*;
use vstd::string::*;

use crate::artifact::ActionSharedDirectory;
use crate::artifact::ArtifactMetadata;
use crate::artifact::ArtifactValue;
use crate::artifact::FileMetadata;
use crate::artifact::SharedEntry;
use crate::file_tree::FileTree;
use crate::paths;
use crate::paths::PathView;
use crate::paths::ProjectRelativePathBuf;
use crate::text;
use crate::text::str_eq;

verus! {

/// How often the times of last access are written to the state database.
#[derive(Clone, Copy, Debug, PartialEq, Eq, Structural)]
pub enum AccessTimesUpdates {
    /// Flushes when the buffer is full and periodically.
    Full,
    /// Flushes only when the buffer is full.
    Partial,
    /// Does not flush at all.
    Disabled,
}

#[derive(Debug)]
pub enum AccessTimesUpdatesError {
    InvalidValueForConfig(String),
}

impl AccessTimesUpdatesError {
    /// The message shown for the error.
    pub fn message(&self) -> (r: String)
        ensures
            r@ == (match *self {
                AccessTimesUpdatesError::InvalidValueForConfig(v) =>
                    "Invalid value for buckconfig `[buck2] update_access_times`. Got `"@ + v@
                        + "`. Expected one of `full`, `partial`  or `disabled`."@,
            }),
    {
        match self {
            AccessTimesUpdatesError::InvalidValueForConfig(v) => text::concat3(
                "Invalid value for buckconfig `[buck2] update_access_times`. Got `",
                v.as_str(),
                "`. Expected one of `full`, `partial`  or `disabled`.",
            ),
        }
    }
}

/// What the configuration value stands for. No value means the same as `full`.
pub open spec fn access_times_config(value: Option<Seq<char>>) -> Option<AccessTimesUpdates> {
    match value {
        None => Some(AccessTimesUpdates::Full),
        Some(v) => if v == ""@ || v == "full"@ {
            Some(AccessTimesUpdates::Full)
        } else if v == "partial"@ {
            Some(AccessTimesUpdates::Partial)
        } else if v == "disabled"@ {
            Some(AccessTimesUpdates::Disabled)
        } else {
            None
        },
    }
}

impl AccessTimesUpdates {
    /// Reads the value of `[buck2] update_access_times`.
    pub fn try_new_from_config_value(config_value: Option<&str>) -> (r: Result<
        Self,
        AccessTimesUpdatesError,
    >)
        ensures
            ({
                let value = match config_value {
                    Some(v) => Some(v@),
                    None => None::<Seq<char>>,
                };
                match access_times_config(value) {
                    Some(u) => r == Ok::<AccessTimesUpdates, AccessTimesUpdatesError>(u),
                    None => r is Err && r->Err_0->InvalidValueForConfig_0@ == value->0,
                }
            }),
    {
        proof {
            reveal_strlit("full");
            reveal_strlit("partial");
            reveal_strlit("disabled");
            reveal_strlit("");
        }
        match config_value {
            None => Ok(AccessTimesUpdates::Full),
            Some(v) => {
                if str_eq(v, "") || str_eq(v, "full") {
                    Ok(AccessTimesUpdates::Full)
                } else if str_eq(v, "partial") {
                    Ok(AccessTimesUpdates::Partial)
                } else if str_eq(v, "disabled") {
                    Ok(AccessTimesUpdates::Disabled)
                } else {
                    Err(AccessTimesUpdatesError::InvalidValueForConfig(v.to_owned()))
                }
            },
        }
    }
}

/// How many access times are buffered before they are flushed: the value set in the
/// environment, or 5000.
pub fn access_time_update_max_buffer_size(env_value: Option<usize>) -> (r: usize)
    ensures
        r == (match env_value {
            Some(n) => n,
            None => 5000,
        }),
{
    match env_value {
        Some(n) => n,
        None => 5000,
    }
}

/// Refreshing of expiry times: how often, how long entries must live at least, and whether.
#[derive(Clone, Copy, Debug)]
pub struct TtlRefreshConfiguration {
    pub frequency_ms: u64,
    pub min_ttl_ms: i64,
    pub enabled: bool,
}

/// Periodic removal of artifacts that have not been used for a while.
#[derive(Clone, Copy, Debug)]
pub struct CleanStaleConfig {
    pub clean_period_ms: u64,
    pub artifact_ttl_ms: i64,
    pub start_offset_ms: u64,
    pub dry_run: bool,
}

#[derive(Clone, Copy, Debug)]
pub struct DeferredMaterializerConfigs {
    pub materialize_final_artifacts: bool,
    pub defer_write_actions: bool,
    pub ttl_refresh: TtlRefreshConfiguration,
    pub update_access_times: AccessTimesUpdates,
    pub verbose_materializer_log: bool,
    pub clean_stale_config: Option<CleanStaleConfig>,
}

/// Statistics collected while operating the materializer.
#[derive(Clone, Copy, Debug)]
pub struct DeferredMaterializerStats {
    pub declares: u64,
    pub declares_reused: u64,
}

impl Default for DeferredMaterializerStats {
    fn default() -> (r: Self)
        ensures
            r.declares == 0 && r.declares_reused == 0,
    {
        DeferredMaterializerStats { declares: 0, declares_reused: 0 }
    }
}

/// Commands sent to the processor and commands that it has dealt with. Both counts wrap around.
#[derive(Clone, Copy, Debug)]
pub struct MaterializerCounters {
    pub sent: usize,
    pub received: usize,
}

impl MaterializerCounters {
    pub fn new() -> (r: Self)
        ensures
            r.sent == 0 && r.received == 0,
    {
        MaterializerCounters { sent: 0, received: 0 }
    }

    pub fn ack_sent(&mut self)
        ensures
            final(self).sent == old(self).sent.wrapping_add(1),
            final(self).received == old(self).received,
    {
        self.sent = self.sent.wrapping_add(1);
    }

    pub fn ack_received(&mut self)
        ensures
            final(self).received == old(self).received.wrapping_add(1),
            final(self).sent == old(self).sent,
    {
        self.received = self.received.wrapping_add(1);
    }

    /// How many commands are still waiting.
    pub fn queue_size(&self) -> (r: usize)
        ensures
            r == (if self.sent >= self.received {
                self.sent - self.received
            } else {
                0
            }),
    {
        self.sent.saturating_sub(self.received)
    }
}

/// The version of the work in progress on an artifact.
#[derive(Clone, Copy, Debug, PartialEq, Eq, Structural)]
pub struct Version(pub u64);

/// Hands out versions, each larger than those before.
#[derive(Debug)]
pub struct VersionTracker(pub Version);

impl VersionTracker {
    /// The first version is 1: state restored from disk has version 0.
    pub fn new() -> (r: Self)
        ensures
            r.0 == Version(1),
    {
        VersionTracker(Version(1))
    }

    pub fn current(&self) -> (r: Version)
        ensures
            r == self.0,
    {
        self.0
    }

    /// Increments the current version and returns the previous one.
    pub fn next(&mut self) -> (r: Version)
        requires
            old(self).0.0 < u64::MAX,
        ensures
            r == old(self).0,
            final(self).0.0 == old(self).0.0 + 1,
    {
        let ret = self.current();
        self.0 = Version(ret.0 + 1);
        ret
    }
}

/// Work in progress at a path, named by the version at which it was started.
#[derive(Clone, Copy, Debug, PartialEq, Eq, Structural)]
pub enum ProcessingFuture {
    Materializing(Version),
    Cleaning(Version),
}

/// The work in progress on an artifact and the version at which it was issued.
#[derive(Clone, Copy, Debug, PartialEq, Eq, Structural)]
pub enum Processing {
    Done(Version),
    Active { future: ProcessingFuture, version: Version },
}

/// The version of the last work on an artifact.
pub open spec fn version_of(p: Processing) -> Version {
    match p {
        Processing::Done(version) => version,
        Processing::Active { version, .. } => version,
    }
}

impl Processing {
    pub fn current_version(&self) -> (r: Version)
        ensures
            r == version_of(*self),
    {
        match self {
            Processing::Done(version) => *version,
            Processing::Active { version, .. } => *version,
        }
    }

    /// The work in progress, if there is any.
    pub fn into_future(self) -> (r: Option<ProcessingFuture>)
        ensures
            r == (match self {
                Processing::Done(_) => None,
                Processing::Active { future, .. } => Some(future),
            }),
    {
        match self {
            Processing::Done(_) => None,
            Processing::Active { future, .. } => Some(future),
        }
    }
}

/// Where the bytes of an artifact in the content store come from.
#[derive(Debug)]
pub struct CasDownloadInfo {
    pub origin: String,
    /// The origin as it is shown where the bytes are gone.
    pub origin_for_not_found: String,
}

/// A file to be fetched over HTTP, with what it has to be.
#[derive(Debug)]
pub struct HttpDownloadInfo {
    pub url: String,
    pub metadata: FileMetadata,
}

/// A file to be written, compressed.
#[derive(Debug)]
pub struct WriteFile {
    pub compressed_data: Vec<u8>,
    pub decompressed_size: usize,
    pub is_executable: bool,
}

/// An artifact that is copied from another place.
#[derive(Debug)]
pub struct CopiedArtifact {
    pub src: ProjectRelativePathBuf,
    pub dest: ProjectRelativePathBuf,
    pub dest_entry: SharedEntry,
}

/// Different ways to put the files of an artifact on disk.
#[derive(Debug)]
pub enum ArtifactMaterializationMethod {
    /// The files must be copied from a local path. The tree maps each file, relative to the
    /// artifact, to its source; the list is what was asked to be copied.
    LocalCopy(FileTree<ProjectRelativePathBuf>, Vec<CopiedArtifact>),
    Write(Arc<WriteFile>),
    /// The files must be fetched from the content store.
    CasDownload { info: Arc<CasDownloadInfo> },
    /// The file must be fetched over HTTP.
    HttpDownload { info: HttpDownloadInfo },
}

/// The method in the words of the event log.
#[derive(Clone, Copy, Debug, PartialEq, Eq, Structural)]
pub enum MaterializationMethod {
    LocalCopy,
    CasDownload,
    Write,
    HttpDownload,
}

impl ArtifactMaterializationMethod {
    /// The method in the words of the event log.
    pub fn to_proto(&self) -> (r: MaterializationMethod)
        ensures
            r == (match *self {
                ArtifactMaterializationMethod::LocalCopy(..) => MaterializationMethod::LocalCopy,
                ArtifactMaterializationMethod::Write(_) => MaterializationMethod::Write,
                ArtifactMaterializationMethod::CasDownload {
                    ..
                } => MaterializationMethod::CasDownload,
                ArtifactMaterializationMethod::HttpDownload {
                    ..
                } => MaterializationMethod::HttpDownload,
            }),
    {
        match self {
            ArtifactMaterializationMethod::LocalCopy(..) => MaterializationMethod::LocalCopy,
            ArtifactMaterializationMethod::Write(_) => MaterializationMethod::Write,
            ArtifactMaterializationMethod::CasDownload { .. } => MaterializationMethod::CasDownload,
            ArtifactMaterializationMethod::HttpDownload {
                ..
            } => MaterializationMethod::HttpDownload,
        }
    }

    /// The method as shown in messages.
    pub fn display(&self) -> (r: String)
        ensures
            r@ == (match *self {
                ArtifactMaterializationMethod::LocalCopy(..) => "local copy"@,
                ArtifactMaterializationMethod::Write(_) => "write"@,
                ArtifactMaterializationMethod::CasDownload { info } => "cas download (action: "@
                    + info.origin@ + ")"@,
                ArtifactMaterializationMethod::HttpDownload { info } => "http download ("@
                    + info.url@ + ")"@,
            }),
    {
        match self {
            ArtifactMaterializationMethod::LocalCopy(..) => "local copy".to_owned(),
            ArtifactMaterializationMethod::Write(_) => "write".to_owned(),
            ArtifactMaterializationMethod::CasDownload { info } => text::concat3(
                "cas download (action: ",
                info.origin.as_str(),
                ")",
            ),
            ArtifactMaterializationMethod::HttpDownload { info } => text::concat3(
                "http download (",
                info.url.as_str(),
                ")",
            ),
        }
    }
}

/// How far an artifact has come.
pub enum ArtifactMaterializationStage {
    /// The artifact was declared, but is not on disk yet.
    Declared { entry: SharedEntry, method: Arc<ArtifactMaterializationMethod> },
    /// The artifact is on disk.
    Materialized {
        metadata: ArtifactMetadata,
        /// Milliseconds since the epoch.
        last_access_time: i64,
        /// Artifact declared by the running daemon.
        active: bool,
    },
}

/// What is known of one artifact.
pub struct ArtifactMaterializationData {
    /// The directory of what the links of the artifact point to.
    pub deps: Option<Arc<ActionSharedDirectory>>,
    pub stage: ArtifactMaterializationStage,
    pub processing: Processing,
}

/// Why an artifact could not be put on disk, as kept for all who wait for it.
#[derive(Debug)]
pub enum SharedMaterializingError {
    Error(Arc<String>),
    NotFound { info: Arc<CasDownloadInfo>, debug: Arc<String>, directory: SharedEntry },
}

/// Why one entry could not be put on disk.
#[derive(Debug)]
pub enum MaterializeEntryError {
    Error(String),
    /// The artifact wasn't found. This typically means it expired in the content store.
    NotFound { info: Arc<CasDownloadInfo>, debug: Arc<String>, directory: SharedEntry },
}

impl MaterializeEntryError {
    /// The message shown for the error.
    pub fn message(&self) -> (r: String)
        ensures
            r@ == (match *self {
                MaterializeEntryError::Error(e) => e@,
                MaterializeEntryError::NotFound { info, debug, .. } =>
                    "Artifact not found (digest origin: "@ + info.origin_for_not_found@
                        + ", debug: "@ + debug@ + ")"@,
            }),
    {
        match self {
            MaterializeEntryError::Error(e) => e.clone(),
            MaterializeEntryError::NotFound { info, debug, .. } => text::concat5(
                "Artifact not found (digest origin: ",
                info.origin_for_not_found.as_str(),
                ", debug: ",
                debug.as_str(),
                ")",
            ),
        }
    }
}

impl From<MaterializeEntryError> for SharedMaterializingError {
    fn from(e: MaterializeEntryError) -> (r: SharedMaterializingError) {
        match e {
            MaterializeEntryError::Error(e) => SharedMaterializingError::Error(Arc::new(e)),
            MaterializeEntryError::NotFound {
                info,
                debug,
                directory,
            } => SharedMaterializingError::NotFound { info, debug, directory },
        }
    }
}

impl vstd::std_specs::convert::FromSpecImpl<MaterializeEntryError> for SharedMaterializingError {
    open spec fn obeys_from_spec() -> bool {
        true
    }

    open spec fn from_spec(e: MaterializeEntryError) -> SharedMaterializingError {
        match e {
            MaterializeEntryError::Error(e) => SharedMaterializingError::Error(Arc::new(e)),
            MaterializeEntryError::NotFound {
                info,
                debug,
                directory,
            } => SharedMaterializingError::NotFound { info, debug, directory },
        }
    }
}

/// Why the request for one path failed.
#[derive(Debug)]
pub enum MaterializationError {
    Error { path: ProjectRelativePathBuf, source: Arc<String> },
    NotFound {
        path: ProjectRelativePathBuf,
        info: Arc<CasDownloadInfo>,
        debug: Arc<String>,
        directory: SharedEntry,
    },
}

/// Says of which requested path an error was.
pub fn materialization_error(path: ProjectRelativePathBuf, e: SharedMaterializingError) -> (r:
    MaterializationError)
    ensures
        r == (match e {
            SharedMaterializingError::Error(source) => MaterializationError::Error { path, source },
            SharedMaterializingError::NotFound {
                info,
                debug,
                directory,
            } => MaterializationError::NotFound { path, info, debug, directory },
        }),
{
    match e {
        SharedMaterializingError::Error(source) => MaterializationError::Error { path, source },
        SharedMaterializingError::NotFound {
            info,
            debug,
            directory,
        } => MaterializationError::NotFound { path, info, debug, directory },
    }
}

/// Message taken by the command loop.
pub enum MaterializerCommand {
    /// Where the contents of these files can be found.
    GetMaterializedFilePaths(Vec<ProjectRelativePathBuf>),
    /// A set of artifacts already exists.
    DeclareExisting(Vec<(ProjectRelativePathBuf, ArtifactValue)>),
    /// An artifact: its path, value, and how to put it on disk.
    Declare(ProjectRelativePathBuf, ArtifactValue, Box<ArtifactMaterializationMethod>),
    /// Whether all these artifacts are the ones that are known.
    MatchArtifacts(Vec<(ProjectRelativePathBuf, ArtifactValue)>),
    HasArtifact(ProjectRelativePathBuf),
    /// These paths no longer are what was declared.
    InvalidateFilePaths(Vec<ProjectRelativePathBuf>),
    /// These artifacts are to be put on disk.
    Ensure(Vec<ProjectRelativePathBuf>),
    /// An operation on the subscription with the given number.
    Subscription(u64),
    /// The extension command with the given number.
    Extension(u64),
    /// Terminate the command loop.
    Abort,
}

/// Commands that can be reordered with regard to other commands.
#[derive(Debug)]
pub enum LowPriorityMaterializerCommand {
    /// An artifact was materialized, or failed to be, at this version.
    MaterializationFinished {
        path: ProjectRelativePathBuf,
        timestamp: i64,
        version: Version,
        result: Result<(), SharedMaterializingError>,
    },
    CleanupFinished {
        path: ProjectRelativePathBuf,
        version: Version,
        result: Result<(), SharedMaterializingError>,
    },
}

/// The commands that wait to be processed. Each queue is processed in order; commands of high
/// priority are processed ahead of those of low priority.
pub struct MaterializerSender {
    pub high_priority: VecDeque<MaterializerCommand>,
    pub low_priority: VecDeque<LowPriorityMaterializerCommand>,
    pub counters: MaterializerCounters,
    /// Set while stale artifacts are being cleaned; a new command interrupts that.
    pub clean_guard: bool,
}

/// A counter after `n` more commands.
pub open spec fn bumped(count: usize, n: nat) -> usize
    decreases n,
{
    if n == 0 {
        count
    } else {
        bumped(count, (n - 1) as nat).wrapping_add(1)
    }
}

/// One more command bumps a counter once more.
pub proof fn lemma_bumped(count: usize, n: nat)
    ensures
        bumped(count, n + 1) == bumped(bumped(count, n), 1),
{
    reveal_with_fuel(bumped, 2);
}

/// `after` is `before` with `n` more commands of high priority, which interrupt the cleaning of
/// stale artifacts.
pub open spec fn queued(before: MaterializerSender, after: MaterializerSender, n: nat) -> bool {
    &&& after.high_priority@.len() == before.high_priority@.len() + n
    &&& after.high_priority@.take(before.high_priority@.len() as int) == before.high_priority@
    &&& after.low_priority@ == before.low_priority@
    &&& after.counters.sent == bumped(before.counters.sent, n)
    &&& after.counters.received == before.counters.received
    &&& after.clean_guard == (before.clean_guard && n == 0)
}

impl MaterializerSender {
    pub fn new() -> (r: Self)
        ensures
            r.high_priority@.len() == 0,
            r.low_priority@.len() == 0,
            r.counters.sent == 0 && r.counters.received == 0,
            !r.clean_guard,
    {
        MaterializerSender {
            high_priority: VecDeque::new(),
            low_priority: VecDeque::new(),
            counters: MaterializerCounters::new(),
            clean_guard: false,
        }
    }

    /// Queues a command and interrupts the cleaning of stale artifacts.
    pub fn send(&mut self, command: MaterializerCommand)
        ensures
            final(self).high_priority@ == old(self).high_priority@.push(command),
            queued(*old(self), *final(self), 1),
    {
        let ghost before = self.high_priority@;
        self.clean_guard = false;
        self.high_priority.push_back(command);
        self.counters.ack_sent();
        proof {
            assert(self.high_priority@.take(before.len() as int) =~= before);
            reveal_with_fuel(bumped, 2);
        }
    }

    /// Queues a command that others may overtake.
    pub fn send_low_priority(&mut self, command: LowPriorityMaterializerCommand)
        ensures
            final(self).low_priority@ == old(self).low_priority@.push(command),
            final(self).high_priority@ == old(self).high_priority@,
            final(self).counters.sent == old(self).counters.sent.wrapping_add(1),
            final(self).counters.received == old(self).counters.received,
            final(self).clean_guard == old(self).clean_guard,
    {
        self.low_priority.push_back(command);
        self.counters.ack_sent();
    }
}

/// Which timers are due, and whether the running clean-up is done.
#[derive(Clone, Copy, Debug)]
pub struct Ticks {
    pub refresh_ttl: bool,
    pub io_buffer: bool,
    pub clean_stale_done: bool,
    pub clean_stale: bool,
}

/// What the command loop does next.
pub enum Op {
    Command(MaterializerCommand),
    LowPriorityCommand(LowPriorityMaterializerCommand),
    RefreshTtls,
    Tick,
    CleanStaleRequest,
}

/// The answer of a poll.
pub enum NextOp {
    Ready(Op),
    /// The loop ends.
    Finished,
    Pending,
}

/// The sources of the command loop: the two queues and the timers that are set.
pub struct CommandStream {
    pub commands: MaterializerSender,
    pub refresh_ttl_ticker: bool,
    pub clean_stale_ticker: bool,
    pub clean_stale_running: bool,
}

/// What a poll answers where no command is waiting.
pub open spec fn timer_op(stream: CommandStream, ticks: Ticks) -> NextOp {
    if stream.refresh_ttl_ticker && ticks.refresh_ttl {
        NextOp::Ready(Op::RefreshTtls)
    } else if ticks.io_buffer {
        NextOp::Ready(Op::Tick)
    } else if !stream.clean_stale_running && stream.clean_stale_ticker && ticks.clean_stale {
        NextOp::Ready(Op::CleanStaleRequest)
    } else {
        NextOp::Pending
    }
}

/// A poll of `before` leaves `after` and answers `r`: commands of high priority come first, then
/// those of low priority, then the timers. No clean-up is asked for while one is running.
pub open spec fn polled(before: CommandStream, ticks: Ticks, after: CommandStream, r: NextOp) -> bool {
    let high = before.commands.high_priority@;
    let low = before.commands.low_priority@;
    &&& after.refresh_ttl_ticker == before.refresh_ttl_ticker
    &&& after.clean_stale_ticker == before.clean_stale_ticker
    &&& after.commands.counters == before.commands.counters
    &&& after.commands.clean_guard == before.commands.clean_guard
    &&& if high.len() > 0 {
            &&& after.commands.high_priority@ == high.drop_first()
            &&& after.commands.low_priority@ == low
            &&& after.clean_stale_running == before.clean_stale_running
            &&& r == (match high[0] {
                MaterializerCommand::Abort => NextOp::Finished,
                c => NextOp::Ready(Op::Command(c)),
            })
        } else if low.len() > 0 {
            &&& after.commands.high_priority@ == high
            &&& after.commands.low_priority@ == low.drop_first()
            &&& after.clean_stale_running == before.clean_stale_running
            &&& r == NextOp::Ready(Op::LowPriorityCommand(low[0]))
        } else {
            &&& after.commands.high_priority@ == high
            &&& after.commands.low_priority@ == low
            &&& after.clean_stale_running == (before.clean_stale_running && !(
            timer_op(before, ticks) is Pending && ticks.clean_stale_done))
            &&& r == timer_op(before, ticks)
        }
}

impl CommandStream {
    /// The next thing to do: commands of high priority, then those of low priority, then the
    /// timers. No clean-up is asked for while one is running.
    pub fn poll_next(&mut self, ticks: Ticks) -> (r: NextOp)
        ensures
            polled(*old(self), ticks, *final(self), r),
    {
        match self.commands.high_priority.pop_front() {
            Some(MaterializerCommand::Abort) => {
                return NextOp::Finished;
            },
            Some(c) => {
                return NextOp::Ready(Op::Command(c));
            },
            None => {},
        }
        match self.commands.low_priority.pop_front() {
            Some(c) => {
                return NextOp::Ready(Op::LowPriorityCommand(c));
            },
            None => {},
        }
        if self.refresh_ttl_ticker && ticks.refresh_ttl {
            return NextOp::Ready(Op::RefreshTtls);
        }
        if ticks.io_buffer {
            return NextOp::Ready(Op::Tick);
        }
        if self.clean_stale_running {
            if ticks.clean_stale_done {
                self.clean_stale_running = false;
            }
        } else if self.clean_stale_ticker && ticks.clean_stale {
            return NextOp::Ready(Op::CleanStaleRequest);
        }
        NextOp::Pending
    }
}

/// A bounded record of recent commands, shown where the materializer fails.
pub struct LogBuffer {
    inner: VecDeque<String>,
    capacity: usize,
}

/// The last `n` items of `s`.
pub open spec fn last_items<A>(s: Seq<A>, n: nat) -> Seq<A> {
    if s.len() <= n {
        s
    } else {
        s.skip(s.len() - n)
    }
}

impl View for LogBuffer {
    type V = Seq<String>;

    closed spec fn view(&self) -> Seq<String> {
        self.inner@
    }
}

impl LogBuffer {
    /// How many items the buffer keeps. One that was made for none keeps one.
    pub closed spec fn limit(&self) -> nat {
        if self.capacity == 0 {
            1
        } else {
            self.capacity as nat
        }
    }

    /// The buffer holds no more than its limit.
    pub open spec fn wf(&self) -> bool {
        self@.len() <= self.limit()
    }

    pub fn new(capacity: usize) -> (r: Self)
        ensures
            r.wf(),
            r@ == Seq::<String>::empty(),
            r.limit() == (if capacity == 0 {
                1
            } else {
                capacity as nat
            }),
    {
        LogBuffer { inner: VecDeque::new(), capacity }
    }

    /// Adds an item; where the buffer is full the oldest item leaves.
    pub fn push(&mut self, item: String)
        requires
            old(self).wf(),
        ensures
            final(self).wf(),
            final(self).limit() == old(self).limit(),
            final(self)@ == last_items(old(self)@.push(item), old(self).limit()),
    {
        let ghost before = self@;
        if self.inner.len() >= self.capacity {
            let _oldest = self.inner.pop_front();
        }
        self.inner.push_back(item);
        assert(self@ =~= last_items(before.push(item), self.limit()));
    }

    /// The items, one per line.
    pub fn display(&self) -> (r: String)
        ensures
            r@ == text::joined(text::views(self@), "\n"@),
    {
        let mut items: Vec<String> = Vec::new();
        let mut i: usize = 0;
        while i < self.inner.len()
            invariant
                i <= self.inner@.len(),
                items@ == self.inner@.take(i as int),
            decreases self.inner@.len() - i,
        {
            items.push(self.inner[i].clone());
            i = i + 1;
            assert(items@ =~= self.inner@.take(i as int));
        }
        assert(items@ =~= self.inner@);
        text::join(&items, "\n")
    }
}

/// The artifacts that are being materialized for the sake of each other, outermost first.
pub enum MaterializeStack<'a> {
    Empty,
    Child(&'a MaterializeStack<'a>, &'a ProjectRelativePathBuf),
}

/// The paths on the stack, outermost first.
pub open spec fn frames(stack: MaterializeStack) -> Seq<PathView>
    decreases stack,
{
    match stack {
        MaterializeStack::Empty => Seq::empty(),
        MaterializeStack::Child(parent, path) => frames(*parent).push(path@),
    }
}

/// How a stack with these paths is shown.
pub open spec fn stack_text(frames: Seq<PathView>) -> Seq<char> {
    if frames.len() == 0 {
        "(empty)"@
    } else {
        text::joined(Seq::new(frames.len(), |i: int| paths::path_text(frames[i])), " -> "@)
    }
}

impl<'a> MaterializeStack<'a> {
    /// The paths on the stack as text, outermost first. The walk is a loop: stacks are shown
    /// where they have grown too deep.
    fn collect(&self) -> (r: Vec<String>)
        ensures
            text::views(r@) == Seq::new(
                frames(*self).len(),
                |i: int| paths::path_text(frames(*self)[i]),
            ),
    {
        let mut inner_first: Vec<String> = Vec::new();
        let mut current: &MaterializeStack = self;
        loop
            invariant_except_break
                frames(*current).len() + inner_first@.len() == frames(*self).len(),
                frames(*current) == frames(*self).take(frames(*current).len() as int),
                forall|k: int|
                    0 <= k < inner_first@.len() ==> (#[trigger] inner_first@[k])@
                        == paths::path_text(frames(*self)[frames(*self).len() - 1 - k]),
            ensures
                inner_first@.len() == frames(*self).len(),
                forall|k: int|
                    0 <= k < inner_first@.len() ==> (#[trigger] inner_first@[k])@
                        == paths::path_text(frames(*self)[frames(*self).len() - 1 - k]),
            decreases *current,
        {
            match current {
                MaterializeStack::Empty => {
                    break;
                },
                MaterializeStack::Child(parent, path) => {
                    inner_first.push(path.display());
                    proof {
                        let n = frames(**parent).len() as int;
                        assert(frames(*current)[n] == path@);
                        assert(frames(*self)[n] == path@);
                        assert(frames(**parent) =~= frames(*self).take(n));
                    }
                    current = *parent;
                },
            }
        }
        let mut r: Vec<String> = Vec::new();
        let mut i: usize = inner_first.len();
        while i > 0
            invariant
                i <= inner_first@.len(),
                inner_first@.len() == frames(*self).len(),
                r@.len() == inner_first@.len() - i,
                forall|k: int|
                    0 <= k < inner_first@.len() ==> (#[trigger] inner_first@[k])@
                        == paths::path_text(frames(*self)[frames(*self).len() - 1 - k]),
                forall|k: int|
                    0 <= k < r@.len() ==> (#[trigger] r@[k])@ == paths::path_text(
                        frames(*self)[k],
                    ),
            decreases i,
        {
            i = i - 1;
            r.push(inner_first[i].clone());
        }
        assert(text::views(r@) =~= Seq::new(
            frames(*self).len(),
            |i: int| paths::path_text(frames(*self)[i]),
        ));
        r
    }

    /// The stack as shown in messages.
    pub fn display(&self) -> (r: String)
        ensures
            r@ == stack_text(frames(*self)),
    {
        match self {
            MaterializeStack::Empty => "(empty)".to_owned(),
            _ => {
                let parts = self.collect();
                text::join(&parts, " -> ")
            },
        }
    }
}

/// The buffer of the log holds the newest lines, oldest first, and as many as it has room for.
pub proof fn law_newest_lines_are_kept<A>(s: Seq<A>, n: nat, i: int)
    ensures
        s.len() <= n ==> last_items(s, n) == s,
        s.len() > n ==> last_items(s, n).len() == n,
        s.len() > n && 0 <= i < n ==> last_items(s, n)[i] == s[s.len() - n + i],
{
}

/// A counter that is bumped counts every command, modulo its width.
pub proof fn law_every_command_is_counted(count: usize, n: nat)
    ensures
        count + n <= usize::MAX ==> bumped(count, n) == count + n,
    decreases n,
{
    if n > 0 {
        law_every_command_is_counted(count, (n - 1) as nat);
    }
}

/// Queued commands of high priority come after all that were queued before, which stay.
pub proof fn law_queued_commands_come_last(
    before: MaterializerSender,
    after: MaterializerSender,
    n: nat,
    i: int,
)
    requires
        queued(before, after, n),
    ensures
        0 <= i < before.high_priority@.len() ==> after.high_priority@[i]
            == before.high_priority@[i],
        after.high_priority@.len() == before.high_priority@.len() + n,
        after.low_priority@ == before.low_priority@,
        n > 0 ==> !after.clean_guard,
        before.counters.sent + n <= usize::MAX ==> after.counters.sent == before.counters.sent + n,
        after.counters.received == before.counters.received,
{
    law_every_command_is_counted(before.counters.sent, n);
    if 0 <= i < before.high_priority@.len() {
        assert(after.high_priority@.take(before.high_priority@.len() as int)[i]
            == after.high_priority@[i]);
    }
}

/// What is due next. Commands come before timers, and those of high priority before others, each
/// in the order in which they came; nothing is lost. Of timers that are due, refreshing comes
/// before writing back, and that before cleaning up, which is not asked for while a clean-up runs.
pub proof fn law_what_is_due_next(before: CommandStream, ticks: Ticks, after: CommandStream, r: NextOp)
    requires
        polled(before, ticks, after, r),
    ensures
        ({
            let high = before.commands.high_priority@;
            let low = before.commands.low_priority@;
            let idle = high.len() == 0 && low.len() == 0;
            let refresh = before.refresh_ttl_ticker && ticks.refresh_ttl;
            let clean = before.clean_stale_ticker && ticks.clean_stale
                && !before.clean_stale_running;
            &&& high.len() > 0 && high[0] is Abort ==> r is Finished
            &&& high.len() > 0 && !(high[0] is Abort) ==> r == NextOp::Ready(Op::Command(high[0]))
            &&& high.len() > 0 ==> after.commands.high_priority@ == high.skip(1)
                && after.commands.low_priority@ == low
            &&& high.len() == 0 && low.len() > 0 ==> r == NextOp::Ready(
                Op::LowPriorityCommand(low[0]),
            ) && after.commands.low_priority@ == low.skip(1)
            &&& high.len() == 0 ==> after.commands.high_priority@ == high
            &&& idle ==> after.commands.low_priority@ == low
            &&& r == NextOp::Ready(Op::RefreshTtls) <==> idle && refresh
            &&& r == NextOp::Ready(Op::Tick) <==> idle && !refresh && ticks.io_buffer
            &&& r == NextOp::Ready(Op::CleanStaleRequest) <==> idle && !refresh
                && !ticks.io_buffer && clean
            &&& r is Pending <==> idle && !refresh && !ticks.io_buffer && !clean
            &&& after.clean_stale_running ==> before.clean_stale_running
            &&& r is Pending && ticks.clean_stale_done ==> !after.clean_stale_running
            &&& !ticks.clean_stale_done ==> after.clean_stale_running
                == before.clean_stale_running
        }),
{
    assert(before.commands.high_priority@.len() > 0 ==> before.commands.high_priority@.drop_first()
        =~= before.commands.high_priority@.skip(1));
    assert(before.commands.low_priority@.len() > 0 ==> before.commands.low_priority@.drop_first()
        =~= before.commands.low_priority@.skip(1));
}

/// The newer of two pieces of work is known by its version, whether it goes on or is done.
pub proof fn law_versions_of_work(version: Version, future: ProcessingFuture)
    ensures
        version_of(Processing::Done(version)) == version,
        version_of(Processing::Active { future, version }) == version,
{
}

/// The stack of what is being materialized lists every path, the one asked for first.
pub proof fn law_every_frame_is_listed(stack: MaterializeStack, path: ProjectRelativePathBuf, i: int)
    ensures
        frames(MaterializeStack::Empty).len() == 0,
        ({
            let inside = frames(MaterializeStack::Child(&stack, &path));
            &&& inside.len() == frames(stack).len() + 1
            &&& inside.last() == path@
            &&& 0 <= i < frames(stack).len() ==> inside[i] == frames(stack)[i]
        }),
{
}

/// How uses are noted is configured by one of three words; all of them are where nothing is said, and
/// another word is none.
pub proof fn law_how_uses_are_noted(value: Seq<char>)
    ensures
        access_times_config(None) == Some(AccessTimesUpdates::Full),
        access_times_config(Some(value)) == Some(AccessTimesUpdates::Full) <==> value == ""@
            || value == "full"@,
        access_times_config(Some(value)) == Some(AccessTimesUpdates::Partial) <==> value
            == "partial"@,
        access_times_config(Some(value)) == Some(AccessTimesUpdates::Disabled) <==> value
            == "disabled"@,
        access_times_config(Some(value)) is None <==> value != ""@ && value != "full"@ && value
            != "partial"@ && value != "disabled"@,
{
    reveal_strlit("");
    reveal_strlit("full");
    reveal_strlit("partial");
    reveal_strlit("disabled");
    assert("full"@.len() == 4 && "partial"@.len() == 7 && "disabled"@.len() == 8 && ""@.len() == 0);
}

} // verus!
