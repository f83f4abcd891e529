use buck2::proto_times::ProtoDuration;
use buck2::proto_times::ProtoTimestamp;
use buck2::proto_times::Span;
use buck2::server::error_to_command_progress;
use buck2::server::error_to_command_result;
use buck2::server::error_to_response_stream;
use buck2::server::inactivity_seconds;
use buck2::server::inactivity_timeout;
use buck2::server::pump_event;
use buck2::server::pump_events;
use buck2::server::result_to_command_result;
use buck2::server::start_shutdown;
use buck2::server::BuckCheckAuthTokenInterceptor;
use buck2::server::BuckdServer;
use buck2::server::CommandOptions;
use buck2::server::CommandProgress;
use buck2::server::CommandResult;
use buck2::server::DaemonData;
use buck2::server::DaemonShutdown;
use buck2::server::Event;
use buck2::server::Status;
use buck2::server::Wakeup;
use buck2::server_flow::allocative;
use buck2::server_flow::pump_failed;
use buck2::server_flow::run_bidirectional;
use buck2::server_flow::run_streaming;
use buck2::server_flow::set_log_filter;
use buck2::server_flow::shutdown_event;
use buck2::server_flow::unstable_allocator_stats;
use buck2::server_flow::unstable_dice_dump;
use buck2::server_flow::unstable_heap_dump;
use buck2::server_flow::AllocativeStage;
use buck2::server_flow::AllocativeStep;
use buck2::server_flow::AllocatorStatsStage;
use buck2::server_flow::AllocatorStatsStep;
use buck2::server_flow::BuckdServerInitPreferences;
use buck2::server_flow::DaemonParts;
use buck2::server_flow::DiceDumpStage;
use buck2::server_flow::DiceDumpStep;
use buck2::server_flow::FirstMessage;
use buck2::server_flow::HeapDumpRequest;
use buck2::server_flow::HeapDumpStage;
use buck2::server_flow::HeapDumpStep;
use buck2::server_flow::LogFilterStage;
use buck2::server_flow::LogFilterStep;
use buck2::server_flow::OneshotStage;
use buck2::server_flow::OneshotStep;
use buck2::server_flow::SetLogFilterRequest;
use buck2::server_flow::StartEvent;
use buck2::server_flow::StartRequest;
use buck2::server_flow::StartStage;
use buck2::server_flow::StreamStage;
use buck2::server_flow::StreamStep;
use buck2::targets_command::hashing;
use buck2::targets_command::outputter;
use buck2::targets_command::targets;
use buck2::targets_command::OtherTargets;
use buck2::targets_command::OutputType;
use buck2::targets_command::TargetHashGraphType;
use buck2::targets_command::TargetsEvent;
use buck2::targets_command::TargetsKind;
use buck2::targets_command::TargetsRequest;
use buck2::targets_command::TargetsResponse;
use buck2::targets_command::TargetsServerCommand;
use buck2::targets_command::TargetsStage;
use buck2::targets_command::TargetsStep;
use rand::RngCore;
use rand::SeedableRng;

const SHUTTING_DOWN: &str = "Failed to run command, `buckd` is shutting down soon!";

fn message(r: Result<(), Status>) -> String {
    r.unwrap_err().message().to_owned()
}

#[test]
fn only_the_right_token_is_let_in() {
    let interceptor = BuckCheckAuthTokenInterceptor { auth_token: vec![1, 2, 3] };
    assert!(interceptor.call(Some(&vec![1, 2, 3]), false).is_ok());
    assert_eq!(message(interceptor.call(None, false)), "missing auth token");
    assert_eq!(message(interceptor.call(Some(&vec![1, 2, 4]), false)), "invalid auth token");
    assert_eq!(message(interceptor.call(Some(&vec![1, 2]), false)), "invalid auth token");
    assert_eq!(message(interceptor.call(Some(&vec![1, 2, 3]), true)), "injected auth error");
    assert!(matches!(interceptor.call(None, true), Err(Status::Unauthenticated(_))));
}

type Progress = CommandProgress<u8, &'static str, u16>;

fn is_report(p: &Progress, report: &str) -> bool {
    matches!(p, CommandProgress::Result(CommandResult::Error(m)) if m == &vec![report.to_owned()])
}

#[test]
fn errors_become_answers() {
    assert!(matches!(
        error_to_command_result::<u8>("e".to_owned()),
        CommandResult::Error(m) if m == vec!["e".to_owned()]
    ));
    assert!(matches!(result_to_command_result(Ok(3)), CommandResult::Result(3)));
    assert!(matches!(
        result_to_command_result::<u8>(Err("e".to_owned())),
        CommandResult::Error(m) if m == vec!["e".to_owned()]
    ));
    let progress: Progress = error_to_command_progress("e".to_owned());
    assert!(is_report(&progress, "e"));
    let stream: Vec<Progress> = error_to_response_stream("e".to_owned());
    assert_eq!(stream.len(), 1);
    assert!(is_report(&stream[0], "e"));
    let failed: Vec<Progress> = pump_failed("no thread");
    assert!(is_report(&failed[0], "failed to spawn pump-events: no thread"));
}

#[test]
fn nothing_is_pumped_after_the_result() {
    let events: Vec<Event<u8, &str, u16>> = vec![
        Event::Buck("a"),
        Event::PartialResult(7),
        Event::CommandResult(CommandResult::Result(9)),
        Event::Buck("late"),
    ];
    let pumped = pump_events(events);
    assert_eq!(pumped.len(), 3);
    assert!(matches!(pumped[0], CommandProgress::Event("a")));
    assert!(matches!(pumped[1], CommandProgress::PartialResult(7)));
    assert!(matches!(pumped[2], CommandProgress::Result(CommandResult::Result(9))));
    assert!(pump_event::<u8, &str, u16>(Event::Buck("a")).1);
    assert!(!pump_event::<u8, &str, u16>(Event::CommandResult(CommandResult::Result(1))).1);
}

fn reason() -> DaemonShutdown {
    DaemonShutdown { reason: "r".to_owned(), callers: vec!["c".to_owned()] }
}

#[test]
fn shutdown_is_forced_after_a_while() {
    let plan = start_shutdown(reason(), Some(Span::from_secs(2)));
    assert_eq!(plan.force_after, Span::from_secs(2));
    assert_eq!(plan.broadcast.reason, "r");
    assert_eq!(start_shutdown(reason(), None).force_after, Span::from_millis(500));
    assert_eq!(inactivity_seconds(true), 1);
    assert_eq!(inactivity_seconds(false), 4 * 24 * 60 * 60);
    assert!(inactivity_timeout(Wakeup::Command));
    assert!(!inactivity_timeout(Wakeup::Timer));
    assert!(!inactivity_timeout(Wakeup::Shutdown));
}

fn server() -> BuckdServer {
    BuckdServer {
        stop_accepting_requests: false,
        process_info: "p".to_owned(),
        base_daemon_constraints: "b".to_owned(),
        start_time: ProtoTimestamp { seconds: 5, nanos: 6 },
        project_root: "/repo".to_owned(),
        isolation_dir: "v2".to_owned(),
    }
}

#[test]
fn killed_server_takes_no_requests() {
    let mut s = server();
    assert!(s.check_if_accepting_requests().is_ok());
    let timeout = ProtoDuration { seconds: 1, nanos: 500_000_000 };
    let plan = s.kill(Some(timeout), reason()).unwrap();
    assert_eq!(plan.force_after, Span { seconds: 1, nanos: 500_000_000 });
    assert!(matches!(
        s.pre_run(CommandOptions::Default),
        Err(Status::FailedPrecondition(m)) if m == SHUTTING_DOWN
    ));
    assert!(s.pre_run(CommandOptions::Kill).is_ok());
    let mut s = server();
    let wrong = ProtoDuration { seconds: -1, nanos: 0 };
    assert_eq!(
        s.kill(Some(wrong), reason()).err().unwrap(),
        "status: Unknown, message: \"received invalid timeout: `Duration { seconds: -1, nanos: 0 }`\", \
         details: [], metadata: MetadataMap { headers: {} }"
    );
    assert!(s.stop_accepting_requests);
}

#[test]
fn ping_answers_as_much_as_asked() {
    let s = server();
    let payload = s.ping(1000).unwrap();
    let mut expected = vec![0u8; 1000];
    rand::rngs::SmallRng::seed_from_u64(10).fill_bytes(&mut expected);
    assert_eq!(payload, expected);
    assert!(payload.iter().any(|b| *b != payload[0]));
    assert!(s.ping(0).unwrap().is_empty());
    assert!(matches!(s.ping_delay(None), Ok(None)));
    let delay = ProtoDuration { seconds: 3, nanos: 4 };
    assert!(matches!(s.ping_delay(Some(delay)), Ok(Some(Span { seconds: 3, nanos: 4 }))));
    let wrong = ProtoDuration { seconds: 3, nanos: -4 };
    assert!(matches!(s.ping_delay(Some(wrong)), Err(m) if m.contains("Duration { seconds: 3, nanos: -4 }")));
}

fn data() -> DaemonData {
    DaemonData {
        trace_io_enabled: true,
        materializer_state_identity: Some("m".to_owned()),
        forkserver_pid: Some(12),
        supports_vpnless: true,
        http2: false,
    }
}

#[test]
fn status_of_a_daemon() {
    let s = server();
    let r = s.status(&Ok(data()), Some(8), true, Span::from_millis(2500), true, false).unwrap();
    assert_eq!(r.process_info, "p");
    assert_eq!((r.start_time.seconds, r.start_time.nanos), (5, 6));
    assert_eq!((r.uptime.seconds, r.uptime.nanos), (2, 500_000_000));
    assert_eq!(r.snapshot, Some(8));
    let extra = r.daemon_constraints.extra.unwrap();
    assert!(extra.trace_io_enabled);
    assert_eq!(extra.materializer_state_identity, Some("m".to_owned()));
    assert_eq!((r.forkserver_pid, r.supports_vpnless, r.http2), (Some(12), Some(true), Some(false)));
    assert_eq!((r.valid_working_directory, r.valid_buck_out_mount), (true, false));
    let broken = Err("not started".to_owned());
    let r = s.status::<u8>(&broken, None, false, Span::from_secs(1), true, true).unwrap();
    assert!(r.daemon_constraints.extra.is_none());
    assert_eq!(r.http2, None);
    assert_eq!(
        s.status::<u8>(&broken, None, true, Span::from_secs(1), true, true).err(),
        Some("not started".to_owned())
    );
    assert_eq!(
        s.status::<u8>(&Ok(data()), None, false, Span::from_secs(u64::MAX), true, true).err(),
        Some("failed to convert duration out of range".to_owned())
    );
}

#[test]
fn graph_is_configured_by_the_preferences() {
    let preferences = BuckdServerInitPreferences {
        detect_cycles: Some("enabled".to_owned()),
        which_dice: None,
        enable_trace_io: false,
        reject_materializer_state: None,
        materializations: None,
    };
    let configuration = preferences.construct_dice();
    assert!(configuration.with_root_config);
    assert_eq!(configuration.detect_cycles, Some("enabled".to_owned()));
    assert_eq!(configuration.which_dice, None);
}

fn parts() -> DaemonParts {
    DaemonParts {
        process_info: "p".to_owned(),
        auth_token: vec![4, 5],
        base_daemon_constraints: "b".to_owned(),
        project_root: "/repo".to_owned(),
        isolation_dir: "v2".to_owned(),
        materializations: Some("deferred".to_owned()),
    }
}

fn start(stage: StartStage<u8>, event: StartEvent<u8>) -> (StartStage<u8>, StartRequest<u8>) {
    BuckdServer::run(&parts(), stage, event)
}

#[test]
fn daemon_starts_step_by_step() {
    let settled = || StartEvent::Settled(Ok(()));
    let (stage, request) = start(StartStage::Clock, StartEvent::Clock(Ok(Span::from_secs(9))));
    assert!(matches!(request, StartRequest::ParseMaterializations(Some(m)) if m == "deferred"));
    let (stage, request) = start(stage, StartEvent::Materializations(Ok(3)));
    assert!(matches!(request, StartRequest::CreateBuckOut));
    let (stage, request) = start(stage, settled());
    assert!(matches!(request, StartRequest::OpenBuckOut));
    let (stage, request) = start(stage, settled());
    assert!(matches!(request, StartRequest::ChangeDirectory));
    let (stage, request) = start(stage, settled());
    assert!(matches!(request, StartRequest::MakeState(3)));
    let (stage, request) = start(stage, settled());
    assert!(matches!(request, StartRequest::ReadTestSwitch));
    let (stage, request) = start(stage, StartEvent::Testing(Ok(true)));
    match request {
        StartRequest::Serve { server, auth_token, inactivity_seconds } => {
            assert!(!server.stop_accepting_requests);
            assert_eq!(server.start_time.seconds, 9);
            assert_eq!(auth_token, vec![4, 5]);
            assert_eq!(inactivity_seconds, 1);
        }
        _ => panic!("the server serves"),
    }
    let (stage, request) = start(stage, settled());
    assert!(matches!(stage, StartStage::Done));
    assert!(matches!(request, StartRequest::Finish(Ok(()))));
    let t = ProtoTimestamp { seconds: 0, nanos: 0 };
    let (_, request) = start(StartStage::BuckOut(t, 1), StartEvent::Settled(Err("e".to_owned())));
    assert!(matches!(
        request,
        StartRequest::Finish(Err(m)) if m == "Error creating buck_out_path: e"
    ));
    let (_, request) = start(StartStage::State(t), StartEvent::Settled(Err("e".to_owned())));
    assert!(matches!(request, StartRequest::Finish(Err(m)) if m == "e"));
}

#[test]
fn one_request_has_one_answer() {
    let mut s = server();
    let start = |s: &BuckdServer, options| s.oneshot::<u8>(options, OneshotStage::Start);
    assert!(matches!(start(&s, CommandOptions::Default), OneshotStep::Run));
    assert!(matches!(
        s.oneshot(CommandOptions::Default, OneshotStage::Ran(Ok(4))),
        OneshotStep::Answer(CommandResult::Result(4))
    ));
    assert!(matches!(
        s.oneshot::<u8>(CommandOptions::Default, OneshotStage::Ran(Err("e".to_owned()))),
        OneshotStep::Answer(CommandResult::Error(m)) if m == vec!["e".to_owned()]
    ));
    s.stop_accepting_requests = true;
    assert!(matches!(
        start(&s, CommandOptions::Default),
        OneshotStep::Refuse(Status::FailedPrecondition(_))
    ));
    assert!(matches!(start(&s, CommandOptions::Kill), OneshotStep::Run));
}

#[test]
fn refusals_are_shown_with_their_code() {
    assert_eq!(
        Status::Internal("m \"x\"".to_owned()).report(),
        "status: Internal, message: \"m \\\"x\\\"\", details: [], \
         metadata: MetadataMap { headers: {} }"
    );
    for (status, code) in [
        (Status::Unknown(String::new()), 2),
        (Status::InvalidArgument(String::new()), 3),
        (Status::FailedPrecondition(String::new()), 9),
        (Status::Internal(String::new()), 13),
        (Status::Unauthenticated(String::new()), 16),
    ] {
        assert_eq!(status.code(), code);
    }
}

#[test]
fn streams_begin_step_by_step() {
    let mut s = server();
    let step = |s: &BuckdServer, stage, outcome| -> StreamStep<u8, &'static str, u16> {
        run_streaming(s, CommandOptions::Default, stage, outcome)
    };
    let order = [
        StreamStage::ClientContext,
        StreamStage::HardErrors,
        StreamStage::TraceId,
        StreamStage::Events,
        StreamStage::Data,
    ];
    for pair in order.windows(2) {
        assert!(matches!(step(&s, pair[0], Ok(())), StreamStep::Next(next) if next == pair[1]));
    }
    assert!(matches!(step(&s, StreamStage::Data, Ok(())), StreamStep::Run));
    assert!(matches!(
        step(&s, StreamStage::Events, Err("e".to_owned())),
        StreamStep::Answer(a) if a.len() == 1 && is_report(&a[0], "e")
    ));
    s.stop_accepting_requests = true;
    assert!(matches!(
        step(&s, StreamStage::HardErrors, Ok(())),
        StreamStep::Answer(a) if is_report(
            &a[0],
            &format!(
                "status: FailedPrecondition, message: {:?}, details: [], \
                 metadata: MetadataMap {{ headers: {{}} }}",
                SHUTTING_DOWN
            )
        )
    ));
    assert!(run_bidirectional(FirstMessage::Context).is_ok());
    for first in [FirstMessage::Other, FirstMessage::Missing] {
        assert!(matches!(
            run_bidirectional(first),
            Err(Status::FailedPrecondition(m)) if m == "no client context message was received"
        ));
    }
}

#[test]
fn clients_are_told_of_a_shutdown() {
    let now = ProtoTimestamp { seconds: 1, nanos: 2 };
    assert!(shutdown_event(&"t".to_owned(), now, None).is_none());
    let event = shutdown_event(&"t".to_owned(), now, Some(reason())).unwrap();
    assert_eq!((event.trace_id.as_str(), event.span_id, event.parent_id), ("t", 0, 0));
    assert_eq!(event.timestamp, now);
    assert_eq!(event.shutdown.reason, "r");
}

#[test]
fn heap_dumps_go_step_by_step() {
    let mut s = server();
    let req = HeapDumpRequest {
        destination_path: "/own".to_owned(),
        test_executor_destination_path: Some("/executor".to_owned()),
    };
    let step = |s: &BuckdServer, has, stage, outcome| unstable_heap_dump(s, &req, has, stage, outcome);
    assert!(matches!(
        step(&s, true, HeapDumpStage::Start, Ok(())),
        HeapDumpStep::DumpOwn(p) if p == "/own"
    ));
    assert!(matches!(
        step(&s, true, HeapDumpStage::Own, Ok(())),
        HeapDumpStep::DumpExecutor(p) if p == "/executor"
    ));
    assert!(matches!(step(&s, false, HeapDumpStage::Own, Ok(())), HeapDumpStep::Done));
    assert!(matches!(step(&s, true, HeapDumpStage::Executor, Ok(())), HeapDumpStep::Done));
    for stage in [HeapDumpStage::Own, HeapDumpStage::Executor] {
        assert!(matches!(
            step(&s, true, stage, Err("e".to_owned())),
            HeapDumpStep::Fail(Status::InvalidArgument(m)) if m == "failed to perform heap dump: e"
        ));
    }
    s.stop_accepting_requests = true;
    assert!(matches!(
        step(&s, true, HeapDumpStage::Start, Ok(())),
        HeapDumpStep::Fail(Status::FailedPrecondition(m)) if m == SHUTTING_DOWN
    ));
}

#[test]
fn statistics_and_graph_dumps_go_step_by_step() {
    let mut s = server();
    let stats = |s: &BuckdServer, stage| unstable_allocator_stats(s, &"o".to_owned(), stage);
    assert!(matches!(
        stats(&s, AllocatorStatsStage::Start),
        AllocatorStatsStep::Read(o) if o == "o"
    ));
    assert!(matches!(
        stats(&s, AllocatorStatsStage::Read(Ok("stats".to_owned()))),
        AllocatorStatsStep::Answer(a) if a == "stats"
    ));
    assert!(matches!(
        stats(&s, AllocatorStatsStage::Read(Err("e".to_owned()))),
        AllocatorStatsStep::Fail(Status::InvalidArgument(m))
            if m == "Failed to retrieve allocator stats: e"
    ));
    let path = "/tmp/x".to_owned();
    let dump = |s: &BuckdServer, known, stage, outcome| {
        unstable_dice_dump(s, &path, known, stage, outcome)
    };
    assert!(matches!(dump(&s, true, DiceDumpStage::Start, Ok(())), DiceDumpStep::LookUpData));
    assert!(matches!(
        dump(&s, false, DiceDumpStage::Start, Ok(())),
        DiceDumpStep::Fail(Status::Internal(m)) if m == "Invalid DICE dump format"
    ));
    assert!(matches!(
        dump(&s, true, DiceDumpStage::Data, Ok(())),
        DiceDumpStep::Dump(p) if p == path
    ));
    assert!(matches!(
        dump(&s, true, DiceDumpStage::Data, Err("n".to_owned())),
        DiceDumpStep::Fail(Status::Internal(m)) if m == "n"
    ));
    assert!(matches!(dump(&s, true, DiceDumpStage::Dump, Ok(())), DiceDumpStep::Done));
    assert!(matches!(
        dump(&s, true, DiceDumpStage::Dump, Err("e".to_owned())),
        DiceDumpStep::Fail(Status::Internal(m)) if m == "Failed to perform dice dump to /tmp/x: e"
    ));
    s.stop_accepting_requests = true;
    assert!(matches!(
        stats(&s, AllocatorStatsStage::Start),
        AllocatorStatsStep::Fail(Status::FailedPrecondition(_))
    ));
    assert!(matches!(
        dump(&s, false, DiceDumpStage::Start, Ok(())),
        DiceDumpStep::Fail(Status::FailedPrecondition(m)) if m == SHUTTING_DOWN
    ));
}

#[test]
fn log_filters_go_where_they_are_meant_to() {
    let request = |daemon, forkserver| SetLogFilterRequest {
        log_filter: "f".to_owned(),
        daemon,
        forkserver,
    };
    let both = request(true, true);
    assert!(matches!(
        set_log_filter(&both, true, LogFilterStage::Start, Ok(())),
        LogFilterStep::UpdateDaemon(f) if f == "f"
    ));
    assert!(matches!(
        set_log_filter(&both, true, LogFilterStage::Daemon, Ok(())),
        LogFilterStep::UpdateForkserver(f) if f == "f"
    ));
    assert!(matches!(
        set_log_filter(&both, false, LogFilterStage::Daemon, Ok(())),
        LogFilterStep::Done
    ));
    assert!(matches!(
        set_log_filter(&request(false, false), true, LogFilterStage::Start, Ok(())),
        LogFilterStep::Done
    ));
    assert!(matches!(
        set_log_filter(&both, true, LogFilterStage::Daemon, Err("e".to_owned())),
        LogFilterStep::Fail(Status::InvalidArgument(m)) if m == "Error updating daemon log filter: e"
    ));
    assert!(matches!(
        set_log_filter(&both, true, LogFilterStage::Forkserver, Err("e".to_owned())),
        LogFilterStep::Fail(Status::InvalidArgument(m))
            if m == "Error forwarding daemon log filter to forkserver: e"
    ));
    assert!(matches!(
        set_log_filter(&both, true, LogFilterStage::Forkserver, Ok(())),
        LogFilterStep::Done
    ));
}

fn other(streaming: bool) -> OtherTargets {
    OtherTargets {
        streaming,
        target_hash_graph_type: TargetHashGraphType::Configured,
        target_hash_use_fast_hash: true,
        keep_going: true,
        cached: false,
        imports: true,
    }
}

fn targets_request(output: Option<&str>, targets: Option<TargetsKind>) -> TargetsRequest {
    TargetsRequest {
        target_patterns: vec!["//...".to_owned()],
        output: output.map(|o| o.to_owned()),
        targets,
        has_target_cfg: true,
        concurrency: Some(3),
    }
}

fn response() -> TargetsResponse {
    TargetsResponse { error_count: 2, serialized_targets_output: "out".to_owned() }
}

fn ok_event() -> TargetsEvent {
    TargetsEvent::Settled(Ok(()))
}

#[test]
fn targets_are_streamed_and_flushed() {
    let request = targets_request(None, Some(TargetsKind::Other(other(true))));
    let (stage, step) = targets(&request, TargetsStage::CellResolver, ok_event());
    assert!(matches!(step, TargetsStep::ParsePatterns));
    let (stage, step) = targets(&request, stage, ok_event());
    assert!(matches!(step, TargetsStep::OpenOutput(None)));
    let (stage, step) = targets(&request, stage, ok_event());
    assert!(matches!(step, TargetsStep::CreateFormatter));
    let (stage, step) = targets(&request, stage, ok_event());
    assert!(matches!(
        step,
        TargetsStep::Stream {
            keep_going: true,
            cached: false,
            imports: true,
            hashing: Some(true),
            concurrency: Some(3),
        }
    ));
    let (stage, step) =
        targets(&request, stage, TargetsEvent::Response(Err("broken".to_owned())));
    assert!(matches!(step, TargetsStep::Flush));
    let (stage, step) = targets(&request, stage, ok_event());
    assert!(matches!(stage, TargetsStage::Done));
    assert!(matches!(step, TargetsStep::Finish(Err(e)) if e == "broken"));
}

#[test]
fn targets_go_to_the_file() {
    let request = targets_request(Some("f"), Some(TargetsKind::Other(other(false))));
    let (stage, step) = targets(&request, TargetsStage::Output, ok_event());
    assert!(matches!(step, TargetsStep::CreateFormatter));
    let (stage, step) = targets(&request, stage, ok_event());
    assert!(matches!(step, TargetsStep::ReadConfiguration));
    let (stage, step) = targets(&request, stage, ok_event());
    assert!(matches!(step, TargetsStep::MakeHashOptions));
    let (stage, step) = targets(&request, stage, ok_event());
    assert!(matches!(step, TargetsStep::List { keep_going: true }));
    let (stage, step) = targets(&request, stage, TargetsEvent::Response(Ok(response())));
    assert!(matches!(step, TargetsStep::WriteToFile(s) if s == "out"));
    let (stage, step) = targets(&request, stage, ok_event());
    assert!(matches!(step, TargetsStep::Flush));
    let (_, step) = targets(&request, stage, ok_event());
    match step {
        TargetsStep::Finish(Ok(r)) => {
            assert_eq!((r.error_count, r.serialized_targets_output.as_str()), (2, ""));
        }
        _ => panic!("the command succeeds"),
    }
    let (_, step) = targets(&request, TargetsStage::Output, TargetsEvent::Settled(Err("e".to_owned())));
    assert!(matches!(
        step,
        TargetsStep::Finish(Err(m)) if m == "Failed to open file `f` for `targets` output : e"
    ));
}

#[test]
fn targets_requests_may_be_incomplete() {
    let (_, step) = targets(&targets_request(None, None), TargetsStage::Output, ok_event());
    assert!(matches!(step, TargetsStep::Finish(Err(m)) if m == "Missing field in proto request"));
    let mut request = targets_request(None, Some(TargetsKind::Other(other(false))));
    request.has_target_cfg = false;
    let (_, step) =
        targets(&request, TargetsStage::BatchFormatter(OutputType::Stdout), ok_event());
    assert!(matches!(step, TargetsStep::Finish(Err(m)) if m == "target_cfg must be set"));
    let aliases = targets_request(None, Some(TargetsKind::ResolveAlias));
    let (stage, step) = targets(&aliases, TargetsStage::Output, ok_event());
    assert!(matches!(step, TargetsStep::ResolveAliases));
    let (stage, step) = targets(&aliases, stage, TargetsEvent::Response(Ok(response())));
    assert!(matches!(step, TargetsStep::Flush));
    let (_, step) = targets(&aliases, stage, ok_event());
    assert!(matches!(
        step,
        TargetsStep::Finish(Ok(r)) if r.serialized_targets_output == "out"
    ));
    let command = TargetsServerCommand { req: aliases };
    assert!(command.is_success(&response()));
    assert_eq!(command.end_event(), vec!["//...".to_owned()]);
    let mut unhashed = other(true);
    unhashed.target_hash_graph_type = TargetHashGraphType::NotHashed;
    assert_eq!(hashing(&unhashed), None);
    assert_eq!(hashing(&other(true)), Some(true));
    assert_eq!(outputter(&targets_request(Some("f"), None), Ok(())).unwrap(), OutputType::File);
    assert_eq!(outputter(&targets_request(None, None), Ok(())).unwrap(), OutputType::Stdout);
}

#[test]
fn memory_is_measured_step_by_step() {
    let mut s = server();
    let step = |s: &BuckdServer, stage, outcome: Result<(), &str>| {
        allocative::<u8, &'static str, u16>(s, stage, outcome.map_err(|e| e.to_owned()))
    };
    let order = [
        AllocativeStage::Start,
        AllocativeStage::ClientContext,
        AllocativeStage::TraceId,
        AllocativeStage::Events,
        AllocativeStage::OutputPath,
        AllocativeStage::Measure,
    ];
    for pair in order.windows(2) {
        assert!(matches!(step(&s, pair[0], Ok(())), AllocativeStep::Next(next) if next == pair[1]));
    }
    assert!(matches!(
        step(&s, AllocativeStage::Measure, Ok(())),
        AllocativeStep::Result(CommandResult::Result(()))
    ));
    assert!(matches!(
        step(&s, AllocativeStage::TraceId, Err("e")),
        AllocativeStep::Answer(a) if is_report(&a[0], "e")
    ));
    for stage in [AllocativeStage::OutputPath, AllocativeStage::Measure] {
        assert!(matches!(
            step(&s, stage, Err("e")),
            AllocativeStep::Result(CommandResult::Error(m)) if m == vec!["e".to_owned()]
        ));
    }
    s.stop_accepting_requests = true;
    assert!(matches!(
        step(&s, AllocativeStage::Start, Ok(())),
        AllocativeStep::Refuse(Status::FailedPrecondition(m)) if m == SHUTTING_DOWN
    ));
}
