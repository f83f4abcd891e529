//! The command that lists targets.
use vstd::prelude::*;
use vstd::string::*;

use crate::text;

verus! {

/// How targets are hashed.
#[derive(Clone, Copy, Debug, PartialEq, Eq, Structural)]
pub enum TargetHashGraphType {
    NotHashed,
    Unconfigured,
    Configured,
}

/// A request that is not about an alias.
#[derive(Debug)]
pub struct OtherTargets {
    pub streaming: bool,
    pub target_hash_graph_type: TargetHashGraphType,
    pub target_hash_use_fast_hash: bool,
    pub keep_going: bool,
    pub cached: bool,
    pub imports: bool,
}

/// What is asked for.
#[derive(Debug)]
pub enum TargetsKind {
    ResolveAlias,
    Other(OtherTargets),
}

/// A request to list targets.
#[derive(Debug)]
pub struct TargetsRequest {
    pub target_patterns: Vec<String>,
    /// The file to write to, in place of the standard output.
    pub output: Option<String>,
    pub targets: Option<TargetsKind>,
    /// Whether the configuration of targets is given.
    pub has_target_cfg: bool,
    pub concurrency: Option<u32>,
}

/// The answer to a request to list targets.
#[derive(Debug)]
pub struct TargetsResponse {
    pub error_count: u64,
    pub serialized_targets_output: String,
}

/// Where the listing goes.
#[derive(Clone, Copy, Debug, PartialEq, Eq, Structural)]
pub enum OutputType {
    Stdout,
    File,
}

/// Where the listing goes, once its file was opened if it has one.
pub fn outputter(request: &TargetsRequest, opened: Result<(), String>) -> (r: Result<
    OutputType,
    String,
>)
    ensures
        match (request.output, opened) {
            (None, _) => r == Ok::<OutputType, String>(OutputType::Stdout),
            (Some(_), Ok(_)) => r == Ok::<OutputType, String>(OutputType::File),
            (Some(file), Err(e)) => r matches Err(m) && m@ == "Failed to open file `"@ + file@
                + "` for `targets` output : "@ + e@,
        },
{
    match &request.output {
        None => Ok(OutputType::Stdout),
        Some(file) => match opened {
            Ok(_) => Ok(OutputType::File),
            Err(e) => Err(
                text::concat4(
                    "Failed to open file `",
                    file.as_str(),
                    "` for `targets` output : ",
                    e.as_str(),
                ),
            ),
        },
    }
}

/// The command that lists targets.
#[derive(Debug)]
pub struct TargetsServerCommand {
    pub req: TargetsRequest,
}

impl TargetsServerCommand {
    /// Whether an answer means success. There is no answer if the command failed.
    pub fn is_success(&self, _response: &TargetsResponse) -> (r: bool)
        ensures
            r,
    {
        true
    }

    /// The patterns that are reported when the command ends.
    pub fn end_event(&self) -> (r: Vec<String>)
        ensures
            r@ == self.req.target_patterns@,
    {
        text::clone_strings(&self.req.target_patterns)
    }
}

/// Whether targets are hashed, and if so, whether fast.
pub fn hashing(other: &OtherTargets) -> (r: Option<bool>)
    ensures
        r == (match other.target_hash_graph_type {
            TargetHashGraphType::NotHashed => None,
            _ => Some(other.target_hash_use_fast_hash),
        }),
{
    match other.target_hash_graph_type {
        TargetHashGraphType::NotHashed => None,
        _ => Some(other.target_hash_use_fast_hash),
    }
}

/// How far a listing is.
pub enum TargetsStage {
    CellResolver,
    Patterns,
    Output,
    Aliases(OutputType),
    /// The formatter for a streaming listing is made.
    StreamFormatter(OutputType),
    Streaming(OutputType),
    /// The output of a streaming listing, which came to this, is flushed.
    StreamFlush(OutputType, Result<TargetsResponse, String>),
    /// The formatter for a listing at once is made.
    BatchFormatter(OutputType),
    Configuration(OutputType),
    HashOptions(OutputType),
    Batch(OutputType),
    /// The listing is written to its file.
    Write(TargetsResponse),
    /// The output is flushed before this answer.
    Flush(TargetsResponse),
    Done,
}

/// What came of what was asked for.
pub enum TargetsEvent {
    Settled(Result<(), String>),
    Response(Result<TargetsResponse, String>),
}

/// What is asked for next.
pub enum TargetsStep {
    GetCellResolver,
    ParsePatterns,
    /// Open the output; there is nothing to open for the standard output.
    OpenOutput(Option<String>),
    ResolveAliases,
    CreateFormatter,
    Stream {
        keep_going: bool,
        cached: bool,
        imports: bool,
        hashing: Option<bool>,
        concurrency: Option<u32>,
    },
    Flush,
    ReadConfiguration,
    MakeHashOptions,
    List { keep_going: bool },
    WriteToFile(String),
    Finish(Result<TargetsResponse, String>),
}

/// An event that can come at a stage. A stage for one sort of request comes up only with it.
pub open spec fn targets_answers(
    request: TargetsRequest,
    stage: TargetsStage,
    event: TargetsEvent,
) -> bool {
    match stage {
        TargetsStage::Aliases(_) => event is Response,
        TargetsStage::StreamFormatter(_) => event is Settled && request.targets matches Some(
            TargetsKind::Other(_),
        ),
        TargetsStage::Streaming(_) => event is Response,
        TargetsStage::HashOptions(_) => event is Settled && request.targets matches Some(
            TargetsKind::Other(_),
        ),
        TargetsStage::Batch(_) => event is Response,
        TargetsStage::Done => false,
        _ => event is Settled,
    }
}

/// The listing is given up with an error.
pub open spec fn targets_fail(next: TargetsStage, step: TargetsStep, e: Seq<char>) -> bool {
    &&& next is Done
    &&& step matches TargetsStep::Finish(Err(m))
    &&& m@ == e
}

/// A listing that came to `response` is written to its file or handed out.
pub open spec fn hands_out(
    output: OutputType,
    response: TargetsResponse,
    next: TargetsStage,
    step: TargetsStep,
) -> bool {
    match output {
        OutputType::Stdout => next == TargetsStage::Flush(response) && step is Flush,
        OutputType::File => next == TargetsStage::Write(response) && step
            == TargetsStep::WriteToFile(response.serialized_targets_output),
    }
}

/// What follows an event.
pub open spec fn targets_follow(
    request: TargetsRequest,
    stage: TargetsStage,
    event: TargetsEvent,
    next: TargetsStage,
    step: TargetsStep,
) -> bool {
    match (stage, event) {
        (TargetsStage::CellResolver, TargetsEvent::Settled(Ok(_))) => next is Patterns
            && step is ParsePatterns,
        (TargetsStage::Patterns, TargetsEvent::Settled(Ok(_))) => next is Output && step
            == TargetsStep::OpenOutput(request.output),
        (TargetsStage::Output, TargetsEvent::Settled(opened)) => match (request.output, opened) {
            (Some(file), Err(e)) => targets_fail(
                next,
                step,
                "Failed to open file `"@ + file@ + "` for `targets` output : "@ + e@,
            ),
            _ => {
                let output = if request.output is Some {
                    OutputType::File
                } else {
                    OutputType::Stdout
                };
                match request.targets {
                    Some(TargetsKind::ResolveAlias) => next == TargetsStage::Aliases(output)
                        && step is ResolveAliases,
                    Some(TargetsKind::Other(other)) => {
                        &&& step is CreateFormatter
                        &&& next == (if other.streaming {
                            TargetsStage::StreamFormatter(output)
                        } else {
                            TargetsStage::BatchFormatter(output)
                        })
                    },
                    None => targets_fail(next, step, "Missing field in proto request"@),
                }
            },
        },
        (TargetsStage::StreamFormatter(output), TargetsEvent::Settled(Ok(_))) => {
            &&& request.targets matches Some(TargetsKind::Other(other))
            &&& next == TargetsStage::Streaming(output)
            &&& step == (TargetsStep::Stream {
                keep_going: other.keep_going,
                cached: other.cached,
                imports: other.imports,
                hashing: match other.target_hash_graph_type {
                    TargetHashGraphType::NotHashed => None,
                    _ => Some(other.target_hash_use_fast_hash),
                },
                concurrency: request.concurrency,
            })
        },
        (TargetsStage::Streaming(output), TargetsEvent::Response(response)) => next
            == TargetsStage::StreamFlush(output, response) && step is Flush,
        (TargetsStage::StreamFlush(output, Ok(response)), TargetsEvent::Settled(Ok(_))) =>
            hands_out(output, response, next, step),
        (TargetsStage::StreamFlush(_, Err(e)), TargetsEvent::Settled(Ok(_))) => targets_fail(
            next,
            step,
            e@,
        ),
        (TargetsStage::BatchFormatter(output), TargetsEvent::Settled(Ok(_))) => if request.has_target_cfg {
            next == TargetsStage::Configuration(output) && step is ReadConfiguration
        } else {
            targets_fail(next, step, "target_cfg must be set"@)
        },
        (TargetsStage::Configuration(output), TargetsEvent::Settled(Ok(_))) => next
            == TargetsStage::HashOptions(output) && step is MakeHashOptions,
        (TargetsStage::HashOptions(output), TargetsEvent::Settled(Ok(_))) => {
            &&& request.targets matches Some(TargetsKind::Other(other))
            &&& next == TargetsStage::Batch(output)
            &&& step == (TargetsStep::List { keep_going: other.keep_going })
        },
        (TargetsStage::Aliases(output), TargetsEvent::Response(Ok(response))) => hands_out(
            output,
            response,
            next,
            step,
        ),
        (TargetsStage::Batch(output), TargetsEvent::Response(Ok(response))) => hands_out(
            output,
            response,
            next,
            step,
        ),
        (TargetsStage::Write(response), TargetsEvent::Settled(Ok(_))) => {
            &&& next matches TargetsStage::Flush(left)
            &&& left.error_count == response.error_count
            &&& left.serialized_targets_output@.len() == 0
            &&& step is Flush
        },
        (TargetsStage::Flush(response), TargetsEvent::Settled(Ok(_))) => next is Done && step
            == TargetsStep::Finish(Ok(response)),
        (_, TargetsEvent::Settled(Err(e))) => targets_fail(next, step, e@),
        (_, TargetsEvent::Response(Err(e))) => targets_fail(next, step, e@),
        _ => true,
    }
}

fn fail(e: String) -> (r: (TargetsStage, TargetsStep))
    ensures
        targets_fail(r.0, r.1, e@),
{
    (TargetsStage::Done, TargetsStep::Finish(Err(e)))
}

fn hand_out(output: OutputType, response: TargetsResponse) -> (r: (TargetsStage, TargetsStep))
    ensures
        hands_out(output, response, r.0, r.1),
{
    match output {
        OutputType::Stdout => (TargetsStage::Flush(response), TargetsStep::Flush),
        OutputType::File => {
            let text = response.serialized_targets_output.clone();
            (TargetsStage::Write(response), TargetsStep::WriteToFile(text))
        },
    }
}

fn dupe_opt(s: &Option<String>) -> (r: Option<String>)
    ensures
        r == *s,
{
    match s {
        Some(s) => Some(s.clone()),
        None => None,
    }
}

/// The next step of a listing.
pub fn targets(request: &TargetsRequest, stage: TargetsStage, event: TargetsEvent) -> (r: (
    TargetsStage,
    TargetsStep,
))
    requires
        targets_answers(*request, stage, event),
    ensures
        targets_follow(*request, stage, event, r.0, r.1),
{
    match (stage, event) {
        (TargetsStage::CellResolver, TargetsEvent::Settled(Ok(_))) => (
            TargetsStage::Patterns,
            TargetsStep::ParsePatterns,
        ),
        (TargetsStage::Patterns, TargetsEvent::Settled(Ok(_))) => (
            TargetsStage::Output,
            TargetsStep::OpenOutput(dupe_opt(&request.output)),
        ),
        (TargetsStage::Output, TargetsEvent::Settled(opened)) => match outputter(request, opened) {
            Err(m) => fail(m),
            Ok(output) => match &request.targets {
                Some(TargetsKind::ResolveAlias) => (
                    TargetsStage::Aliases(output),
                    TargetsStep::ResolveAliases,
                ),
                Some(TargetsKind::Other(other)) => if other.streaming {
                    (TargetsStage::StreamFormatter(output), TargetsStep::CreateFormatter)
                } else {
                    (TargetsStage::BatchFormatter(output), TargetsStep::CreateFormatter)
                },
                None => fail("Missing field in proto request".to_owned()),
            },
        },
        (TargetsStage::StreamFormatter(output), TargetsEvent::Settled(Ok(_))) => match &request.targets {
            Some(TargetsKind::Other(other)) => (
                TargetsStage::Streaming(output),
                TargetsStep::Stream {
                    keep_going: other.keep_going,
                    cached: other.cached,
                    imports: other.imports,
                    hashing: hashing(other),
                    concurrency: request.concurrency,
                },
            ),
            _ => fail("Missing field in proto request".to_owned()),
        },
        (TargetsStage::Streaming(output), TargetsEvent::Response(response)) => (
            TargetsStage::StreamFlush(output, response),
            TargetsStep::Flush,
        ),
        (TargetsStage::StreamFlush(output, Ok(response)), TargetsEvent::Settled(Ok(_))) =>
            hand_out(output, response),
        (TargetsStage::StreamFlush(_, Err(e)), TargetsEvent::Settled(Ok(_))) => fail(e),
        (TargetsStage::BatchFormatter(output), TargetsEvent::Settled(Ok(_))) => if request.has_target_cfg {
            (TargetsStage::Configuration(output), TargetsStep::ReadConfiguration)
        } else {
            fail("target_cfg must be set".to_owned())
        },
        (TargetsStage::Configuration(output), TargetsEvent::Settled(Ok(_))) => (
            TargetsStage::HashOptions(output),
            TargetsStep::MakeHashOptions,
        ),
        (TargetsStage::HashOptions(output), TargetsEvent::Settled(Ok(_))) => match &request.targets {
            Some(TargetsKind::Other(other)) => (
                TargetsStage::Batch(output),
                TargetsStep::List { keep_going: other.keep_going },
            ),
            _ => fail("Missing field in proto request".to_owned()),
        },
        (TargetsStage::Aliases(output), TargetsEvent::Response(Ok(response))) => hand_out(
            output,
            response,
        ),
        (TargetsStage::Batch(output), TargetsEvent::Response(Ok(response))) => hand_out(
            output,
            response,
        ),
        (TargetsStage::Write(response), TargetsEvent::Settled(Ok(_))) => (
            TargetsStage::Flush(
                TargetsResponse {
                    error_count: response.error_count,
                    serialized_targets_output: String::new(),
                },
            ),
            TargetsStep::Flush,
        ),
        (TargetsStage::Flush(response), TargetsEvent::Settled(Ok(_))) => (
            TargetsStage::Done,
            TargetsStep::Finish(Ok(response)),
        ),
        (_, TargetsEvent::Settled(Err(e))) => fail(e),
        (_, TargetsEvent::Response(Err(e))) => fail(e),
        (_, _) => (TargetsStage::Done, TargetsStep::GetCellResolver),
    }
}

/// A streaming listing is flushed whatever it came to, before anything is answered.
pub proof fn law_streaming_is_always_flushed(
    request: TargetsRequest,
    output: OutputType,
    response: Result<TargetsResponse, String>,
    next: TargetsStage,
    step: TargetsStep,
)
    requires
        targets_follow(
            request,
            TargetsStage::Streaming(output),
            TargetsEvent::Response(response),
            next,
            step,
        ),
    ensures
        step is Flush,
        next == TargetsStage::StreamFlush(output, response),
{
}

/// A listing goes to one place: what was written to a file is not in the answer.
pub proof fn law_output_goes_to_one_place(
    request: TargetsRequest,
    response: TargetsResponse,
    event: TargetsEvent,
    next: TargetsStage,
    step: TargetsStep,
)
    requires
        targets_follow(request, TargetsStage::Write(response), event, next, step),
        targets_answers(request, TargetsStage::Write(response), event),
    ensures
        match next {
            TargetsStage::Flush(left) => left.serialized_targets_output@.len() == 0,
            _ => step matches TargetsStep::Finish(Err(_)),
        },
{
}

/// A request begins with its cells and patterns, opens its output, and then goes the way of its kind.
pub proof fn law_how_a_request_begins(
    request: TargetsRequest,
    other: OtherTargets,
    next: TargetsStage,
    step: TargetsStep,
)
    ensures
        targets_follow(
            request,
            TargetsStage::CellResolver,
            TargetsEvent::Settled(Ok(())),
            next,
            step,
        ) ==> next is Patterns && step is ParsePatterns,
        targets_follow(
            request,
            TargetsStage::Patterns,
            TargetsEvent::Settled(Ok(())),
            next,
            step,
        ) ==> next is Output && step is OpenOutput && step->OpenOutput_0 == request.output,
        request.targets == Some(TargetsKind::ResolveAlias) && targets_follow(
            request,
            TargetsStage::Output,
            TargetsEvent::Settled(Ok(())),
            next,
            step,
        ) ==> {
            &&& step is ResolveAliases
            &&& next is Aliases
            &&& next->Aliases_0 is File <==> request.output is Some
        },
        request.targets == Some(TargetsKind::Other(other)) && targets_follow(
            request,
            TargetsStage::Output,
            TargetsEvent::Settled(Ok(())),
            next,
            step,
        ) ==> {
            &&& step is CreateFormatter
            &&& other.streaming ==> next is StreamFormatter && (next->StreamFormatter_0 is File
                <==> request.output is Some)
            &&& !other.streaming ==> next is BatchFormatter && (next->BatchFormatter_0 is File
                <==> request.output is Some)
        },
        request.targets is None && targets_follow(
            request,
            TargetsStage::Output,
            TargetsEvent::Settled(Ok(())),
            next,
            step,
        ) ==> {
            &&& next is Done
            &&& step is Finish
            &&& step->Finish_0 is Err
            &&& step->Finish_0->Err_0@ == "Missing field in proto request"@
        },
{
}

/// What was asked for is what is listed.
pub proof fn law_what_is_listed(
    request: TargetsRequest,
    other: OtherTargets,
    output: OutputType,
    next: TargetsStage,
    step: TargetsStep,
)
    requires
        request.targets == Some(TargetsKind::Other(other)),
    ensures
        targets_follow(
            request,
            TargetsStage::StreamFormatter(output),
            TargetsEvent::Settled(Ok(())),
            next,
            step,
        ) ==> {
            &&& next == TargetsStage::Streaming(output)
            &&& step is Stream
            &&& step->Stream_keep_going == other.keep_going
            &&& step->cached == other.cached
            &&& step->imports == other.imports
            &&& step->concurrency == request.concurrency
            &&& step->hashing is None <==> other.target_hash_graph_type is NotHashed
            &&& step->hashing is Some ==> step->hashing->0 == other.target_hash_use_fast_hash
        },
        targets_follow(
            request,
            TargetsStage::BatchFormatter(output),
            TargetsEvent::Settled(Ok(())),
            next,
            step,
        ) ==> if request.has_target_cfg {
            next == TargetsStage::Configuration(output) && step is ReadConfiguration
        } else {
            next is Done && step is Finish && step->Finish_0 is Err && step->Finish_0->Err_0@
                == "target_cfg must be set"@
        },
        targets_follow(
            request,
            TargetsStage::Configuration(output),
            TargetsEvent::Settled(Ok(())),
            next,
            step,
        ) ==> next == TargetsStage::HashOptions(output) && step is MakeHashOptions,
        targets_follow(
            request,
            TargetsStage::HashOptions(output),
            TargetsEvent::Settled(Ok(())),
            next,
            step,
        ) ==> next == TargetsStage::Batch(output) && step == (TargetsStep::List {
            keep_going: other.keep_going,
        }),
{
}

/// Every listing is handed out: written to the file where one was named, and answered otherwise.
pub proof fn law_every_listing_is_handed_out(
    request: TargetsRequest,
    output: OutputType,
    response: TargetsResponse,
    stage: TargetsStage,
    event: TargetsEvent,
    next: TargetsStage,
    step: TargetsStep,
)
    requires
        targets_follow(request, stage, event, next, step),
        ({
            ||| stage == TargetsStage::Aliases(output) && event == TargetsEvent::Response(
                Ok(response),
            )
            ||| stage == TargetsStage::Batch(output) && event == TargetsEvent::Response(
                Ok(response),
            )
            ||| stage == TargetsStage::StreamFlush(output, Ok(response)) && event
                == TargetsEvent::Settled(Ok(()))
        }),
    ensures
        output is File ==> next == TargetsStage::Write(response) && step
            == TargetsStep::WriteToFile(response.serialized_targets_output),
        output is Stdout ==> next == TargetsStage::Flush(response) && step is Flush,
{
}

/// What is handed out keeps the number of failures, and is the answer in the end.
pub proof fn law_failures_are_counted_in_the_answer(
    request: TargetsRequest,
    response: TargetsResponse,
    next: TargetsStage,
    step: TargetsStep,
)
    ensures
        targets_follow(
            request,
            TargetsStage::Write(response),
            TargetsEvent::Settled(Ok(())),
            next,
            step,
        ) ==> next is Flush && next->Flush_0.error_count == response.error_count && step is Flush,
        targets_follow(
            request,
            TargetsStage::Flush(response),
            TargetsEvent::Settled(Ok(())),
            next,
            step,
        ) ==> next is Done && step == TargetsStep::Finish(Ok(response)),
{
}

/// Whatever fails ends the request with its reason.
pub proof fn law_failure_ends_a_request(
    request: TargetsRequest,
    stage: TargetsStage,
    event: TargetsEvent,
    reason: String,
    next: TargetsStage,
    step: TargetsStep,
)
    requires
        targets_answers(request, stage, event),
        targets_follow(request, stage, event, next, step),
        !(stage is Output),
        !(stage is Streaming),
        event == TargetsEvent::Settled(Err(reason)) || event == TargetsEvent::Response(Err(reason)),
    ensures
        next is Done,
        step is Finish,
        step->Finish_0 is Err,
        step->Finish_0->Err_0@ == reason@,
{
}

/// An output that cannot be opened ends the request, with its name and the reason.
pub proof fn law_output_has_to_open(
    request: TargetsRequest,
    reason: String,
    next: TargetsStage,
    step: TargetsStep,
)
    requires
        request.output is Some,
        targets_follow(
            request,
            TargetsStage::Output,
            TargetsEvent::Settled(Err(reason)),
            next,
            step,
        ),
    ensures
        next is Done,
        step is Finish,
        step->Finish_0 is Err,
        step->Finish_0->Err_0@ == "Failed to open file `"@ + request.output->0@
            + "` for `targets` output : "@ + reason@,
{
}

} // verus!
