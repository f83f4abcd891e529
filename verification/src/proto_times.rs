//! Spans and points of time as they stand in messages.
use vstd::prelude::*;
use vstd::string::*;

use crate::text;

verus! {

/// A span of time in a message. Both parts may be negative.
#[derive(Clone, Copy, Debug, PartialEq, Eq, Structural)]
pub struct ProtoDuration {
    pub seconds: i64,
    pub nanos: i32,
}

/// A point of time in a message, from the beginning of 1970 on.
#[derive(Clone, Copy, Debug, PartialEq, Eq, Structural)]
pub struct ProtoTimestamp {
    pub seconds: i64,
    pub nanos: i32,
}

/// A span of time.
#[derive(Clone, Copy, Debug, PartialEq, Eq, Structural)]
pub struct Span {
    pub seconds: u64,
    /// Less than one second.
    pub nanos: u32,
}

/// One second in nanoseconds.
pub const NANOS_PER_SECOND: u32 = 1_000_000_000;

impl Span {
    /// The nanoseconds are less than a second.
    pub open spec fn wf(&self) -> bool {
        self.nanos < NANOS_PER_SECOND
    }

    /// The whole span in nanoseconds.
    pub open spec fn total_nanos(&self) -> nat {
        (self.seconds * NANOS_PER_SECOND + self.nanos) as nat
    }

    pub fn from_millis(millis: u64) -> (r: Span)
        ensures
            r.wf(),
            r.total_nanos() == millis * 1_000_000,
    {
        Span { seconds: millis / 1000, nanos: ((millis % 1000) * 1_000_000) as u32 }
    }

    pub fn from_secs(seconds: u64) -> (r: Span)
        ensures
            r.wf(),
            r.seconds == seconds,
            r.nanos == 0,
    {
        Span { seconds, nanos: 0 }
    }
}

/// How a span in a message is shown when debugging.
pub open spec fn proto_duration_text(d: ProtoDuration) -> Seq<char> {
    "Duration { seconds: "@ + text::signed_decimal_chars(d.seconds as int) + ", nanos: "@
        + text::signed_decimal_chars(d.nanos as int) + " }"@
}

/// `Debug` of `prost_types::Duration`: the name of the message, and its fields in order.
#[verifier::external_body]
fn debug_proto_duration(d: &ProtoDuration) -> (r: String)
    ensures
        r@ == proto_duration_text(*d),
{
    format!("{:?}", prost_types::Duration { seconds: d.seconds, nanos: d.nanos })
}

/// `prost_types::Duration::try_from`, from a `std::time::Duration`: the same span, if its seconds
/// fit.
#[verifier::external_body]
fn proto_duration_try_from(span: &Span) -> (r: Option<ProtoDuration>)
    requires
        span.wf(),
    ensures
        r is Some <==> span.seconds <= i64::MAX,
        r matches Some(d) ==> d.seconds == span.seconds && d.nanos == span.nanos,
{
    prost_types::Duration::try_from(std::time::Duration::new(span.seconds, span.nanos)).ok().map(
        |d| ProtoDuration { seconds: d.seconds, nanos: d.nanos },
    )
}

/// A point of time in nanoseconds from the beginning of 1970 on.
pub open spec fn exact_nanos(t: ProtoTimestamp) -> int {
    t.seconds * 1_000_000_000 + t.nanos
}

/// A point of time that is not near the ends of what the seconds can say.
pub open spec fn is_within_range(t: ProtoTimestamp) -> bool {
    i64::MIN + 4 <= t.seconds <= i64::MAX - 4
}

/// `SystemTime::try_from`, from a `prost_types::Timestamp`: the point of time in nanoseconds from
/// the beginning of 1970 on, or nothing where the system has no such time. Which times a system
/// has, and how finely it counts below a second, is left open. Near the ends of what the seconds
/// can say, the time is set to the end.
#[verifier::external_body]
fn timestamp_nanos(t: &ProtoTimestamp) -> (r: Option<i128>)
    ensures
        r matches Some(n) ==> is_within_range(*t) ==> n <= exact_nanos(*t) < n + 1_000_000_000,
{
    let t = prost_types::Timestamp { seconds: t.seconds, nanos: t.nanos };
    match std::time::SystemTime::try_from(t).ok()?.duration_since(std::time::UNIX_EPOCH) {
        Ok(d) => Some(d.as_nanos() as i128),
        Err(e) => Some(-(e.duration().as_nanos() as i128)),
    }
}

/// A span from a message, in which no part may be negative.
pub fn convert_positive_duration(d: &ProtoDuration) -> (r: Result<Span, String>)
    ensures
        match r {
            Ok(span) => {
                &&& d.seconds >= 0
                &&& d.nanos >= 0
                &&& span.wf()
                &&& span.total_nanos() == d.seconds * NANOS_PER_SECOND + d.nanos
            },
            Err(m) => {
                &&& d.seconds < 0 || d.nanos < 0
                &&& m@ == "received invalid timeout: `"@ + proto_duration_text(*d) + "`"@
            },
        },
{
    if d.seconds < 0 || d.nanos < 0 {
        let shown = debug_proto_duration(d);
        return Err(text::concat3("received invalid timeout: `", shown.as_str(), "`"));
    }
    let extra: u64 = d.nanos as u64 / NANOS_PER_SECOND as u64;
    let rest: u64 = d.nanos as u64 % NANOS_PER_SECOND as u64;
    Ok(Span { seconds: d.seconds as u64 + extra, nanos: rest as u32 })
}

/// A span for a message.
pub fn to_proto_duration(span: &Span) -> (r: Option<ProtoDuration>)
    requires
        span.wf(),
    ensures
        r is Some <==> span.seconds <= i64::MAX,
        r matches Some(d) ==> d.seconds == span.seconds && d.nanos == span.nanos,
{
    proto_duration_try_from(span)
}

/// Whether a point of time, in nanoseconds, is still to come: nothing where there is no such time.
pub fn is_after(time: Option<i128>, now_nanos: i128) -> (r: Option<bool>)
    ensures
        r == (match time {
            Some(n) => Some(now_nanos < n),
            None => None,
        }),
{
    match time {
        Some(n) => Some(now_nanos < n),
        None => None,
    }
}

/// Whether a point of time in a message is still to come: nothing where the system has no such
/// time.
pub fn is_in_future(t: &ProtoTimestamp, now_nanos: i128) -> (r: Option<bool>)
    ensures
        r matches Some(b) ==> is_within_range(*t) ==> {
            &&& b ==> now_nanos < exact_nanos(*t)
            &&& !b ==> exact_nanos(*t) < now_nanos + 1_000_000_000
        },
{
    is_after(timestamp_nanos(t), now_nanos)
}

/// A span is told by how long it lasts: two that last equally long are the same.
pub proof fn law_spans_are_told_by_their_length(a: Span, b: Span)
    requires
        a.wf(),
        b.wf(),
    ensures
        a.total_nanos() == b.total_nanos() <==> a == b,
        a.seconds < b.seconds ==> a.total_nanos() < b.total_nanos(),
        a.seconds == b.seconds && a.nanos < b.nanos ==> a.total_nanos() < b.total_nanos(),
        a.nanos == 0 ==> a.total_nanos() == a.seconds * 1_000_000_000,
{
}

/// A later time has more nanoseconds.
pub proof fn law_times_are_ordered(a: ProtoTimestamp, b: ProtoTimestamp)
    requires
        0 <= a.nanos < NANOS_PER_SECOND,
        0 <= b.nanos < NANOS_PER_SECOND,
    ensures
        exact_nanos(a) < exact_nanos(b) <==> a.seconds < b.seconds || (a.seconds == b.seconds
            && a.nanos < b.nanos),
        exact_nanos(a) == exact_nanos(b) <==> a == b,
{
}

/// A duration is shown with its seconds and nanoseconds.
pub proof fn law_durations_are_shown_whole(d: ProtoDuration)
    ensures
        proto_duration_text(d) == "Duration { seconds: "@ + text::signed_decimal_chars(
            d.seconds as int,
        ) + ", nanos: "@ + text::signed_decimal_chars(d.nanos as int) + " }"@,
{
}

} // verus!
