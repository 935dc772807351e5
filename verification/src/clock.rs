//! The time of the system clock, in whole seconds.
use std::time::{Duration, SystemTime, SystemTimeError, UNIX_EPOCH};
use vstd::prelude::*;

verus! {

/// `std::time::SystemTime`, a point in time.
#[verifier::external_type_specification]
#[verifier::external_body]
pub struct ExSystemTime(SystemTime);

/// `std::time::SystemTimeError`, which says that one point in time is later than another.
#[verifier::external_type_specification]
#[verifier::external_body]
pub struct ExSystemTimeError(SystemTimeError);

/// How many nanoseconds after the beginning of 1970, UTC, a point in time lies: below zero for one before it.
pub uninterp spec fn nanos_after_epoch(time: SystemTime) -> int;

/// How many nanoseconds long a span of time is.
pub uninterp spec fn span_nanos(span: Duration) -> nat;

/// The error of `SystemTime::duration_since` for a point in time before the beginning of 1970, UTC, and that beginning.
pub uninterp spec fn epoch_error(time: SystemTime) -> SystemTimeError;

/// The message of an error.
pub uninterp spec fn time_error_message(error: SystemTimeError) -> Seq<char>;

/// `SystemTime::now`: the time of the system clock. Nothing is claimed of it: it may be any point in time.
pub assume_specification[ SystemTime::now ]() -> SystemTime;

/// `SystemTime::duration_since` the Unix epoch: the span from the beginning of 1970 up to `time`, and an error where
/// `time` is earlier than that. The error depends on `time` alone, and `epoch_error` names it.
#[verifier::external_body]
fn since_epoch(time: &SystemTime) -> (r: Result<Duration, SystemTimeError>)
    ensures
        match r {
            Ok(span) => nanos_after_epoch(*time) == span_nanos(span),
            Err(e) => nanos_after_epoch(*time) < 0 && e == epoch_error(*time),
        },
{
    time.duration_since(UNIX_EPOCH)
}

/// The `Display` of `SystemTimeError`: its message, which `time_error_message` names.
#[verifier::external_body]
fn time_error_text(e: &SystemTimeError) -> (t: String)
    ensures
        t@ == time_error_message(*e),
{
    e.to_string()
}

/// `Duration::as_secs`: the whole seconds in a span of time.
pub assume_specification[ Duration::as_secs ](span: &Duration) -> (secs: u64)
    ensures
        secs == span_nanos(*span) / 1_000_000_000,
;

/// The clock shows a time before 1970, as the text says.
#[derive(Debug, Clone, PartialEq, Eq)]
pub struct BeforeEpoch(pub String);

/// What `r` says of a time: its seconds, or the message.
pub open spec fn reading(r: Result<u64, BeforeEpoch>) -> Result<int, Seq<char>> {
    match r {
        Ok(secs) => Ok(secs as int),
        Err(e) => Err(e.0@),
    }
}

/// The whole seconds from the beginning of 1970 up to `time`, or the message where `time` is earlier than that.
pub open spec fn secs_after_epoch(time: SystemTime) -> Result<int, Seq<char>> {
    if nanos_after_epoch(time) < 0 {
        Err(time_error_message(epoch_error(time)))
    } else {
        Ok(nanos_after_epoch(time) / 1_000_000_000)
    }
}

/// The whole seconds from the beginning of 1970 up to `time`.
pub fn unix_secs(time: &SystemTime) -> (r: Result<u64, BeforeEpoch>)
    ensures
        reading(r) == secs_after_epoch(*time),
{
    match since_epoch(time) {
        Ok(span) => Ok(span.as_secs()),
        Err(e) => Err(BeforeEpoch(time_error_text(&e))),
    }
}

/// The current time, in whole seconds from the beginning of 1970.
pub fn unix_now_secs() -> (r: Result<u64, BeforeEpoch>)
    ensures
        exists|now: SystemTime|
            {
                &&& reading(r) == #[trigger] secs_after_epoch(now)
                &&& r matches Ok(secs) ==> secs == nanos_after_epoch(now) / 1_000_000_000
            },
{
    let now: SystemTime = SystemTime::now();
    unix_secs(&now)
}

} // verus!
