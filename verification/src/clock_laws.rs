//! What the seconds of a point in time mean.
use std::time::SystemTime;
use vstd::prelude::*;

use crate::clock;
use crate::clock::BeforeEpoch;

verus! {

/// The seconds of a point in time are as many as have passed in full since the beginning of 1970. A point in time before that
/// has none, and the message is that of its error.
pub proof fn law_secs(time: SystemTime)
    ensures
        clock::secs_after_epoch(time) is Ok <==> clock::nanos_after_epoch(time) >= 0,
        clock::secs_after_epoch(time) matches Ok(secs) ==> secs * 1_000_000_000 <= clock::nanos_after_epoch(time) < (secs
            + 1) * 1_000_000_000,
        clock::secs_after_epoch(time) matches Err(message) ==> message == clock::time_error_message(
            clock::epoch_error(time),
        ),
{
}

/// What is said of a time is its seconds, or the text of the error.
pub proof fn law_reading(secs: u64, e: BeforeEpoch)
    ensures
        clock::reading(Ok(secs)) == Ok::<int, Seq<char>>(secs as int),
        clock::reading(Err(e)) == Err::<int, Seq<char>>(e.0@),
{
}

} // verus!
