//! The ways a conversion can fail.

use vstd::prelude::*;

verus! {

#[derive(Clone, Copy, PartialEq, Eq, Debug, Structural)]
pub enum TraceError {
    /// A span end of a kind that must carry its duration carries none.
    MissingDuration,
    /// An event's timestamp is at the epoch or beyond the range the counters accept.
    TimestampOutOfRange,
    /// A sample for a rate series is older than the previous one for the same key.
    ClockWentBackwards,
    /// Every track ordinal of a category is in use.
    TracksExhausted,
}

impl TraceError {
    pub fn message(&self) -> (r: &'static str) {
        match self {
            TraceError::MissingDuration => "span end is missing its duration",
            TraceError::TimestampOutOfRange => "event timestamp is out of range",
            TraceError::ClockWentBackwards => "sample is older than the previous one",
            TraceError::TracksExhausted => "no track ordinal is left",
        }
    }
}

} // verus!
