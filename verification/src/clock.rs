//! The wall clock.

use std::time::{Duration, SystemTime, SystemTimeError};
use vstd::prelude::*;

verus! {

/// `std::time::SystemTime`: a point in time.
#[verifier::external_type_specification]
#[verifier::external_body]
pub struct ExSystemTime(SystemTime);

/// `std::time::SystemTimeError`: a point in time is before another one.
#[verifier::external_type_specification]
#[verifier::external_body]
pub struct ExSystemTimeError(SystemTimeError);

/// By how much a point in time is past the Unix epoch, as `SystemTime::duration_since` of std
/// returns it; none where it is before the epoch.
pub uninterp spec fn epoch_span(now: SystemTime) -> Option<Duration>;

/// The whole seconds of a span of time, as `Duration::as_secs` of std returns them.
pub uninterp spec fn whole_seconds(span: Duration) -> u64;

/// How many whole seconds a point in time is past the Unix epoch; none where it is before it.
pub open spec fn epoch_seconds(now: SystemTime) -> Option<u64> {
    match epoch_span(now) {
        Some(span) => Some(whole_seconds(span)),
        None => None,
    }
}

/// `SystemTime::now` of std reads the clock. Nothing is stated of what it shows.
pub assume_specification[ SystemTime::now ]() -> (now: SystemTime)
;

/// `Duration::as_secs` of std: a number that follows from the span alone.
pub assume_specification[ Duration::as_secs ](span: &Duration) -> (seconds: u64)
    ensures
        seconds == whole_seconds(*span),
;

/// Calls `SystemTime::duration_since` of std with the Unix epoch: an error where `now` is before
/// the epoch, and otherwise a span that follows from `now` alone.
#[verifier::external_body]
fn since_epoch(now: SystemTime) -> (span: Result<Duration, SystemTimeError>)
    ensures
        match span {
            Ok(span) => epoch_span(now) == Some(span),
            Err(_) => epoch_span(now) is None,
        },
{
    now.duration_since(std::time::UNIX_EPOCH)
}

/// Calls `to_string` of std on the error. Nothing is stated of the words, which std leaves open.
#[verifier::external_body]
fn clock_error_text(error: &SystemTimeError) -> (text: String) {
    error.to_string()
}

/// How many whole seconds `now` is past the Unix epoch, or in words why it is not.
pub fn seconds_since_epoch(now: SystemTime) -> (seconds: Result<u64, String>)
    ensures
        match seconds {
            Ok(seconds) => epoch_seconds(now) == Some(seconds),
            Err(_) => epoch_seconds(now) is None,
        },
{
    match since_epoch(now) {
        Ok(span) => Ok(span.as_secs()),
        Err(error) => Err(clock_error_text(&error)),
    }
}

/// A point in time is as many whole seconds past the epoch as the span between them has, and none
/// where it is before the epoch.
pub proof fn seconds_are_those_of_the_span(now: SystemTime)
    ensures
        epoch_span(now) matches Some(span) ==> epoch_seconds(now) == Some(whole_seconds(span)),
        epoch_span(now) is None ==> epoch_seconds(now) is None,
{
}

} // verus!
