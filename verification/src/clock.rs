//! The clock.
use vstd::prelude::*;

verus! {

/// A point in time of the system clock.
#[verifier::external_type_specification]
#[verifier::external_body]
pub struct ExSystemTime(std::time::SystemTime);

/// The error of a point in time that lies before another.
#[verifier::external_type_specification]
#[verifier::external_body]
pub struct ExSystemTimeError(std::time::SystemTimeError);

/// `std::time::SystemTime::now`. Nothing is claimed of the time.
#[verifier::external_body]
fn system_time() -> std::time::SystemTime {
    std::time::SystemTime::now()
}

/// What `std::time::SystemTime::duration_since` returns for a time and the Unix epoch: the duration
/// from the epoch to the time, or an error where the time lies before it.
pub uninterp spec fn time_since_epoch(time: std::time::SystemTime) -> Result<
    std::time::Duration,
    std::time::SystemTimeError,
>;

/// `std::time::SystemTime::duration_since` the Unix epoch: the result depends on the time alone.
/// Which times lie before the epoch is not stated.
#[verifier::external_body]
fn since_epoch(time: std::time::SystemTime) -> (r: Result<
    std::time::Duration,
    std::time::SystemTimeError,
>)
    ensures
        r == time_since_epoch(time),
{
    time.duration_since(std::time::UNIX_EPOCH)
}

/// What `std::time::Duration::as_secs` returns: the whole seconds of a duration.
pub uninterp spec fn duration_secs(duration: std::time::Duration) -> u64;

/// `std::time::Duration::as_secs`: the number depends on the duration alone.
#[verifier::external_body]
fn whole_seconds(duration: std::time::Duration) -> (r: u64)
    ensures
        r == duration_secs(duration),
{
    duration.as_secs()
}

/// The whole seconds of the time since the Unix epoch, or 0 for a time before it.
pub open spec fn epoch_secs(
    since: Result<std::time::Duration, std::time::SystemTimeError>,
) -> u64 {
    match since {
        Ok(duration) => duration_secs(duration),
        Err(_) => 0,
    }
}

/// The whole seconds of the time since the Unix epoch, or 0 for a time before it.
pub fn secs_since_epoch(
    since: Result<std::time::Duration, std::time::SystemTimeError>,
) -> (r: u64)
    ensures
        r == epoch_secs(since),
{
    match since {
        Ok(duration) => whole_seconds(duration),
        Err(_) => 0,
    }
}

/// The seconds since the Unix epoch, or 0 where the system clock stands before it: those of some
/// point in time. Which point the clock gives is not stated.
pub fn now_secs() -> (r: u64)
    ensures
        exists|time: std::time::SystemTime| r == epoch_secs(#[trigger] time_since_epoch(time)),
{
    let time: std::time::SystemTime = system_time();
    secs_since_epoch(since_epoch(time))
}

/// A time after the Unix epoch is told by the whole seconds since then, and one before it by 0.
pub proof fn law_epoch_secs(duration: std::time::Duration, error: std::time::SystemTimeError)
    ensures
        epoch_secs(Ok(duration)) == duration_secs(duration),
        epoch_secs(Err(error)) == 0,
{
}

} // verus!
