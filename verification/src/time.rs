//! Durable time: durations and clock readings as whole milliseconds.
use std::time::{Duration, SystemTime, UNIX_EPOCH};

use vstd::prelude::*;

use crate::api::Config;
use crate::error::{Error, ErrorView};

verus! {

/// `std::time::SystemTime`, a point in time that is only measured against the epoch.
#[verifier::external_type_specification]
#[verifier::external_body]
pub struct ExSystemTime(SystemTime);

/// The length of a duration in nanoseconds, as `Duration::as_nanos` returns it.
pub uninterp spec fn duration_nanos(duration: Duration) -> nat;

/// `Duration::as_nanos` is the total number of nanoseconds.
pub assume_specification[ Duration::as_nanos ](duration: &Duration) -> (nanos: u128)
    ensures
        nanos == duration_nanos(*duration),
;

/// `Duration::as_millis` is the number of whole milliseconds: what is left over
/// is dropped.
pub assume_specification[ Duration::as_millis ](duration: &Duration) -> (millis: u128)
    ensures
        millis == duration_nanos(*duration) / 1_000_000,
;

/// `Duration::is_zero` is true of the duration without a single nanosecond.
pub assume_specification[ Duration::is_zero ](duration: &Duration) -> (zero: bool)
    ensures
        zero == (duration_nanos(*duration) == 0),
;

/// `Duration::from_millis` is exactly that many milliseconds long.
pub assume_specification[ Duration::from_millis ](millis: u64) -> (duration: Duration)
    ensures
        duration_nanos(duration) == millis * 1_000_000,
;

/// `Duration::from_secs` is exactly that many seconds long.
pub assume_specification[ Duration::from_secs ](secs: u64) -> (duration: Duration)
    ensures
        duration_nanos(duration) == secs * 1_000_000_000,
;

/// `SystemTime::now` reads the system clock: nothing is promised of the reading.
pub assume_specification[ SystemTime::now ]() -> (time: SystemTime)
;

/// The nanoseconds from the Unix epoch to `time`, or `None` where `time` is
/// earlier, as `SystemTime::duration_since` measures it.
pub uninterp spec fn nanos_since_epoch(time: SystemTime) -> Option<nat>;

/// `SystemTime::duration_since` the Unix epoch. The contract names the distance
/// and says that an earlier time has none.
#[verifier::external_body]
fn since_epoch(time: SystemTime) -> (elapsed: Option<Duration>)
    ensures
        elapsed matches Some(duration) ==> nanos_since_epoch(time) == Some(
            duration_nanos(duration),
        ),
        elapsed is None ==> nanos_since_epoch(time) is None,
{
    time.duration_since(UNIX_EPOCH).ok()
}

/// The whole milliseconds of a duration.
pub open spec fn whole_ms(duration: Duration) -> nat {
    duration_nanos(duration) / 1_000_000
}

/// The first rule that a configuration breaks.
pub open spec fn config_problem(config: Config) -> Option<Seq<char>> {
    if config.max_connections == 0 {
        Some("max_connections must be greater than zero"@)
    } else if config.max_batch_size == 0 {
        Some("max_batch_size must be greater than zero"@)
    } else if config.max_batch_size > i64::MAX {
        Some("max_batch_size must fit in SQLite"@)
    } else if duration_nanos(config.cross_process_poll_interval) == 0 {
        Some("cross_process_poll_interval must be greater than zero"@)
    } else if whole_ms(config.idempotency_window) == 0 {
        Some("idempotency_window must be at least one millisecond"@)
    } else if whole_ms(config.idempotency_window) > i64::MAX {
        Some("idempotency_window must fit in SQLite milliseconds"@)
    } else {
        None
    }
}

/// Checks the limits that a configuration must respect.
pub fn validate_config(config: &Config) -> (result: Result<(), Error>)
    ensures
        match config_problem(*config) {
            Some(problem) => result is Err && result->Err_0@ == ErrorView::InvalidConfig(problem),
            None => result is Ok,
        },
{
    if config.max_connections == 0 {
        return Err(Error::InvalidConfig("max_connections must be greater than zero"));
    }
    if config.max_batch_size == 0 {
        return Err(Error::InvalidConfig("max_batch_size must be greater than zero"));
    }
    if config.max_batch_size as u128 > i64::MAX as u128 {
        return Err(Error::InvalidConfig("max_batch_size must fit in SQLite"));
    }
    if config.cross_process_poll_interval.is_zero() {
        return Err(Error::InvalidConfig("cross_process_poll_interval must be greater than zero"));
    }
    let window_ms: u128 = config.idempotency_window.as_millis();
    if window_ms == 0 {
        return Err(Error::InvalidConfig("idempotency_window must be at least one millisecond"));
    }
    if window_ms > i64::MAX as u128 {
        return Err(Error::InvalidConfig("idempotency_window must fit in SQLite milliseconds"));
    }
    Ok(())
}

/// A distance from the Unix epoch as the timestamp that is stored.
pub open spec fn timestamp(nanos: Option<nat>) -> Result<int, ErrorView> {
    match nanos {
        None => Err(ErrorView::ClockBeforeUnixEpoch),
        Some(nanos) => if nanos / 1_000_000 <= i64::MAX {
            Ok((nanos / 1_000_000) as int)
        } else {
            Err(ErrorView::DurationOutOfRange)
        },
    }
}

/// Whether `result` is what `expected` says, error for error.
pub open spec fn is_timestamp(
    result: Result<i64, Error>,
    expected: Result<int, ErrorView>,
) -> bool {
    match expected {
        Ok(ms) => result is Ok && result->Ok_0 == ms,
        Err(error) => result is Err && result->Err_0@ == error,
    }
}

/// A clock reading without its machine width.
pub open spec fn reading(clock: Result<i64, Error>) -> Result<int, ErrorView> {
    match clock {
        Ok(now) => Ok(now as int),
        Err(error) => Err(error@),
    }
}

/// The timestamp of a clock that shows `since_epoch`, which is `None` where it
/// stands before the epoch.
pub fn unix_ms(since_epoch: Option<Duration>) -> (result: Result<i64, Error>)
    ensures
        is_timestamp(
            result,
            timestamp(
                match since_epoch {
                    Some(duration) => Some(duration_nanos(duration)),
                    None => None,
                },
            ),
        ),
{
    match since_epoch {
        None => Err(Error::ClockBeforeUnixEpoch),
        Some(duration) => duration_ms(duration),
    }
}

/// The system clock in milliseconds since the Unix epoch. Whatever the clock
/// shows, the result is the timestamp of that reading.
pub fn now_ms() -> (result: Result<i64, Error>)
    ensures
        exists|time: SystemTime|
            {
                &&& call_ensures(SystemTime::now, (), time)
                &&& is_timestamp(result, timestamp(#[trigger] nanos_since_epoch(time)))
            },
{
    let time = SystemTime::now();
    assert(call_ensures(SystemTime::now, (), time));
    unix_ms(since_epoch(time))
}

/// A duration in whole milliseconds, where SQLite can hold it.
pub fn duration_ms(duration: Duration) -> (result: Result<i64, Error>)
    ensures
        is_timestamp(result, timestamp(Some(duration_nanos(duration)))),
{
    let millis: u128 = duration.as_millis();
    if millis > i64::MAX as u128 {
        Err(Error::DurationOutOfRange)
    } else {
        Ok(millis as i64)
    }
}

/// `timestamp_ms` moved forward by the whole milliseconds of `nanos`, where both
/// the distance and the sum can be stored.
pub open spec fn later(timestamp_ms: int, nanos: nat) -> Result<int, ErrorView> {
    if nanos / 1_000_000 <= i64::MAX && timestamp_ms + nanos / 1_000_000 <= i64::MAX {
        Ok((timestamp_ms + nanos / 1_000_000) as int)
    } else {
        Err(ErrorView::DurationOutOfRange)
    }
}

/// Moves a timestamp forward by a duration.
pub fn add_duration(timestamp_ms: i64, duration: Duration) -> (result: Result<i64, Error>)
    ensures
        is_timestamp(result, later(timestamp_ms as int, duration_nanos(duration))),
{
    let delay: i64 = match duration_ms(duration) {
        Ok(delay) => delay,
        Err(error) => {
            return Err(error);
        },
    };
    match timestamp_ms.checked_add(delay) {
        Some(sum) => Ok(sum),
        None => Err(Error::DurationOutOfRange),
    }
}

/// A clock reading, and the time that was asked for from there.
#[derive(Clone, Copy, Debug)]
pub struct Span {
    pub now: i64,
    pub until: i64,
}

/// Whether `result` is a span from the clock's reading to the expected time, error
/// for error.
pub open spec fn is_span(
    result: Result<Span, Error>,
    clock: Result<i64, Error>,
    expected: Result<int, ErrorView>,
) -> bool {
    match expected {
        Ok(until) => {
            &&& result is Ok
            &&& clock is Ok
            &&& result->Ok_0.now == clock->Ok_0
            &&& result->Ok_0.until == until
        },
        Err(error) => result is Err && result->Err_0@ == error,
    }
}

/// The time left at `now` until `timestamp_ms`: nothing once it has arrived.
pub fn duration_until_ms(timestamp_ms: i64, now: i64) -> (remaining: Duration)
    ensures
        duration_nanos(remaining) == if timestamp_ms > now {
            (timestamp_ms - now) * 1_000_000
        } else {
            0
        },
{
    if timestamp_ms > now {
        Duration::from_millis((timestamp_ms as i128 - now as i128) as u64)
    } else {
        Duration::from_millis(0)
    }
}

} // verus!
