//! Seconds since the Unix epoch, and how old a timestamp may be.
use std::time::{Duration, SystemTime, SystemTimeError, UNIX_EPOCH};
use vstd::prelude::*;

verus! {

/// The point in time of `std`.
#[verifier::external_type_specification]
#[verifier::external_body]
pub struct ExSystemTime(SystemTime);

/// The error that comes where the earlier of two points in time is the later one.
#[verifier::external_type_specification]
#[verifier::external_body]
pub struct ExSystemTimeError(SystemTimeError);

/// `SystemTime::now` reads the clock of the system. Nothing is known of what it shows.
pub assume_specification[ SystemTime::now ]() -> (now: SystemTime)
;

/// The span of time from the Unix epoch to a point in time, unless the point is before the epoch.
pub uninterp spec fn since_epoch(now: SystemTime) -> Option<Duration>;

/// The whole seconds in a span of time.
pub uninterp spec fn whole_seconds(elapsed: Duration) -> u64;

/// `SystemTime::duration_since`, asked for the time since `std::time::UNIX_EPOCH`, gives a span that
/// the point in time alone decides, and an error for a point before the epoch.
#[verifier::external_body]
fn duration_since_epoch(now: &SystemTime) -> (elapsed: Result<Duration, SystemTimeError>)
    ensures
        match elapsed {
            Ok(span) => since_epoch(*now) == Some(span),
            Err(_) => since_epoch(*now) is None,
        },
{
    now.duration_since(UNIX_EPOCH)
}

/// `Duration::as_secs` gives the whole seconds of a span of time.
pub assume_specification[ Duration::as_secs ](elapsed: &Duration) -> (secs: u64)
    ensures
        secs == whole_seconds(*elapsed),
;

/// The timestamp for a clock that shows `elapsed` seconds since the Unix epoch, or a time before
/// it.
pub open spec fn timestamp_of(elapsed: Option<u64>) -> i64 {
    match elapsed {
        Some(secs) => if secs <= i64::MAX {
            secs as i64
        } else {
            i64::MAX
        },
        None => 0,
    }
}

/// The timestamp for a clock that shows `elapsed` seconds since the Unix epoch. A number that
/// does not fit becomes the largest one that does, and a clock before the epoch shows zero.
pub fn timestamp_from_elapsed(elapsed: Option<u64>) -> (timestamp: i64)
    ensures
        timestamp == timestamp_of(elapsed),
        elapsed is None ==> timestamp == 0,
        elapsed matches Some(secs) ==> (secs <= i64::MAX ==> timestamp == secs) && (secs > i64::MAX
            ==> timestamp == i64::MAX),
{
    match elapsed {
        Some(secs) => if secs <= 0x7fff_ffff_ffff_ffff {
            secs as i64
        } else {
            0x7fff_ffff_ffff_ffff
        },
        None => 0,
    }
}

/// The timestamp for a point in time.
pub open spec fn timestamp_at(now: SystemTime) -> i64 {
    timestamp_of(
        match since_epoch(now) {
            Some(span) => Some(whole_seconds(span)),
            None => None,
        },
    )
}

/// The timestamp is the one for some point in time.
pub open spec fn is_clock_reading(timestamp: i64) -> bool {
    exists|now: SystemTime| timestamp == #[trigger] timestamp_at(now)
}

/// The seconds since the Unix epoch that the clock of the system shows.
pub fn unix_timestamp_secs() -> (timestamp: i64)
    ensures
        is_clock_reading(timestamp),
        timestamp >= 0,
        exists|now: SystemTime|
            match #[trigger] since_epoch(now) {
                Some(span) => if whole_seconds(span) <= i64::MAX {
                    timestamp == whole_seconds(span)
                } else {
                    timestamp == i64::MAX
                },
                None => timestamp == 0,
            },
{
    let now: SystemTime = SystemTime::now();
    let elapsed: Option<u64> = match duration_since_epoch(&now) {
        Ok(span) => Some(span.as_secs()),
        Err(_) => None,
    };
    let timestamp: i64 = timestamp_from_elapsed(elapsed);
    assert(timestamp == timestamp_at(now));
    assert(since_epoch(now) is Some ==> timestamp == timestamp_of(
        Some(whole_seconds(since_epoch(now)->0)),
    ));
    timestamp
}

/// The distance between two timestamps is at most `allowed`.
pub open spec fn is_fresh(timestamp: i64, now: i64, allowed: u64) -> bool {
    -allowed <= timestamp - now <= allowed
}

/// Whether a timestamp is no further from `now` than allowed, in the past or in the future.
pub fn timestamp_is_fresh(timestamp: i64, now: i64, allowed_skew_secs: u64) -> (fresh: bool)
    ensures
        fresh == is_fresh(timestamp, now, allowed_skew_secs),
        fresh <==> timestamp - now <= allowed_skew_secs && now - timestamp <= allowed_skew_secs,
{
    let difference: i128 = timestamp as i128 - now as i128;
    -(allowed_skew_secs as i128) <= difference && difference <= allowed_skew_secs as i128
}

/// The timestamp for a point in time is the number of whole seconds since the epoch, as long as it
/// fits, and zero before the epoch.
pub proof fn lemma_timestamp_counts_whole_seconds(now: SystemTime)
    ensures
        since_epoch(now) matches Some(span) ==> (whole_seconds(span) <= i64::MAX ==> timestamp_at(
            now,
        ) == whole_seconds(span)) && (whole_seconds(span) > i64::MAX ==> timestamp_at(now)
            == i64::MAX),
        since_epoch(now) is None ==> timestamp_at(now) == 0,
{
}

/// A reading of the clock is the number of whole seconds from the epoch to some point in time, where
/// the point is not before the epoch and the number fits.
pub proof fn lemma_clock_reading_counts_whole_seconds(timestamp: i64)
    requires
        is_clock_reading(timestamp),
    ensures
        exists|now: SystemTime|
            match #[trigger] since_epoch(now) {
                Some(span) => if whole_seconds(span) <= i64::MAX {
                    timestamp == whole_seconds(span)
                } else {
                    timestamp == i64::MAX
                },
                None => timestamp == 0,
            },
{
    let now = choose|now: SystemTime| timestamp == #[trigger] timestamp_at(now);
    lemma_timestamp_counts_whole_seconds(now);
    assert(since_epoch(now) is Some || since_epoch(now) is None);
}

/// A timestamp `distance` seconds before or after `now` is fresh exactly where as much is allowed.
pub proof fn lemma_freshness_is_distance(now: i64, distance: int, allowed: u64)
    requires
        distance >= 0,
    ensures
        now + distance <= i64::MAX ==> (is_fresh((now + distance) as i64, now, allowed) <==> distance
            <= allowed),
        now - distance >= i64::MIN ==> (is_fresh((now - distance) as i64, now, allowed) <==> distance
            <= allowed),
{
}

/// Two clocks that differ agree on freshness: it does not matter which of the two timestamps is
/// called now.
pub proof fn lemma_freshness_is_symmetric(a: i64, b: i64, allowed: u64)
    ensures
        is_fresh(a, b, allowed) == is_fresh(b, a, allowed),
{
}

/// A timestamp is fresh at its own time, and stays fresh where more is allowed.
pub proof fn lemma_freshness_grows(timestamp: i64, now: i64, allowed: u64, more: u64)
    requires
        allowed <= more,
    ensures
        is_fresh(now, now, allowed),
        is_fresh(timestamp, now, allowed) ==> is_fresh(timestamp, now, more),
{
}

} // verus!
