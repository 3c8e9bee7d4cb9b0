//! Time: the moments and durations the library records, behind the trusted
//! items that read the system clock or build `std::time` values.


use vstd::prelude::*;

verus! {

/// `std::time::Instant`, carried through the library as an opaque value.
#[verifier::external_type_specification]
#[verifier::external_body]
pub struct ExInstant(std::time::Instant);

/// `<std::time::Instant as Clone>::clone`: `Instant` is `Copy`, so a clone is the same moment.
pub assume_specification[ <std::time::Instant as Clone>::clone ](i: &std::time::Instant) -> (r: std::time::Instant)
    ensures
        r == *i,
;

/// What `Duration::from_millis` returns for a number of milliseconds.
pub uninterp spec fn duration_of_millis(ms: u64) -> std::time::Duration;

/// What `Duration::from_secs` returns for a number of seconds.
pub uninterp spec fn duration_of_secs(secs: u64) -> std::time::Duration;

/// `Instant::now`: the current moment. Nothing is promised of it: it is read
/// from the system clock.
#[verifier::external_body]
pub fn now() -> std::time::Instant {
    std::time::Instant::now()
}

/// `Instant::elapsed`: the time since `t`, read from the system clock; nothing
/// is promised of it.
#[verifier::external_body]
pub fn elapsed_since(t: &std::time::Instant) -> std::time::Duration {
    t.elapsed()
}

/// `Duration::as_millis`: the whole milliseconds of a duration. A duration
/// holds at most `u64::MAX` whole seconds and less than one more second, so
/// that bounds the count; nothing else is promised.
#[verifier::external_body]
pub fn duration_millis(d: &std::time::Duration) -> (r: u128)
    ensures
        r <= u64::MAX as u128 * 1000 + 999,
{
    d.as_millis()
}

/// `chrono::Utc::now` as `DateTime::timestamp`: the current time in whole
/// seconds since the Unix epoch, read from the system clock; nothing is
/// promised of it.
#[verifier::external_body]
pub fn unix_now() -> i64 {
    chrono::Utc::now().timestamp()
}

/// `chrono::Utc::now` as `DateTime::timestamp_millis`: the current time in
/// milliseconds since the Unix epoch, read from the system clock; nothing is
/// promised of it.
#[verifier::external_body]
pub fn unix_millis() -> i64 {
    chrono::Utc::now().timestamp_millis()
}

/// `Duration::from_millis`: the duration of `ms` milliseconds.
#[verifier::external_body]
pub fn millis(ms: u64) -> (d: std::time::Duration)
    ensures
        d == duration_of_millis(ms),
{
    std::time::Duration::from_millis(ms)
}

/// `Duration::from_secs`: the duration of `secs` seconds.
#[verifier::external_body]
pub fn secs(n: u64) -> (d: std::time::Duration)
    ensures
        d == duration_of_secs(n),
{
    std::time::Duration::from_secs(n)
}

} // verus!
