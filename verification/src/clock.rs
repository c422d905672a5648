//! The time of day.

use vstd::prelude::*;

verus! {

/// A point in time of the system's clock.
#[verifier::external_type_specification]
#[verifier::external_body]
pub struct ExSystemTime(std::time::SystemTime);

/// Says that one point in time is before another.
#[verifier::external_type_specification]
#[verifier::external_body]
pub struct ExSystemTimeError(std::time::SystemTimeError);

/// `SystemTime::now` reads the clock. Nothing is known of what it shows.
pub assume_specification[ std::time::SystemTime::now ]() -> (r: std::time::SystemTime);

/// `SystemTime::duration_since` tells how far one point in time is after
/// another. Nothing is stated of the span, since nothing is known of the points.
pub assume_specification[ std::time::SystemTime::duration_since ](
    t: &std::time::SystemTime,
    earlier: std::time::SystemTime,
) -> (r: Result<core::time::Duration, std::time::SystemTimeError>);

/// `SystemTime::UNIX_EPOCH` is the start of the year 1970. A point in time has
/// no model, so nothing is stated of it.
#[verifier::external_body]
fn unix_epoch() -> (r: std::time::SystemTime) {
    std::time::SystemTime::UNIX_EPOCH
}

/// `Duration::as_secs` counts the whole seconds of a span. A span has no model,
/// so nothing is stated of the count.
pub assume_specification[ core::time::Duration::as_secs ](d: &core::time::Duration) -> (r: u64);

/// `Duration::subsec_millis` counts the milliseconds beyond the whole seconds,
/// fewer than a thousand.
pub assume_specification[ core::time::Duration::subsec_millis ](d: &core::time::Duration) -> (r:
    u32)
    ensures
        r < 1000,
;

/// What the clock shows as seconds and further milliseconds since the start of
/// 1970; nothing if it stands before that. The time itself is the system's.
fn since_epoch() -> (r: Option<(u64, u32)>)
    ensures
        r matches Some(span) ==> span.1 < 1000,
{
    match std::time::SystemTime::now().duration_since(unix_epoch()) {
        Ok(d) => Some((d.as_secs(), d.subsec_millis())),
        Err(_) => None,
    }
}

/// The whole seconds of a reading of the clock, none where there is no reading.
pub fn reading_secs(span: Option<(u64, u32)>) -> (r: u64)
    ensures
        r == (match span {
            Some(s) => s.0,
            None => 0,
        }),
{
    match span {
        Some((secs, _)) => secs,
        None => 0,
    }
}

/// Seconds since the start of 1970, none if the clock stands before it: the
/// `reading_secs` of what the clock shows. Nothing is known of the time.
pub fn epoch_secs() -> (r: u64) {
    reading_secs(since_epoch())
}

/// A span of whole seconds and further milliseconds, in milliseconds. A span
/// of more than some hundred million years wraps round.
pub fn whole_ms(secs: u64, sub_ms: u32) -> (r: i64)
    ensures
        secs * 1000 + sub_ms <= i64::MAX ==> r == secs * 1000 + sub_ms,
{
    let ms: u64 = secs.wrapping_mul(1000).wrapping_add(sub_ms as u64);
    #[verifier::truncate] (ms as i64)
}

/// The milliseconds of a reading of the clock, none where there is no reading.
pub fn reading_ms(span: Option<(u64, u32)>) -> (r: i64)
    ensures
        match span {
            Some(s) => s.0 * 1000 + s.1 <= i64::MAX ==> r == s.0 * 1000 + s.1,
            None => r == 0,
        },
{
    match span {
        Some((secs, sub_ms)) => whole_ms(secs, sub_ms),
        None => 0,
    }
}

/// Milliseconds since the start of 1970, none if the clock stands before it: the
/// `reading_ms` of what the clock shows. Nothing is known of the time.
pub fn epoch_ms() -> (r: i64) {
    reading_ms(since_epoch())
}

} // verus!
