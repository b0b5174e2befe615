use vstd::prelude::*;
use std::time::{Duration, SystemTime, SystemTimeError};

verus! {

#[verifier::external_type_specification]
#[verifier::external_body]
pub struct ExSystemTime(std::time::SystemTime);

#[verifier::external_type_specification]
#[verifier::external_body]
pub struct ExSystemTimeError(std::time::SystemTimeError);

/// Relies on `SystemTime::now`: the system clock's current reading, of which
/// nothing is known in advance.
pub assume_specification[ std::time::SystemTime::now ]() -> SystemTime;

/// Relies on `SystemTime::duration_since`: the time elapsed since `earlier`,
/// or an error where `earlier` is later than the reading.
pub assume_specification[ std::time::SystemTime::duration_since ](
    this: &SystemTime,
    earlier: SystemTime,
) -> Result<Duration, SystemTimeError>;

/// Relies on `Duration::as_millis`: the whole milliseconds of a duration.
pub assume_specification[ std::time::Duration::as_millis ](this: &Duration) -> u128;

/// Relies on `std::time::UNIX_EPOCH`, the reading at 1970-01-01 00:00:00 UTC.
#[verifier::external_body]
fn unix_epoch() -> SystemTime {
    std::time::UNIX_EPOCH
}

/// Milliseconds since the Unix epoch by the system clock, or `None` where the
/// clock reads earlier than the epoch.
pub fn now_epoch() -> Option<u128> {
    let now = SystemTime::now();
    match now.duration_since(unix_epoch()) {
        Ok(elapsed) => Some(elapsed.as_millis()),
        Err(_) => None,
    }
}

} // verus!
