//! The clock.

use crate::errors::{DatabaseError, ErrType, Fault};
use vstd::prelude::*;

verus! {

/// A reading of the system clock.
#[verifier::external_type_specification]
#[verifier::external_body]
pub struct ExSystemTime(std::time::SystemTime);

/// The answer that a reading of the clock is before another.
#[verifier::external_type_specification]
#[verifier::external_body]
pub struct ExSystemTimeError(std::time::SystemTimeError);

/// `std::time::SystemTime::now`. Nothing is said of the reading: it depends on the machine.
pub assume_specification[ std::time::SystemTime::now ]() -> std::time::SystemTime
;

/// How long after the Unix epoch a reading of the clock is; none, if it is before the epoch.
pub uninterp spec fn time_since_epoch(
    reading: std::time::SystemTime,
) -> Option<std::time::Duration>;

/// The whole seconds of a duration.
pub uninterp spec fn whole_seconds(duration: std::time::Duration) -> u64;

/// `std::time::SystemTime::duration_since`, from `std::time::UNIX_EPOCH` on: an error says that
/// the reading is before the epoch.
#[verifier::external_body]
fn since_epoch(reading: std::time::SystemTime) -> (res: Result<
    std::time::Duration,
    std::time::SystemTimeError,
>)
    ensures
        match res {
            Ok(duration) => time_since_epoch(reading) == Some(duration),
            Err(_) => time_since_epoch(reading) is None,
        },
{
    reading.duration_since(std::time::UNIX_EPOCH)
}

/// `std::time::Duration::as_secs`: the whole seconds of the duration.
pub assume_specification[ std::time::Duration::as_secs ](duration: &std::time::Duration) -> (res:
    u64)
    ensures
        res == whole_seconds(*duration),
;

/// The whole seconds from the Unix epoch to a reading of the clock.
pub fn seconds_at(reading: std::time::SystemTime) -> (res: Result<u64, DatabaseError>)
    ensures
        match time_since_epoch(reading) {
            Some(duration) => res == Ok::<u64, DatabaseError>(whole_seconds(duration)),
            None => res matches Err(e) && e.is_fault(Fault::ClockBeforeEpoch),
        },
{
    match since_epoch(reading) {
        Ok(duration) => Ok(duration.as_secs()),
        Err(_) => Err(DatabaseError::new(ErrType::Fatal(Fault::ClockBeforeEpoch))),
    }
}

} // verus!
