//! The time of day.
use vstd::prelude::*;

verus! {

/// `std::time::SystemTime`, which only this module reads.
#[verifier::external_type_specification]
#[verifier::external_body]
pub struct ExSystemTime(std::time::SystemTime);

/// `std::time::SystemTimeError`, which is not looked into.
#[verifier::external_type_specification]
#[verifier::external_body]
pub struct ExSystemTimeError(std::time::SystemTimeError);

/// `std::time::SystemTime::now`: the time that the machine tells, of which nothing is known.
pub assume_specification[ std::time::SystemTime::now ]() -> std::time::SystemTime
;

/// `std::time::SystemTime::duration_since`: the time that lies between, where the other is not the
/// later one. Nothing is claimed of it.
pub assume_specification[ std::time::SystemTime::duration_since ](
    this: &std::time::SystemTime,
    earlier: std::time::SystemTime,
) -> Result<std::time::Duration, std::time::SystemTimeError>
;

/// `std::time::Duration::as_millis`: the whole milliseconds. Nothing is claimed of them.
pub assume_specification[ std::time::Duration::as_millis ](this: &std::time::Duration) -> u128
;

/// `std::time::UNIX_EPOCH`, the beginning of 1970.
#[verifier::external_body]
fn epoch() -> std::time::SystemTime {
    std::time::UNIX_EPOCH
}

/// The milliseconds since 1970 that a clock tells, 0 where it tells a time before; of a number that
/// is too large, the low bits.
pub open spec fn told_millis(elapsed: Option<u128>) -> i64 {
    match elapsed {
        Some(ms) => #[verifier::truncate] (ms as i64),
        None => 0,
    }
}

/// A number of milliseconds that fits is told as it is; a time before 1970 is told as 1970.
pub proof fn law_fitting_time_is_told_as_it_is(ms: u128)
    ensures
        ms <= i64::MAX ==> told_millis(Some(ms)) == ms,
        told_millis(None) == 0,
{
}

/// The milliseconds since 1970 that a clock tells, 0 where it tells a time before; of a number that
/// is too large, the low bits.
pub fn clock_millis(elapsed: Option<u128>) -> (r: i64)
    ensures
        r == told_millis(elapsed),
        match elapsed {
            Some(ms) => r == #[verifier::truncate] (ms as i64),
            None => r == 0,
        },
        elapsed matches Some(ms) ==> (ms <= i64::MAX ==> r == ms),
{
    match elapsed {
        Some(ms) => #[verifier::truncate] (ms as i64),
        None => 0,
    }
}

/// The milliseconds since 1970, by the clock of the machine. A clock may tell any time.
pub fn now_ms_std() -> (r: i64)
{
    let now = std::time::SystemTime::now();
    match now.duration_since(epoch()) {
        Ok(elapsed) => clock_millis(Some(elapsed.as_millis())),
        Err(_) => clock_millis(None),
    }
}

/// The milliseconds since 1970, by the clock of the machine. A clock may tell any time.
pub fn now_ms() -> (r: i64)
{
    now_ms_std()
}

} // verus!
