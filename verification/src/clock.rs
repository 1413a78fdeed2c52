//! The wall clock.
use vstd::prelude::*;

verus! {

/// `std::time::SystemTime`, opaque here.
#[verifier::external_type_specification]
#[verifier::external_body]
pub struct ExSystemTime(std::time::SystemTime);

/// `SystemTime::now`: the present. Nothing is claimed of it.
pub assume_specification[ std::time::SystemTime::now ]() -> std::time::SystemTime;

/// The nanoseconds of a second.
pub const NANOS_PER_SEC: u32 = 1_000_000_000;

/// The nanoseconds of an elapsed time, given as whole seconds and the nanoseconds
/// beyond them; zero where nothing has elapsed.
pub open spec fn nanos_in(elapsed: Option<(u64, u32)>) -> int {
    match elapsed {
        Some((secs, nanos)) => secs * NANOS_PER_SEC + nanos,
        None => 0,
    }
}

/// The whole seconds of an elapsed time; zero where nothing has elapsed.
pub open spec fn secs_in(elapsed: Option<(u64, u32)>) -> int {
    match elapsed {
        Some((secs, _)) => secs as int,
        None => 0,
    }
}

/// The nanoseconds of an elapsed time.
pub fn nanos_or_zero(elapsed: Option<(u64, u32)>) -> (r: u128)
    ensures
        r == nanos_in(elapsed),
{
    match elapsed {
        Some((secs, nanos)) => secs as u128 * NANOS_PER_SEC as u128 + nanos as u128,
        None => 0,
    }
}

/// The whole seconds of an elapsed time.
pub fn secs_or_zero(elapsed: Option<(u64, u32)>) -> (r: u64)
    ensures
        r == secs_in(elapsed),
{
    match elapsed {
        Some((secs, _)) => secs,
        None => 0,
    }
}

/// `SystemTime::duration_since` of the Unix epoch, as its whole seconds and the
/// nanoseconds beyond them, which are less than a second; `None` for a time before the
/// epoch. How long it is, the clock decides, and nothing is claimed of that.
#[verifier::external_body]
fn since_epoch(t: std::time::SystemTime) -> (r: Option<(u64, u32)>)
    ensures
        r matches Some((_, nanos)) ==> nanos < NANOS_PER_SEC,
{
    match t.duration_since(std::time::UNIX_EPOCH) {
        Ok(d) => Some((d.as_secs(), d.subsec_nanos())),
        Err(_) => None,
    }
}

/// Nanoseconds since the Unix epoch, zero before it. The clock decides how many; it
/// counts seconds in 64 bits.
pub(crate) fn unix_nanos() -> (r: u128)
    ensures
        r <= nanos_in(Some((u64::MAX, (NANOS_PER_SEC - 1) as u32))),
{
    nanos_or_zero(since_epoch(std::time::SystemTime::now()))
}

/// Seconds since the Unix epoch, zero before it. The clock decides how many, so that
/// nothing is claimed of the number.
pub(crate) fn unix_secs() -> u64 {
    secs_or_zero(since_epoch(std::time::SystemTime::now()))
}

/// A time has a billion nanoseconds to the second and those beyond its whole seconds; where
/// nothing has elapsed it has none.
pub proof fn law_elapsed_time(secs: u64, nanos: u32)
    ensures
        nanos_in(Some((secs, nanos))) == secs * 1_000_000_000 + nanos,
        secs_in(Some((secs, nanos))) == secs,
        nanos_in(None) == 0,
        secs_in(None) == 0,
{
}

}
