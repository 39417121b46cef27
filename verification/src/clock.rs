//! The wall clock.
use vstd::prelude::*;

verus! {

/// Reads the clock: `std::time::SystemTime::now`, as the whole seconds since the Unix
/// epoch; nothing where the clock stands before the epoch. Nothing is claimed of
/// the value, which differs from call to call.
#[verifier::external_body]
fn unix_seconds() -> (r: Option<u64>) {
    match std::time::SystemTime::now().duration_since(std::time::UNIX_EPOCH) {
        Ok(d) => Some(d.as_secs()),
        Err(_) => None,
    }
}

/// What a reading of the clock counts as: a clock before the epoch reads zero.
pub fn seconds_of(reading: Option<u64>) -> (r: u64)
    ensures
        r == reading.unwrap_or(0),
{
    match reading {
        Some(s) => s,
        None => 0,
    }
}

/// The seconds since the Unix epoch, zero where the clock stands before it.
pub fn now_secs() -> u64 {
    seconds_of(unix_seconds())
}

} // verus!
