//! Wall-clock readings for timestamps and durations.
//!
//! The clock is part of the environment: nothing can be promised of the
//! values it returns, so every function whose behaviour depends on a
//! reading also exists in a form that takes the reading as an argument
//! and is verified for every value of it.

use vstd::prelude::*;

verus! {

/// Relies on std::time::SystemTime to read the wall clock, converted
/// to whole milliseconds since the Unix epoch. The value depends on
/// the environment, so nothing is promised of it. The body is total:
/// a clock set before the epoch reads as zero rather than panicking,
/// and the conversion itself cannot fail.
#[verifier::external_body]
pub(crate) fn now_millis() -> u64 {
    match std::time::SystemTime::now().duration_since(std::time::UNIX_EPOCH) {
        Ok(elapsed) => elapsed.as_millis() as u64,
        Err(_) => 0,
    }
}

/// The wall clock in whole seconds since the Unix epoch, derived from
/// the millisecond reading.
pub(crate) fn now_seconds() -> u64 {
    now_millis() / 1000
}

} // verus!
