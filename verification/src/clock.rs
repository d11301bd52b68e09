//! The wall clock, behind a trusted boundary: the one value the mutation and
//! history paths take from outside the store.

use vstd::prelude::*;

verus! {

/// Relies on `chrono::Utc::now` and `chrono::DateTime::timestamp_micros`: the
/// current wall-clock instant as microseconds since the Unix epoch. Nothing is
/// assumed of the value; callers must hold for every reading. `Utc::now`
/// panics only on a system clock set before the epoch.
#[verifier::external_body]
pub(crate) fn now_micros_raw() -> (t: i64) {
    chrono::Utc::now().timestamp_micros()
}

/// The current wall-clock reading as a non-negative microsecond count:
/// readings before the epoch are clamped to zero.
pub(crate) fn now_micros() -> (t: u64) {
    let raw = now_micros_raw();
    if raw < 0 {
        0
    } else {
        raw as u64
    }
}

} // verus!
