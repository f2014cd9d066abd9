//! The time of day, as text.

use vstd::prelude::*;

verus! {

/// The time that stands for a clock that gives none: the start of 1970.
pub const EPOCH: &'static str = "1970-01-01T00:00:00+00:00";

/// The last second of the year 9999, counted from the start of 1970. Up to
/// it a time is written with a year of four digits, so that later times
/// have greater bytes.
pub const LAST_SECOND: u64 = 253_402_300_799;

/// Calls `SystemTime::now` and `SystemTime::duration_since` of the standard
/// library: the whole seconds and the nanoseconds since the start of 1970,
/// or nothing where the machine's clock stands before it. The time is
/// whatever the clock gives, so nothing is promised of the numbers.
#[verifier::external_body]
pub(crate) fn since_epoch() -> (t: Option<(u64, u32)>) {
    match std::time::SystemTime::now().duration_since(std::time::UNIX_EPOCH) {
        Ok(d) => Some((d.as_secs(), d.subsec_nanos())),
        Err(_) => None,
    }
}

/// Calls `DateTime::from_timestamp` of the `chrono` crate and writes the
/// result with `DateTime::to_rfc3339`; nothing where `from_timestamp` gives
/// no time. Neither call fails otherwise. Nothing is promised of the text.
#[verifier::external_body]
pub(crate) fn rfc3339_of(secs: i64, nanos: u32) -> (s: Option<String>) {
    match chrono::DateTime::from_timestamp(secs, nanos) {
        Some(t) => Some(t.to_rfc3339()),
        None => None,
    }
}

/// The present time as text. A clock that gives no time, or one beyond the
/// year 9999, counts as standing at the start of 1970.
pub(crate) fn current_time() -> (s: String) {
    match since_epoch() {
        Some((secs, nanos)) => {
            if secs <= LAST_SECOND {
                match rfc3339_of(secs as i64, nanos) {
                    Some(s) => s,
                    None => String::from_str(EPOCH),
                }
            } else {
                String::from_str(EPOCH)
            }
        },
        None => String::from_str(EPOCH),
    }
}

} // verus!
