//! The wall clock, as the analysers and the crawler read it.

use vstd::prelude::*;

verus! {

/// Relies on `chrono::Local::now` and `DateTime::to_rfc3339`: the current
/// local time as an RFC 3339 timestamp. Nothing is promised of its value.
#[verifier::external_body]
pub fn now_rfc3339() -> (r: String) {
    chrono::Local::now().to_rfc3339()
}

/// Relies on `chrono::Utc::now` and `DateTime::timestamp_millis`: the
/// current time in milliseconds since the Unix epoch. Nothing is promised of
/// its value.
#[verifier::external_body]
pub fn now_millis() -> (r: i64) {
    chrono::Utc::now().timestamp_millis()
}

/// Milliseconds from `start` to `end`; zero when the clock went back.
pub fn millis_between(start: i64, end: i64) -> (r: u64)
    ensures
        end >= start ==> r == end - start,
        end < start ==> r == 0,
{
    if end >= start {
        let d: i128 = end as i128 - start as i128;
        d as u64
    } else {
        0
    }
}

} // verus!
