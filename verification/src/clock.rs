use vstd::prelude::*;

verus! {

/// Relies on chrono's `Utc::now` and `DateTime::timestamp`: the system
/// clock, as seconds since the Unix epoch. Nothing is promised of the
/// value; callers clamp it into the range they need and are verified for
/// every reading.
#[verifier::external_body]
pub(crate) fn now_timestamp() -> i64 {
    chrono::Utc::now().timestamp()
}

} // verus!
