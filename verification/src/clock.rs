use vstd::prelude::*;

verus! {

/// Relies on `chrono::Utc::now` for the current wall-clock time as seconds
/// since the epoch. The value depends on the machine's clock, so nothing is
/// assumed about it; callers state what holds whatever value comes back.
#[verifier::external_body]
pub(crate) fn unix_now() -> i64 {
    chrono::Utc::now().timestamp()
}

} // verus!
