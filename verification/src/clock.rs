//! The system clock, read through one trusted call.
use vstd::prelude::*;

verus! {

/// `SystemTime::elapsed` on `UNIX_EPOCH`: the nanoseconds since 1970, or
/// `None` when the clock reads earlier. The reading depends on the clock, so
/// nothing is promised of it.
#[verifier::external_body]
pub(crate) fn nanos_since_epoch() -> Option<u128> {
    match std::time::UNIX_EPOCH.elapsed() {
        Ok(d) => Some(d.as_nanos()),
        Err(_) => None,
    }
}

} // verus!
