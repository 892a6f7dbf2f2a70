//! Timestamps in milliseconds.
use vstd::prelude::*;

verus! {

/// `SystemTime::elapsed` on the Unix epoch, in whole milliseconds (0 if the
/// clock reads earlier than the epoch). The value depends on when the call is
/// made: nothing is promised of it.
#[verifier::external_body]
pub(crate) fn timestamp_now() -> (r: u64) {
    match std::time::UNIX_EPOCH.elapsed() {
        Ok(d) => d.as_millis() as u64,
        Err(_) => 0,
    }
}

/// The milliseconds from `since` to `now`, or zero when `now` comes first.
pub open spec fn elapsed(now: u64, since: u64) -> u64 {
    if now >= since {
        (now - since) as u64
    } else {
        0
    }
}

/// The milliseconds from `since` to `now`, or zero when `now` comes first.
pub fn elapsed_ms(now: u64, since: u64) -> (r: u64)
    ensures
        r == elapsed(now, since),
{
    if now >= since {
        now - since
    } else {
        0
    }
}

} // verus!
