//! Wall-clock time in whole seconds.

use vstd::prelude::*;

verus! {

#[verifier::external_type_specification]
#[verifier::external_body]
pub struct ExSystemTime(std::time::SystemTime);

/// Calls `SystemTime::now`. The reading depends on the machine's clock, so
/// nothing is stated of it.
#[verifier::external_body]
fn system_now() -> std::time::SystemTime {
    std::time::SystemTime::now()
}

/// Calls `SystemTime::duration_since(UNIX_EPOCH)` on `t`: the time elapsed
/// since the epoch, or `None` when `t` is before it. The result is
/// determined by `t`, a clock reading that is opaque here, so nothing is
/// stated of it.
#[verifier::external_body]
fn elapsed_since_epoch(t: &std::time::SystemTime) -> Option<std::time::Duration> {
    match t.duration_since(std::time::UNIX_EPOCH) {
        Ok(elapsed) => Some(elapsed),
        Err(_) => None,
    }
}

/// Calls `Duration::as_secs`: the whole seconds of `d`. A `Duration` is
/// opaque here, so nothing is stated of the result.
#[verifier::external_body]
fn whole_seconds(d: &std::time::Duration) -> u64 {
    d.as_secs()
}

/// Current Unix time in seconds, or 0 when the clock reads before the epoch.
pub fn unix_timestamp_secs() -> u64 {
    let now = system_now();
    match elapsed_since_epoch(&now) {
        Some(elapsed) => whole_seconds(&elapsed),
        None => 0,
    }
}

} // verus!
