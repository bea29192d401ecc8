//! Wall-clock time in whole seconds since the Unix epoch.

use vstd::prelude::*;

verus! {

#[verifier::external_type_specification]
#[verifier::external_body]
pub struct ExSystemTime(std::time::SystemTime);

/// The current system time (`SystemTime::now`). Nothing is stated of the
/// value: it depends on the machine's clock.
#[verifier::external_body]
fn system_now() -> std::time::SystemTime {
    std::time::SystemTime::now()
}

/// Whole seconds from the Unix epoch to `t` (`SystemTime::duration_since`
/// with `UNIX_EPOCH`, then `Duration::as_secs`), or `None` when `t` lies
/// before the epoch. Nothing is stated of the value: `SystemTime` is
/// opaque here.
#[verifier::external_body]
fn secs_since_epoch(t: &std::time::SystemTime) -> Option<u64> {
    t.duration_since(std::time::UNIX_EPOCH).ok().map(|d| d.as_secs())
}

/// Seconds since the Unix epoch, 0 when the clock reads earlier than it.
pub fn unix_now() -> i64 {
    let t = system_now();
    match secs_since_epoch(&t) {
        Some(s) => s as i64,
        None => 0,
    }
}

} // verus!
