//! I/O throttling for the defrag engine: after every `bytes_budget` bytes
//! moved, the engine pauses for `sleep_ms` milliseconds so other
//! processes keep a responsive disk.
//!
//! The throttle decides; the caller sleeps. [`IoThrottle::record_bytes`]
//! returns `true` when a pause is due.

use vstd::prelude::*;

verus! {

/// Tracks bytes moved and decides when the engine should pause.
pub struct IoThrottle {
    bytes_since_sleep: u64,
    bytes_budget: u64,
    sleep_ms: u64,
    total_bytes_moved: u64,
    total_sleeps: u64,
}

impl IoThrottle {
    pub closed spec fn since_sleep(&self) -> u64 {
        self.bytes_since_sleep
    }

    pub closed spec fn budget(&self) -> u64 {
        self.bytes_budget
    }

    pub closed spec fn pause_ms(&self) -> u64 {
        self.sleep_ms
    }

    pub closed spec fn moved(&self) -> u64 {
        self.total_bytes_moved
    }

    pub closed spec fn sleeps(&self) -> u64 {
        self.total_sleeps
    }

    /// A throttle that pauses for `sleep_ms` after every `bytes_budget`
    /// bytes.
    pub fn new(bytes_budget: u64, sleep_ms: u64) -> (r: IoThrottle)
        ensures
            r.since_sleep() == 0,
            r.budget() == bytes_budget,
            r.pause_ms() == sleep_ms,
            r.moved() == 0,
            r.sleeps() == 0,
    {
        IoThrottle { bytes_since_sleep: 0, bytes_budget, sleep_ms, total_bytes_moved: 0, total_sleeps: 0 }
    }

    /// Records `bytes` of completed I/O. When the bytes since the last
    /// pause reach the budget, the counter restarts at zero, a pause is
    /// counted, and `true` tells the caller to sleep for
    /// [`IoThrottle::sleep_duration_ms`]. The running totals wrap around.
    pub fn record_bytes(&mut self, bytes: u64) -> (pause: bool)
        requires
            old(self).since_sleep() + bytes <= u64::MAX,
        ensures
            pause == (old(self).since_sleep() + bytes >= old(self).budget()),
            final(self).since_sleep() == (if pause { 0 } else { (old(self).since_sleep() + bytes) as u64 }),
            final(self).moved() == (old(self).moved() + bytes) % 18446744073709551616,
            final(self).sleeps() == (if pause { (old(self).sleeps() + 1) % 18446744073709551616 } else { old(self).sleeps() as int }),
            final(self).budget() == old(self).budget(),
            final(self).pause_ms() == old(self).pause_ms(),
    {
        self.total_bytes_moved = self.total_bytes_moved.wrapping_add(bytes);
        let new = self.bytes_since_sleep + bytes;
        if new >= self.bytes_budget {
            self.bytes_since_sleep = 0;
            self.total_sleeps = self.total_sleeps.wrapping_add(1);
            true
        } else {
            self.bytes_since_sleep = new;
            false
        }
    }

    /// How long each pause lasts, in milliseconds.
    pub fn sleep_duration_ms(&self) -> (r: u64)
        ensures
            r == self.pause_ms(),
    {
        self.sleep_ms
    }

    /// Total bytes recorded since the throttle was created.
    pub fn total_bytes_moved(&self) -> (r: u64)
        ensures
            r == self.moved(),
    {
        self.total_bytes_moved
    }

    /// Number of pauses so far.
    /// Bytes recorded since the last pause.
    pub fn pending_bytes(&self) -> (r: u64)
        ensures
            r == self.since_sleep(),
    {
        self.bytes_since_sleep
    }

    pub fn total_sleeps(&self) -> (r: u64)
        ensures
            r == self.sleeps(),
    {
        self.total_sleeps
    }

    /// Resets all counters.
    pub fn reset(&mut self)
        ensures
            final(self).since_sleep() == 0,
            final(self).moved() == 0,
            final(self).sleeps() == 0,
            final(self).budget() == old(self).budget(),
            final(self).pause_ms() == old(self).pause_ms(),
    {
        self.bytes_since_sleep = 0;
        self.total_bytes_moved = 0;
        self.total_sleeps = 0;
    }
}

} // verus!
