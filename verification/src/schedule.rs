//! Pacing of the control loop.
//!
//! Every datagram is counted. A datagram that is a frame is always handed
//! on for smoothing, but the mapping and apply step runs only when the
//! update interval has passed since the last apply ended. Throughput is the
//! number of apply cycles over a window of at least one second, read out
//! when the window is over and then started afresh.
//!
//! The scheduler never reads a clock: the caller hands in the time of each
//! event, in nanoseconds of a monotonic clock of its own.

use crate::frame::{decode_frame, decoded, OrientationSample, FRAME_LEN};
use vstd::prelude::*;

verus! {

/// The update interval used when none is configured, in milliseconds.
pub const DEFAULT_UPDATE_INTERVAL_MS: u64 = 40;

/// Nanoseconds in a millisecond.
pub const NANOS_PER_MILLI: u64 = 1_000_000;

/// Least length of a throughput window, in nanoseconds.
pub const THROUGHPUT_WINDOW_NS: u64 = 1_000_000_000;

/// Apply cycles counted over a stretch of time. Their quotient, with the
/// time in seconds, is the throughput in cycles per second.
#[derive(Clone, Copy, Debug, PartialEq, Eq, Structural)]
pub struct Throughput {
    pub cycles: u32,
    pub elapsed_ns: u64,
}

/// What to do with a datagram.
#[derive(Clone, Copy, Debug, PartialEq, Eq)]
pub enum Decision {
    /// The datagram is no frame. Nothing downstream may change.
    Discard,
    /// Feed the sample to the smoothing filter and stop there.
    Smooth(OrientationSample),
    /// Feed the sample to the smoothing filter, then map and apply. A
    /// throughput reading comes with it when a window has just ended.
    Apply { sample: OrientationSample, throughput: Option<Throughput> },
}

/// The state of the loop driver.
#[derive(Clone, Copy, Debug, PartialEq, Eq, Structural)]
pub struct UpdateScheduler {
    /// Least time between two applies, in milliseconds.
    pub interval_ms: u64,
    /// When the last apply ended.
    pub last_apply_ns: u64,
    /// When the current throughput window began.
    pub window_start_ns: u64,
    /// Apply cycles in the current throughput window.
    pub cycles: u32,
    /// Datagrams received, frames or not.
    pub packets: u64,
}

/// The time from `since` to `now`, or zero if `now` is the earlier one.
pub open spec fn elapsed_ns(since: u64, now: u64) -> nat {
    if now >= since {
        (now - since) as nat
    } else {
        0
    }
}

impl UpdateScheduler {
    /// Whether the update interval has passed since the last apply.
    pub open spec fn gate_open(self, now: u64) -> bool {
        elapsed_ns(self.last_apply_ns, now) >= self.interval_ms * NANOS_PER_MILLI
    }

    /// Whether the current throughput window is over.
    pub open spec fn window_over(self, now: u64) -> bool {
        elapsed_ns(self.window_start_ns, now) >= THROUGHPUT_WINDOW_NS
    }

    /// The decision on a datagram that arrives at `now`.
    pub open spec fn decision(self, datagram: Seq<u8>, now: u64) -> Decision {
        match decoded(datagram) {
            None => Decision::Discard,
            Some(sample) => if !self.gate_open(now) {
                Decision::Smooth(sample)
            } else {
                Decision::Apply {
                    sample,
                    throughput: if self.window_over(now) {
                        Some(
                            Throughput {
                                cycles: (self.cycles + 1) as u32,
                                elapsed_ns: elapsed_ns(self.window_start_ns, now) as u64,
                            },
                        )
                    } else {
                        None
                    },
                }
            },
        }
    }

    /// The state after a datagram that arrives at `now`.
    pub open spec fn after(self, datagram: Seq<u8>, now: u64) -> UpdateScheduler {
        let counted = UpdateScheduler { packets: (self.packets + 1) as u64, ..self };
        if decoded(datagram) is None || !self.gate_open(now) {
            counted
        } else if self.window_over(now) {
            UpdateScheduler { cycles: 0, window_start_ns: now, ..counted }
        } else {
            UpdateScheduler { cycles: (self.cycles + 1) as u32, ..counted }
        }
    }

    /// Starts the loop driver at `now`. The first apply is due one update
    /// interval later.
    pub fn new(interval_ms: u64, now: u64) -> (scheduler: Self)
        ensures
            scheduler == (UpdateScheduler {
                interval_ms,
                last_apply_ns: now,
                window_start_ns: now,
                cycles: 0,
                packets: 0,
            }),
    {
        UpdateScheduler { interval_ms, last_apply_ns: now, window_start_ns: now, cycles: 0, packets: 0 }
    }

    /// How long a receive may block, in milliseconds: half the update
    /// interval, so that the loop wakes up even without traffic.
    pub fn receive_timeout_ms(&self) -> (timeout: u64)
        ensures
            timeout == self.interval_ms / 2,
    {
        self.interval_ms / 2
    }

    /// Tells whether the update interval has passed since the last apply.
    pub fn is_due(&self, now: u64) -> (due: bool)
        ensures
            due == self.gate_open(now),
    {
        let waited: u64 = if now >= self.last_apply_ns {
            now - self.last_apply_ns
        } else {
            0
        };
        assert(self.interval_ms * NANOS_PER_MILLI <= u128::MAX) by (nonlinear_arith)
            requires
                self.interval_ms <= u64::MAX,
                NANOS_PER_MILLI == 1_000_000,
        ;
        waited as u128 >= self.interval_ms as u128 * NANOS_PER_MILLI as u128
    }

    /// Takes in a datagram that arrived at `now` and decides what is done
    /// with it.
    pub fn on_datagram(&mut self, datagram: &[u8], now: u64) -> (decision: Decision)
        requires
            old(self).packets < u64::MAX,
            old(self).cycles < u32::MAX,
        ensures
            decision == old(self).decision(datagram@, now),
            *final(self) == old(self).after(datagram@, now),
            decision is Discard <==> datagram@.len() != FRAME_LEN,
            decision is Apply <==> datagram@.len() == FRAME_LEN && old(self).gate_open(now),
    {
        self.packets = self.packets + 1;
        let sample = match decode_frame(datagram) {
            None => {
                return Decision::Discard;
            },
            Some(sample) => sample,
        };
        if !self.is_due(now) {
            return Decision::Smooth(sample);
        }
        let in_window: u64 = if now >= self.window_start_ns {
            now - self.window_start_ns
        } else {
            0
        };
        let cycles: u32 = self.cycles + 1;
        if in_window >= THROUGHPUT_WINDOW_NS {
            self.cycles = 0;
            self.window_start_ns = now;
            Decision::Apply {
                sample,
                throughput: Some(Throughput { cycles, elapsed_ns: in_window }),
            }
        } else {
            self.cycles = cycles;
            Decision::Apply { sample, throughput: None }
        }
    }

    /// Notes that an apply ended at `now`. The next one is due one update
    /// interval later.
    pub fn applied(&mut self, now: u64)
        ensures
            *final(self) == (UpdateScheduler { last_apply_ns: now, ..*old(self) }),
    {
        self.last_apply_ns = now;
    }
}

} // verus!
