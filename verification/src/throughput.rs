//! Throughput accounting of a long-running sink: what passed since the
//! reporting window opened, and the report that closes a window.

use vstd::prelude::*;

verus! {

/// The sum of two counts, held at the largest value a `u64` can take.
pub open spec fn saturating_sum(total: u64, amount: nat) -> u64 {
    if total + amount <= u64::MAX {
        (total + amount) as u64
    } else {
        u64::MAX
    }
}

/// Counting one amount and then another is counting their sum.
pub proof fn lemma_saturating_sum_twice(total: u64, first: nat, second: nat)
    ensures
        saturating_sum(saturating_sum(total, first), second) == saturating_sum(
            total,
            first + second,
        ),
{
}

/// Time between two readings of a millisecond clock; zero where the clock
/// appears to have gone backwards.
pub open spec fn elapsed_between(start_ms: u64, now_ms: u64) -> u64 {
    if now_ms >= start_ms {
        (now_ms - start_ms) as u64
    } else {
        0
    }
}

/// What passed through a sink during one reporting window.
#[derive(Clone, Copy, Debug, PartialEq, Eq, Structural)]
pub struct ThroughputReport {
    /// Samples counted in the window.
    pub samples: u64,
    /// Bytes counted in the window.
    pub bytes: u64,
    /// Length of the window in milliseconds.
    pub elapsed_ms: u64,
}

impl ThroughputReport {
    /// Samples per second over the window, rounded down; undefined for a
    /// window of no length.
    pub open spec fn rate(&self) -> int {
        self.samples * 1000 / (self.elapsed_ms as int)
    }

    /// Samples per second over the window, rounded down. There is none for a
    /// window of no length, nor where the rate exceeds a `u64`.
    pub fn samples_per_second(&self) -> (rate: Option<u64>)
        ensures
            rate.is_some() <==> self.elapsed_ms > 0 && self.rate() <= u64::MAX,
            rate.is_some() ==> rate.unwrap() == self.rate(),
    {
        if self.elapsed_ms == 0 {
            return None;
        }
        let scaled: u128 = self.samples as u128 * 1000;
        let quotient: u128 = scaled / self.elapsed_ms as u128;
        if quotient <= u64::MAX as u128 {
            Some(quotient as u64)
        } else {
            None
        }
    }
}

/// Running totals of one sink since its window opened.
#[derive(Clone, Copy, Debug, PartialEq, Eq, Structural)]
pub struct ThroughputCounter {
    /// Bytes counted since the window opened.
    pub bytes: u64,
    /// Samples counted since the window opened.
    pub samples: u64,
    /// Clock reading, in milliseconds, at which the window opened.
    pub window_start_ms: u64,
}

impl ThroughputCounter {
    /// A counter whose window opens at `now_ms` with nothing counted.
    pub fn new(now_ms: u64) -> (counter: Self)
        ensures
            counter == (ThroughputCounter { bytes: 0, samples: 0, window_start_ms: now_ms }),
    {
        ThroughputCounter { bytes: 0, samples: 0, window_start_ms: now_ms }
    }

    /// Adds a chunk of `samples` samples, each two bytes wide; each total
    /// stops at the largest `u64`.
    pub fn record(&mut self, samples: usize)
        ensures
            final(self).samples == saturating_sum(old(self).samples, samples as nat),
            final(self).bytes == saturating_sum(old(self).bytes, 2 * samples as nat),
            final(self).window_start_ms == old(self).window_start_ms,
    {
        let samples: u64 = samples as u64;
        let bytes: u64 = if samples <= u64::MAX / 2 {
            2 * samples
        } else {
            u64::MAX
        };
        self.samples = if samples <= u64::MAX - self.samples {
            self.samples + samples
        } else {
            u64::MAX
        };
        self.bytes = if bytes <= u64::MAX - self.bytes {
            self.bytes + bytes
        } else {
            u64::MAX
        };
    }

    /// Whether more than `threshold` samples were counted in the window.
    pub fn is_due(&self, threshold: u64) -> (due: bool)
        ensures
            due == (self.samples > threshold),
    {
        self.samples > threshold
    }

    /// Closes the window at `now_ms`: returns what it counted and opens the
    /// next window, empty, at `now_ms`.
    pub fn report(&mut self, now_ms: u64) -> (report: ThroughputReport)
        ensures
            report.samples == old(self).samples,
            report.bytes == old(self).bytes,
            report.elapsed_ms == elapsed_between(old(self).window_start_ms, now_ms),
            *final(self) == (ThroughputCounter { bytes: 0, samples: 0, window_start_ms: now_ms }),
    {
        let elapsed_ms: u64 = if now_ms >= self.window_start_ms {
            now_ms - self.window_start_ms
        } else {
            0
        };
        let report = ThroughputReport { samples: self.samples, bytes: self.bytes, elapsed_ms };
        self.samples = 0;
        self.bytes = 0;
        self.window_start_ms = now_ms;
        report
    }
}

} // verus!
