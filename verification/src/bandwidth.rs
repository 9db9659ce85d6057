//! Per-window bandwidth budgets: a count cap for sparse updates and a byte cap
//! for dense snapshots, both refreshed when a rolling window elapses.

use vstd::prelude::*;

verus! {

#[derive(Clone, Debug)]
pub struct BandwidthBudgetConfig {
    pub sparse_per_window: u32,
    pub dense_bytes_per_window: usize,
    pub window_secs: u64,
}

impl BandwidthBudgetConfig {
    /// The stock budget: 12 sparse publishes and 256 KiB of dense bytes per
    /// 60-second window.
    pub fn default_config() -> (r: BandwidthBudgetConfig)
        ensures
            r.sparse_per_window == 12,
            r.dense_bytes_per_window == 262144,
            r.window_secs == 60,
    {
        BandwidthBudgetConfig { sparse_per_window: 12, dense_bytes_per_window: 262144, window_secs: 60 }
    }
}

impl Default for BandwidthBudgetConfig {
    /// The stock budget (see `default_config`).
    fn default() -> (r: BandwidthBudgetConfig)
        ensures
            r.sparse_per_window == 12,
            r.dense_bytes_per_window == 262144,
            r.window_secs == 60,
    {
        BandwidthBudgetConfig::default_config()
    }
}

/// Counters of what the current window has admitted so far.
#[derive(Clone, Debug)]
pub struct BandwidthBudget {
    pub config: BandwidthBudgetConfig,
    pub window_start_ms: u64,
    pub sparse_sent: u32,
    pub dense_sent: usize,
}

/// Whether a check at `now_ms` falls into a fresh window.
pub open spec fn spec_window_elapsed(b: BandwidthBudget, now_ms: u64) -> bool {
    now_ms >= b.window_start_ms && now_ms - b.window_start_ms >= b.config.window_secs * 1000
}

/// The budget after the rolling-window check at `now_ms`: counters reset
/// atomically when the window has elapsed, and are untouched otherwise.
pub open spec fn spec_rotated(b: BandwidthBudget, now_ms: u64) -> BandwidthBudget {
    if spec_window_elapsed(b, now_ms) {
        BandwidthBudget { window_start_ms: now_ms, sparse_sent: 0, dense_sent: 0, ..b }
    } else {
        b
    }
}

impl BandwidthBudget {
    /// Within any one window at most `sparse_per_window` sparse publishes and
    /// at most `dense_bytes_per_window` dense bytes are admitted: the counters
    /// never pass the caps, and only a window roll resets them.
    pub open spec fn wf(&self) -> bool {
        &&& self.sparse_sent <= self.config.sparse_per_window
        &&& self.dense_sent <= self.config.dense_bytes_per_window
    }

    pub fn new(config: BandwidthBudgetConfig, now_ms: u64) -> (r: BandwidthBudget)
        ensures
            r.config == config,
            r.window_start_ms == now_ms,
            r.sparse_sent == 0,
            r.dense_sent == 0,
            r.wf(),
    {
        BandwidthBudget { config, window_start_ms: now_ms, sparse_sent: 0, dense_sent: 0 }
    }

    /// Rolls the window over when `window_secs` have elapsed since its start.
    pub fn rotate(&mut self, now_ms: u64)
        ensures
            *final(self) == spec_rotated(*old(self), now_ms),
            old(self).wf() ==> final(self).wf(),
    {
        let elapsed = match self.config.window_secs.checked_mul(1000) {
            Some(w) => now_ms >= self.window_start_ms && now_ms - self.window_start_ms >= w,
            None => false,
        };
        if elapsed {
            self.window_start_ms = now_ms;
            self.sparse_sent = 0;
            self.dense_sent = 0;
        }
    }

    /// Admits one sparse publish if the current window still has room, and
    /// counts it; denies it otherwise.
    pub fn allow_sparse(&mut self, now_ms: u64) -> (r: bool)
        requires
            old(self).wf(),
        ensures
            final(self).wf(),
            r == (spec_rotated(*old(self), now_ms).sparse_sent
                < old(self).config.sparse_per_window),
            final(self).config == old(self).config,
            final(self).sparse_sent as int == spec_rotated(*old(self), now_ms).sparse_sent + (if r {
                1int
            } else {
                0int
            }),
            final(self).dense_sent == spec_rotated(*old(self), now_ms).dense_sent,
            final(self).window_start_ms == spec_rotated(*old(self), now_ms).window_start_ms,
    {
        self.rotate(now_ms);
        if self.sparse_sent < self.config.sparse_per_window {
            self.sparse_sent = self.sparse_sent + 1;
            true
        } else {
            false
        }
    }

    /// Admits a dense publish of `bytes` bytes if it fits into what is left of
    /// the window's byte budget, and charges it; denies it otherwise.
    pub fn allow_dense(&mut self, now_ms: u64, bytes: usize) -> (r: bool)
        requires
            old(self).wf(),
        ensures
            final(self).wf(),
            r == (spec_rotated(*old(self), now_ms).dense_sent + bytes
                <= old(self).config.dense_bytes_per_window),
            final(self).config == old(self).config,
            final(self).dense_sent as int == spec_rotated(*old(self), now_ms).dense_sent + (if r {
                bytes as int
            } else {
                0int
            }),
            final(self).sparse_sent == spec_rotated(*old(self), now_ms).sparse_sent,
            final(self).window_start_ms == spec_rotated(*old(self), now_ms).window_start_ms,
    {
        self.rotate(now_ms);
        if bytes <= self.config.dense_bytes_per_window && self.dense_sent
            <= self.config.dense_bytes_per_window - bytes {
            self.dense_sent = self.dense_sent + bytes;
            true
        } else {
            false
        }
    }
}

} // verus!
