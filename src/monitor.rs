use vstd::prelude::*;

verus! {

/// The minimum spacing, in milliseconds, between two triggered comparisons.
pub const DEBOUNCE_INTERVAL_MS: u64 = 2000;

/// What the notification source delivered.
pub enum MonitorEvent {
    /// A change in the watched directory, at a monotonic time in milliseconds.
    Change { at_ms: u64 },
    /// A transient error of the notification source.
    WatchError,
    /// The notification source is gone for good.
    ChannelClosed,
}

/// What the loop does next.
#[derive(PartialEq, Eq, Structural, Clone, Copy, Debug)]
pub enum MonitorAction {
    /// Run a full compare cycle and report its result.
    Compare,
    /// Drop the event: the interval since the last comparison has not elapsed.
    Suppress,
    /// Log the watch error and keep waiting.
    ReportWatchError,
    /// Leave the loop.
    Stop,
}

/// The rate limiter of the monitor loop: drop-and-wait, not a trailing debounce.
pub struct Monitor {
    pub interval_ms: u64,
    /// When the last comparison was recorded, if any took place.
    pub last_comparison_ms: Option<u64>,
}

impl Monitor {
    /// At least `interval_ms` have passed since the last comparison, or none took place.
    pub open spec fn is_due(&self, now_ms: u64) -> bool {
        match self.last_comparison_ms {
            None => true,
            Some(t) => now_ms >= t && now_ms - t >= self.interval_ms,
        }
    }

    /// A monitor in its initial state, before any comparison.
    pub fn new(interval_ms: u64) -> (r: Monitor)
        ensures
            r.interval_ms == interval_ms,
            r.last_comparison_ms is None,
    {
        Monitor { interval_ms, last_comparison_ms: None }
    }

    /// Decides what to do with one event.
    pub fn step(&mut self, event: MonitorEvent) -> (a: MonitorAction)
        ensures
            final(self).interval_ms == old(self).interval_ms,
            match event {
                MonitorEvent::Change { at_ms } => if old(self).is_due(at_ms) {
                    a == MonitorAction::Compare && final(self).last_comparison_ms == Some(at_ms)
                } else {
                    a == MonitorAction::Suppress && *final(self) == *old(self)
                },
                MonitorEvent::WatchError => a == MonitorAction::ReportWatchError && *final(self)
                    == *old(self),
                MonitorEvent::ChannelClosed => a == MonitorAction::Stop && *final(self) == *old(
                    self,
                ),
            },
    {
        match event {
            MonitorEvent::Change { at_ms } => {
                let due = match self.last_comparison_ms {
                    None => true,
                    Some(t) => at_ms >= t && at_ms - t >= self.interval_ms,
                };
                if due {
                    self.last_comparison_ms = Some(at_ms);
                    MonitorAction::Compare
                } else {
                    MonitorAction::Suppress
                }
            },
            MonitorEvent::WatchError => MonitorAction::ReportWatchError,
            MonitorEvent::ChannelClosed => MonitorAction::Stop,
        }
    }

    /// Records when a comparison finished; the next one is spaced from then.
    pub fn record_comparison(&mut self, finished_ms: u64)
        ensures
            final(self).interval_ms == old(self).interval_ms,
            final(self).last_comparison_ms == Some(finished_ms),
    {
        self.last_comparison_ms = Some(finished_ms);
    }
}

} // verus!
