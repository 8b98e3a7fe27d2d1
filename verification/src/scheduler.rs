//! A single shared interval timer deciding when unattended accounts are
//! refreshed. Instants are seconds since the Unix epoch.

use vstd::prelude::*;
use crate::clock::now_epoch_seconds;

verus! {

pub struct BatchRefreshScheduler {
    pub interval_secs: i64,
    pub last_run: Option<i64>,
}

pub ghost struct BatchRefreshSchedulerView {
    pub interval_secs: int,
    pub last_run: Option<int>,
}

impl View for BatchRefreshScheduler {
    type V = BatchRefreshSchedulerView;

    open spec fn view(&self) -> BatchRefreshSchedulerView {
        BatchRefreshSchedulerView {
            interval_secs: self.interval_secs as int,
            last_run: match self.last_run {
                Some(t) => Some(t as int),
                None => None,
            },
        }
    }
}

/// The scheduler is due: it has never fired, or at least one interval has
/// elapsed since it last fired.
pub open spec fn due_at(s: BatchRefreshSchedulerView, now: int) -> bool {
    match s.last_run {
        None => true,
        Some(t) => now - t >= s.interval_secs,
    }
}

impl BatchRefreshScheduler {
    pub fn new(interval_secs: i64) -> (r: BatchRefreshScheduler)
        requires
            interval_secs >= 0,
        ensures
            r@.interval_secs == interval_secs,
            r@.last_run is None,
    {
        BatchRefreshScheduler { interval_secs, last_run: None }
    }

    /// Whether a batch refresh is due at the given instant.
    pub fn should_trigger_at(&self, now: i64) -> (r: bool)
        ensures
            r == due_at(self@, now as int),
    {
        match self.last_run {
            None => true,
            Some(t) => (now as i128) - (t as i128) >= (self.interval_secs as i128),
        }
    }

    /// Whether a batch refresh is due now, by the wall clock.
    pub fn should_trigger(&self) -> (r: bool)
        ensures
            self@.last_run is None ==> r,
    {
        let now = now_epoch_seconds();
        self.should_trigger_at(now)
    }

    /// Resets the window so that the next trigger is one interval after the
    /// given instant.
    pub fn mark_triggered_at(&mut self, now: i64)
        ensures
            final(self)@.interval_secs == old(self)@.interval_secs,
            final(self)@.last_run == Some(now as int),
    {
        self.last_run = Some(now);
    }

    /// Resets the window to the wall clock's current reading.
    pub fn mark_triggered(&mut self)
        ensures
            final(self)@.interval_secs == old(self)@.interval_secs,
            final(self)@.last_run is Some,
    {
        let now = now_epoch_seconds();
        self.mark_triggered_at(now);
    }
}

} // verus!
