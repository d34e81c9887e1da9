//! The watch schedule: repeated commit cycles, never two at once, on a fixed
//! period whose missed ticks are dropped rather than caught up.
use vstd::prelude::*;
use crate::config::{ConfigBuilder, ConfigOpts, Settings};

verus! {

/// What the watch loop does next.
#[derive(PartialEq, Eq, Structural, Clone, Copy, Debug)]
pub enum WatchAction {
    /// Run one commit cycle now, then report it finished.
    RunCycle,
    /// Wait until the given time, in milliseconds, then ask again.
    SleepUntil(u64),
    /// A cycle is still running: start nothing.
    Wait,
    /// The watch was cancelled and no cycle is running: stop.
    Stop,
}

/// The state of the watch loop. Times are in milliseconds.
pub struct WatchScheduler {
    pub interval: u64,
    pub deadline: u64,
    pub running: bool,
    pub cancelled: bool,
}

/// The configuration is missing a setting that the watch loop needs.
pub enum WatchError {
    MissingInterval,
}

/// The deadline that follows a tick that was due at `deadline` and fired at
/// `now`: the next multiple of the period after `now`, counted from
/// `deadline`; ticks missed meanwhile are skipped.
pub open spec fn following_deadline(deadline: u64, period: u64, now: u64) -> int
    recommends
        period > 0,
        deadline <= now,
{
    deadline + period * (1 + (now - deadline) / (period as int))
}

/// One step of the schedule at time `now`: the new state and the action.
pub open spec fn step(s: WatchScheduler, now: u64) -> (WatchScheduler, WatchAction) {
    if s.running {
        (s, WatchAction::Wait)
    } else if s.cancelled {
        (s, WatchAction::Stop)
    } else if s.interval == 0 {
        (WatchScheduler { running: true, ..s }, WatchAction::RunCycle)
    } else if now >= s.deadline {
        let next = following_deadline(s.deadline, s.interval, now);
        (WatchScheduler { running: true, deadline: if next > u64::MAX { u64::MAX } else { next as u64 }, ..s }, WatchAction::RunCycle)
    } else {
        (s, WatchAction::SleepUntil(s.deadline))
    }
}

impl WatchScheduler {
    /// A schedule started at `now`: its first tick is due at once.
    pub fn new(interval: u64, now: u64) -> (r: WatchScheduler)
        ensures
            r == (WatchScheduler { interval, deadline: now, running: false, cancelled: false }),
    {
        WatchScheduler { interval, deadline: now, running: false, cancelled: false }
    }

    /// Decides what to do at time `now`. With no interval, cycles run back
    /// to back; otherwise a cycle starts when its tick is due.
    pub fn poll(&mut self, now: u64) -> (r: WatchAction)
        ensures
            (*final(self), r) == step(*old(self), now),
    {
        if self.running {
            WatchAction::Wait
        } else if self.cancelled {
            WatchAction::Stop
        } else if self.interval == 0 {
            self.running = true;
            WatchAction::RunCycle
        } else if now >= self.deadline {
            let missed: u64 = (now - self.deadline) / self.interval;
            let late: u64 = (now - self.deadline) % self.interval;
            proof {
                let p = self.interval as int;
                let d = (now - self.deadline) as int;
                vstd::arithmetic::div_mod::lemma_fundamental_div_mod(d, p);
                assert(self.deadline + p * (1 + missed) == now - late + p) by (nonlinear_arith)
                    requires
                        d == p * missed + late,
                        d == now - self.deadline;
            }
            if now - late > u64::MAX - self.interval {
                self.deadline = u64::MAX;
            } else {
                self.deadline = now - late + self.interval;
            }
            self.running = true;
            WatchAction::RunCycle
        } else {
            WatchAction::SleepUntil(self.deadline)
        }
    }

    /// Cancels the watch: no cycle starts afterwards, and the next poll
    /// once no cycle runs, between cycles or during a wait, says stop.
    pub fn cancel(&mut self)
        ensures
            *final(self) == (WatchScheduler { cancelled: true, ..*old(self) }),
    {
        self.cancelled = true;
    }

    /// Records that the running cycle has ended.
    pub fn finish(&mut self)
        ensures
            *final(self) == (WatchScheduler { running: false, ..*old(self) }),
    {
        self.running = false;
    }
}

/// Cycles never overlap: while a cycle runs, the schedule starts no other,
/// whatever the time, and its state stays as it was.
pub proof fn lemma_no_overlapping_cycles(s: WatchScheduler, now: u64)
    requires
        s.running,
    ensures
        step(s, now) == (s, WatchAction::Wait),
{
}

/// Cancellation is observed: once cancelled, the schedule never starts a
/// cycle again, and stops as soon as no cycle runs.
pub proof fn lemma_cancel_stops(s: WatchScheduler, now: u64)
    requires
        s.cancelled,
    ensures
        step(s, now).1 != WatchAction::RunCycle,
        step(s, now).0 == s,
        !s.running ==> step(s, now).1 == WatchAction::Stop,
{
}

/// Every cycle started marks the schedule as running.
pub proof fn lemma_cycle_marks_running(s: WatchScheduler, now: u64)
    ensures
        step(s, now).1 == WatchAction::RunCycle ==> step(s, now).0.running,
{
}

/// Missed ticks are dropped: with a period, a cycle that ends at any time
/// before the next deadline (short of the clock's end) is followed by a wait,
/// never a burst, and the next deadline lies after the start.
pub proof fn lemma_no_catch_up(s: WatchScheduler, now: u64, later: u64)
    requires
        !s.running,
        !s.cancelled,
        s.interval > 0,
        s.deadline <= now,
        following_deadline(s.deadline, s.interval, now) <= u64::MAX,
        now <= later,
        later < following_deadline(s.deadline, s.interval, now),
    ensures
        now < step(s, now).0.deadline,
        step(WatchScheduler { running: false, ..step(s, now).0 }, later).1
            == WatchAction::SleepUntil(step(s, now).0.deadline),
{
    let p = s.interval as int;
    let d = (now - s.deadline) as int;
    vstd::arithmetic::div_mod::lemma_fundamental_div_mod(d, p);
    assert(0 <= d % p < p) by {
        vstd::arithmetic::div_mod::lemma_mod_bound(d, p);
    };
    assert(s.deadline + p * (1 + d / p) == s.deadline + p * (d / p) + p) by (nonlinear_arith);
}

/// The options of a watch run: prompts are off, since nobody answers them,
/// together with the interval in milliseconds.
pub fn watch_options(opts: ConfigOpts) -> (r: Result<(ConfigOpts, u64), WatchError>)
    ensures
        match r {
            Ok((forced, interval)) => {
                &&& opts.inventory.watch_interval == Some(interval)
                &&& forced.settings() == (Settings { force_update: Some(true), force_prune: Some(true), ..opts.settings() })
            },
            Err(_) => opts.inventory.watch_interval is None,
        },
{
    match opts.inventory.watch_interval {
        None => Err(WatchError::MissingInterval),
        Some(interval) => {
            let forced = ConfigBuilder::from_opts(opts)
                .inventory_force_update(Some(true))
                .inventory_force_prune(Some(true))
                .build();
            Ok((forced, interval))
        },
    }
}

} // verus!
