//! The adaptive reporting window: a three-state machine driven by the sampled
//! ingestion rate.
use vstd::prelude::*;

verus! {

/// Above this rate (entries per second) reports come fast.
pub const FAST_ABOVE: usize = 2500;

/// Below this rate reports come slowly.
pub const SLOW_BELOW: usize = 600;

/// The reporting window.
#[derive(Clone, Copy, Debug, PartialEq, Eq, Structural)]
pub enum Window {
    /// Every 30 seconds.
    Fast,
    /// Every 60 seconds.
    Normal,
    /// Every 120 seconds.
    Slow,
}

impl Window {
    pub open spec fn spec_seconds(self) -> u64 {
        match self {
            Window::Fast => 30,
            Window::Normal => 60,
            Window::Slow => 120,
        }
    }

    /// The window's length in seconds.
    pub fn seconds(&self) -> (r: u64)
        ensures
            r == self.spec_seconds(),
    {
        match self {
            Window::Fast => 30,
            Window::Normal => 60,
            Window::Slow => 120,
        }
    }
}

/// The window after a sample of `rate` entries per second: fast above
/// `FAST_ABOVE`, slow below `SLOW_BELOW`, and unchanged in between.
pub open spec fn window_after(current: Window, rate: nat) -> Window {
    if rate > FAST_ABOVE {
        Window::Fast
    } else if rate < SLOW_BELOW {
        Window::Slow
    } else {
        current
    }
}

/// The transition of the reporting window on one sample.
pub fn next_window(current: Window, rate: usize) -> (r: Window)
    ensures
        r == window_after(current, rate as nat),
        rate > FAST_ABOVE ==> r == Window::Fast,
        rate < SLOW_BELOW ==> r == Window::Slow,
        SLOW_BELOW <= rate <= FAST_ABOVE ==> r == current,
{
    if rate > FAST_ABOVE {
        Window::Fast
    } else if rate < SLOW_BELOW {
        Window::Slow
    } else {
        current
    }
}

/// The reporting cadence and the highest rate seen so far.
pub struct AdaptiveScheduler {
    window: Window,
    peak_rate: usize,
}

/// The mathematical value of an `AdaptiveScheduler`.
pub struct SchedulerView {
    pub window: Window,
    pub peak_rate: nat,
}

impl View for AdaptiveScheduler {
    type V = SchedulerView;

    closed spec fn view(&self) -> SchedulerView {
        SchedulerView { window: self.window, peak_rate: self.peak_rate as nat }
    }
}

impl AdaptiveScheduler {
    /// Starts in the normal window with no peak.
    pub fn new() -> (r: AdaptiveScheduler)
        ensures
            r@.window == Window::Normal,
            r@.peak_rate == 0,
    {
        AdaptiveScheduler { window: Window::Normal, peak_rate: 0 }
    }

    /// The current window.
    pub fn window(&self) -> (r: Window)
        ensures
            r == self@.window,
    {
        self.window
    }

    /// The highest sampled rate so far.
    pub fn peak_rate(&self) -> (r: usize)
        ensures
            r == self@.peak_rate,
    {
        self.peak_rate
    }

    /// Takes one sampled rate: raises the peak to it if higher and moves the
    /// window. Returns whether the window changed, so the timer must be
    /// re-armed at the new period.
    pub fn tick(&mut self, rate: usize) -> (rearm: bool)
        ensures
            final(self)@.peak_rate == if rate > old(self)@.peak_rate {
                rate as nat
            } else {
                old(self)@.peak_rate
            },
            final(self)@.window == window_after(old(self)@.window, rate as nat),
            rearm == (final(self)@.window != old(self)@.window),
    {
        if rate > self.peak_rate {
            self.peak_rate = rate;
        }
        let next = next_window(self.window, rate);
        let rearm = next != self.window;
        self.window = next;
        rearm
    }
}

} // verus!
