//! One-shot countdown timers, in whole microseconds.

use crate::fixed::min_int;
use vstd::prelude::*;

verus! {

/// Microseconds in a millisecond.
pub const MICROS_PER_MILLI: u64 = 1000;

/// The model of a [`Timer`].
pub struct TimerModel {
    /// Time counted so far; never more than `duration`.
    pub elapsed: nat,
    /// Time after which the timer is finished.
    pub duration: nat,
    /// Whether a tick has carried `elapsed` up to `duration`.
    pub finished: bool,
}

impl TimerModel {
    /// A timer that has not run yet.
    pub open spec fn fresh(duration: nat) -> TimerModel {
        TimerModel { elapsed: 0, duration, finished: false }
    }

    /// The timer after `delta` more microseconds. A finished timer stays as it
    /// is; a running one stops at its duration.
    pub open spec fn ticked(self, delta: nat) -> TimerModel {
        if self.finished {
            self
        } else {
            TimerModel {
                elapsed: min_int((self.elapsed + delta) as int, self.duration as int) as nat,
                duration: self.duration,
                finished: self.elapsed + delta >= self.duration,
            }
        }
    }

    /// The time the timer still has to run.
    pub open spec fn remaining(self) -> nat {
        (self.duration - self.elapsed) as nat
    }

    /// What every timer satisfies.
    pub open spec fn wf(self) -> bool {
        self.elapsed <= self.duration && (self.finished ==> self.elapsed == self.duration)
    }
}

/// A timer that runs once: it counts elapsed time up to its duration and is
/// finished from then on.
#[derive(Clone, Copy, Debug)]
pub struct Timer {
    elapsed: u64,
    duration: u64,
    finished: bool,
}

impl View for Timer {
    type V = TimerModel;

    closed spec fn view(&self) -> TimerModel {
        TimerModel {
            elapsed: self.elapsed as nat,
            duration: self.duration as nat,
            finished: self.finished,
        }
    }
}

impl Timer {
    #[verifier::type_invariant]
    spec fn inv(self) -> bool {
        self@.wf()
    }

    /// A timer of the given duration that has not run yet.
    pub fn new(duration_micros: u64) -> (t: Timer)
        ensures
            t@ == TimerModel::fresh(duration_micros as nat),
    {
        Timer { elapsed: 0, duration: duration_micros, finished: false }
    }

    /// A timer of the given duration in milliseconds; durations too long to
    /// count in microseconds are cut to the longest that can be.
    pub fn from_millis(millis: u64) -> (t: Timer)
        ensures
            t@ == TimerModel::fresh(
                min_int(millis * MICROS_PER_MILLI, u64::MAX as int) as nat,
            ),
    {
        let duration = if millis > u64::MAX / MICROS_PER_MILLI {
            u64::MAX
        } else {
            millis * MICROS_PER_MILLI
        };
        Timer::new(duration)
    }

    /// Advances the timer by `delta` microseconds.
    pub fn tick(&mut self, delta: u64)
        ensures
            final(self)@ == old(self)@.ticked(delta as nat),
            final(self)@.wf(),
    {
        proof {
            use_type_invariant(&*self);
        }
        if self.finished {
            return ;
        }
        let left = self.duration - self.elapsed;
        if delta >= left {
            self.elapsed = self.duration;
            self.finished = true;
        } else {
            self.elapsed = self.elapsed + delta;
        }
    }

    /// Whether the timer has reached its duration.
    pub fn finished(&self) -> (b: bool)
        ensures
            b == self@.finished,
    {
        self.finished
    }

    /// The time counted so far, in microseconds.
    pub fn elapsed(&self) -> (v: u64)
        ensures
            v == self@.elapsed,
            self@.wf(),
    {
        proof {
            use_type_invariant(self);
        }
        self.elapsed
    }

    /// The timer's duration, in microseconds.
    pub fn duration(&self) -> (v: u64)
        ensures
            v == self@.duration,
    {
        self.duration
    }
}

/// A running timer is finished after a tick exactly when the tick is at least
/// as long as the time that remained, and no tick brings a finished timer
/// back.
pub proof fn lemma_timer_finishes(t: TimerModel, delta: nat)
    requires
        t.wf(),
    ensures
        t.ticked(delta).wf(),
        t.ticked(delta).finished <==> t.finished || delta >= t.remaining(),
{
}

} // verus!
