//! The pace of the watch: when it goes on, and how long it rests between two rounds.
use crate::clock::Moment;
use crate::engine::{Engine, Event};
use crate::models::views;
use crate::round::{
    calendar_allows, earliest, earliest_is_least, round, wait_until_due, Answers, EngineView,
    Progress,
};
use vstd::prelude::*;

verus! {

/// An engine that makes its rounds at most an interval apart, in nanoseconds.
pub struct Runner {
    engine: Engine,
    interval: u128,
}

/// What a runner holds.
#[verifier::ext_equal]
pub ghost struct RunnerView {
    pub engine: EngineView,
    pub interval: int,
}

impl View for Runner {
    type V = RunnerView;

    closed spec fn view(&self) -> RunnerView {
        RunnerView { engine: self.engine@, interval: self.interval as int }
    }
}

/// How long to rest after a round: until something waits no longer, but no longer than the
/// interval.
pub open spec fn rest_after(runner: RunnerView, now: Moment) -> int {
    match wait_until_due(runner.engine, now) {
        Some(remaining) => if remaining < runner.interval {
            remaining
        } else {
            runner.interval
        },
        None => runner.interval,
    }
}

impl Runner {
    /// What waits belongs to courses that the engine watches.
    pub closed spec fn wf(&self) -> bool {
        self.engine.wf()
    }

    /// A round can be made at this time.
    pub open spec fn can_tick(&self, now: Moment) -> bool {
        self@.engine.running ==> self@.engine.tick_no < u64::MAX && calendar_allows(
            self@.engine,
            now,
        )
    }

    /// A runner for an engine.
    pub fn new(engine: Engine, interval: u128) -> (r: Self)
        requires
            engine.wf(),
        ensures
            r.wf(),
            r@ == (RunnerView { engine: engine@, interval: interval as int }),
    {
        Runner { engine, interval }
    }

    /// Whether another round is made, where the runner was told to stop or was not: only while
    /// the engine runs.
    pub fn goes_on(&self, told_to_stop: bool) -> (r: bool)
        ensures
            r == (self@.engine.running && !told_to_stop),
    {
        !told_to_stop && self.engine.running()
    }

    /// Whether a round can be made at this time.
    pub fn ready(&self, now: Moment) -> (r: bool)
        ensures
            r == self.can_tick(now),
    {
        self.engine.ready(now)
    }

    /// Makes one round, and reports on it.
    pub fn tick(&mut self, now: Moment) -> (r: Vec<Event>)
        requires
            old(self).wf(),
            old(self).can_tick(now),
        ensures
            final(self).wf(),
            final(self)@.interval == old(self)@.interval,
            exists|answers: Answers|
                (Progress { engine: final(self)@.engine, events: views(r@) }) == #[trigger] round(
                    old(self)@.engine,
                    now,
                    answers,
                ),
    {
        self.engine.tick(now)
    }

    /// How long to rest after a round, in nanoseconds.
    pub fn next_sleep(&self, now: Moment) -> (r: u128)
        requires
            self.wf(),
            now.in_range(),
        ensures
            r == rest_after(self@, now),
    {
        match self.engine.earliest_due(now) {
            Some(remaining) => if remaining < self.interval {
                remaining
            } else {
                self.interval
            },
            None => self.interval,
        }
    }
}

/// The runner rests no longer than its interval, and not at all where the time of something has
/// passed.
pub proof fn rest_is_short(runner: RunnerView, now: Moment)
    requires
        0 <= runner.interval,
    ensures
        0 <= rest_after(runner, now) <= runner.interval,
        earliest(runner.engine.pending + runner.engine.retries) matches Some(due) ==> due.since(
            now,
        ) <= 0 ==> rest_after(runner, now) == 0,
{
}

/// The runner does not sleep through the time of anything that waits: it rests no longer than
/// until the earliest time, and that is no later than the time of any other.
pub proof fn rest_ends_in_time(runner: RunnerView, now: Moment, i: int)
    requires
        0 <= i < (runner.engine.pending + runner.engine.retries).len(),
        0 <= runner.interval,
    ensures
        ({
            let queue = runner.engine.pending + runner.engine.retries;
            &&& earliest(queue) matches Some(due) && due.no_later(queue[i].due) && rest_after(
                runner,
                now,
            ) <= if due.since(now) < 0 {
                0
            } else {
                due.since(now)
            }
        }),
{
    earliest_is_least(runner.engine.pending + runner.engine.retries);
}

} // verus!
