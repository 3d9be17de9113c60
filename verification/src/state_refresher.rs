//! The schedule of refreshes: one at a time, on the ticks of a fixed
//! interval.

use std::time::Duration;
use vstd::prelude::*;

verus! {

/// Refreshes the data at a fixed interval.
#[derive(Debug)]
pub struct StateRefresher {
    pub interval: Duration,
    /// Whether the first tick, which comes at once, starts a refresh.
    pub immediate: bool,
}

/// Where the schedule stands.
#[derive(Clone, Copy, Debug, PartialEq, Eq, Structural)]
pub enum RefresherState {
    /// Waiting for a tick; `first_tick` says whether none has come yet.
    Waiting { first_tick: bool },
    /// A refresh is running.
    Refreshing,
}

/// What happened.
#[derive(Clone, Copy, Debug, PartialEq, Eq, Structural)]
pub enum RefresherEvent {
    /// The interval ticked.
    Tick,
    /// The refresh that was running has ended, well or badly.
    Refreshed,
}

/// What the caller is to do next.
#[derive(Clone, Copy, Debug, PartialEq, Eq, Structural)]
pub enum RefresherAction {
    /// Start a refresh and report when it has ended.
    Refresh,
    /// Wait for the next tick.
    AwaitTick,
    /// Wait for the running refresh to end.
    AwaitRefresh,
}

impl StateRefresher {
    pub fn new(interval: Duration, immediate: bool) -> (refresher: Self)
        ensures
            refresher.interval == interval,
            refresher.immediate == immediate,
    {
        Self { interval, immediate }
    }

    /// The state after `event` in `state`, and what is to be done then.
    pub open spec fn next(&self, state: RefresherState, event: RefresherEvent) -> (
        RefresherState,
        RefresherAction,
    ) {
        match (state, event) {
            (RefresherState::Waiting { first_tick }, RefresherEvent::Tick) => {
                if first_tick && !self.immediate {
                    (RefresherState::Waiting { first_tick: false }, RefresherAction::AwaitTick)
                } else {
                    (RefresherState::Refreshing, RefresherAction::Refresh)
                }
            },
            (RefresherState::Waiting { first_tick }, RefresherEvent::Refreshed) => (
                state,
                RefresherAction::AwaitTick,
            ),
            (RefresherState::Refreshing, RefresherEvent::Refreshed) => (
                RefresherState::Waiting { first_tick: false },
                RefresherAction::AwaitTick,
            ),
            (RefresherState::Refreshing, RefresherEvent::Tick) => (
                RefresherState::Refreshing,
                RefresherAction::AwaitRefresh,
            ),
        }
    }

    /// Starts the schedule: no tick has come yet, and the caller waits
    /// for the first.
    pub fn start(&self) -> (state: RefresherState)
        ensures
            state == (RefresherState::Waiting { first_tick: true }),
    {
        RefresherState::Waiting { first_tick: true }
    }

    /// The next state and what to do next, once `event` has happened in
    /// `state`. A tick starts a refresh unless one is running, or unless
    /// it is the first tick of a schedule that is not immediate.
    pub fn step(&self, state: RefresherState, event: RefresherEvent) -> (decision: (
        RefresherState,
        RefresherAction,
    ))
        ensures
            decision == self.next(state, event),
    {
        match (state, event) {
            (RefresherState::Waiting { first_tick }, RefresherEvent::Tick) => {
                if first_tick && !self.immediate {
                    (RefresherState::Waiting { first_tick: false }, RefresherAction::AwaitTick)
                } else {
                    (RefresherState::Refreshing, RefresherAction::Refresh)
                }
            },
            (RefresherState::Waiting { first_tick }, RefresherEvent::Refreshed) => (
                state,
                RefresherAction::AwaitTick,
            ),
            (RefresherState::Refreshing, RefresherEvent::Refreshed) => (
                RefresherState::Waiting { first_tick: false },
                RefresherAction::AwaitTick,
            ),
            (RefresherState::Refreshing, RefresherEvent::Tick) => (
                RefresherState::Refreshing,
                RefresherAction::AwaitRefresh,
            ),
        }
    }

    /// The number of refreshes that are running after `events`, counted
    /// from the actions: each `Refresh` starts one, each `Refreshed`
    /// that finds one running ends it.
    pub open spec fn running(&self, events: Seq<RefresherEvent>) -> int
        decreases events.len(),
    {
        if events.len() == 0 {
            0
        } else {
            let before = self.state_after(events.drop_last());
            let started: int = if self.next(before, events.last()).1 is Refresh {
                1
            } else {
                0
            };
            let ended: int = if before is Refreshing && events.last() is Refreshed {
                1
            } else {
                0
            };
            self.running(events.drop_last()) + started - ended
        }
    }

    /// The state after each of `events` in turn, from the start.
    pub open spec fn state_after(&self, events: Seq<RefresherEvent>) -> RefresherState
        decreases events.len(),
    {
        if events.len() == 0 {
            RefresherState::Waiting { first_tick: true }
        } else {
            self.next(self.state_after(events.drop_last()), events.last()).0
        }
    }

    /// Refreshes never overlap: whatever the ticks, at most one refresh
    /// is running, and one is running exactly in the state `Refreshing`.
    pub proof fn lemma_one_refresh_at_a_time(&self, events: Seq<RefresherEvent>)
        ensures
            self.running(events) == (if self.state_after(events) is Refreshing {
                1int
            } else {
                0int
            }),
        decreases events.len(),
    {
        if events.len() > 0 {
            self.lemma_one_refresh_at_a_time(events.drop_last());
        }
    }
}

} // verus!
