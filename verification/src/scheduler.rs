//! When the counts are written back: on every tick of a timer while the
//! process runs, and once more when it is told to stop.

use crate::db_adpater::{failed_keys, BackendError, DBManager, KVDBClient};
use crate::table::{entries_of, flushed_known, refused, TableModel};
use vstd::prelude::*;

verus! {

/// The seconds between two flushes.
pub const SYNC_INTERVAL_SECS: u64 = 900;

/// Whether the timer still runs.
#[derive(Clone, Copy, Debug, PartialEq, Eq)]
pub enum SchedulerState {
    /// The timer fires and each tick flushes.
    Running,
    /// The timer was cancelled. Nothing is flushed any more.
    Stopped,
}

/// What can happen to the scheduler.
#[derive(Clone, Copy, Debug, PartialEq, Eq)]
pub enum SchedulerEvent {
    /// The timer fired.
    TimerFired,
    /// The process was told to stop.
    ShutdownRequested,
}

/// What the owner of the timer has to do after an event.
#[derive(Clone, Copy, Debug, PartialEq, Eq)]
pub enum SchedulerAction {
    /// Write the counts back and keep the timer.
    Flush,
    /// Cancel the timer at once, then write the counts back a last time.
    CancelThenFlush,
    /// Nothing.
    Idle,
}

/// The state after `event` in `state`.
pub open spec fn next_state(state: SchedulerState, event: SchedulerEvent) -> SchedulerState {
    match (state, event) {
        (SchedulerState::Running, SchedulerEvent::TimerFired) => SchedulerState::Running,
        _ => SchedulerState::Stopped,
    }
}

/// What is to be done after `event` in `state`.
pub open spec fn action_for(state: SchedulerState, event: SchedulerEvent) -> SchedulerAction {
    match (state, event) {
        (SchedulerState::Running, SchedulerEvent::TimerFired) => SchedulerAction::Flush,
        (SchedulerState::Running, SchedulerEvent::ShutdownRequested) => SchedulerAction::CancelThenFlush,
        (SchedulerState::Stopped, _) => SchedulerAction::Idle,
    }
}

/// Whether `action` writes the counts back.
pub open spec fn flushes(action: SchedulerAction) -> bool {
    action != SchedulerAction::Idle
}

/// The request to stop finds a running scheduler, stops it, and has the
/// counts written back: afterwards the table holds every count that it
/// accepts.
pub proof fn lemma_shutdown_flushes(table: TableModel, counts: Map<Seq<char>, u64>, key: Seq<char>)
    requires
        counts.contains_key(key),
        table.accepts(counts[key]),
    ensures
        next_state(SchedulerState::Running, SchedulerEvent::ShutdownRequested)
            == SchedulerState::Stopped,
        flushes(action_for(SchedulerState::Running, SchedulerEvent::ShutdownRequested)),
        table.flushed(counts).lookup(key) == Some(counts[key]),
{
}

/// Once stopped, a scheduler stays stopped and asks for nothing.
pub proof fn lemma_stopped_stays(event: SchedulerEvent)
    ensures
        next_state(SchedulerState::Stopped, event) == SchedulerState::Stopped,
        !flushes(action_for(SchedulerState::Stopped, event)),
{
}

/// What came of an event: what the timer's owner has to do, and the writes
/// of the flush that failed.
#[derive(Debug)]
pub struct Handled {
    pub action: SchedulerAction,
    pub failures: Vec<(String, BackendError)>,
}

/// The timer's owner: it knows whether the timer runs and how often it fires.
pub struct SyncScheduler {
    state: SchedulerState,
    interval_secs: u64,
}

impl SyncScheduler {
    /// Whether the timer runs.
    pub closed spec fn state(&self) -> SchedulerState {
        self.state
    }

    /// The seconds between two ticks.
    pub closed spec fn interval(&self) -> u64 {
        self.interval_secs
    }

    /// A running scheduler that ticks every `SYNC_INTERVAL_SECS` seconds.
    pub fn new() -> (scheduler: SyncScheduler)
        ensures
            scheduler.state() == SchedulerState::Running,
            scheduler.interval() == SYNC_INTERVAL_SECS,
    {
        SyncScheduler { state: SchedulerState::Running, interval_secs: SYNC_INTERVAL_SECS }
    }

    /// A running scheduler that ticks every `interval_secs` seconds.
    pub fn with_interval(interval_secs: u64) -> (scheduler: SyncScheduler)
        ensures
            scheduler.state() == SchedulerState::Running,
            scheduler.interval() == interval_secs,
    {
        SyncScheduler { state: SchedulerState::Running, interval_secs }
    }

    /// The seconds between two ticks.
    pub fn interval_secs(&self) -> (seconds: u64)
        ensures
            seconds == self.interval(),
    {
        self.interval_secs
    }

    /// Whether the timer runs.
    pub fn current_state(&self) -> (state: SchedulerState)
        ensures
            state == self.state(),
    {
        self.state
    }

    /// Whether the timer was cancelled.
    pub fn should_exit(&self) -> (stopped: bool)
        ensures
            stopped == (self.state() == SchedulerState::Stopped),
    {
        match self.state {
            SchedulerState::Running => false,
            SchedulerState::Stopped => true,
        }
    }

    /// Takes `event` in and says what is to be done about it.
    pub fn step(&mut self, event: SchedulerEvent) -> (action: SchedulerAction)
        ensures
            action == action_for(old(self).state(), event),
            final(self).state() == next_state(old(self).state(), event),
            final(self).interval() == old(self).interval(),
    {
        match self.state {
            SchedulerState::Running => match event {
                SchedulerEvent::TimerFired => SchedulerAction::Flush,
                SchedulerEvent::ShutdownRequested => {
                    self.state = SchedulerState::Stopped;
                    SchedulerAction::CancelThenFlush
                },
            },
            SchedulerState::Stopped => SchedulerAction::Idle,
        }
    }

    /// Takes `event` in and does to `store` what it asks for: a flush on a
    /// tick and on the request to stop, nothing once stopped. The action is
    /// returned so that the caller can cancel the timer, and with it the
    /// writes that failed so that it can report them.
    pub fn handle<B: KVDBClient>(&mut self, store: &mut DBManager<B>, event: SchedulerEvent) -> (done:
        Handled)
        requires
            old(store).wf(),
        ensures
            done.action == action_for(old(self).state(), event),
            final(self).state() == next_state(old(self).state(), event),
            final(self).interval() == old(self).interval(),
            final(store).wf(),
            final(store).counts() == old(store).counts(),
            final(store).keys() == old(store).keys(),
            final(store).backend().model() == if flushes(done.action) {
                flushed_known(old(store).backend().model(), old(store).counts())
            } else {
                old(store).backend().model()
            },
            !flushes(done.action) ==> *final(store) == *old(store) && done.failures.len() == 0,
            flushes(done.action) ==> (old(store).backend().model() matches Some(table)
                ==> failed_keys(done.failures@) == refused(
                table,
                entries_of(old(store).keys(), old(store).counts()),
                old(store).keys().len() as int,
            )),
    {
        let action = self.step(event);
        let failures = match action {
            SchedulerAction::Idle => Vec::new(),
            _ => store.sync_report(),
        };
        Handled { action, failures }
    }
}

} // verus!
