//! The poll cycle's admission control: one refresh task per adapter per
//! cycle, at most `limit` of them in flight at once, and a fan-in barrier —
//! the cycle is complete only when every dispatched task has finished.
//!
//! The surrounding loop performs the waiting and the sleeping; this type
//! holds the decisions, so that the bound and the barrier are facts about
//! every run, not about one schedule.
use vstd::prelude::*;

verus! {

/// The state of one poll cycle over `total` adapters under an admission
/// limit of `limit` concurrent refresh tasks.
pub struct PollPlanner {
    pub limit: u64,
    pub total: u64,
    pub dispatched: u64,
    pub finished: u64,
}

/// One observable event of a cycle: a refresh task starts, or one finishes.
pub ghost enum PollEvent {
    Dispatch,
    Finish,
}

impl PollPlanner {
    /// How many refresh tasks are in flight right now.
    pub open spec fn in_flight(self) -> int {
        self.dispatched - self.finished
    }

    /// The bound every reachable state obeys.
    pub open spec fn bounded(self) -> bool {
        self.in_flight() <= self.limit
    }

    /// A fresh cycle: nothing dispatched, nothing finished.
    ///
    /// An admission limit of zero would let no task ever start, so the
    /// configured maximum is at least one.
    pub fn new(total: u64, limit: u64) -> (p: PollPlanner)
        requires
            limit >= 1,
        ensures
            p == (PollPlanner { limit, total, dispatched: 0, finished: 0 }),
    {
        PollPlanner { limit, total, dispatched: 0, finished: 0 }
    }

    /// Whether another refresh task may start now: an adapter is still
    /// waiting, and a permit is free.
    pub fn can_dispatch(&self) -> (b: bool)
        ensures
            b == event_enabled(*self, PollEvent::Dispatch),
    {
        self.dispatched < self.total && (self.dispatched as u128) < (self.limit as u128)
            + (self.finished as u128)
    }

    /// Starts one refresh task.
    pub fn dispatch(&mut self)
        requires
            event_enabled(*old(self), PollEvent::Dispatch),
        ensures
            *final(self) == apply_event(*old(self), PollEvent::Dispatch),
    {
        self.dispatched = self.dispatched + 1;
    }

    /// Records that one refresh task has finished, however its refresh came
    /// out: a failure is adapter-local and still releases the permit.
    pub fn finish(&mut self)
        requires
            event_enabled(*old(self), PollEvent::Finish),
        ensures
            *final(self) == apply_event(*old(self), PollEvent::Finish),
    {
        self.finished = self.finished + 1;
    }

    /// The fan-in barrier: the cycle is complete exactly when every adapter's
    /// task has been dispatched and has finished.
    pub fn cycle_complete(&self) -> (b: bool)
        ensures
            b == (self.dispatched == self.total && self.finished == self.total),
    {
        self.dispatched == self.total && self.finished == self.total
    }
}

/// Whether an event is enabled in a state: a dispatch needs a waiting
/// adapter and a free permit, a finish needs a task in flight.
pub open spec fn event_enabled(p: PollPlanner, e: PollEvent) -> bool {
    match e {
        PollEvent::Dispatch => p.dispatched < p.total && p.in_flight() < p.limit,
        PollEvent::Finish => p.in_flight() > 0,
    }
}

/// The state after an event.
pub open spec fn apply_event(p: PollPlanner, e: PollEvent) -> PollPlanner {
    match e {
        PollEvent::Dispatch => PollPlanner { dispatched: (p.dispatched + 1) as u64, ..p },
        PollEvent::Finish => PollPlanner { finished: (p.finished + 1) as u64, ..p },
    }
}

/// A trace is valid when every event is enabled in the state it meets.
pub open spec fn trace_valid(p: PollPlanner, events: Seq<PollEvent>) -> bool
    decreases events.len(),
{
    if events.len() == 0 {
        true
    } else {
        trace_valid(p, events.drop_last()) && event_enabled(
            run_events(p, events.drop_last()),
            events.last(),
        )
    }
}

/// The state a trace reaches.
pub open spec fn run_events(p: PollPlanner, events: Seq<PollEvent>) -> PollPlanner
    decreases events.len(),
{
    if events.len() == 0 {
        p
    } else {
        apply_event(run_events(p, events.drop_last()), events.last())
    }
}

/// The admission bound: starting from a fresh cycle, no valid sequence of
/// dispatches and finishes — of any length, in any order — ever brings more
/// than `limit` refresh tasks in flight, and dispatches never exceed the
/// adapter count.
pub proof fn lemma_admission_bound(p: PollPlanner, events: Seq<PollEvent>)
    requires
        p.dispatched == 0,
        p.finished == 0,
        trace_valid(p, events),
    ensures
        run_events(p, events).bounded(),
        run_events(p, events).finished <= run_events(p, events).dispatched <= p.total,
        run_events(p, events).limit == p.limit,
        run_events(p, events).total == p.total,
    decreases events.len(),
{
    if events.len() > 0 {
        lemma_admission_bound(p, events.drop_last());
    }
}

} // verus!
