//! Dispatch bookkeeping for the bounded worker pool.  The pool itself runs
//! outside; this state machine owns the facts the driver relies on: every
//! candidate is handed out at most once and in order, outcomes are counted
//! as they come back, and once cancellation is raised no new candidate is
//! ever pulled while in-flight probes are still allowed to finish.

use vstd::prelude::*;

verus! {

/// Dispatcher state: `next` is both the index of the next candidate to hand
/// out and the count of candidates dispatched so far.
#[derive(Clone, Copy, PartialEq, Eq, Structural, Debug)]
pub struct Dispatcher {
    pub total: usize,
    pub next: usize,
    pub completed: usize,
    pub cancelled: bool,
}

/// Counts stay ordered: outcomes never outnumber dispatches, dispatches
/// never pass the candidate count.
pub open spec fn dispatcher_wf(d: Dispatcher) -> bool {
    d.completed <= d.next <= d.total
}

/// What one worker pull does: nothing once cancelled or exhausted,
/// otherwise it hands out the next candidate index.
pub open spec fn pull_step(d: Dispatcher) -> (Dispatcher, Option<usize>) {
    if d.cancelled || d.next >= d.total {
        (d, None)
    } else {
        (
            Dispatcher {
                total: d.total,
                next: (d.next + 1) as usize,
                completed: d.completed,
                cancelled: d.cancelled,
            },
            Some(d.next),
        )
    }
}

/// Drained: every handed-out probe has answered and no further probe will
/// start, either because the candidates ran out or because the run was
/// cancelled.
pub open spec fn spec_drained(d: Dispatcher) -> bool {
    d.completed == d.next && (d.cancelled || d.next == d.total)
}

/// One driver-visible event in a run's history.
pub enum RunEvent {
    /// A worker asked for the next candidate.
    Pulled,
    /// One outcome came back from a worker.
    OutcomeArrived,
    /// Cancellation was raised.
    Cancelled,
}

/// The effect of one event on the dispatcher state.  An outcome that
/// nothing is in flight for changes nothing.
pub open spec fn apply_event(d: Dispatcher, e: RunEvent) -> Dispatcher {
    match e {
        RunEvent::Pulled => pull_step(d).0,
        RunEvent::OutcomeArrived => if d.completed < d.next {
            Dispatcher {
                total: d.total,
                next: d.next,
                completed: (d.completed + 1) as usize,
                cancelled: d.cancelled,
            }
        } else {
            d
        },
        RunEvent::Cancelled => Dispatcher {
            total: d.total,
            next: d.next,
            completed: d.completed,
            cancelled: true,
        },
    }
}

/// The dispatcher state after a whole history of events.
pub open spec fn run_trace(d: Dispatcher, es: Seq<RunEvent>) -> Dispatcher
    decreases es.len(),
{
    if es.len() == 0 {
        d
    } else {
        run_trace(apply_event(d, es[0]), es.skip(1))
    }
}

impl Dispatcher {
    /// A dispatcher for `total` generated candidates; nothing pulled yet.
    pub fn new(total: usize) -> (d: Dispatcher)
        ensures
            d == (Dispatcher { total, next: 0, completed: 0, cancelled: false }),
            dispatcher_wf(d),
    {
        Dispatcher { total, next: 0, completed: 0, cancelled: false }
    }

    /// Pull the next candidate index for a worker.  Returns nothing once the
    /// run is cancelled or the candidate sequence is exhausted; otherwise
    /// candidates come out exactly once each, in generation order.
    pub fn pull(&mut self) -> (r: Option<usize>)
        requires
            dispatcher_wf(*old(self)),
        ensures
            dispatcher_wf(*final(self)),
            (*final(self), r) == pull_step(*old(self)),
    {
        if self.cancelled || self.next >= self.total {
            None
        } else {
            let i = self.next;
            self.next = self.next + 1;
            Some(i)
        }
    }

    /// Raise cancellation.  The flag is set-once: nothing ever clears it.
    pub fn cancel(&mut self)
        ensures
            *final(self) == (Dispatcher {
                total: old(self).total,
                next: old(self).next,
                completed: old(self).completed,
                cancelled: true,
            }),
    {
        self.cancelled = true;
    }

    /// One outcome came back from a worker.
    pub fn record_outcome(&mut self)
        requires
            dispatcher_wf(*old(self)),
            old(self).completed < old(self).next,
        ensures
            dispatcher_wf(*final(self)),
            *final(self) == (Dispatcher {
                total: old(self).total,
                next: old(self).next,
                completed: (old(self).completed + 1) as usize,
                cancelled: old(self).cancelled,
            }),
    {
        self.completed = self.completed + 1;
    }

    /// Probes handed out whose outcome has not yet arrived.
    pub fn in_flight(&self) -> (r: usize)
        requires
            dispatcher_wf(*self),
        ensures
            r == self.next - self.completed,
    {
        self.next - self.completed
    }

    /// Whether the outcome stream is fully drained.
    pub fn drained(&self) -> (r: bool)
        ensures
            r == spec_drained(*self),
    {
        self.completed == self.next && (self.cancelled || self.next == self.total)
    }

    /// Whether the run consumed every generated candidate, as opposed to
    /// being drained early by cancellation.
    pub fn finished_naturally(&self) -> (r: bool)
        ensures
            r == (self.completed == self.total),
    {
        self.completed == self.total
    }
}

} // verus!
