//! The one-shot rendezvous cell a waiter suspends on, and the outcome it
//! eventually observes.

use vstd::prelude::*;

verus! {

/// The data a notifier hands to matched waiters: string keys paired with
/// string values, delivered verbatim.
pub type Payload = Vec<(String, String)>;

/// Why a waiter failed instead of receiving a payload.
#[derive(Clone, Copy, Debug, PartialEq, Eq, Structural)]
pub enum Reason {
    /// The registry was full at enqueue time and this waiter was the oldest
    /// pending entry, so it was evicted.
    CapacityExceeded,
    /// A payload could not be encoded for the response. The core's own
    /// delivery path never produces this — string pairs always encode — but
    /// the reason stays in the taxonomy for producers that fulfill a cell
    /// after a failed encoding of their own.
    SerializationFailure,
}

/// The single result a waiter observes: a payload, or a failure reason.
#[derive(Debug, PartialEq, Eq)]
pub enum Outcome {
    Delivered(Payload),
    Failed(Reason),
}

/// A single-use, single-value rendezvous cell. A producer stores at most one
/// `Outcome` into it with `fulfill`; the owning waiter consumes the outcome
/// with `take`. The `done` flag records whether an outcome was ever stored,
/// so that a second `fulfill` can never displace the first.
pub struct ReqPoll {
    /// The outcome slot: filled by the first `fulfill`, cleared by `take`.
    pub slot: Option<Outcome>,
    /// Whether an outcome has ever been stored into this cell.
    pub done: bool,
}

impl ReqPoll {
    /// A cell is well formed when an occupied slot implies the cell has been
    /// fulfilled: `done` never lags behind `slot`.
    pub open spec fn wf(self) -> bool {
        self.slot is Some ==> self.done
    }

    /// A fresh cell: no outcome stored, nothing consumed.
    pub fn new() -> (r: ReqPoll)
        ensures
            r.slot is None,
            !r.done,
            r.wf(),
    {
        ReqPoll { slot: None, done: false }
    }

    /// Stores `outcome` if and only if no outcome was ever stored into this
    /// cell. The first call wins; any later call changes nothing and reports
    /// that it did not store.
    pub fn fulfill(&mut self, outcome: Outcome) -> (stored: bool)
        ensures
            stored == !old(self).done,
            old(self).done ==> *final(self) == *old(self),
            !old(self).done ==> final(self).slot == Some(outcome) && final(self).done,
            final(self).wf(),
    {
        if self.done {
            false
        } else {
            self.slot = Some(outcome);
            self.done = true;
            true
        }
    }

    /// Removes and returns the stored outcome, if one is present. This is the
    /// non-blocking half of the owner's suspend operation: the caller retries
    /// (parking itself in between) until an outcome appears. Consuming the
    /// outcome does not reopen the cell: `done` stays set, so no later
    /// `fulfill` can store a second outcome.
    pub fn take(&mut self) -> (r: Option<Outcome>)
        ensures
            r == old(self).slot,
            final(self).slot is None,
            final(self).done == old(self).done,
            old(self).wf() ==> final(self).wf(),
    {
        self.slot.take()
    }
}

} // verus!
