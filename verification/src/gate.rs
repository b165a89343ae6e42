//! Which of several fetches may still publish its result.
//!
//! Every fetch takes a ticket when it starts. When it comes back, its
//! result is published only if no later fetch has started since: the test
//! is made on arrival, not at the start.

use vstd::prelude::*;

verus! {

/// The counter that hands out tickets. Its view is the number of the last
/// ticket handed out, zero before the first.
#[derive(Clone, Copy, Debug, PartialEq, Eq, Structural)]
pub struct RequestGate {
    latest: u64,
}

impl View for RequestGate {
    type V = nat;

    closed spec fn view(&self) -> nat {
        self.latest as nat
    }
}

impl RequestGate {
    /// A gate that has handed out no ticket.
    pub fn new() -> (gate: RequestGate)
        ensures
            gate@ == 0,
    {
        RequestGate { latest: 0 }
    }

    /// A gate whose last ticket was `latest`.
    pub fn resume(latest: u64) -> (gate: RequestGate)
        ensures
            gate@ == latest,
    {
        RequestGate { latest }
    }

    /// The ticket for a fetch that starts now: one more than the last, so
    /// later than every ticket before it. There is none once the counter
    /// is at its end.
    pub fn issue(&mut self) -> (ticket: Option<u64>)
        ensures
            old(self)@ < u64::MAX ==> ticket == Some((old(self)@ + 1) as u64) && final(self)@
                == old(self)@ + 1,
            old(self)@ >= u64::MAX ==> ticket is None && final(self)@ == old(self)@,
    {
        if self.latest < u64::MAX {
            self.latest = self.latest + 1;
            Some(self.latest)
        } else {
            None
        }
    }

    /// Whether the fetch with `ticket` is the latest that started.
    pub fn is_current(&self, ticket: u64) -> (current: bool)
        ensures
            current == (ticket as nat == self@),
    {
        ticket == self.latest
    }

    /// The result of the fetch with `ticket`, if it may be published: that
    /// of the latest fetch passes, that of an earlier one is dropped.
    pub fn publish<R>(&self, ticket: u64, result: R) -> (published: Option<R>)
        ensures
            published == if ticket as nat == self@ {
                Some(result)
            } else {
                None::<R>
            },
    {
        if ticket == self.latest {
            Some(result)
        } else {
            None
        }
    }
}

/// A result that arrives late is dropped: once a later fetch has its
/// ticket, no earlier ticket is current.
pub proof fn stale_results_are_dropped(earlier: RequestGate, later: RequestGate, ticket: u64)
    requires
        ticket as nat <= earlier@,
        earlier@ < later@,
    ensures
        ticket as nat != later@,
{
}

} // verus!
