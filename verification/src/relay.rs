//! The multi-destination relay policy.
//!
//! A batch is offered to an ordered list of destinations.  An empty batch
//! is offered to none.  A destination whose request cannot even be built
//! is skipped and the next one is tried; a transport failure stops the
//! whole batch (fail-fast: destinations ordered after the failing one are
//! not attempted in the same call).  Samples are never retried or buffered
//! across calls.
//!
//! The unverified rim performs the encoding and the transmission; this
//! module decides, step by step, which destination is attempted next.

use vstd::prelude::*;

verus! {

/// What one transmission attempt came to.
#[derive(Debug, PartialEq, Eq, Clone, Copy)]
pub enum TransmitOutcome {
    /// The request was built and sent.
    Delivered,
    /// The request could not be built; the destination is skipped.
    BuildFailed,
    /// The request was sent and the transport failed.
    TransportFailed,
}

/// One batch's progress through the destination list.
#[derive(Debug, PartialEq, Eq, Clone, Copy)]
pub struct RelaySession {
    /// Index of the next destination to attempt.
    pub next_idx: usize,
    /// How many destinations there are.
    pub n_dests: usize,
    /// Whether the session has stopped early.
    pub halted: bool,
}

/// A session is well formed while its cursor stays within the list.
pub open spec fn session_wf(s: RelaySession) -> bool {
    s.next_idx <= s.n_dests
}

/// Which destination a session attempts next, if any.
pub open spec fn spec_next_destination(s: RelaySession) -> Option<int> {
    if !s.halted && s.next_idx < s.n_dests {
        Some(s.next_idx as int)
    } else {
        None
    }
}

impl RelaySession {
    /// Starts a batch over `n_dests` destinations.  An empty batch halts
    /// at once: it is offered to no destination.
    pub fn begin(n_dests: usize, batch_len: usize) -> (s: RelaySession)
        ensures
            session_wf(s),
            s.n_dests == n_dests,
            s.next_idx == 0,
            s.halted == (batch_len == 0),
            batch_len == 0 ==> spec_next_destination(s) is None,
    {
        RelaySession { next_idx: 0, n_dests, halted: batch_len == 0 }
    }

    /// The destination to attempt next, or nothing when the batch is done
    /// or the session halted.
    pub fn next_destination(&self) -> (r: Option<usize>)
        ensures
            r matches Some(i) ==> spec_next_destination(*self) == Some(i as int),
            r is None ==> spec_next_destination(*self) is None,
    {
        if !self.halted && self.next_idx < self.n_dests {
            Some(self.next_idx)
        } else {
            None
        }
    }

    /// Records the outcome of the attempt on the current destination and
    /// moves past it.  Only a transport failure halts the session; a
    /// build failure merely skips the destination.
    pub fn record(&mut self, outcome: TransmitOutcome)
        requires
            session_wf(*old(self)),
            spec_next_destination(*old(self)) is Some,
        ensures
            session_wf(*final(self)),
            final(self).n_dests == old(self).n_dests,
            final(self).next_idx == old(self).next_idx + 1,
            final(self).halted == (outcome is TransportFailed),
    {
        self.next_idx = self.next_idx + 1;
        self.halted = matches!(outcome, TransmitOutcome::TransportFailed);
    }
}

/// Fail-fast: after a transport failure no further destination is
/// attempted in the same session.
pub proof fn lemma_transport_failure_short_circuits(s: RelaySession)
    requires
        s.halted,
    ensures
        spec_next_destination(s) is None,
{
}

/// A build failure does not halt the batch: the following destination (if
/// one exists) is attempted next.
pub proof fn lemma_build_failure_skips(before: RelaySession, after: RelaySession)
    requires
        session_wf(before),
        spec_next_destination(before) is Some,
        after.n_dests == before.n_dests,
        after.next_idx == before.next_idx + 1,
        after.halted == false,
    ensures
        after.next_idx < after.n_dests ==> spec_next_destination(after) == Some(
            before.next_idx + 1 as int,
        ),
        after.next_idx == after.n_dests ==> spec_next_destination(after) is None,
{
}

} // verus!
