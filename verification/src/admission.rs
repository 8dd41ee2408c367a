//! Admission control: a bound on the requests that are being handled at one
//! time. A request that arrives while the bound is reached is turned away
//! at once; nothing waits in a queue.

use crate::failure::{answer, Failure, STATUS_SERVICE_UNAVAILABLE};
use vstd::prelude::*;

verus! {

/// Whether a request is let in that arrives while `in_flight` requests are
/// being handled, where at most `limit` may be.
pub open spec fn admits(limit: nat, in_flight: nat) -> bool {
    in_flight < limit
}

/// How an arrival ends: let in, or turned away as `Overloaded`.
pub open spec fn arrival_outcome(limit: nat, in_flight: nat) -> Result<(), Failure> {
    if admits(limit, in_flight) {
        Ok(())
    } else {
        Err(Failure::Overloaded)
    }
}

/// The requests being handled once one more has arrived: one more where it
/// was let in, as many as before where it was turned away.
pub open spec fn after_arrival(limit: nat, in_flight: nat) -> nat {
    if admits(limit, in_flight) {
        in_flight + 1
    } else {
        in_flight
    }
}

/// The requests being handled once one has left. A leave that no arrival
/// went before changes nothing.
pub open spec fn after_leave(in_flight: nat) -> nat {
    if in_flight > 0 {
        (in_flight - 1) as nat
    } else {
        0
    }
}

/// The requests being handled after `arrivals` have come one after another
/// and none has left.
pub open spec fn after_arrivals(limit: nat, in_flight: nat, arrivals: nat) -> nat
    decreases arrivals,
{
    if arrivals == 0 {
        in_flight
    } else {
        after_arrival(limit, after_arrivals(limit, in_flight, (arrivals - 1) as nat))
    }
}

/// While nothing leaves, arrivals are let in until the limit is reached and
/// turned away from then on: the arrival that `earlier` others went before
/// is let in exactly when those already in flight and those others together
/// are fewer than the limit. Any other is turned away as `Overloaded`, which
/// is answered with status 503.
pub proof fn law_burst_fills_to_limit(limit: nat, in_flight: nat, earlier: nat)
    requires
        in_flight <= limit,
    ensures
        after_arrivals(limit, in_flight, earlier) == if in_flight + earlier <= limit {
            in_flight + earlier
        } else {
            limit
        },
        arrival_outcome(limit, after_arrivals(limit, in_flight, earlier)) == if in_flight
            + earlier < limit {
            Ok::<(), Failure>(())
        } else {
            Err::<(), Failure>(Failure::Overloaded)
        },
        answer(Err(Failure::Overloaded)).0 == STATUS_SERVICE_UNAVAILABLE,
    decreases earlier,
{
    if earlier > 0 {
        law_burst_fills_to_limit(limit, in_flight, (earlier - 1) as nat);
    }
}

/// A request that leaves makes room for the next: after an arrival was let
/// in and has left again, as many are in flight as before.
pub proof fn law_leave_undoes_arrival(limit: nat, in_flight: nat)
    requires
        admits(limit, in_flight),
    ensures
        after_leave(after_arrival(limit, in_flight)) == in_flight,
{
}

/// The count of requests in flight, and the most it may reach.
pub struct Limiter {
    limit: usize,
    in_flight: usize,
}

impl Limiter {
    /// No more requests are in flight than the limit allows.
    #[verifier::type_invariant]
    spec fn within_limit(self) -> bool {
        self.in_flight <= self.limit
    }

    /// The most requests that may be in flight.
    pub closed spec fn spec_limit(self) -> nat {
        self.limit as nat
    }

    /// The requests in flight.
    pub closed spec fn spec_in_flight(self) -> nat {
        self.in_flight as nat
    }

    /// A limiter with nothing in flight that lets `limit` requests in at a
    /// time. With a limit of zero every request is turned away.
    pub fn new(limit: usize) -> (limiter: Limiter)
        ensures
            limiter.spec_limit() == limit,
            limiter.spec_in_flight() == 0,
    {
        Limiter { limit, in_flight: 0 }
    }

    /// The most requests that may be in flight.
    pub fn limit(&self) -> (limit: usize)
        ensures
            limit == self.spec_limit(),
    {
        self.limit
    }

    /// The requests in flight, never more than the limit.
    pub fn in_flight(&self) -> (count: usize)
        ensures
            count == self.spec_in_flight(),
            count <= self.spec_limit(),
    {
        proof {
            use_type_invariant(self);
        }
        self.in_flight
    }

    /// A request arrives. Below the limit it is let in and counted; at the
    /// limit it fails as `Overloaded` and the count stays.
    pub fn try_enter(&mut self) -> (outcome: Result<(), Failure>)
        ensures
            final(self).spec_limit() == old(self).spec_limit(),
            final(self).spec_in_flight() == after_arrival(
                old(self).spec_limit(),
                old(self).spec_in_flight(),
            ),
            outcome == arrival_outcome(old(self).spec_limit(), old(self).spec_in_flight()),
    {
        if self.in_flight < self.limit {
            self.in_flight = self.in_flight + 1;
            Ok(())
        } else {
            Err(Failure::Overloaded)
        }
    }

    /// A request that was let in is done, whether it was answered or
    /// abandoned at its deadline.
    pub fn leave(&mut self)
        ensures
            final(self).spec_limit() == old(self).spec_limit(),
            final(self).spec_in_flight() == after_leave(old(self).spec_in_flight()),
    {
        proof {
            use_type_invariant(&*self);
        }
        if self.in_flight > 0 {
            self.in_flight = self.in_flight - 1;
        }
    }
}

} // verus!
