//! A single-fire broadcast timer for one peer. Times are milliseconds on a
//! monotonic clock; the caller reads the clock and runs the timer.
use vstd::prelude::*;

verus! {

/// The network a peer is reached on.
#[derive(Clone, Copy, Debug, PartialEq, Eq, Hash, Structural)]
pub enum NetworkId {
    Validator,
    Vfn,
    Public,
}

/// A peer on one of the node's networks.
#[derive(Clone, Copy, Debug, PartialEq, Eq, Hash, Structural)]
pub struct PeerNetworkId {
    pub network_id: NetworkId,
    pub peer_id: u64,
}

/// What a poll of a scheduled broadcast observed.
#[derive(Clone, Copy, Debug, PartialEq, Eq, Structural)]
pub enum BroadcastPoll {
    /// The deadline has not come; the waiter is registered for a wake.
    Pending,
    /// The broadcast is due: the peer, and whether it was scheduled in backoff mode.
    Ready(PeerNetworkId, bool),
}

/// A broadcast to `peer` scheduled for `deadline`. It is observed ready at
/// most once; after that it is retired. Dropping it cancels it.
pub struct ScheduledBroadcast {
    deadline: u64,
    peer: PeerNetworkId,
    backoff: bool,
    /// Whether a timer must wake the waiter at the deadline.
    timer_armed: bool,
    /// The one waiter to wake when the timer fires.
    waiter: Option<u64>,
    /// Whether the timer has fired; it hands out a waiter at most once.
    timer_fired: bool,
    retired: bool,
}

impl ScheduledBroadcast {
    pub closed spec fn spec_deadline(&self) -> u64 {
        self.deadline
    }

    pub closed spec fn spec_peer(&self) -> PeerNetworkId {
        self.peer
    }

    pub closed spec fn spec_backoff(&self) -> bool {
        self.backoff
    }

    pub closed spec fn spec_timer_armed(&self) -> bool {
        self.timer_armed
    }

    pub closed spec fn spec_waiter(&self) -> Option<u64> {
        self.waiter
    }

    pub closed spec fn spec_timer_fired(&self) -> bool {
        self.timer_fired
    }

    pub closed spec fn spec_retired(&self) -> bool {
        self.retired
    }

    /// Schedules a broadcast to `peer` at `deadline`, seen from time `now`. A
    /// timer is needed only when the deadline is still ahead.
    pub fn new(deadline: u64, peer: PeerNetworkId, backoff: bool, now: u64) -> (r: Self)
        ensures
            r.spec_deadline() == deadline,
            r.spec_peer() == peer,
            r.spec_backoff() == backoff,
            r.spec_timer_armed() == (deadline > now),
            r.spec_waiter() is None,
            !r.spec_timer_fired(),
            !r.spec_retired(),
    {
        ScheduledBroadcast {
            deadline,
            peer,
            backoff,
            timer_armed: deadline > now,
            waiter: None,
            timer_fired: false,
            retired: false,
        }
    }

    pub fn deadline(&self) -> (r: u64)
        ensures
            r == self.spec_deadline(),
    {
        self.deadline
    }

    /// Whether the caller must start a timer that wakes this broadcast at its deadline.
    pub fn timer_armed(&self) -> (r: bool)
        ensures
            r == self.spec_timer_armed(),
    {
        self.timer_armed
    }

    pub fn is_retired(&self) -> (r: bool)
        ensures
            r == self.spec_retired(),
    {
        self.retired
    }

    /// Polls at time `now` on behalf of `waiter`. Before the deadline the
    /// waiter replaces any earlier one and the poll is pending; from the
    /// deadline on the broadcast is ready and retires.
    pub fn poll(&mut self, now: u64, waiter: u64) -> (r: BroadcastPoll)
        requires
            !old(self).spec_retired(),
        ensures
            now < old(self).spec_deadline() ==> r == BroadcastPoll::Pending && final(self).spec_waiter()
                == Some(waiter) && !final(self).spec_retired(),
            now >= old(self).spec_deadline() ==> r == BroadcastPoll::Ready(
                old(self).spec_peer(),
                old(self).spec_backoff(),
            ) && final(self).spec_retired() && final(self).spec_waiter() is None,
            final(self).spec_deadline() == old(self).spec_deadline(),
            final(self).spec_peer() == old(self).spec_peer(),
            final(self).spec_backoff() == old(self).spec_backoff(),
            final(self).spec_timer_armed() == old(self).spec_timer_armed(),
            final(self).spec_timer_fired() == old(self).spec_timer_fired(),
    {
        if now < self.deadline {
            self.waiter = Some(waiter);
            BroadcastPoll::Pending
        } else {
            self.retired = true;
            self.waiter = None;
            BroadcastPoll::Ready(self.peer, self.backoff)
        }
    }

    /// The timer has fired: hands out the registered waiter, if any, to be
    /// woken. Only the first firing hands out a waiter, so at most one wake
    /// is ever delivered.
    pub fn fire(&mut self) -> (r: Option<u64>)
        ensures
            r == if old(self).spec_timer_fired() {
                None
            } else {
                old(self).spec_waiter()
            },
            final(self).spec_timer_fired(),
            final(self).spec_waiter() is None,
            final(self).spec_deadline() == old(self).spec_deadline(),
            final(self).spec_peer() == old(self).spec_peer(),
            final(self).spec_backoff() == old(self).spec_backoff(),
            final(self).spec_timer_armed() == old(self).spec_timer_armed(),
            final(self).spec_retired() == old(self).spec_retired(),
    {
        let r = if self.timer_fired {
            None
        } else {
            self.waiter
        };
        self.timer_fired = true;
        self.waiter = None;
        r
    }
}

} // verus!
