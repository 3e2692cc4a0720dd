//! Inactivity timers: when a buffer that has gone quiet is due to be sealed.
//!
//! The scheduler does not run anything. It issues a ticket each time a timer
//! is armed, and later says whether a firing timer is due and still the one
//! its buffer holds. A timer that fires after its buffer was re-armed or
//! sealed carries an outdated generation and is ignored.

use vstd::prelude::*;

verus! {

/// Handle of one armed timer: the generation it was armed with and the time,
/// in milliseconds since the Unix epoch, at which it fires.
#[derive(Clone, Copy, Debug, PartialEq, Eq, Structural)]
pub struct TimerTicket {
    pub generation: u64,
    pub deadline: u64,
}

/// The generation that follows `generation`; it wraps past the largest value.
pub open spec fn next_generation(generation: u64) -> u64 {
    if generation == u64::MAX {
        0
    } else {
        (generation + 1) as u64
    }
}

/// The time a timer armed at `now` fires: `timeout_ms` later, capped at the
/// largest representable time.
pub open spec fn deadline_after(now: u64, timeout_ms: u64) -> u64 {
    if now + timeout_ms > u64::MAX {
        u64::MAX
    } else {
        (now + timeout_ms) as u64
    }
}

/// The ticket issued when a timer is armed at `now`, after `last_generation`
/// was the latest generation issued.
pub open spec fn ticket_after(last_generation: u64, timeout_ms: u64, now: u64) -> TimerTicket {
    TimerTicket {
        generation: next_generation(last_generation),
        deadline: deadline_after(now, timeout_ms),
    }
}

impl TimerTicket {
    /// Whether the timer has reached its deadline at `now`.
    pub open spec fn due_at(self, now: u64) -> bool {
        self.deadline <= now
    }

    /// Whether the timer has reached its deadline at `now`.
    pub fn is_due(&self, now: u64) -> (due: bool)
        ensures
            due == self.due_at(now),
    {
        self.deadline <= now
    }

    /// Whether a timer that fires with `fired_generation` is this one.
    pub fn matches(&self, fired_generation: u64) -> (same: bool)
        ensures
            same == (self.generation == fired_generation),
    {
        self.generation == fired_generation
    }
}

/// Issues timer tickets for one service.
#[derive(Debug)]
pub struct FlushScheduler {
    timeout_ms: u64,
    last_generation: u64,
}

impl FlushScheduler {
    /// The inactivity timeout, in milliseconds.
    pub closed spec fn timeout(&self) -> u64 {
        self.timeout_ms
    }

    /// The generation of the ticket issued last, 0 before the first.
    pub closed spec fn last_issued(&self) -> u64 {
        self.last_generation
    }

    /// A scheduler with the given inactivity timeout that has issued no ticket.
    pub fn new(timeout_ms: u64) -> (scheduler: FlushScheduler)
        ensures
            scheduler.timeout() == timeout_ms,
            scheduler.last_issued() == 0,
    {
        FlushScheduler { timeout_ms, last_generation: 0 }
    }

    /// The inactivity timeout, in milliseconds.
    pub fn timeout_ms(&self) -> (timeout: u64)
        ensures
            timeout == self.timeout(),
    {
        self.timeout_ms
    }

    /// The generation of the ticket issued last.
    pub fn last_generation(&self) -> (generation: u64)
        ensures
            generation == self.last_issued(),
    {
        self.last_generation
    }

    /// Arms a timer at `now`. The ticket carries a generation that differs
    /// from the one issued before it, so the timer armed earlier is cancelled
    /// by becoming outdated.
    pub fn arm(&mut self, now: u64) -> (ticket: TimerTicket)
        ensures
            ticket == ticket_after(old(self).last_issued(), old(self).timeout(), now),
            final(self).last_issued() == ticket.generation,
            final(self).timeout() == old(self).timeout(),
    {
        let generation: u64 = if self.last_generation == u64::MAX {
            0
        } else {
            self.last_generation + 1
        };
        let deadline: u64 = if self.timeout_ms > u64::MAX - now {
            u64::MAX
        } else {
            now + self.timeout_ms
        };
        self.last_generation = generation;
        TimerTicket { generation, deadline }
    }
}

/// Arming a timer always outdates the ticket issued just before.
pub proof fn law_rearm_outdates(generation: u64)
    ensures
        next_generation(generation) != generation,
{
}

} // verus!
