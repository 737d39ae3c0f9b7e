//! The `Notifier`: the state behind a broadcast "something changed" signal.
//!
//! A notifier counts its waiters and numbers its notifications. A waiter
//! takes a ticket, the number of the last notification, and is released as
//! soon as the number moves past it. Every operation here is one atomic step
//! under the lock that guards the notifier, so a waiter that tests a
//! condition and arms its wait in one `wait_if` cannot miss a notification
//! that follows the change it tested for.

use vstd::prelude::*;

verus! {

/// The next notification number: one more, starting over after the largest.
pub open spec fn next_generation(g: u64) -> u64 {
    if g == u64::MAX { 0 } else { (g + 1) as u64 }
}

/// Waiter count and notification number of a broadcast signal.
pub struct Notifier {
    waiters: usize,
    generation: u64,
}

impl Notifier {
    /// The number of waiters armed since the last notification.
    pub closed spec fn spec_count(&self) -> nat {
        self.waiters as nat
    }

    /// The number of the last notification.
    pub closed spec fn spec_generation(&self) -> u64 {
        self.generation
    }

    /// Whether a waiter holding `ticket` has been released.
    pub open spec fn spec_woken(&self, ticket: u64) -> bool {
        self.spec_generation() != ticket
    }

    /// The state after a waiter armed: one more waiter, same number.
    pub open spec fn armed(&self, next: &Notifier) -> bool {
        &&& next.spec_generation() == self.spec_generation()
        &&& next.spec_count() == if self.spec_count() < usize::MAX {
            self.spec_count() + 1
        } else {
            self.spec_count()
        }
    }

    /// The state after a notification: no waiter, the next number.
    pub open spec fn notified(&self, next: &Notifier) -> bool {
        &&& next.spec_generation() == next_generation(self.spec_generation())
        &&& next.spec_count() == 0
    }

    /// A fresh notifier: no waiter, no notification yet.
    pub fn new() -> (r: Notifier)
        ensures
            r.spec_count() == 0,
            r.spec_generation() == 0,
    {
        Notifier { waiters: 0, generation: 0 }
    }

    /// The number of waiters armed since the last notification.
    pub fn count(&self) -> (r: usize)
        ensures
            r == self.spec_count(),
    {
        self.waiters
    }

    /// Arms a wait for the next notification and returns its ticket.
    pub fn wait(&mut self) -> (ticket: u64)
        ensures
            old(self).armed(final(self)),
            ticket == old(self).spec_generation(),
            !final(self).spec_woken(ticket),
    {
        self.waiters = self.waiters.saturating_add(1);
        self.generation
    }

    /// Arms a wait only if `blocked`, the caller's condition tested under the
    /// same lock; returns the ticket when it armed one.
    pub fn wait_if(&mut self, blocked: bool) -> (r: Option<u64>)
        ensures
            blocked ==> old(self).armed(final(self)) && r == Some(old(self).spec_generation()),
            !blocked ==> *final(self) == *old(self) && r.is_none(),
    {
        if blocked {
            Some(self.wait())
        } else {
            None
        }
    }

    /// Whether a waiter holding `ticket` has been released.
    pub fn is_woken(&self, ticket: u64) -> (r: bool)
        ensures
            r == self.spec_woken(ticket),
    {
        self.generation != ticket
    }

    /// Releases every waiter: the number moves on and the count drops to zero.
    pub fn notify(&mut self)
        ensures
            old(self).notified(final(self)),
    {
        self.generation = if self.generation == u64::MAX {
            0
        } else {
            self.generation + 1
        };
        self.waiters = 0;
    }

    /// Notifies only if `ready`; returns whether it did.
    pub fn notify_if(&mut self, ready: bool) -> (r: bool)
        ensures
            r == ready,
            ready ==> old(self).notified(final(self)),
            !ready ==> *final(self) == *old(self),
    {
        if ready {
            self.notify();
        }
        ready
    }
}

/// A waiter armed before a notification is released by it, whatever came
/// between its arming and the notification.
pub proof fn lemma_notify_releases(n: Notifier, armed: Notifier, notified: Notifier, ticket: u64)
    requires
        n.armed(&armed),
        ticket == n.spec_generation(),
        armed.notified(&notified),
    ensures
        notified.spec_woken(ticket),
        notified.spec_count() == 0,
{
}

} // verus!
