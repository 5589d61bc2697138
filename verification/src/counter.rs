//! The counter collaborator: the contract whose calls the account's
//! initialization rule scopes.
//!
//! The counter is a single shared value, not a per-caller one: whoever the
//! caller is, an increment raises the same count. Proving that the caller
//! controls their claimed identity is the host's business and happens before
//! the call reaches this logic; the identity is carried only so the host can
//! gate on it.

use vstd::prelude::*;

verus! {

/// A shared, monotonically increasing counter.
pub struct Counter {
    pub count: u32,
}

impl Counter {
    /// A fresh counter, starting at zero.
    pub fn new() -> (c: Counter)
        ensures
            c.count == 0,
    {
        Counter { count: 0 }
    }

    /// Increments the shared counter on behalf of `caller` and returns the
    /// new value. The count rises by exactly one whoever calls.
    pub fn increment(&mut self, _caller: u64) -> (r: u32)
        requires
            old(self).count < u32::MAX,
        ensures
            final(self).count == old(self).count + 1,
            r == final(self).count,
    {
        self.count = self.count + 1;
        self.count
    }

    /// The current counter value.
    pub fn get(&self) -> (r: u32)
        ensures
            r == self.count,
    {
        self.count
    }
}

} // verus!
