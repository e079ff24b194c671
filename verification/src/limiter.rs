//! The concurrency limiter: a fixed number of slots, of which each running
//! probe holds one.

use vstd::prelude::*;

verus! {

/// A limiter as a mathematical value.
pub struct LimiterView {
    /// How many slots there are.
    pub capacity: nat,
    /// How many of them are held.
    pub active: nat,
}

/// Counts the probes in flight and refuses a slot beyond its capacity.
pub struct Limiter {
    capacity: usize,
    active: usize,
}

impl View for Limiter {
    type V = LimiterView;

    closed spec fn view(&self) -> LimiterView {
        LimiterView { capacity: self.capacity as nat, active: self.active as nat }
    }
}

impl Limiter {
    #[verifier::type_invariant]
    spec fn inv(self) -> bool {
        1 <= self.capacity && self.active <= self.capacity
    }

    /// A limiter with `capacity` free slots.
    pub fn new(capacity: usize) -> (l: Limiter)
        requires
            capacity >= 1,
        ensures
            l@ == (LimiterView { capacity: capacity as nat, active: 0 }),
    {
        Limiter { capacity, active: 0 }
    }

    /// Takes a slot if one is free, and says whether it did. A caller that
    /// gets none waits for a release.
    pub fn try_acquire(&mut self) -> (granted: bool)
        ensures
            granted == (old(self)@.active < old(self)@.capacity),
            final(self)@.capacity == old(self)@.capacity,
            final(self)@.active == old(self)@.active + if granted {
                1nat
            } else {
                0nat
            },
            final(self)@.active <= final(self)@.capacity,
        no_unwind
    {
        proof {
            use_type_invariant(&*self);
        }
        if self.active < self.capacity {
            self.active = self.active + 1;
            true
        } else {
            false
        }
    }

    /// Gives back one slot, which lets at most one waiting caller go on.
    pub fn release(&mut self)
        requires
            old(self)@.active >= 1,
        ensures
            final(self)@.capacity == old(self)@.capacity,
            final(self)@.active == old(self)@.active - 1,
        no_unwind
    {
        proof {
            use_type_invariant(&*self);
        }
        self.active = self.active - 1;
    }

    /// The number of slots held.
    pub fn active(&self) -> (n: usize)
        ensures
            n == self@.active,
            n <= self@.capacity,
    {
        proof {
            use_type_invariant(self);
        }
        self.active
    }

    /// The number of slots.
    pub fn capacity(&self) -> (n: usize)
        ensures
            n == self@.capacity,
            n >= 1,
    {
        proof {
            use_type_invariant(self);
        }
        self.capacity
    }
}

} // verus!
