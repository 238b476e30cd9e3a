//! The limit on how many history requests are in flight at once.

use vstd::prelude::*;

verus! {

/// Counts the history requests that are in flight and grants a new one
/// only while fewer than `capacity` are.
#[derive(Debug)]
pub struct PermitGate {
    capacity: usize,
    in_flight: usize,
}

impl PermitGate {
    #[verifier::type_invariant]
    spec fn bounded(&self) -> bool {
        self.in_flight <= self.capacity
    }

    /// How many requests may be in flight at once.
    pub closed spec fn capacity(&self) -> nat {
        self.capacity as nat
    }

    /// How many requests are in flight.
    pub closed spec fn in_flight(&self) -> nat {
        self.in_flight as nat
    }

    /// A gate with no request in flight.
    pub fn new(capacity: usize) -> (gate: PermitGate)
        ensures
            gate.capacity() == capacity,
            gate.in_flight() == 0,
    {
        PermitGate { capacity, in_flight: 0 }
    }

    /// How many requests are in flight: at no time more than the
    /// capacity.
    pub fn requests_in_flight(&self) -> (n: usize)
        ensures
            n == self.in_flight(),
            n <= self.capacity(),
    {
        proof {
            use_type_invariant(self);
        }
        self.in_flight
    }

    /// How many more requests would be granted now.
    pub fn available_permits(&self) -> (n: usize)
        ensures
            n == self.capacity() - self.in_flight(),
    {
        proof {
            use_type_invariant(self);
        }
        self.capacity - self.in_flight
    }

    /// Asks for a permit. It is granted exactly if fewer requests are in
    /// flight than the capacity, and then one more is.
    pub fn try_acquire(&mut self) -> (granted: bool)
        ensures
            granted == (old(self).in_flight() < old(self).capacity()),
            final(self).capacity() == old(self).capacity(),
            final(self).in_flight() == old(self).in_flight() + if granted {
                1nat
            } else {
                0nat
            },
            final(self).in_flight() <= final(self).capacity(),
    {
        proof {
            use_type_invariant(&*self);
        }
        if self.in_flight < self.capacity {
            self.in_flight = self.in_flight + 1;
            true
        } else {
            false
        }
    }

    /// Gives a permit back: one request fewer is in flight, if any was.
    pub fn release(&mut self)
        ensures
            final(self).capacity() == old(self).capacity(),
            final(self).in_flight() == if old(self).in_flight() > 0 {
                (old(self).in_flight() - 1) as nat
            } else {
                0nat
            },
            final(self).in_flight() <= final(self).capacity(),
    {
        proof {
            use_type_invariant(&*self);
        }
        if self.in_flight > 0 {
            self.in_flight = self.in_flight - 1;
        }
    }
}

} // verus!
