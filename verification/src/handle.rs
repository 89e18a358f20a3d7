//! Monotonically increasing 32-bit identifiers with wraparound.
//!
//! A `Handle` issues the identifiers that correlate a request with its
//! eventual response. The value 0 is reserved as "no handle" and is never
//! issued; on reaching the wrap boundary the counter restarts at 1.

use vstd::prelude::*;

verus! {

/// Issues 32-bit identifiers, counting up and wrapping to 1 (never 0) at a
/// configurable boundary.
pub struct Handle {
    /// The value most recently issued; the next call to `next` advances past it.
    next: u32,
    /// Issuing this value makes the following value wrap to 1.
    wraps_on: u32,
}

impl Handle {
    /// The value the generator issued last (the point it advances from).
    pub closed spec fn counter(self) -> u32 {
        self.next
    }

    /// The boundary at which the counter wraps back to 1.
    pub closed spec fn wrap_boundary(self) -> u32 {
        self.wraps_on
    }

    /// A generator is well formed when its counter has not run past the
    /// wrap boundary, and the boundary leaves room for the reserved value 0.
    pub open spec fn wf(self) -> bool {
        &&& 1 <= self.wrap_boundary()
        &&& self.counter() <= self.wrap_boundary()
    }

    /// The identifier the next call to `next` will issue.
    pub open spec fn next_value(self) -> u32 {
        if self.counter() == self.wrap_boundary() {
            1u32
        } else {
            (self.counter() + 1) as u32
        }
    }

    /// A generator that advances from `first`, wrapping at the largest
    /// representable value.
    pub fn new(first: u32) -> (r: Handle)
        ensures
            r.wf(),
            r.counter() == first,
            r.wrap_boundary() == u32::MAX,
    {
        Handle { next: first, wraps_on: u32::MAX }
    }

    /// A generator that advances from `first`, wrapping at `wraps_on`.
    pub fn new_with_wrap(first: u32, wraps_on: u32) -> (r: Handle)
        requires
            1 <= wraps_on,
            first <= wraps_on,
        ensures
            r.wf(),
            r.counter() == first,
            r.wrap_boundary() == wraps_on,
    {
        Handle { next: first, wraps_on }
    }

    /// Issues the next identifier and advances the counter. Never returns 0;
    /// after the wrap boundary has been issued, the next identifier is 1.
    pub fn next(&mut self) -> (r: u32)
        requires
            old(self).wf(),
        ensures
            final(self).wf(),
            r == old(self).next_value(),
            r != 0,
            1 <= r <= old(self).wrap_boundary(),
            final(self).counter() == r,
            final(self).wrap_boundary() == old(self).wrap_boundary(),
    {
        if self.next == self.wraps_on {
            self.next = 1;
        } else {
            self.next = self.next + 1;
        }
        self.next
    }
}

/// No issued identifier is ever 0, every issued identifier stays within the
/// wrap boundary, and the identifier issued right after the wrap boundary
/// itself is 1. Together with the `next` contract, which pins each issued
/// value to `next_value` of the state before the call, this covers every
/// sequence of `next` calls on a well-formed generator.
pub proof fn lemma_handle_values(h: Handle)
    requires
        h.wf(),
    ensures
        h.next_value() != 0,
        1 <= h.next_value() <= h.wrap_boundary(),
        h.counter() == h.wrap_boundary() ==> h.next_value() == 1,
{
}

} // verus!
