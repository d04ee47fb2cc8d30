//! A monotonically increasing id counter that wraps at a precision boundary
//! safe for lossless round-trip through an IEEE-754 double, since some host
//! bindings transport ids as doubles.

use vstd::prelude::*;

verus! {

/// The first id past the 52-bit precision boundary; ids stay below it.
pub const MAX_ID: u64 = 0x10_0000_0000_0000;

/// A wrapping id counter; ids start at 1 and stay within 52 bits.
#[derive(Clone, Copy)]
pub struct Counter {
    pub count: u64,
}

impl Counter {
    pub fn new() -> (r: Counter)
        ensures
            r.count == 1,
    {
        Counter { count: 1 }
    }

    /// Return the next id and advance, wrapping back to 1 at the 52-bit
    /// boundary.
    pub fn next(&mut self) -> (r: u64)
        ensures
            r == old(self).count,
            final(self).count == (if old(self).count >= MAX_ID {
                1u64
            } else {
                (old(self).count + 1) as u64
            }),
    {
        let id = self.count;
        if id >= MAX_ID {
            self.count = 1;
        } else {
            self.count = id + 1;
        }
        id
    }
}

} // verus!
