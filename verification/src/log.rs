//! Observer node: counts the control events that pass by.
//!
//! In a realtime graph the observer must never allocate or block, so it
//! keeps nothing but a saturating counter of non-empty events; the host
//! side may read it between blocks.

use vstd::prelude::*;
use crate::bang::Bang;

verus! {

/// Counts non-empty control events on input 0.
pub struct Log {
    seen: u64,
}

impl Log {
    /// How many non-empty events have been observed.
    pub closed spec fn seen_spec(self) -> int {
        self.seen as int
    }

    /// An observer that has seen nothing.
    pub fn new() -> (r: Log)
        ensures
            r.seen_spec() == 0,
    {
        Log { seen: 0 }
    }

    /// The number of non-empty events observed so far.
    pub fn seen(&self) -> (r: u64)
        ensures
            r == self.seen_spec(),
    {
        self.seen
    }

    /// One block of control events: a non-empty input 0 bumps the counter
    /// (saturating); the observer emits no event of its own.
    pub fn handle_bang(&mut self, inputs: &Vec<Bang>, output: &mut Bang)
        ensures
            *final(output) == Bang::Empty,
            final(self).seen_spec() == if inputs@.len() >= 1 && inputs@[0] != Bang::Empty
                && old(self).seen_spec() < u64::MAX {
                old(self).seen_spec() + 1
            } else {
                old(self).seen_spec()
            },
    {
        if inputs.len() >= 1 {
            match inputs[0] {
                Bang::Empty => {},
                _ => {
                    if self.seen < u64::MAX {
                        self.seen = self.seen + 1;
                    }
                },
            }
        }
        *output = Bang::Empty;
    }
}

} // verus!
