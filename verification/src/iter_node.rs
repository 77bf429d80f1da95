//! Sequencer node: steps through a fixed list of control values.

use vstd::prelude::*;
use crate::bang::Bang;

verus! {

/// Emits the next value of a list on every `Pulse`, wrapping at the end.
pub struct Iter {
    values: Vec<Bang>,
    position: usize,
}

impl Iter {
    /// The stored values.
    pub closed spec fn values_spec(self) -> Seq<Bang> {
        self.values@
    }

    /// The index of the value the next `Pulse` emits.
    pub closed spec fn position_spec(self) -> int {
        self.position as int
    }

    /// At least one value, and the cursor inside the list.
    pub open spec fn wf(self) -> bool {
        self.values_spec().len() >= 1 && 0 <= self.position_spec() < self.values_spec().len()
    }

    /// A sequencer over a non-empty list, starting at its first value.
    pub fn new(values: Vec<Bang>) -> (r: Iter)
        requires
            values@.len() >= 1,
        ensures
            r.wf(),
            r.values_spec() == values@,
            r.position_spec() == 0,
    {
        Iter { values, position: 0 }
    }

    /// One block of control events: a `Pulse` on input 0 emits the current
    /// value and advances the cursor, wrapping after the last value; any
    /// other input emits no event and leaves the cursor alone.
    pub fn handle_bang(&mut self, inputs: &Vec<Bang>, output: &mut Bang)
        requires
            old(self).wf(),
        ensures
            final(self).wf(),
            final(self).values_spec() == old(self).values_spec(),
            if inputs@.len() >= 1 && inputs@[0] == Bang::Pulse {
                &&& *final(output) == old(self).values_spec()[old(self).position_spec()]
                &&& final(self).position_spec() == (old(self).position_spec() + 1) % (old(
                    self,
                ).values_spec().len() as int)
            } else {
                &&& *final(output) == Bang::Empty
                &&& final(self).position_spec() == old(self).position_spec()
            },
    {
        let mut fired = false;
        if inputs.len() >= 1 {
            match inputs[0] {
                Bang::Pulse => {
                    *output = self.values[self.position];
                    if self.position < self.values.len() - 1 {
                        self.position = self.position + 1;
                        proof {
                            vstd::arithmetic::div_mod::lemma_small_mod(
                                self.position as nat,
                                self.values@.len() as nat,
                            );
                        }
                    } else {
                        self.position = 0;
                        proof {
                            let len = self.values@.len() as int;
                            vstd::arithmetic::div_mod::lemma_mod_self_0(len);
                        }
                    }
                    fired = true;
                },
                _ => {},
            }
        }
        if !fired {
            *output = Bang::Empty;
        }
    }
}

} // verus!
