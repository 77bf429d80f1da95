//! Gate node: passes audio through when open, emits silence when closed.

use vstd::prelude::*;
use crate::bang::Bang;
use crate::buffer::{Frame, same_dims};

verus! {

/// A switchable pass-through. `Pulse` events toggle it, `BoolVal` events set
/// it; it starts closed.
pub struct Gate {
    is_open: bool,
}

impl Gate {
    /// Whether audio currently passes through.
    pub closed spec fn open_spec(self) -> bool {
        self.is_open
    }

    /// A closed gate.
    pub fn new() -> (r: Gate)
        ensures
            !r.open_spec(),
    {
        Gate { is_open: false }
    }

    /// One block: copies input 0 when open, silence when closed; with no
    /// input at all the previous output is left in place.
    pub fn process(&mut self, inputs: &Vec<Frame>, output: &mut Frame)
        requires
            inputs@.len() >= 1 ==> same_dims(inputs@[0]@, old(output)@),
        ensures
            *final(self) == *old(self),
            same_dims(final(output)@, old(output)@),
            inputs@.len() == 0 ==> final(output)@ == old(output)@,
            inputs@.len() >= 1 && old(self).open_spec() ==> final(output)@ == inputs@[0]@,
            inputs@.len() >= 1 && !old(self).open_spec() ==> forall|c: int, n: int|
                0 <= c < final(output)@.len() && 0 <= n < final(output)@[c].len()
                    ==> #[trigger] final(output)@[c][n] == 0,
    {
        if inputs.len() >= 1 {
            if self.is_open {
                let input: &Frame = &inputs[0];
                output.copy_from(input);
            } else {
                output.fill_silence();
            }
        }
    }

    /// One block of control events: a `Pulse` on input 0 toggles whether
    /// audio passes, a `BoolVal` on input 0 assigns it; no event is emitted.
    pub fn handle_bang(&mut self, inputs: &Vec<Bang>, output: &mut Bang)
        ensures
            *final(output) == Bang::Empty,
            final(self).open_spec() == gate_state_after(old(self).open_spec(), inputs@),
    {
        if inputs.len() >= 1 {
            match inputs[0] {
                Bang::Pulse => {
                    self.is_open = !self.is_open;
                },
                Bang::BoolVal(v) => {
                    self.is_open = v;
                },
                _ => {},
            }
        }
        *output = Bang::Empty;
    }
}

/// The pass-through switch after one block's control input.
pub open spec fn gate_state_after(open: bool, inputs: Seq<Bang>) -> bool {
    if inputs.len() == 0 {
        open
    } else {
        match inputs[0] {
            Bang::Pulse => !open,
            Bang::BoolVal(v) => v,
            _ => open,
        }
    }
}

} // verus!
