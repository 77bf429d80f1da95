//! The control-domain event value.

use vstd::prelude::*;

verus! {

/// A discrete control event travelling on the same edges as audio.
///
/// `Empty` is the default no-event value. Scalar amplitudes and seconds are
/// carried in Q47.16 fixed point (`FxVal`, `SetParamFx`), matching the audio
/// domain.
#[derive(Clone, Copy, PartialEq, Eq, Structural, Debug)]
pub enum Bang {
    /// A bare trigger event.
    Pulse,
    /// A fixed-point scalar.
    FxVal(i64),
    /// An unsigned scalar.
    U32Val(u32),
    /// A boolean scalar.
    BoolVal(bool),
    /// An index-sized scalar.
    UsizeVal(usize),
    /// Assign an unsigned scalar to the parameter with the given index.
    SetParamU32(usize, u32),
    /// Assign a fixed-point scalar to the parameter with the given index.
    SetParamFx(usize, i64),
    /// Assign a boolean scalar to the parameter with the given index.
    SetParamBool(usize, bool),
    /// No event.
    Empty,
}

impl Default for Bang {
    /// The default event is no event at all.
    fn default() -> (r: Bang)
        ensures
            r == Bang::Empty,
    {
        Bang::Empty
    }
}

} // verus!
