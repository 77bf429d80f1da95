//! Gain node: scales its input and clamps to the unit range.

use vstd::prelude::*;
use crate::buffer::{Frame, same_dims};
use crate::fx::{FX_ONE, fx_mul_spec, clamp_spec, fx_mul_clamp_unit};

verus! {

/// What the gain stage emits for one input sample.
pub open spec fn gain_sample(x: int, g: int) -> int {
    clamp_spec(fx_mul_spec(x, g), -FX_ONE as int, FX_ONE as int)
}

/// Whatever the input and the factor, a gain-stage sample never leaves the
/// unit range.
pub proof fn lemma_gain_sample_bounded(x: int, g: int)
    ensures
        -FX_ONE <= gain_sample(x, g) <= FX_ONE,
{
    crate::fx::lemma_clamp_bounds(fx_mul_spec(x, g), -FX_ONE as int, FX_ONE as int);
}

/// Multiplies the single input frame by a fixed-point factor and clamps
/// every sample to `[-FX_ONE, FX_ONE]`.
pub struct Gain {
    /// The fixed-point gain factor.
    pub gain: i64,
}

impl Gain {
    /// A gain node with the given fixed-point factor.
    pub fn new(gain: i64) -> (r: Gain)
        ensures
            r.gain == gain,
    {
        Gain { gain }
    }

    /// One block: scales input 0 samplewise and clamps.
    #[verifier::loop_isolation(false)]
    pub fn process(&mut self, inputs: &Vec<Frame>, output: &mut Frame)
        requires
            inputs@.len() >= 1,
            same_dims(inputs@[0]@, old(output)@),
        ensures
            *final(self) == *old(self),
            same_dims(final(output)@, old(output)@),
            forall|c: int, n: int|
                0 <= c < final(output)@.len() && 0 <= n < final(output)@[c].len()
                    ==> #[trigger] final(output)@[c][n] == gain_sample(
                    inputs@[0]@[c][n] as int,
                    old(self).gain as int,
                ),
    {
        let input: &Frame = &inputs[0];
        let channels = output.num_channels();
        let mut c: usize = 0;
        while c < channels
            invariant
                c <= channels,
                channels == output@.len(),
                same_dims(output@, old(output)@),
                forall|k: int, nn: int|
                    0 <= k < c && 0 <= nn < output@[k].len() ==> #[trigger] output@[k][nn]
                        == gain_sample(input@[k][nn] as int, self.gain as int),
            decreases channels - c,
        {
            let samples = output.channel_len(c);
            let mut n: usize = 0;
            while n < samples
                invariant
                    n <= samples,
                    c < channels,
                    channels == output@.len(),
                    samples == output@[c as int].len(),
                    same_dims(output@, old(output)@),
                    forall|k: int, nn: int|
                        0 <= k < c && 0 <= nn < output@[k].len() ==> #[trigger] output@[k][nn]
                            == gain_sample(input@[k][nn] as int, self.gain as int),
                    forall|nn: int|
                        0 <= nn < n ==> #[trigger] output@[c as int][nn] == gain_sample(
                            input@[c as int][nn] as int,
                            self.gain as int,
                        ),
                decreases samples - n,
            {
                let x = input.get(c, n);
                let val = fx_mul_clamp_unit(x, self.gain);
                proof {
                    vstd::arithmetic::mul::lemma_mul_is_commutative(
                        x as int,
                        self.gain as int,
                    );
                }
                output.set(c, n, val);
                n += 1;
            }
            c += 1;
        }
    }
}

} // verus!
