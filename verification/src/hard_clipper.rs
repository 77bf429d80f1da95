//! Hard clipper node: limits every sample to a symmetric range.

use vstd::prelude::*;
use crate::buffer::{Frame, same_dims};
use crate::fx::{FX_ONE, clamp_spec, clamp64};

verus! {

/// Clamps every sample of its single input to `[-limit, limit]`.
///
/// The limit is a fixed-point amplitude in `[0, FX_ONE]`; any other limit is
/// an invalid parameter and is excluded at construction.
pub struct HardClipper {
    limit: i64,
}

impl HardClipper {
    /// The configured fixed-point limit.
    pub closed spec fn limit_spec(self) -> int {
        self.limit as int
    }

    /// Parameter invariant: the limit is a valid amplitude.
    pub open spec fn wf(self) -> bool {
        0 <= self.limit_spec() <= FX_ONE as int
    }

    /// A clipper with the given fixed-point limit, which must lie in
    /// `[0, FX_ONE]`.
    pub fn new(limit: i64) -> (r: HardClipper)
        requires
            0 <= limit <= FX_ONE,
        ensures
            r.wf(),
            r.limit_spec() == limit,
    {
        HardClipper { limit }
    }

    /// One block: clamps input 0 samplewise to `[-limit, limit]`.
    #[verifier::loop_isolation(false)]
    pub fn process(&mut self, inputs: &Vec<Frame>, output: &mut Frame)
        requires
            old(self).wf(),
            inputs@.len() >= 1,
            same_dims(inputs@[0]@, old(output)@),
        ensures
            *final(self) == *old(self),
            same_dims(final(output)@, old(output)@),
            forall|c: int, n: int|
                0 <= c < final(output)@.len() && 0 <= n < final(output)@[c].len()
                    ==> #[trigger] final(output)@[c][n] == clamp_spec(
                    inputs@[0]@[c][n] as int,
                    -old(self).limit_spec(),
                    old(self).limit_spec(),
                ),
    {
        let input: &Frame = &inputs[0];
        let channels = output.num_channels();
        let mut c: usize = 0;
        while c < channels
            invariant
                c <= channels,
                channels == output@.len(),
                same_dims(output@, old(output)@),
                forall|k: int, nn: int|
                    0 <= k < c && 0 <= nn < output@[k].len() ==> #[trigger] output@[k][nn]
                        == clamp_spec(input@[k][nn] as int, -self.limit_spec(), self.limit_spec()),
            decreases channels - c,
        {
            let samples = output.channel_len(c);
            let mut n: usize = 0;
            while n < samples
                invariant
                    n <= samples,
                    c < channels,
                    channels == output@.len(),
                    samples == output@[c as int].len(),
                    same_dims(output@, old(output)@),
                    forall|k: int, nn: int|
                        0 <= k < c && 0 <= nn < output@[k].len() ==> #[trigger] output@[k][nn]
                            == clamp_spec(input@[k][nn] as int, -self.limit_spec(), self.limit_spec()),
                    forall|nn: int|
                        0 <= nn < n ==> #[trigger] output@[c as int][nn] == clamp_spec(
                            input@[c as int][nn] as int,
                            -self.limit_spec(),
                            self.limit_spec(),
                        ),
                decreases samples - n,
            {
                let x = input.get(c, n);
                let val = clamp64(x, -self.limit, self.limit);
                output.set(c, n, val);
                n += 1;
            }
            c += 1;
        }
    }
}

} // verus!
