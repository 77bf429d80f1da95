//! Sink writer: interleaves a frame for the host audio buffer.

use vstd::prelude::*;
use crate::buffer::Frame;

verus! {

/// Copies the sink frame into an interleaved buffer: the entry at index
/// `n * channels + c` becomes sample `n` of channel `c`. The host side
/// converts these fixed-point words to its native sample type.
#[verifier::loop_isolation(false)]
pub fn write_data(frame: &Frame, out: &mut Vec<i64>)
    requires
        frame@.len() >= 1,
        forall|c: int| 0 <= c < frame@.len() ==> #[trigger] frame@[c].len() == frame@[0].len(),
        old(out)@.len() == frame@.len() * frame@[0].len(),
    ensures
        final(out)@.len() == old(out)@.len(),
        forall|i: int|
            0 <= i < final(out)@.len() ==> #[trigger] final(out)@[i] == frame@[i % frame@.len() as int][i / frame@.len() as int],
{
    let channels = frame.num_channels();
    let samples = frame.num_samples();
    proof {
        vstd::arithmetic::mul::lemma_mul_is_commutative(channels as int, samples as int);
    }
    let total = out.len();
    proof {
        assert(total == channels * samples);
    }
    let mut i: usize = 0;
    while i < total
        invariant
            i <= total,
            total == channels * samples,
            out@.len() == total,
            forall|j: int|
                0 <= j < i ==> #[trigger] out@[j] == frame@[j % channels as int][j
                    / channels as int],
        decreases total - i,
    {
        let c = i % channels;
        let n = i / channels;
        proof {
            let ii = i as int;
            let ch = channels as int;
            vstd::arithmetic::div_mod::lemma_fundamental_div_mod(ii, ch);
            vstd::arithmetic::div_mod::lemma_mod_bound(ii, ch);
            vstd::arithmetic::div_mod::lemma_div_pos_is_pos(ii, ch);
            assert(ii / ch < samples) by (nonlinear_arith)
                requires
                    ii < ch * (samples as int),
                    ch >= 1,
                    ii == ch * (ii / ch) + ii % ch,
                    0 <= ii % ch < ch,
            ;
        }
        let v = frame.get(c, n);
        out[i] = v;
        i += 1;
    }
}

} // verus!
