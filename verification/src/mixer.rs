//! Averaging mixer node.

use vstd::prelude::*;
use crate::buffer::{Frame, same_dims, inputs_dims_ok, frames_view};
use crate::fx::{FX_ONE, div_trunc, clamp_spec, div_trunc_i128};

verus! {

/// The plain sum of the incoming frames at channel `c`, sample `n`.
pub open spec fn mix_sum(ivs: Seq<Seq<Seq<i64>>>, c: int, n: int) -> int
    decreases ivs.len(),
{
    if ivs.len() == 0 {
        0
    } else {
        mix_sum(ivs.drop_last(), c, n) + ivs.last()[c][n]
    }
}

/// What the mixer emits: the clamped mean of its inputs, or silence when
/// there is no input at all.
pub open spec fn mix_sample(ivs: Seq<Seq<Seq<i64>>>, c: int, n: int) -> int {
    if ivs.len() == 0 {
        0
    } else {
        clamp_spec(div_trunc(mix_sum(ivs, c, n), ivs.len() as int), -FX_ONE as int, FX_ONE as int)
    }
}

proof fn lemma_mix_sum_remove(ivs: Seq<Seq<Seq<i64>>>, c: int, n: int, j: int)
    requires
        0 <= j < ivs.len(),
    ensures
        mix_sum(ivs, c, n) == mix_sum(ivs.remove(j), c, n) + ivs[j][c][n],
    decreases ivs.len(),
{
    if j == ivs.len() - 1 {
        assert(ivs.remove(j) =~= ivs.drop_last());
    } else {
        let s2 = ivs.drop_last();
        lemma_mix_sum_remove(s2, c, n, j);
        assert(ivs.remove(j).drop_last() =~= s2.remove(j));
        assert(ivs.remove(j).last() == ivs.last());
        assert(s2[j] == ivs[j]);
    }
}

proof fn lemma_mix_sum_multiset(
    a: Seq<Seq<Seq<i64>>>,
    b: Seq<Seq<Seq<i64>>>,
    c: int,
    n: int,
)
    requires
        a.to_multiset() == b.to_multiset(),
    ensures
        mix_sum(a, c, n) == mix_sum(b, c, n),
    decreases a.len(),
{
    a.to_multiset_ensures();
    b.to_multiset_ensures();
    if a.len() == 0 {
        assert(b.len() == 0);
    } else {
        let x = a.last();
        assert(a.contains(x));
        assert(a.to_multiset().count(x) > 0);
        assert(b.contains(x));
        let j = choose|j: int| 0 <= j < b.len() && b[j] == x;
        let a2 = a.drop_last();
        let b2 = b.remove(j);
        assert(a.remove(a.len() - 1) =~= a2);
        assert(a2.to_multiset() =~= a.to_multiset().remove(x));
        assert(b2.to_multiset() =~= b.to_multiset().remove(x));
        lemma_mix_sum_multiset(a2, b2, c, n);
        lemma_mix_sum_remove(b, c, n, j);
    }
}

/// Mixing sees its inputs as a multiset: any rearrangement of the gathered
/// frames yields the same clamped mean, sample for sample.
pub proof fn lemma_mix_sample_multiset(
    a: Seq<Seq<Seq<i64>>>,
    b: Seq<Seq<Seq<i64>>>,
    c: int,
    n: int,
)
    requires
        a.to_multiset() == b.to_multiset(),
    ensures
        mix_sample(a, c, n) == mix_sample(b, c, n),
{
    a.to_multiset_ensures();
    b.to_multiset_ensures();
    lemma_mix_sum_multiset(a, b, c, n);
}

/// Whatever the inputs hold, a mixed sample never leaves the unit range.
pub proof fn lemma_mix_sample_bounded(ivs: Seq<Seq<Seq<i64>>>, c: int, n: int)
    ensures
        -FX_ONE <= mix_sample(ivs, c, n) <= FX_ONE,
{
    if ivs.len() > 0 {
        crate::fx::lemma_clamp_bounds(
            div_trunc(mix_sum(ivs, c, n), ivs.len() as int),
            -FX_ONE as int,
            FX_ONE as int,
        );
    }
}

/// Averages all incoming frames and clamps every sample to the unit range.
pub struct Mixer {}

impl Mixer {
    /// A mixer node. It carries no state.
    pub fn new() -> (r: Mixer) {
        Mixer {  }
    }

    /// One block: every output sample becomes the clamped mean of the
    /// corresponding input samples.
    #[verifier::loop_isolation(false)]
    pub fn process(&mut self, inputs: &Vec<Frame>, output: &mut Frame)
        requires
            inputs_dims_ok(frames_view(inputs@), old(output)@),
        ensures
            same_dims(final(output)@, old(output)@),
            forall|c: int, n: int|
                0 <= c < final(output)@.len() && 0 <= n < final(output)@[c].len()
                    ==> #[trigger] final(output)@[c][n] == mix_sample(frames_view(inputs@), c, n),
    {
        let ghost ivs = frames_view(inputs@);
        let channels = output.num_channels();
        let mut c: usize = 0;
        while c < channels
            invariant
                c <= channels,
                channels == output@.len(),
                same_dims(output@, old(output)@),
                forall|k: int, nn: int|
                    0 <= k < c && 0 <= nn < output@[k].len() ==> #[trigger] output@[k][nn]
                        == mix_sample(ivs, k, nn),
            decreases channels - c,
        {
            let samples = output.channel_len(c);
            let mut n: usize = 0;
            while n < samples
                invariant
                    n <= samples,
                    c < channels,
                    channels == output@.len(),
                    samples == output@[c as int].len(),
                    same_dims(output@, old(output)@),
                    forall|k: int, nn: int|
                        0 <= k < c && 0 <= nn < output@[k].len() ==> #[trigger] output@[k][nn]
                            == mix_sample(ivs, k, nn),
                    forall|nn: int|
                        0 <= nn < n ==> #[trigger] output@[c as int][nn] == mix_sample(
                            ivs,
                            c as int,
                            nn,
                        ),
                decreases samples - n,
            {
                let count = inputs.len();
                let mut acc: i128 = 0;
                let mut i: usize = 0;
                proof {
                    assert(ivs.take(0) =~= Seq::<Seq<Seq<i64>>>::empty());
                }
                while i < count
                    invariant
                        i <= count,
                        count == inputs@.len(),
                        acc == mix_sum(ivs.take(i as int), c as int, n as int),
                        -(i as int) * 0x8000_0000_0000_0000 <= acc <= (i as int)
                            * 0x8000_0000_0000_0000,
                    decreases count - i,
                {
                    let f: &Frame = &inputs[i];
                    proof {
                        assert(ivs[i as int] == f@);
                        assert(same_dims(f@, old(output)@));
                    }
                    let s = f.get(c, n);
                    proof {
                        let pre = ivs.take(i as int);
                        let nxt = ivs.take(i as int + 1);
                        assert(nxt.drop_last() =~= pre);
                        assert(nxt.last() == ivs[i as int]);
                        let b: int = 0x8000_0000_0000_0000;
                        assert((i as int) * b + b == (i as int + 1) * b) by (nonlinear_arith);
                        assert(-((i as int) * b) - b == -((i as int + 1) * b))
                            by (nonlinear_arith);
                    }
                    acc = acc + (s as i128);
                    i += 1;
                }
                proof {
                    assert(ivs.take(count as int) =~= ivs);
                }
                let val: i64 = if count == 0 {
                    0
                } else {
                    proof {
                        let b: int = 0x8000_0000_0000_0000;
                        assert(count as int <= 0xffff_ffff_ffff_ffff);
                        assert((count as int) * b <= 0xffff_ffff_ffff_ffff * b)
                            by (nonlinear_arith)
                            requires
                                count as int <= 0xffff_ffff_ffff_ffff,
                                b == 0x8000_0000_0000_0000,
                        ;
                    }
                    let q = div_trunc_i128(acc, count as i128);
                    if q < -(FX_ONE as i128) {
                        -FX_ONE
                    } else if q > FX_ONE as i128 {
                        FX_ONE
                    } else {
                        q as i64
                    }
                };
                output.set(c, n, val);
                n += 1;
            }
            c += 1;
        }
    }
}

} // verus!
