//! Multichannel delay line node.

use vstd::prelude::*;
use std::collections::VecDeque;
use crate::buffer::{Frame, same_dims};

verus! {

/// One sample of ring advance: append the new value, emit the oldest.
pub open spec fn ring_step(r: Seq<i64>, v: i64) -> Seq<i64> {
    r.push(v).drop_first()
}

/// The ring contents after feeding every sample of `x` in turn.
pub open spec fn ring_after(r: Seq<i64>, x: Seq<i64>) -> Seq<i64>
    decreases x.len(),
{
    if x.len() == 0 {
        r
    } else {
        ring_step(ring_after(r, x.drop_last()), x.last())
    }
}

/// The sample a delay line emits at step `n`, given its initial ring `r` and
/// the input stream `x`.
pub open spec fn delay_out_at(r: Seq<i64>, x: Seq<i64>, n: int) -> i64 {
    let cur = ring_after(r, x.take(n));
    if cur.len() > 0 {
        cur[0]
    } else {
        x[n]
    }
}

/// Feeding a stream keeps the ring length.
pub proof fn lemma_ring_after_len(r: Seq<i64>, x: Seq<i64>)
    ensures
        ring_after(r, x).len() == r.len(),
    decreases x.len(),
{
    if x.len() > 0 {
        lemma_ring_after_len(r, x.drop_last());
    }
}

/// Closed form of the ring contents: the last `r.len()` values of the
/// history `r + x`.
pub proof fn lemma_ring_after_closed(r: Seq<i64>, x: Seq<i64>)
    ensures
        ring_after(r, x) =~= (r + x).subrange(x.len() as int, x.len() as int + r.len() as int),
    decreases x.len(),
{
    if x.len() == 0 {
        assert((r + x).subrange(0, r.len() as int) =~= r);
    } else {
        let x2 = x.drop_last();
        lemma_ring_after_closed(r, x2);
        lemma_ring_after_len(r, x2);
        assert(ring_after(r, x) == ring_step(ring_after(r, x2), x.last()));
        assert forall|k: int| 0 <= k < r.len() implies ring_after(r, x)[k] == (r + x)[x.len()
            + k] by {
            if k < r.len() - 1 {
                assert(ring_after(r, x)[k] == ring_after(r, x2)[k + 1]);
                assert(ring_after(r, x2)[k + 1] == (r + x2)[x2.len() + k + 1]);
                assert((r + x2)[x2.len() + k + 1] == (r + x)[x.len() + k]);
            } else {
                assert(ring_after(r, x)[k] == x.last());
            }
        }
        lemma_ring_after_len(r, x);
    }
}

/// The delay-line round trip: with an all-zero initial ring of length `L`,
/// the output at step `n` is the input delayed by `L` samples, with zeros
/// before the stream began.
pub proof fn lemma_delay_round_trip(r: Seq<i64>, x: Seq<i64>, n: int)
    requires
        0 <= n < x.len(),
        forall|k: int| 0 <= k < r.len() ==> r[k] == 0,
    ensures
        delay_out_at(r, x, n) == if n < r.len() {
            0int
        } else {
            x[n - r.len()] as int
        },
{
    lemma_delay_shift(r, x, n);
}

/// The general shift form: the output at step `n` is `r[n]` while the
/// initial ring drains, then `x[n - L]`.
pub proof fn lemma_delay_shift(r: Seq<i64>, x: Seq<i64>, n: int)
    requires
        0 <= n < x.len(),
    ensures
        delay_out_at(r, x, n) == if n < r.len() {
            r[n] as int
        } else {
            x[n - r.len()] as int
        },
{
    let pre = x.take(n);
    lemma_ring_after_closed(r, pre);
    lemma_ring_after_len(r, pre);
    if r.len() > 0 {
        assert(ring_after(r, pre)[0] == (r + pre)[n]);
    }
}

/// Delays every channel by a fixed number of samples, all channels in
/// lockstep. The rings start silent.
pub struct DelayLine {
    rings: Vec<VecDeque<i64>>,
}

impl DelayLine {
    /// The ring contents of channel `c`, oldest first.
    pub closed spec fn ring(self, c: int) -> Seq<i64> {
        self.rings@[c]@
    }

    /// The number of channels this line serves.
    pub closed spec fn channels_spec(self) -> int {
        self.rings@.len() as int
    }

    /// Every channel's ring holds exactly `len` samples.
    pub open spec fn wf(self, len: int) -> bool {
        forall|c: int| 0 <= c < self.channels_spec() ==> (#[trigger] self.ring(c)).len() == len
    }

    /// A delay of `delay_len` samples on `channels` channels, primed with
    /// silence.
    #[verifier::loop_isolation(false)]
    pub fn new(delay_len: usize, channels: usize) -> (r: DelayLine)
        ensures
            r.wf(delay_len as int),
            r.channels_spec() == channels,
            forall|c: int, k: int|
                0 <= c < channels && 0 <= k < delay_len ==> #[trigger] r.ring(c)[k] == 0,
    {
        let mut rings: Vec<VecDeque<i64>> = Vec::with_capacity(channels);
        let mut c: usize = 0;
        while c < channels
            invariant
                c <= channels,
                rings@.len() == c,
                forall|i: int| 0 <= i < c ==> (#[trigger] rings@[i])@.len() == delay_len,
                forall|i: int, k: int|
                    0 <= i < c && 0 <= k < delay_len ==> #[trigger] rings@[i]@[k] == 0,
            decreases channels - c,
        {
            let mut ring: VecDeque<i64> = VecDeque::with_capacity(delay_len);
            let mut k: usize = 0;
            while k < delay_len
                invariant
                    k <= delay_len,
                    ring@.len() == k,
                    forall|j: int| 0 <= j < k ==> #[trigger] ring@[j] == 0,
                decreases delay_len - k,
            {
                ring.push_back(0);
                k += 1;
            }
            rings.push(ring);
            c += 1;
        }
        DelayLine { rings }
    }

    /// One sample on one channel: push the input, pop the oldest.
    fn tick(&mut self, chan: usize, input: i64) -> (out: i64)
        requires
            chan < old(self).channels_spec(),
        ensures
            final(self).channels_spec() == old(self).channels_spec(),
            forall|c: int|
                0 <= c < old(self).channels_spec() && c != chan ==> #[trigger] final(self).ring(
                    c,
                ) == old(self).ring(c),
            final(self).ring(chan as int) == ring_step(old(self).ring(chan as int), input),
            out as int == if old(self).ring(chan as int).len() > 0 {
                old(self).ring(chan as int)[0] as int
            } else {
                input as int
            },
    {
        let ring: &mut VecDeque<i64> = &mut self.rings[chan];
        ring.push_back(input);
        let out = ring.pop_front().unwrap();
        proof {
            assert(self.ring(chan as int) =~= ring_step(old(self).ring(chan as int), input));
        }
        out
    }

    /// One block: each output sample is the channel's ring output for the
    /// corresponding input sample, all channels advancing in lockstep.
    #[verifier::loop_isolation(false)]
    pub fn process(&mut self, inputs: &Vec<Frame>, output: &mut Frame)
        requires
            inputs@.len() >= 1 ==> same_dims(inputs@[0]@, old(output)@),
            inputs@.len() >= 1 ==> old(self).channels_spec() == old(output)@.len(),
        ensures
            final(self).channels_spec() == old(self).channels_spec(),
            same_dims(final(output)@, old(output)@),
            inputs@.len() == 0 ==> final(output)@ == old(output)@ && *final(self) == *old(self),
            inputs@.len() >= 1 ==> forall|c: int, n: int|
                0 <= c < final(output)@.len() && 0 <= n < final(output)@[c].len()
                    ==> #[trigger] final(output)@[c][n] == delay_out_at(
                    old(self).ring(c),
                    inputs@[0]@[c],
                    n,
                ),
            inputs@.len() >= 1 ==> forall|c: int|
                0 <= c < old(self).channels_spec() ==> #[trigger] final(self).ring(c)
                    == ring_after(old(self).ring(c), inputs@[0]@[c]),
    {
        if inputs.len() == 0 {
            return ;
        }
        let input: &Frame = &inputs[0];
        let channels = output.num_channels();
        proof {
            assert forall|cc: int| 0 <= cc < channels implies #[trigger] self.ring(cc)
                == ring_after(old(self).ring(cc), inputs@[0]@[cc].take(0)) by {
                assert(inputs@[0]@[cc].take(0) =~= Seq::<i64>::empty());
            }
        }
        let mut c2: usize = 0;
        while c2 < channels
            invariant
                c2 <= channels,
                channels == output@.len(),
                self.channels_spec() == old(self).channels_spec(),
                same_dims(output@, old(output)@),
                forall|cc: int|
                    c2 <= cc < channels ==> #[trigger] self.ring(cc) == old(self).ring(cc),
                forall|cc: int|
                    0 <= cc < c2 ==> #[trigger] self.ring(cc) == ring_after(
                        old(self).ring(cc),
                        inputs@[0]@[cc],
                    ),
                forall|cc: int, nn: int|
                    0 <= cc < c2 && 0 <= nn < output@[cc].len() ==> #[trigger] output@[cc][nn]
                        == delay_out_at(old(self).ring(cc), inputs@[0]@[cc], nn),
            decreases channels - c2,
        {
            let samples = output.channel_len(c2);
            let mut n: usize = 0;
            proof {
                assert(inputs@[0]@[c2 as int].take(0) =~= Seq::<i64>::empty());
            }
            while n < samples
                invariant
                    n <= samples,
                    c2 < channels,
                    channels == output@.len(),
                    samples == output@[c2 as int].len(),
                    samples == inputs@[0]@[c2 as int].len(),
                    self.channels_spec() == old(self).channels_spec(),
                    same_dims(output@, old(output)@),
                    forall|cc: int|
                        c2 < cc < channels ==> #[trigger] self.ring(cc) == old(self).ring(cc),
                    forall|cc: int|
                        0 <= cc < c2 ==> #[trigger] self.ring(cc) == ring_after(
                            old(self).ring(cc),
                            inputs@[0]@[cc],
                        ),
                    self.ring(c2 as int) == ring_after(
                        old(self).ring(c2 as int),
                        inputs@[0]@[c2 as int].take(n as int),
                    ),
                    forall|cc: int, nn: int|
                        0 <= cc < c2 && 0 <= nn < output@[cc].len() ==> #[trigger] output@[cc][nn]
                            == delay_out_at(old(self).ring(cc), inputs@[0]@[cc], nn),
                    forall|nn: int|
                        0 <= nn < n ==> #[trigger] output@[c2 as int][nn] == delay_out_at(
                            old(self).ring(c2 as int),
                            inputs@[0]@[c2 as int],
                            nn,
                        ),
                decreases samples - n,
            {
                let x = input.get(c2, n);
                let out = self.tick(c2, x);
                proof {
                    let stream = inputs@[0]@[c2 as int];
                    assert(stream.take(n as int + 1).drop_last() =~= stream.take(n as int));
                    assert(stream.take(n as int + 1).last() == stream[n as int]);
                }
                output.set(c2, n, out);
                n += 1;
            }
            proof {
                let stream = inputs@[0]@[c2 as int];
                assert(stream.take(samples as int) =~= stream);
            }
            c2 += 1;
        }
    }
}

} // verus!
