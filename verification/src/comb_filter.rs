//! Feedback comb filter node.
//!
//! Per channel the filter keeps a ring of `L` samples: each step emits the
//! oldest value `y[n]` and feeds back `x[n] + feedback * y[n]`, realising
//! the recurrence `y[n] = x[n - L] + feedback * y[n - L]`.
//!
//! To keep the fixed-point feedback arithmetic total, incoming samples are
//! saturated to `±COMB_INPUT_LIMIT` (an amplitude of 65536, far outside any
//! audible range) before they enter the ring; ring values then provably stay
//! within `±COMB_RING_BOUND`.

use vstd::prelude::*;
use std::collections::VecDeque;
use crate::buffer::{Frame, same_dims};
use crate::fx::{FX_ONE, fx_mul_spec, fx_abs, clamp_spec, fx_mul_unit, clamp64};

verus! {

/// Largest magnitude a sample may have when it enters the ring.
pub const COMB_INPUT_LIMIT: i64 = 0x1_0000_0000;

/// Largest magnitude a ring value can reach.
pub const COMB_RING_BOUND: i64 = 0x1_0000_0000_0000;

/// The saturation applied to each incoming sample.
pub open spec fn comb_clip(x: int) -> int {
    clamp_spec(x, -COMB_INPUT_LIMIT as int, COMB_INPUT_LIMIT as int)
}

/// One step of the feedback ring: emit the head, append
/// `x + feedback * head`.
pub open spec fn comb_push(cur: Seq<int>, x: int, fb: int) -> Seq<int>
    recommends
        cur.len() >= 1,
{
    cur.drop_first().push(x + fx_mul_spec(fb, cur[0]))
}

/// The ring contents after feeding every sample of `x` in turn.
pub open spec fn comb_ring_after(r: Seq<int>, x: Seq<int>, fb: int) -> Seq<int>
    decreases x.len(),
{
    if x.len() == 0 {
        r
    } else {
        comb_push(comb_ring_after(r, x.drop_last(), fb), x.last(), fb)
    }
}

/// The sample the filter emits at step `n`.
pub open spec fn comb_out_at(r: Seq<int>, x: Seq<int>, fb: int, n: int) -> int {
    comb_ring_after(r, x.take(n), fb)[0]
}

/// Feeding a stream keeps the ring length.
pub proof fn lemma_comb_ring_len(r: Seq<int>, x: Seq<int>, fb: int)
    requires
        r.len() >= 1,
    ensures
        comb_ring_after(r, x, fb).len() == r.len(),
    decreases x.len(),
{
    if x.len() > 0 {
        lemma_comb_ring_len(r, x.drop_last(), fb);
    }
}

/// Every ring entry is either a not-yet-drained initial value or the
/// feedback sum of a past input and a past output.
proof fn lemma_comb_ring_entry(r: Seq<int>, x: Seq<int>, fb: int, n: int, k: int)
    requires
        r.len() >= 1,
        0 <= k < r.len(),
        0 <= n <= x.len(),
    ensures
        comb_ring_after(r, x.take(n), fb)[k] == if n + k < r.len() {
            r[n + k]
        } else {
            x[n + k - r.len()] + fx_mul_spec(fb, comb_out_at(r, x, fb, n + k - r.len()))
        },
    decreases n,
{
    let ll = r.len() as int;
    lemma_comb_ring_len(r, x.take(n), fb);
    if n == 0 {
        assert(x.take(0) =~= Seq::<int>::empty());
    } else {
        let prev = comb_ring_after(r, x.take(n - 1), fb);
        lemma_comb_ring_len(r, x.take(n - 1), fb);
        assert(x.take(n).drop_last() =~= x.take(n - 1));
        assert(x.take(n).last() == x[n - 1]);
        assert(comb_ring_after(r, x.take(n), fb) == comb_push(prev, x[n - 1], fb));
        if k < ll - 1 {
            lemma_comb_ring_entry(r, x, fb, n - 1, k + 1);
            assert(comb_ring_after(r, x.take(n), fb)[k] == prev[k + 1]);
        } else {
            assert(comb_ring_after(r, x.take(n), fb)[k] == x[n - 1] + fx_mul_spec(
                fb,
                prev[0],
            ));
            assert(prev[0] == comb_out_at(r, x, fb, n - 1));
        }
    }
}

/// The comb recurrence: while the silent initial ring drains the output is
/// its contents, and from step `L` on, `y[n] = x[n - L] + feedback *
/// y[n - L]`.
pub proof fn lemma_comb_recurrence(r: Seq<int>, x: Seq<int>, fb: int, n: int)
    requires
        r.len() >= 1,
        0 <= n <= x.len(),
    ensures
        comb_out_at(r, x, fb, n) == if n < r.len() {
            r[n]
        } else {
            x[n - r.len()] + fx_mul_spec(fb, comb_out_at(r, x, fb, n - r.len()))
        },
{
    lemma_comb_ring_entry(r, x, fb, n, 0);
}

/// Saturation is the identity on every sample within the limit, so for
/// input streams bounded by `COMB_INPUT_LIMIT` the recurrence speaks of the
/// raw inputs themselves.
pub proof fn lemma_comb_clip_id(x: int)
    requires
        fx_abs(x) <= COMB_INPUT_LIMIT,
    ensures
        comb_clip(x) == x,
{
}

/// A fed-back sample shrinks enough to absorb the next clipped input.
proof fn lemma_comb_feedback_bound(fb: int, y: int)
    requires
        fx_abs(fb) <= FX_ONE - 1,
        fx_abs(y) <= COMB_RING_BOUND,
    ensures
        fx_abs(fx_mul_spec(fb, y)) <= COMB_RING_BOUND - COMB_INPUT_LIMIT,
{
    let one = FX_ONE as int;
    let bb = COMB_RING_BOUND as int;
    crate::fx::lemma_div_trunc_abs_le(fb * y, one);
    assert(fx_abs(fb * y) == fx_abs(fb) * fx_abs(y)) by (nonlinear_arith);
    vstd::arithmetic::mul::lemma_mul_upper_bound(fx_abs(fb), one - 1, fx_abs(y), bb);
    vstd::arithmetic::div_mod::lemma_div_is_ordered(fx_abs(fb * y), (one - 1) * bb, one);
    assert((one - 1) * bb == one * (bb - COMB_INPUT_LIMIT)) by (nonlinear_arith)
        requires
            one == 65536,
            bb == 0x1_0000_0000_0000,
    ;
    vstd::arithmetic::div_mod::lemma_div_by_multiple(bb - COMB_INPUT_LIMIT, one);
    vstd::arithmetic::mul::lemma_mul_is_commutative(one, bb - COMB_INPUT_LIMIT);
}

/// The feedback comb filter.
pub struct CombFilter {
    rings: Vec<VecDeque<i64>>,
    feedback: i64,
}

impl CombFilter {
    /// The ring contents of channel `c` as mathematical integers, oldest
    /// first.
    pub closed spec fn ring(self, c: int) -> Seq<int> {
        self.rings@[c]@.map_values(|v: i64| v as int)
    }

    /// The number of channels this filter serves.
    pub closed spec fn channels_spec(self) -> int {
        self.rings@.len() as int
    }

    /// The fixed-point feedback coefficient.
    pub closed spec fn feedback_spec(self) -> int {
        self.feedback as int
    }

    /// Rings of equal positive length, bounded contents, and a feedback
    /// magnitude strictly below one.
    pub open spec fn wf(self, len: int) -> bool {
        &&& len >= 1
        &&& fx_abs(self.feedback_spec()) <= FX_ONE - 1
        &&& forall|c: int|
            0 <= c < self.channels_spec() ==> (#[trigger] self.ring(c)).len() == len
        &&& forall|c: int, k: int|
            0 <= c < self.channels_spec() && 0 <= k < self.ring(c).len() ==> fx_abs(
                #[trigger] self.ring(c)[k],
            ) <= COMB_RING_BOUND
    }

    /// A comb of `delay_len >= 1` samples on `channels` channels with the
    /// given feedback, `|feedback_fx| < FX_ONE`; the rings start silent.
    #[verifier::loop_isolation(false)]
    pub fn new(delay_len: usize, channels: usize, feedback_fx: i64) -> (r: CombFilter)
        requires
            delay_len >= 1,
            -FX_ONE < feedback_fx < FX_ONE,
        ensures
            r.wf(delay_len as int),
            r.channels_spec() == channels,
            r.feedback_spec() == feedback_fx,
            forall|c: int, k: int|
                0 <= c < channels && 0 <= k < delay_len ==> #[trigger] r.ring(c)[k] == 0,
    {
        let mut rings: Vec<VecDeque<i64>> = Vec::with_capacity(channels);
        let mut c: usize = 0;
        while c < channels
            invariant
                c <= channels,
                rings@.len() == c,
                forall|i: int| 0 <= i < c ==> (#[trigger] rings@[i])@.len() == delay_len,
                forall|i: int, k: int|
                    0 <= i < c && 0 <= k < delay_len ==> #[trigger] rings@[i]@[k] == 0,
            decreases channels - c,
        {
            let mut ring: VecDeque<i64> = VecDeque::with_capacity(delay_len);
            let mut k: usize = 0;
            while k < delay_len
                invariant
                    k <= delay_len,
                    ring@.len() == k,
                    forall|j: int| 0 <= j < k ==> #[trigger] ring@[j] == 0,
                decreases delay_len - k,
            {
                ring.push_back(0);
                k += 1;
            }
            rings.push(ring);
            c += 1;
        }
        CombFilter { rings, feedback: feedback_fx }
    }

    /// One sample on one channel: saturate the input, emit the ring head,
    /// feed back.
    fn tick(&mut self, chan: usize, input: i64) -> (out: i64)
        requires
            chan < old(self).channels_spec(),
            old(self).ring(chan as int).len() >= 1,
            fx_abs(old(self).feedback_spec()) <= FX_ONE - 1,
            forall|k: int|
                0 <= k < old(self).ring(chan as int).len() ==> fx_abs(
                    #[trigger] old(self).ring(chan as int)[k],
                ) <= COMB_RING_BOUND,
        ensures
            final(self).channels_spec() == old(self).channels_spec(),
            final(self).feedback_spec() == old(self).feedback_spec(),
            forall|c: int|
                0 <= c < old(self).channels_spec() && c != chan ==> #[trigger] final(self).ring(
                    c,
                ) == old(self).ring(c),
            final(self).ring(chan as int) == comb_push(
                old(self).ring(chan as int),
                comb_clip(input as int),
                old(self).feedback_spec(),
            ),
            out as int == old(self).ring(chan as int)[0],
            forall|k: int|
                0 <= k < final(self).ring(chan as int).len() ==> fx_abs(
                    #[trigger] final(self).ring(chan as int)[k],
                ) <= COMB_RING_BOUND,
    {
        let fb = self.feedback;
        let clipped = clamp64(input, -COMB_INPUT_LIMIT, COMB_INPUT_LIMIT);
        let ring: &mut VecDeque<i64> = &mut self.rings[chan];
        let out = ring.pop_front().unwrap();
        proof {
            assert(old(self).ring(chan as int)[0] == out as int);
            lemma_comb_feedback_bound(fb as int, out as int);
        }
        let feed: i64 = clipped + fx_mul_unit(fb, out);
        ring.push_back(feed);
        proof {
            let oldring = old(self).ring(chan as int);
            assert(self.ring(chan as int) =~= comb_push(
                oldring,
                comb_clip(input as int),
                fb as int,
            ));
            assert forall|k: int| 0 <= k < self.ring(chan as int).len() implies fx_abs(
                #[trigger] self.ring(chan as int)[k],
            ) <= COMB_RING_BOUND by {
                if k < self.ring(chan as int).len() - 1 {
                    assert(self.ring(chan as int)[k] == oldring[k + 1]);
                }
            }
        }
        out
    }

    /// One block: each output sample is the channel's ring head; the
    /// saturated input plus the fed-back output is pushed behind it.
    #[verifier::loop_isolation(false)]
    pub fn process(&mut self, inputs: &Vec<Frame>, output: &mut Frame)
        requires
            fx_abs(old(self).feedback_spec()) <= FX_ONE - 1,
            forall|c: int|
                0 <= c < old(self).channels_spec() ==> (#[trigger] old(self).ring(c)).len() >= 1,
            forall|c: int, k: int|
                0 <= c < old(self).channels_spec() && 0 <= k < old(self).ring(c).len()
                    ==> fx_abs(#[trigger] old(self).ring(c)[k]) <= COMB_RING_BOUND,
            inputs@.len() >= 1 ==> same_dims(inputs@[0]@, old(output)@),
            inputs@.len() >= 1 ==> old(self).channels_spec() == old(output)@.len(),
        ensures
            final(self).channels_spec() == old(self).channels_spec(),
            final(self).feedback_spec() == old(self).feedback_spec(),
            same_dims(final(output)@, old(output)@),
            inputs@.len() == 0 ==> final(output)@ == old(output)@ && *final(self) == *old(self),
            inputs@.len() >= 1 ==> forall|c: int, n: int|
                0 <= c < final(output)@.len() && 0 <= n < final(output)@[c].len()
                    ==> #[trigger] final(output)@[c][n] == comb_out_at(
                    old(self).ring(c),
                    inputs@[0]@[c].map_values(|v: i64| comb_clip(v as int)),
                    old(self).feedback_spec(),
                    n,
                ),
            inputs@.len() >= 1 ==> forall|c: int|
                0 <= c < old(self).channels_spec() ==> #[trigger] final(self).ring(c)
                    == comb_ring_after(
                    old(self).ring(c),
                    inputs@[0]@[c].map_values(|v: i64| comb_clip(v as int)),
                    old(self).feedback_spec(),
                ),
            forall|c: int, k: int|
                0 <= c < final(self).channels_spec() && 0 <= k < final(self).ring(c).len()
                    ==> fx_abs(#[trigger] final(self).ring(c)[k]) <= COMB_RING_BOUND,
    {
        if inputs.len() == 0 {
            return ;
        }
        let input: &Frame = &inputs[0];
        let channels = output.num_channels();
        let mut c2: usize = 0;
        while c2 < channels
            invariant
                c2 <= channels,
                channels == output@.len(),
                self.channels_spec() == old(self).channels_spec(),
                self.feedback_spec() == old(self).feedback_spec(),
                same_dims(output@, old(output)@),
                forall|cc: int|
                    c2 <= cc < channels ==> #[trigger] self.ring(cc) == old(self).ring(cc),
                forall|cc: int|
                    0 <= cc < c2 ==> #[trigger] self.ring(cc) == comb_ring_after(
                        old(self).ring(cc),
                        inputs@[0]@[cc].map_values(|v: i64| comb_clip(v as int)),
                        old(self).feedback_spec(),
                    ),
                forall|cc: int, k: int|
                    0 <= cc < channels && 0 <= k < self.ring(cc).len() ==> fx_abs(
                        #[trigger] self.ring(cc)[k],
                    ) <= COMB_RING_BOUND,
                forall|cc: int, nn: int|
                    0 <= cc < c2 && 0 <= nn < output@[cc].len() ==> #[trigger] output@[cc][nn]
                        == comb_out_at(
                        old(self).ring(cc),
                        inputs@[0]@[cc].map_values(|v: i64| comb_clip(v as int)),
                        old(self).feedback_spec(),
                        nn,
                    ),
            decreases channels - c2,
        {
            let samples = output.channel_len(c2);
            let ghost stream = inputs@[0]@[c2 as int].map_values(|v: i64| comb_clip(v as int));
            let mut n: usize = 0;
            proof {
                assert(stream.take(0) =~= Seq::<int>::empty());
            }
            while n < samples
                invariant
                    n <= samples,
                    c2 < channels,
                    channels == output@.len(),
                    samples == output@[c2 as int].len(),
                    samples == inputs@[0]@[c2 as int].len(),
                    stream == inputs@[0]@[c2 as int].map_values(|v: i64| comb_clip(v as int)),
                    self.channels_spec() == old(self).channels_spec(),
                    self.feedback_spec() == old(self).feedback_spec(),
                    old(self).ring(c2 as int).len() >= 1,
                    same_dims(output@, old(output)@),
                    forall|cc: int|
                        c2 < cc < channels ==> #[trigger] self.ring(cc) == old(self).ring(cc),
                    forall|cc: int|
                        0 <= cc < c2 ==> #[trigger] self.ring(cc) == comb_ring_after(
                            old(self).ring(cc),
                            inputs@[0]@[cc].map_values(|v: i64| comb_clip(v as int)),
                            old(self).feedback_spec(),
                        ),
                    self.ring(c2 as int) == comb_ring_after(
                        old(self).ring(c2 as int),
                        stream.take(n as int),
                        old(self).feedback_spec(),
                    ),
                    forall|cc: int, k: int|
                        0 <= cc < channels && 0 <= k < self.ring(cc).len() ==> fx_abs(
                            #[trigger] self.ring(cc)[k],
                        ) <= COMB_RING_BOUND,
                    forall|cc: int, nn: int|
                        0 <= cc < c2 && 0 <= nn < output@[cc].len() ==> #[trigger] output@[cc][nn]
                            == comb_out_at(
                            old(self).ring(cc),
                            inputs@[0]@[cc].map_values(|v: i64| comb_clip(v as int)),
                            old(self).feedback_spec(),
                            nn,
                        ),
                    forall|nn: int|
                        0 <= nn < n ==> #[trigger] output@[c2 as int][nn] == comb_out_at(
                            old(self).ring(c2 as int),
                            stream,
                            old(self).feedback_spec(),
                            nn,
                        ),
                decreases samples - n,
            {
                proof {
                    lemma_comb_ring_len(
                        old(self).ring(c2 as int),
                        stream.take(n as int),
                        old(self).feedback_spec(),
                    );
                }
                let x = input.get(c2, n);
                let out = self.tick(c2, x);
                proof {
                    assert(stream.take(n as int + 1).drop_last() =~= stream.take(n as int));
                    assert(stream.take(n as int + 1).last() == stream[n as int]);
                    assert(stream[n as int] == comb_clip(inputs@[0]@[c2 as int][n as int] as int));
                }
                output.set(c2, n, out);
                n += 1;
            }
            proof {
                assert(stream.take(samples as int) =~= stream);
            }
            c2 += 1;
        }
    }
}

} // verus!
