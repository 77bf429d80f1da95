//! Value types for one block of audio: a [`Buffer`] of mono samples and a
//! [`Frame`] stacking one buffer per channel.

use vstd::prelude::*;

verus! {

/// One block of mono samples in Q47.16 fixed point.
pub struct Buffer {
    data: Vec<i64>,
}

impl View for Buffer {
    type V = Seq<i64>;

    closed spec fn view(&self) -> Seq<i64> {
        self.data@
    }
}

impl Buffer {
    /// A silent buffer: `n` samples, every one zero.
    #[verifier::loop_isolation(false)]
    pub fn silent(n: usize) -> (r: Buffer)
        ensures
            r@.len() == n,
            forall|i: int| 0 <= i < n ==> r@[i] == 0,
    {
        let mut data: Vec<i64> = Vec::with_capacity(n);
        let mut i: usize = 0;
        while i < n
            invariant
                i <= n,
                data@.len() == i,
                forall|j: int| 0 <= j < i ==> data@[j] == 0,
            decreases n - i,
        {
            data.push(0);
            i += 1;
        }
        Buffer { data }
    }

    /// The number of samples in the block.
    pub fn len(&self) -> (r: usize)
        ensures
            r == self@.len(),
    {
        self.data.len()
    }

    /// The sample at index `i`.
    pub fn get(&self, i: usize) -> (r: i64)
        requires
            i < self@.len(),
        ensures
            r == self@[i as int],
    {
        self.data[i]
    }

    /// Overwrites the sample at index `i`.
    pub fn set(&mut self, i: usize, v: i64)
        requires
            i < old(self)@.len(),
        ensures
            final(self)@ == old(self)@.update(i as int, v),
    {
        self.data[i] = v;
    }

    /// Overwrites every sample with zero.
    #[verifier::loop_isolation(false)]
    pub fn fill_silence(&mut self)
        ensures
            final(self)@.len() == old(self)@.len(),
            forall|i: int| 0 <= i < final(self)@.len() ==> final(self)@[i] == 0,
    {
        let n: usize = self.data.len();
        let mut i: usize = 0;
        while i < n
            invariant
                i <= n,
                self.data@.len() == n,
                forall|j: int| 0 <= j < i ==> self.data@[j] == 0,
            decreases n - i,
        {
            self.data[i] = 0;
            i += 1;
        }
    }

    /// A fresh buffer with the same contents.
    pub fn duplicate(&self) -> (r: Buffer)
        ensures
            r@ == self@,
    {
        let mut b = Buffer::silent(self.len());
        b.copy_from(self);
        b
    }

    /// Overwrites this buffer with the contents of `other`.
    #[verifier::loop_isolation(false)]
    pub fn copy_from(&mut self, other: &Buffer)
        requires
            old(self)@.len() == other@.len(),
        ensures
            final(self)@ == other@,
    {
        let n: usize = self.data.len();
        let mut i: usize = 0;
        while i < n
            invariant
                i <= n,
                self.data@.len() == n,
                other@.len() == n,
                forall|j: int| 0 <= j < i ==> self.data@[j] == other@[j],
            decreases n - i,
        {
            self.data[i] = other.get(i);
            i += 1;
        }
        proof {
            assert(self.data@ =~= other@);
        }
    }
}

/// `fv` has exactly `channels` channels of exactly `samples` samples each.
pub open spec fn frame_dims(fv: Seq<Seq<i64>>, channels: int, samples: int) -> bool {
    fv.len() == channels && forall|c: int| 0 <= c < channels ==> #[trigger] fv[c].len() == samples
}

/// `a` and `b` have the same channel count and per-channel sample count.
pub open spec fn same_dims(a: Seq<Seq<i64>>, b: Seq<Seq<i64>>) -> bool {
    a.len() == b.len() && forall|c: int| 0 <= c < a.len() ==> #[trigger] a[c].len() == b[c].len()
}

/// Every frame of `ivs` has the shape of `b`.
pub open spec fn inputs_dims_ok(ivs: Seq<Seq<Seq<i64>>>, b: Seq<Seq<i64>>) -> bool {
    forall|i: int| 0 <= i < ivs.len() ==> same_dims(#[trigger] ivs[i], b)
}

/// The mathematical contents of a sequence of frames.
pub open spec fn frames_view(inputs: Seq<Frame>) -> Seq<Seq<Seq<i64>>> {
    inputs.map_values(|f: Frame| f@)
}

/// A frame: one [`Buffer`] per channel, channel 0 first.
pub struct Frame {
    channels: Vec<Buffer>,
}

impl View for Frame {
    type V = Seq<Seq<i64>>;

    closed spec fn view(&self) -> Seq<Seq<i64>> {
        self.channels@.map_values(|b: Buffer| b@)
    }
}

impl Frame {
    /// A silent frame of `channels` channels with `samples` samples each.
    #[verifier::loop_isolation(false)]
    pub fn silent(channels: usize, samples: usize) -> (r: Frame)
        ensures
            frame_dims(r@, channels as int, samples as int),
            forall|c: int, n: int|
                0 <= c < channels && 0 <= n < samples ==> #[trigger] r@[c][n] == 0,
    {
        let mut chans: Vec<Buffer> = Vec::with_capacity(channels);
        let mut c: usize = 0;
        while c < channels
            invariant
                c <= channels,
                chans@.len() == c,
                forall|k: int| 0 <= k < c ==> (#[trigger] chans@[k])@.len() == samples,
                forall|k: int, n: int|
                    0 <= k < c && 0 <= n < samples ==> #[trigger] chans@[k]@[n] == 0,
            decreases channels - c,
        {
            chans.push(Buffer::silent(samples));
            c += 1;
        }
        Frame { channels: chans }
    }

    /// The number of channels.
    pub fn num_channels(&self) -> (r: usize)
        ensures
            r == self@.len(),
    {
        self.channels.len()
    }

    /// The number of samples per channel. Meaningful only for frames with at
    /// least one channel.
    pub fn num_samples(&self) -> (r: usize)
        requires
            self@.len() > 0,
        ensures
            r == self@[0].len(),
    {
        self.channels[0].len()
    }

    /// The number of samples in channel `c`.
    pub fn channel_len(&self, c: usize) -> (r: usize)
        requires
            c < self@.len(),
        ensures
            r == self@[c as int].len(),
    {
        self.channels[c].len()
    }

    /// The sample at channel `c`, index `n`.
    pub fn get(&self, c: usize, n: usize) -> (r: i64)
        requires
            c < self@.len(),
            n < self@[c as int].len(),
        ensures
            r == self@[c as int][n as int],
    {
        self.channels[c].get(n)
    }

    /// Overwrites the sample at channel `c`, index `n`.
    pub fn set(&mut self, c: usize, n: usize, v: i64)
        requires
            c < old(self)@.len(),
            n < old(self)@[c as int].len(),
        ensures
            final(self)@ == old(self)@.update(c as int, old(self)@[c as int].update(n as int, v)),
    {
        let buf: &mut Buffer = &mut self.channels[c];
        buf.set(n, v);
        proof {
            assert(self@ =~= old(self)@.update(
                c as int,
                old(self)@[c as int].update(n as int, v),
            ));
        }
    }

    /// A fresh frame with the same contents.
    #[verifier::loop_isolation(false)]
    pub fn duplicate(&self) -> (r: Frame)
        ensures
            r@ == self@,
    {
        let cs = self.channels.len();
        let mut chans: Vec<Buffer> = Vec::with_capacity(cs);
        let mut c: usize = 0;
        while c < cs
            invariant
                c <= cs,
                chans@.len() == c,
                forall|k: int| 0 <= k < c ==> (#[trigger] chans@[k])@ == self@[k],
            decreases cs - c,
        {
            chans.push(self.channels[c].duplicate());
            c += 1;
        }
        let r = Frame { channels: chans };
        proof {
            assert(r@ =~= self@);
        }
        r
    }

    /// Overwrites every sample of every channel with zero.
    #[verifier::loop_isolation(false)]
    pub fn fill_silence(&mut self)
        ensures
            final(self)@.len() == old(self)@.len(),
            forall|c: int|
                0 <= c < final(self)@.len() ==> #[trigger] final(self)@[c].len() == old(
                    self,
                )@[c].len(),
            forall|c: int, n: int|
                0 <= c < final(self)@.len() && 0 <= n < final(self)@[c].len()
                    ==> #[trigger] final(self)@[c][n] == 0,
    {
        let cs: usize = self.channels.len();
        let mut c: usize = 0;
        while c < cs
            invariant
                c <= cs,
                self.channels@.len() == cs,
                forall|k: int|
                    0 <= k < cs ==> (#[trigger] self.channels@[k])@.len() == old(
                        self,
                    )@[k].len(),
                forall|k: int, n: int|
                    0 <= k < c && 0 <= n < self.channels@[k]@.len()
                        ==> #[trigger] self.channels@[k]@[n] == 0,
                forall|k: int|
                    c <= k < cs ==> (#[trigger] self.channels@[k])@ == old(self)@[k],
            decreases cs - c,
        {
            let buf: &mut Buffer = &mut self.channels[c];
            buf.fill_silence();
            c += 1;
        }
    }

    /// Overwrites this frame with the contents of `other`, which must have
    /// the same shape.
    #[verifier::loop_isolation(false)]
    pub fn copy_from(&mut self, other: &Frame)
        requires
            old(self)@.len() == other@.len(),
            forall|c: int|
                0 <= c < other@.len() ==> #[trigger] old(self)@[c].len() == other@[c].len(),
        ensures
            final(self)@ == other@,
    {
        let cs: usize = self.channels.len();
        let mut c: usize = 0;
        while c < cs
            invariant
                c <= cs,
                self.channels@.len() == cs,
                other@.len() == cs,
                forall|k: int|
                    0 <= k < cs ==> (#[trigger] self.channels@[k])@.len() == other@[k].len()
                        || k >= c,
                forall|k: int| 0 <= k < c ==> (#[trigger] self.channels@[k])@ == other@[k],
                forall|k: int|
                    c <= k < cs ==> (#[trigger] self.channels@[k])@ == old(self)@[k],
            decreases cs - c,
        {
            proof {
                assert(old(self)@[c as int].len() == other@[c as int].len());
            }
            let buf: &mut Buffer = &mut self.channels[c];
            let src: &Buffer = &other.channels[c];
            proof {
                assert(other@[c as int] == src@);
            }
            buf.copy_from(src);
            c += 1;
        }
        proof {
            assert(self@ =~= other@);
        }
    }
}

} // verus!
