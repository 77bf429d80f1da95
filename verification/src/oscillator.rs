//! Waveform oscillator node.
//!
//! The oscillator keeps a normalized phase in `[0, FX_ONE)` and advances it
//! by a fixed step each sample, wrapping at one whole cycle. The piecewise
//! waveshapes (saw, square, triangle) are exact; the sine shape is the
//! standard parabolic approximation `4q(1-q)` per half cycle, which is exact
//! at every quarter-cycle point and stays within the unit range everywhere.

use vstd::prelude::*;
use crate::buffer::{Frame, same_dims};
use crate::fx::{FX_ONE, FX_HALF};
use vstd::arithmetic::div_mod::{
    lemma_mod_bound,
    lemma_mod_multiples_vanish,
    lemma_div_is_ordered,
    lemma_div_pos_is_pos,
    lemma_div_nonincreasing,
};

verus! {

/// The available waveshapes.
#[derive(Clone, Copy, PartialEq, Eq, Structural, Debug)]
pub enum Wave {
    /// Parabolic-approximated sine.
    SinWave,
    /// Rising sawtooth.
    SawWave,
    /// Symmetric triangle.
    TriangleWave,
    /// Square with equal halves.
    SquareWave,
}

/// The phase after `k` samples: start plus `k` steps, wrapped into one cycle.
pub open spec fn phase_at(p0: int, step: int, k: int) -> int {
    (p0 + k * step) % (FX_ONE as int)
}

/// The amplitude a waveshape produces at a given phase in `[0, FX_ONE)`.
pub open spec fn wave_amp(wave: Wave, p: int) -> int {
    match wave {
        Wave::SinWave => {
            if p <= FX_HALF {
                let q = 2 * p;
                (4 * q * (FX_ONE - q)) / (FX_ONE as int)
            } else {
                let q = 2 * (p - FX_HALF);
                -((4 * q * (FX_ONE - q)) / (FX_ONE as int))
            }
        },
        Wave::SawWave => 2 * p - FX_ONE,
        Wave::TriangleWave => {
            let t = if 2 * p - FX_ONE < 0 {
                FX_ONE - 2 * p
            } else {
                2 * p - FX_ONE
            };
            2 * (t - FX_HALF)
        },
        Wave::SquareWave => if p <= FX_HALF {
            FX_ONE as int
        } else {
            -FX_ONE as int
        },
    }
}

/// Every waveshape stays within the unit amplitude range.
pub proof fn lemma_wave_amp_bounded(wave: Wave, p: int)
    requires
        0 <= p < FX_ONE,
    ensures
        -FX_ONE <= wave_amp(wave, p) <= FX_ONE,
{
    match wave {
        Wave::SinWave => {
            let q = if p <= FX_HALF {
                2 * p
            } else {
                2 * (p - FX_HALF)
            };
            assert(0 <= q <= FX_ONE);
            assert(0 <= 4 * q * (FX_ONE - q) <= FX_ONE * FX_ONE) by (nonlinear_arith)
                requires
                    0 <= q <= FX_ONE,
            ;
            lemma_div_pos_is_pos(4 * q * (FX_ONE - q), FX_ONE as int);
            lemma_div_is_ordered(4 * q * (FX_ONE - q), FX_ONE * FX_ONE, FX_ONE as int);
            assert((FX_ONE * FX_ONE) / (FX_ONE as int) == FX_ONE) by (nonlinear_arith);
        },
        Wave::SawWave => {},
        Wave::TriangleWave => {},
        Wave::SquareWave => {},
    }
}

/// After any number of samples the phase stays inside one cycle.
pub proof fn lemma_phase_in_cycle(p0: int, step: int, k: int)
    ensures
        0 <= phase_at(p0, step, k) < FX_ONE,
{
    lemma_mod_bound(p0 + k * step, FX_ONE as int);
}

/// Generates one waveshape on every channel, advancing the phase per sample.
pub struct Oscillator {
    /// Per-sample phase increment, in cycles scaled by `FX_ONE`.
    step: i64,
    /// Current phase in `[0, FX_ONE)`.
    phase: i64,
    /// The waveshape being generated.
    wave: Wave,
}

impl Oscillator {
    /// The per-sample phase step.
    pub closed spec fn step_spec(self) -> int {
        self.step as int
    }

    /// The current phase.
    pub closed spec fn phase_spec(self) -> int {
        self.phase as int
    }

    /// The selected waveshape.
    pub closed spec fn wave_spec(self) -> Wave {
        self.wave
    }

    /// Phase lies in one cycle and the step never exceeds one cycle per
    /// sample (the frequency does not exceed the sample rate).
    pub open spec fn wf(self) -> bool {
        &&& 0 <= self.phase_spec() < FX_ONE
        &&& 0 <= self.step_spec() <= FX_ONE
    }

    /// An oscillator at `freq_fx` fixed-point hertz for the given sample
    /// rate, with an initial phase and waveshape. The frequency must not
    /// exceed the sample rate.
    pub fn new(freq_fx: i64, sample_rate: u32, phase_fx: i64, wave: Wave) -> (r: Oscillator)
        requires
            sample_rate >= 1,
            0 <= freq_fx <= (sample_rate as i64) * (FX_ONE as i64),
            0 <= phase_fx < FX_ONE,
        ensures
            r.wf(),
            r.wave_spec() == wave,
            r.phase_spec() == phase_fx,
            r.step_spec() == freq_fx as int / sample_rate as int,
    {
        proof {
            lemma_div_pos_is_pos(freq_fx as int, sample_rate as int);
            lemma_div_is_ordered(
                freq_fx as int,
                (sample_rate as int) * (FX_ONE as int),
                sample_rate as int,
            );
            assert(((sample_rate as int) * (FX_ONE as int)) / (sample_rate as int)
                == FX_ONE) by (nonlinear_arith)
                requires
                    sample_rate >= 1,
            ;
        }
        let step: i64 = ((freq_fx as u64) / (sample_rate as u64)) as i64;
        Oscillator { step, phase: phase_fx, wave }
    }

    /// Switches the waveshape.
    pub fn set_wave_form(&mut self, wave: Wave)
        ensures
            final(self).wave_spec() == wave,
            final(self).phase_spec() == old(self).phase_spec(),
            final(self).step_spec() == old(self).step_spec(),
    {
        self.wave = wave;
    }

    /// The amplitude for the current phase.
    fn amp(&self) -> (r: i64)
        requires
            self.wf(),
        ensures
            r == wave_amp(self.wave_spec(), self.phase_spec()),
            -FX_ONE <= r <= FX_ONE,
    {
        proof {
            lemma_wave_amp_bounded(self.wave_spec(), self.phase_spec());
        }
        match self.wave {
            Wave::SinWave => {
                let (base, neg) = if self.phase <= FX_HALF {
                    (self.phase, false)
                } else {
                    (self.phase - FX_HALF, true)
                };
                let q: i64 = 2 * base;
                let prod: i64 = 4 * q * (FX_ONE - q);
                proof {
                    assert(0 <= 4 * (q as int) * (FX_ONE - q as int) <= FX_ONE * FX_ONE)
                        by (nonlinear_arith)
                        requires
                            0 <= q as int <= FX_ONE,
                    ;
                }
                let mag: i64 = ((prod as u64) / 65536u64) as i64;
                proof {
                    lemma_div_pos_is_pos(prod as int, FX_ONE as int);
                    lemma_div_nonincreasing(prod as int, FX_ONE as int);
                }
                if neg {
                    -mag
                } else {
                    mag
                }
            },
            Wave::SawWave => 2 * self.phase - FX_ONE,
            Wave::TriangleWave => {
                let d: i64 = 2 * self.phase - FX_ONE;
                let t: i64 = if d < 0 {
                    -d
                } else {
                    d
                };
                2 * (t - FX_HALF)
            },
            Wave::SquareWave => {
                if self.phase <= FX_HALF {
                    FX_ONE
                } else {
                    -FX_ONE
                }
            },
        }
    }

    /// One sample of state advance: emit the current amplitude, then step
    /// the phase and wrap it into `[0, FX_ONE)`.
    fn tick_osc(&mut self) -> (r: i64)
        requires
            old(self).wf(),
        ensures
            final(self).wf(),
            r == wave_amp(old(self).wave_spec(), old(self).phase_spec()),
            -FX_ONE <= r <= FX_ONE,
            final(self).phase_spec() == (old(self).phase_spec() + old(self).step_spec()) % (
            FX_ONE as int),
            final(self).wave_spec() == old(self).wave_spec(),
            final(self).step_spec() == old(self).step_spec(),
    {
        let sample = self.amp();
        let next: i64 = self.phase + self.step;
        proof {
            let s = next as int;
            if s < FX_ONE {
                vstd::arithmetic::div_mod::lemma_small_mod(s as nat, FX_ONE as nat);
            } else {
                lemma_mod_multiples_vanish(1, s - FX_ONE, FX_ONE as int);
                vstd::arithmetic::div_mod::lemma_small_mod(
                    (s - FX_ONE) as nat,
                    FX_ONE as nat,
                );
            }
        }
        if next >= FX_ONE {
            self.phase = next - FX_ONE;
        } else {
            self.phase = next;
        }
        sample
    }

    /// One block: writes `wave_amp` of the running phase to every channel
    /// identically, advancing the phase once per sample. Incoming audio is
    /// ignored.
    #[verifier::loop_isolation(false)]
    pub fn process(&mut self, _inputs: &Vec<Frame>, output: &mut Frame)
        requires
            old(self).wf(),
            forall|c: int|
                0 <= c < old(output)@.len() ==> #[trigger] old(output)@[c].len() == old(
                    output,
                )@[0].len(),
        ensures
            final(self).wf(),
            final(self).wave_spec() == old(self).wave_spec(),
            final(self).step_spec() == old(self).step_spec(),
            same_dims(final(output)@, old(output)@),
            forall|c: int, n: int|
                0 <= c < final(output)@.len() && 0 <= n < final(output)@[c].len()
                    ==> #[trigger] final(output)@[c][n] == wave_amp(
                    old(self).wave_spec(),
                    phase_at(old(self).phase_spec(), old(self).step_spec(), n),
                ),
            final(self).phase_spec() == phase_at(
                old(self).phase_spec(),
                old(self).step_spec(),
                if old(output)@.len() > 0 { old(output)@[0].len() as int } else { 0 },
            ),
    {
        let channels = output.num_channels();
        if channels == 0 {
            proof {
                assert(phase_at(old(self).phase_spec(), old(self).step_spec(), 0) == old(
                    self,
                ).phase_spec()) by {
                    vstd::arithmetic::div_mod::lemma_small_mod(
                        old(self).phase_spec() as nat,
                        FX_ONE as nat,
                    );
                }
            }
            return ;
        }
        let samples = output.num_samples();
        let mut n: usize = 0;
        proof {
            vstd::arithmetic::div_mod::lemma_small_mod(
                old(self).phase_spec() as nat,
                FX_ONE as nat,
            );
        }
        while n < samples
            invariant
                n <= samples,
                channels == output@.len(),
                channels > 0,
                samples == old(output)@[0].len(),
                self.wf(),
                self.wave_spec() == old(self).wave_spec(),
                self.step_spec() == old(self).step_spec(),
                self.phase_spec() == phase_at(
                    old(self).phase_spec(),
                    old(self).step_spec(),
                    n as int,
                ),
                same_dims(output@, old(output)@),
                forall|cc: int, nn: int|
                    0 <= cc < output@.len() && 0 <= nn < n && nn < output@[cc].len()
                        ==> #[trigger] output@[cc][nn] == wave_amp(
                        old(self).wave_spec(),
                        phase_at(old(self).phase_spec(), old(self).step_spec(), nn),
                    ),
            decreases samples - n,
        {
            let sample = self.tick_osc();
            proof {
                let p0 = old(self).phase_spec();
                let st = old(self).step_spec();
                vstd::arithmetic::div_mod::lemma_add_mod_noop_right(
                    st,
                    p0 + (n as int) * st,
                    FX_ONE as int,
                );
                assert(st + (p0 + (n as int) * st) == p0 + (n as int + 1) * st)
                    by (nonlinear_arith);
            }
            let mut c: usize = 0;
            while c < channels
                invariant
                    c <= channels,
                    n < samples,
                    channels == output@.len(),
                    same_dims(output@, old(output)@),
                    forall|cc: int, nn: int|
                        0 <= cc < output@.len() && 0 <= nn < n && nn < output@[cc].len()
                            ==> #[trigger] output@[cc][nn] == wave_amp(
                            old(self).wave_spec(),
                            phase_at(old(self).phase_spec(), old(self).step_spec(), nn),
                        ),
                    forall|cc: int|
                        0 <= cc < c ==> #[trigger] output@[cc][n as int]
                            == wave_amp(
                            old(self).wave_spec(),
                            phase_at(old(self).phase_spec(), old(self).step_spec(), n as int),
                        ),
                decreases channels - c,
            {
                output.set(c, n, sample);
                c += 1;
            }
            n += 1;
        }
    }
}

} // verus!
