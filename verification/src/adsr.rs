//! ADSR envelope generator node.
//!
//! A five-stage state machine — idle, attack, decay, sustain, release —
//! whose level multiplies the incoming audio samplewise. Stage durations
//! are measured in whole samples; levels are fixed-point amplitudes in
//! `[0, FX_ONE]`.

use vstd::prelude::*;
use crate::bang::Bang;
use crate::buffer::{Frame, same_dims};
use crate::fx::{FX_ONE, fx_mul_spec, fx_abs, fx_mul_unit, lemma_fx_mul_sign, lemma_fx_mul_magnitude};
use vstd::arithmetic::div_mod::{lemma_div_pos_is_pos, lemma_multiply_divide_lt};

verus! {

/// Longest stage duration the envelope accepts, in samples.
pub const MAX_STAGE_SAMPLES: u64 = 0x100_0000_0000;

/// The envelope's stages.
#[derive(Clone, Copy, PartialEq, Eq, Structural, Debug)]
pub enum Stage {
    /// Silent, waiting for a note.
    Idle,
    /// Level rising from 0 to 1.
    Attack,
    /// Level falling from 1 to the sustain level.
    Decay,
    /// Level held at the sustain level.
    Sustain,
    /// Level falling from the captured level to 0.
    Release,
}

/// `min(t / dur, 1)` in fixed point.
pub open spec fn stage_ratio(t: int, dur: int) -> int
    recommends
        dur >= 1,
{
    if t >= dur {
        FX_ONE as int
    } else {
        (t * FX_ONE) / dur
    }
}

/// The envelope generator.
pub struct Adsr {
    attack_samples: u64,
    decay_samples: u64,
    sustain_samples: u64,
    release_samples: u64,
    sustain_level: i64,
    stage: Stage,
    t: u64,
    release_start_level: i64,
}

impl Adsr {
    /// The attack duration in samples.
    pub closed spec fn attack(self) -> int {
        self.attack_samples as int
    }

    /// The decay duration in samples.
    pub closed spec fn decay(self) -> int {
        self.decay_samples as int
    }

    /// The sustain hold in samples; zero holds until note-off.
    pub closed spec fn sustain_hold(self) -> int {
        self.sustain_samples as int
    }

    /// The release duration in samples.
    pub closed spec fn release(self) -> int {
        self.release_samples as int
    }

    /// The sustain level.
    pub closed spec fn sustain(self) -> int {
        self.sustain_level as int
    }

    /// The current stage.
    pub closed spec fn stage_spec(self) -> Stage {
        self.stage
    }

    /// Samples spent in the current stage.
    pub closed spec fn t_spec(self) -> int {
        self.t as int
    }

    /// The level captured when the release began.
    pub closed spec fn release_start(self) -> int {
        self.release_start_level as int
    }

    /// Structural invariant: positive bounded durations, unit-range levels,
    /// and a stage timer that never overruns its stage.
    pub open spec fn wf(self) -> bool {
        &&& 1 <= self.attack() <= MAX_STAGE_SAMPLES
        &&& 1 <= self.decay() <= MAX_STAGE_SAMPLES
        &&& 1 <= self.release() <= MAX_STAGE_SAMPLES
        &&& 0 <= self.sustain_hold() <= MAX_STAGE_SAMPLES
        &&& 0 <= self.sustain() <= FX_ONE
        &&& 0 <= self.release_start() <= FX_ONE
        &&& self.stage_spec() == Stage::Attack ==> self.t_spec() < self.attack()
        &&& self.stage_spec() == Stage::Decay ==> self.t_spec() < self.decay()
        &&& self.stage_spec() == Stage::Release ==> self.t_spec() < self.release()
        &&& (self.stage_spec() == Stage::Sustain && self.sustain_hold() > 0)
            ==> self.t_spec() < self.sustain_hold()
    }

    /// The envelope level before the timer advances.
    pub open spec fn level_spec(self) -> int {
        match self.stage_spec() {
            Stage::Idle => 0,
            Stage::Attack => stage_ratio(self.t_spec(), self.attack()),
            Stage::Decay => FX_ONE + fx_mul_spec(
                self.sustain() - FX_ONE,
                stage_ratio(self.t_spec(), self.decay()),
            ),
            Stage::Sustain => self.sustain(),
            Stage::Release => fx_mul_spec(
                self.release_start(),
                FX_ONE - stage_ratio(self.t_spec(), self.release()),
            ),
        }
    }

    /// The state after one sample: the timer advances, then the stage
    /// transitions fire.
    pub closed spec fn step_spec(self) -> Adsr {
        let t2 = if self.t_spec() < u64::MAX {
            self.t_spec() + 1
        } else {
            self.t_spec()
        };
        match self.stage_spec() {
            Stage::Idle => self,
            Stage::Attack => {
                if t2 >= self.attack() {
                    Adsr { stage: Stage::Decay, t: 0, ..self }
                } else {
                    Adsr { t: t2 as u64, ..self }
                }
            },
            Stage::Decay => {
                if t2 >= self.decay() {
                    if self.sustain_hold() > 0 {
                        Adsr { stage: Stage::Sustain, t: 0, ..self }
                    } else {
                        Adsr { stage: Stage::Sustain, t: t2 as u64, ..self }
                    }
                } else {
                    Adsr { t: t2 as u64, ..self }
                }
            },
            Stage::Sustain => {
                if self.sustain_hold() > 0 && t2 >= self.sustain_hold() {
                    Adsr {
                        stage: Stage::Release,
                        t: 0,
                        release_start_level: self.sustain_level,
                        ..self
                    }
                } else {
                    Adsr { t: t2 as u64, ..self }
                }
            },
            Stage::Release => {
                if t2 >= self.release() {
                    Adsr { stage: Stage::Idle, t: 0, ..self }
                } else {
                    Adsr { t: t2 as u64, ..self }
                }
            },
        }
    }

    /// The state after `k` samples.
    pub open spec fn after_spec(self, k: int) -> Adsr
        decreases k,
    {
        if k <= 0 {
            self
        } else {
            self.after_spec(k - 1).step_spec()
        }
    }

    /// The state after a note-on or note-off trigger.
    pub closed spec fn trigger_spec(self) -> Adsr {
        if self.stage_spec() == Stage::Idle {
            Adsr { stage: Stage::Attack, t: 0, ..self }
        } else {
            Adsr {
                stage: Stage::Release,
                t: 0,
                release_start_level: self.level_spec() as i64,
                ..self
            }
        }
    }

    /// One trigger preserves the invariant.
    pub proof fn lemma_trigger_wf(self)
        requires
            self.wf(),
        ensures
            self.trigger_spec().wf(),
    {
        self.lemma_level_bounded();
    }

    /// The state after one block of control events: every `Pulse`, in slot
    /// order, triggers in turn; everything else is ignored.
    pub open spec fn trigger_fold(self, inputs: Seq<Bang>) -> Adsr
        decreases inputs.len(),
    {
        if inputs.len() == 0 {
            self
        } else {
            let prev = self.trigger_fold(inputs.drop_last());
            if inputs.last() == Bang::Pulse {
                prev.trigger_spec()
            } else {
                prev
            }
        }
    }

    /// Any block of control events preserves the invariant.
    pub proof fn lemma_trigger_fold_wf(self, inputs: Seq<Bang>)
        requires
            self.wf(),
        ensures
            self.trigger_fold(inputs).wf(),
        decreases inputs.len(),
    {
        if inputs.len() > 0 {
            self.lemma_trigger_fold_wf(inputs.drop_last());
            self.trigger_fold(inputs.drop_last()).lemma_trigger_wf();
        }
    }

    /// An idle envelope with durations in samples and a sustain level in
    /// `[0, FX_ONE]`.
    pub fn new(
        attack_samples: u64,
        decay_samples: u64,
        sustain_samples: u64,
        release_samples: u64,
        sustain_level: i64,
    ) -> (r: Adsr)
        requires
            1 <= attack_samples <= MAX_STAGE_SAMPLES,
            1 <= decay_samples <= MAX_STAGE_SAMPLES,
            sustain_samples <= MAX_STAGE_SAMPLES,
            1 <= release_samples <= MAX_STAGE_SAMPLES,
            0 <= sustain_level <= FX_ONE,
        ensures
            r.wf(),
            r.stage_spec() == Stage::Idle,
            r.t_spec() == 0,
            r.attack() == attack_samples,
            r.decay() == decay_samples,
            r.sustain_hold() == sustain_samples,
            r.release() == release_samples,
            r.sustain() == sustain_level,
            r.release_start() == 0,
    {
        Adsr {
            attack_samples,
            decay_samples,
            sustain_samples,
            release_samples,
            sustain_level,
            stage: Stage::Idle,
            t: 0,
            release_start_level: 0,
        }
    }

    /// The envelope level always stays inside the unit range.
    pub proof fn lemma_level_bounded(self)
        requires
            self.wf(),
        ensures
            0 <= self.level_spec() <= FX_ONE,
    {
        let one = FX_ONE as int;
        match self.stage_spec() {
            Stage::Idle => {},
            Stage::Attack => {
                Self::lemma_ratio_bounds(self.t_spec(), self.attack());
            },
            Stage::Decay => {
                Self::lemma_ratio_bounds(self.t_spec(), self.decay());
                let f = stage_ratio(self.t_spec(), self.decay());
                lemma_fx_mul_sign(self.sustain() - one, f);
                lemma_fx_mul_magnitude(self.sustain() - one, f);
            },
            Stage::Sustain => {},
            Stage::Release => {
                Self::lemma_ratio_bounds(self.t_spec(), self.release());
                let f = stage_ratio(self.t_spec(), self.release());
                lemma_fx_mul_sign(self.release_start(), one - f);
                lemma_fx_mul_magnitude(self.release_start(), one - f);
                assert(fx_abs(one - f) <= one);
            },
        }
    }

    /// `stage_ratio` stays inside the unit range.
    proof fn lemma_ratio_bounds(t: int, dur: int)
        requires
            t >= 0,
            dur >= 1,
        ensures
            0 <= stage_ratio(t, dur) <= FX_ONE,
    {
        if t < dur {
            lemma_div_pos_is_pos(t * FX_ONE, dur);
            vstd::arithmetic::mul::lemma_mul_nonnegative(t, FX_ONE as int);
            assert(t * FX_ONE < dur * FX_ONE) by (nonlinear_arith)
                requires
                    0 <= t < dur,
            ;
            lemma_multiply_divide_lt(t * FX_ONE, dur, FX_ONE as int);
        }
    }

    /// One step preserves the invariant and every parameter.
    pub proof fn lemma_step_wf(self)
        requires
            self.wf(),
        ensures
            self.step_spec().wf(),
            self.step_spec().attack() == self.attack(),
            self.step_spec().decay() == self.decay(),
            self.step_spec().sustain_hold() == self.sustain_hold(),
            self.step_spec().release() == self.release(),
            self.step_spec().sustain() == self.sustain(),
    {
    }

    /// Any number of steps preserves the invariant.
    pub proof fn lemma_after_wf(self, k: int)
        requires
            self.wf(),
        ensures
            self.after_spec(k).wf(),
        decreases k,
    {
        if k > 0 {
            self.lemma_after_wf(k - 1);
            self.after_spec(k - 1).lemma_step_wf();
        }
    }

    /// Any number of steps preserves every envelope parameter.
    pub proof fn lemma_after_params(self, k: int)
        ensures
            self.after_spec(k).attack() == self.attack(),
            self.after_spec(k).decay() == self.decay(),
            self.after_spec(k).sustain_hold() == self.sustain_hold(),
            self.after_spec(k).release() == self.release(),
            self.after_spec(k).sustain() == self.sustain(),
        decreases k,
    {
        if k > 0 {
            self.lemma_after_params(k - 1);
        }
    }

    /// The attack ramp: for the whole attack after a note-on the envelope
    /// stays in the attack stage with its timer at the sample count, so its
    /// level is `min(k / attack, 1)`; at the end the decay begins from the
    /// top.
    pub proof fn lemma_attack_trajectory(self, k: int)
        requires
            self.wf(),
            self.stage_spec() == Stage::Attack,
            self.t_spec() == 0,
            0 <= k <= self.attack(),
        ensures
            k < self.attack() ==> {
                &&& self.after_spec(k).stage_spec() == Stage::Attack
                &&& self.after_spec(k).t_spec() == k
                &&& self.after_spec(k).level_spec() == stage_ratio(k, self.attack())
            },
            k == self.attack() ==> {
                &&& self.after_spec(k).stage_spec() == Stage::Decay
                &&& self.after_spec(k).t_spec() == 0
                &&& self.after_spec(k).level_spec() == FX_ONE
            },
        decreases k,
    {
        self.lemma_after_params(k);
        if k > 0 {
            self.lemma_attack_trajectory(k - 1);
            self.lemma_after_params(k - 1);
        }
        assert((self.sustain() - FX_ONE) * 0 == 0) by (nonlinear_arith);
        assert(fx_mul_spec(self.sustain() - FX_ONE, 0) == 0);
        assert(0 * (FX_ONE as int) == 0) by (nonlinear_arith);
    }

    /// The decay ramp: for the whole decay the envelope stays in the decay
    /// stage with its timer at the sample count, falling from the top
    /// toward the sustain level, where it then holds.
    pub proof fn lemma_decay_trajectory(self, k: int)
        requires
            self.wf(),
            self.stage_spec() == Stage::Decay,
            self.t_spec() == 0,
            0 <= k <= self.decay(),
        ensures
            k < self.decay() ==> {
                &&& self.after_spec(k).stage_spec() == Stage::Decay
                &&& self.after_spec(k).t_spec() == k
                &&& self.after_spec(k).level_spec() == FX_ONE + fx_mul_spec(
                    self.sustain() - FX_ONE,
                    stage_ratio(k, self.decay()),
                )
            },
            k == self.decay() ==> {
                &&& self.after_spec(k).stage_spec() == Stage::Sustain
                &&& self.after_spec(k).level_spec() == self.sustain()
            },
        decreases k,
    {
        self.lemma_after_params(k);
        if k > 0 {
            self.lemma_decay_trajectory(k - 1);
            self.lemma_after_params(k - 1);
        }
    }

    /// An infinite hold: with a zero sustain time the envelope stays at the
    /// sustain level for any number of samples, until a note-off.
    pub proof fn lemma_sustain_holds(self, k: int)
        requires
            self.wf(),
            self.stage_spec() == Stage::Sustain,
            self.sustain_hold() == 0,
            0 <= k,
        ensures
            self.after_spec(k).stage_spec() == Stage::Sustain,
            self.after_spec(k).level_spec() == self.sustain(),
        decreases k,
    {
        self.lemma_after_params(k);
        if k > 0 {
            self.lemma_sustain_holds(k - 1);
            self.lemma_after_params(k - 1);
        }
    }

    /// The release ramp: for the whole release the envelope stays in the
    /// release stage with its timer at the sample count, falling linearly
    /// from the captured level to silence, where it goes idle.
    pub proof fn lemma_release_trajectory(self, k: int)
        requires
            self.wf(),
            self.stage_spec() == Stage::Release,
            self.t_spec() == 0,
            0 <= k <= self.release(),
        ensures
            k < self.release() ==> {
                &&& self.after_spec(k).stage_spec() == Stage::Release
                &&& self.after_spec(k).t_spec() == k
                &&& self.after_spec(k).release_start() == self.release_start()
                &&& self.after_spec(k).level_spec() == fx_mul_spec(
                    self.release_start(),
                    FX_ONE - stage_ratio(k, self.release()),
                )
            },
            k == self.release() ==> {
                &&& self.after_spec(k).stage_spec() == Stage::Idle
                &&& self.after_spec(k).level_spec() == 0
            },
        decreases k,
    {
        self.lemma_after_params(k);
        if k > 0 {
            self.lemma_release_trajectory(k - 1);
            self.lemma_after_params(k - 1);
        }
    }

    /// The current level, in `[0, FX_ONE]`.
    fn level(&self) -> (r: i64)
        requires
            self.wf(),
        ensures
            r == self.level_spec(),
            0 <= r <= FX_ONE,
    {
        proof {
            self.lemma_level_bounded();
        }
        match self.stage {
            Stage::Idle => 0,
            Stage::Attack => Self::ratio(self.t, self.attack_samples),
            Stage::Decay => {
                let f = Self::ratio(self.t, self.decay_samples);
                let drop: i64 = fx_mul_unit(self.sustain_level - FX_ONE, f);
                proof {
                    lemma_fx_mul_sign(self.sustain() - FX_ONE, f as int);
                    lemma_fx_mul_magnitude(self.sustain() - FX_ONE, f as int);
                }
                FX_ONE + drop
            },
            Stage::Sustain => self.sustain_level,
            Stage::Release => {
                let f = Self::ratio(self.t, self.release_samples);
                fx_mul_unit(self.release_start_level, FX_ONE - f)
            },
        }
    }

    /// `min(t / dur, 1)` in fixed point.
    fn ratio(t: u64, dur: u64) -> (r: i64)
        requires
            1 <= dur <= MAX_STAGE_SAMPLES,
        ensures
            r == stage_ratio(t as int, dur as int),
            0 <= r <= FX_ONE,
    {
        proof {
            Self::lemma_ratio_bounds(t as int, dur as int);
        }
        if t >= dur {
            FX_ONE
        } else {
            ((t * 65536u64) / dur) as i64
        }
    }

    /// One sample of state advance.
    fn step(&mut self)
        requires
            old(self).wf(),
        ensures
            *final(self) == old(self).step_spec(),
            final(self).wf(),
    {
        proof {
            old(self).lemma_step_wf();
        }
        let t2: u64 = if self.t < u64::MAX {
            self.t + 1
        } else {
            self.t
        };
        match self.stage {
            Stage::Idle => {},
            Stage::Attack => {
                if t2 >= self.attack_samples {
                    self.stage = Stage::Decay;
                    self.t = 0;
                } else {
                    self.t = t2;
                }
            },
            Stage::Decay => {
                if t2 >= self.decay_samples {
                    self.stage = Stage::Sustain;
                    if self.sustain_samples > 0 {
                        self.t = 0;
                    } else {
                        self.t = t2;
                    }
                } else {
                    self.t = t2;
                }
            },
            Stage::Sustain => {
                if self.sustain_samples > 0 && t2 >= self.sustain_samples {
                    self.stage = Stage::Release;
                    self.t = 0;
                    self.release_start_level = self.sustain_level;
                } else {
                    self.t = t2;
                }
            },
            Stage::Release => {
                if t2 >= self.release_samples {
                    self.stage = Stage::Idle;
                    self.t = 0;
                } else {
                    self.t = t2;
                }
            },
        }
    }

    /// One block: every output sample is the input scaled by the envelope
    /// level at that sample, and the state machine advances once per sample.
    /// With no input at all, nothing happens.
    #[verifier::loop_isolation(false)]
    pub fn process(&mut self, inputs: &Vec<Frame>, output: &mut Frame)
        requires
            old(self).wf(),
            inputs@.len() >= 1 ==> same_dims(inputs@[0]@, old(output)@),
            forall|c: int|
                0 <= c < old(output)@.len() ==> #[trigger] old(output)@[c].len() == old(
                    output,
                )@[0].len(),
        ensures
            final(self).wf(),
            same_dims(final(output)@, old(output)@),
            inputs@.len() == 0 ==> final(output)@ == old(output)@ && *final(self) == *old(self),
            inputs@.len() >= 1 ==> forall|c: int, n: int|
                0 <= c < final(output)@.len() && 0 <= n < final(output)@[c].len()
                    ==> #[trigger] final(output)@[c][n] == fx_mul_spec(
                    old(self).after_spec(n).level_spec(),
                    inputs@[0]@[c][n] as int,
                ),
            inputs@.len() >= 1 ==> *final(self) == old(self).after_spec(
                if old(output)@.len() > 0 {
                    old(output)@[0].len() as int
                } else {
                    0
                },
            ),
    {
        if inputs.len() == 0 {
            return ;
        }
        let input: &Frame = &inputs[0];
        let channels = output.num_channels();
        if channels == 0 {
            return ;
        }
        let samples = output.num_samples();
        let mut n: usize = 0;
        while n < samples
            invariant
                n <= samples,
                channels == output@.len(),
                channels > 0,
                samples == old(output)@[0].len(),
                self.wf(),
                *self == old(self).after_spec(n as int),
                same_dims(output@, old(output)@),
                forall|cc: int, nn: int|
                    0 <= cc < output@.len() && 0 <= nn < n && nn < output@[cc].len()
                        ==> #[trigger] output@[cc][nn] == fx_mul_spec(
                        old(self).after_spec(nn).level_spec(),
                        inputs@[0]@[cc][nn] as int,
                    ),
            decreases samples - n,
        {
            let level = self.level();
            let mut c: usize = 0;
            while c < channels
                invariant
                    c <= channels,
                    n < samples,
                    channels == output@.len(),
                    level == old(self).after_spec(n as int).level_spec(),
                    same_dims(output@, old(output)@),
                    forall|cc: int, nn: int|
                        0 <= cc < output@.len() && 0 <= nn < n && nn < output@[cc].len()
                            ==> #[trigger] output@[cc][nn] == fx_mul_spec(
                            old(self).after_spec(nn).level_spec(),
                            inputs@[0]@[cc][nn] as int,
                        ),
                    forall|cc: int|
                        0 <= cc < c ==> #[trigger] output@[cc][n as int] == fx_mul_spec(
                            old(self).after_spec(n as int).level_spec(),
                            inputs@[0]@[cc][n as int] as int,
                        ),
                decreases channels - c,
            {
                let x = input.get(c, n);
                let val = fx_mul_unit(level, x);
                output.set(c, n, val);
                c += 1;
            }
            self.step();
            n += 1;
        }
    }

    /// One block of control events: a `Pulse` in any slot, in slot order,
    /// starts the attack from idle or releases from any other stage at the
    /// level current at that moment; no event is emitted.
    #[verifier::loop_isolation(false)]
    pub fn handle_bang(&mut self, inputs: &Vec<Bang>, output: &mut Bang)
        requires
            old(self).wf(),
        ensures
            final(self).wf(),
            *final(output) == Bang::Empty,
            *final(self) == old(self).trigger_fold(inputs@),
    {
        let m = inputs.len();
        let mut i: usize = 0;
        proof {
            assert(inputs@.take(0) =~= Seq::<Bang>::empty());
        }
        while i < m
            invariant
                i <= m,
                self.wf(),
                *self == old(self).trigger_fold(inputs@.take(i as int)),
            decreases m - i,
        {
            match inputs[i] {
                Bang::Pulse => {
                    match self.stage {
                        Stage::Idle => {
                            self.stage = Stage::Attack;
                            self.t = 0;
                        },
                        _ => {
                            proof {
                                let ghost cur = *self;
                                cur.lemma_level_bounded();
                            }
                            let current = self.level();
                            self.release_start_level = current;
                            self.stage = Stage::Release;
                            self.t = 0;
                        },
                    }
                },
                _ => {},
            }
            proof {
                assert(inputs@.take(i as int + 1).drop_last() =~= inputs@.take(i as int));
                assert(inputs@.take(i as int + 1).last() == inputs@[i as int]);
            }
            i += 1;
        }
        proof {
            assert(inputs@.take(m as int) =~= inputs@);
        }
        *output = Bang::Empty;
    }
}

} // verus!
