//! Block-resolution clock node.
//!
//! The clock accumulates elapsed samples once per block and emits a `Pulse`
//! whenever a whole tick period has passed, keeping the fractional
//! overshoot. Control input 0 toggles or sets whether it is ticking;
//! control input 1 rewrites the tick period in seconds.

use vstd::prelude::*;
use crate::bang::Bang;
use crate::fx::{FX_ONE, FX_HALF};

verus! {

/// Whether the clock is ticking after one block of control input.
pub open spec fn clock_ticking_after(tick: bool, inputs: Seq<Bang>) -> bool {
    if inputs.len() >= 1 {
        match inputs[0] {
            Bang::Pulse => !tick,
            Bang::BoolVal(v) => v,
            _ => tick,
        }
    } else {
        tick
    }
}

/// The tick period in samples that a control value requests: seconds times
/// the sample rate, rounded half-up for fixed-point seconds and saturated
/// to the `u64` range.
pub open spec fn clock_period_from(secs_fx: int, sample_rate: int) -> int {
    if secs_fx < 0 {
        0
    } else {
        let p = (secs_fx * sample_rate + FX_HALF) / (FX_ONE as int);
        if p > u64::MAX {
            u64::MAX as int
        } else {
            p
        }
    }
}

/// The tick period after one block of control input.
pub open spec fn clock_period_after(period: int, sample_rate: int, inputs: Seq<Bang>) -> int {
    if inputs.len() >= 2 {
        match inputs[1] {
            Bang::FxVal(s) => clock_period_from(s as int, sample_rate),
            Bang::U32Val(sec) => (sec as int) * sample_rate,
            _ => period,
        }
    } else {
        period
    }
}

/// Accumulator and pulse count after `k` ticking blocks of `n` samples with
/// a fixed period and no control input.
pub open spec fn clock_run(period: int, n: int, accum: int, k: int) -> (int, int)
    decreases k,
{
    if k <= 0 {
        (accum, 0)
    } else {
        let prev = clock_run(period, n, accum, k - 1);
        let s = prev.0 + n;
        if s >= period {
            (s - period, prev.1 + 1)
        } else {
            (s, prev.1)
        }
    }
}

/// Clock periodicity: over `k` blocks of `n` samples, the number of emitted
/// pulses differs from `floor(k * n / period)` by at most one.
pub proof fn lemma_clock_periodicity(period: int, n: int, accum: int, k: int)
    requires
        1 <= n <= period,
        0 <= accum < period,
        k >= 0,
    ensures
        0 <= clock_run(period, n, accum, k).0 < period,
        (k * n) / period <= clock_run(period, n, accum, k).1 <= (k * n) / period + 1,
        clock_run(period, n, accum, k).1 * period == accum + k * n - clock_run(
            period,
            n,
            accum,
            k,
        ).0,
    decreases k,
{
    if k == 0 {
        assert(0 * n == 0) by (nonlinear_arith);
        vstd::arithmetic::div_mod::lemma_div_pos_is_pos(0, period);
    } else {
        lemma_clock_periodicity(period, n, accum, k - 1);
        let prev = clock_run(period, n, accum, k - 1);
        let cur = clock_run(period, n, accum, k);
        assert((k - 1) * n + n == k * n) by (nonlinear_arith);
        if prev.0 + n >= period {
            assert(cur.1 * period == prev.1 * period + period) by (nonlinear_arith)
                requires
                    cur.1 == prev.1 + 1,
            ;
        }
        // exact identity gives the floor bounds
        assert(cur.1 * period == accum + k * n - cur.0);
        let p = cur.1;
        let kn = k * n;
        vstd::arithmetic::mul::lemma_mul_nonnegative(k, n);
        assert(p * period > kn - period);
        assert(p * period < kn + period);
        assert(kn < period * (p + 1)) by (nonlinear_arith)
            requires
                p * period > kn - period,
        ;
        vstd::arithmetic::div_mod::lemma_multiply_divide_lt(kn, period, p + 1);
        vstd::arithmetic::div_mod::lemma_fundamental_div_mod(kn, period);
        vstd::arithmetic::div_mod::lemma_mod_bound(kn, period);
        assert(p * period < period * (kn / period) + kn % period + period);
        assert(p < kn / period + 2) by (nonlinear_arith)
            requires
                p * period < period * (kn / period) + kn % period + period,
                0 <= kn % period < period,
                period >= 1,
        ;
    }
}

/// One more block extends a run by exactly one accumulate-and-fire step —
/// the same step [`Clock::handle_bang`]'s contract takes, so chaining its
/// calls block by block walks [`clock_run`].
pub proof fn lemma_clock_run_step(period: int, n: int, accum: int, k: int)
    requires
        k >= 0,
    ensures
        clock_run(period, n, accum, k + 1) == ({
            let prev = clock_run(period, n, accum, k);
            let s = prev.0 + n;
            if s >= period {
                (s - period, prev.1 + 1)
            } else {
                (s, prev.1)
            }
        }),
{
}

/// With the accumulator inside one period and a block no longer than the
/// period, a ticking control-free block never reaches the saturation guard:
/// its accumulator update and pulse are exactly one [`clock_run`] step.
pub proof fn lemma_clock_block_is_run_step(period: int, n: int, accum: int)
    requires
        1 <= n <= period,
        0 <= accum < period,
        period <= u64::MAX,
    ensures
        ({
            let s = accum + n;
            &&& clock_run(period, n, accum, 1) == (if s >= period {
                (s - period, 1int)
            } else {
                (s, 0int)
            })
            &&& s >= period ==> 0 <= s - period && s - period <= u64::MAX
        }),
{
    assert(clock_run(period, n, accum, 0) == (accum, 0int));
}

/// The clock node.
pub struct Clock {
    sample_rate: u32,
    block_size: u64,
    is_ticking: bool,
    tick_period_samples: u64,
    samples_accum: u64,
}

impl Clock {
    /// The sample rate the clock was built for.
    pub closed spec fn sample_rate_spec(self) -> int {
        self.sample_rate as int
    }

    /// The samples each block advances the accumulator by.
    pub closed spec fn block_size_spec(self) -> int {
        self.block_size as int
    }

    /// Whether the clock is ticking.
    pub closed spec fn ticking_spec(self) -> bool {
        self.is_ticking
    }

    /// The tick period in samples.
    pub closed spec fn period_spec(self) -> int {
        self.tick_period_samples as int
    }

    /// The accumulated samples since the last pulse.
    pub closed spec fn accum_spec(self) -> int {
        self.samples_accum as int
    }

    /// A ticking clock with the given period in samples.
    pub fn new(sample_rate: u32, block_size: u64, period_samples: u64) -> (r: Clock)
        ensures
            r.sample_rate_spec() == sample_rate,
            r.block_size_spec() == block_size,
            r.ticking_spec(),
            r.period_spec() == period_samples,
            r.accum_spec() == 0,
    {
        Clock {
            sample_rate,
            block_size,
            is_ticking: true,
            tick_period_samples: period_samples,
            samples_accum: 0,
        }
    }

    /// One block of control events: input 0 toggles or sets ticking, input
    /// 1 rewrites the period in seconds; when ticking, the accumulator
    /// advances by one block and a `Pulse` is emitted whenever it reaches
    /// the period, which is then subtracted (the overshoot is kept,
    /// saturating only at the very top of the `u64` range).
    pub fn handle_bang(&mut self, inputs: &Vec<Bang>, output: &mut Bang)
        ensures
            final(self).sample_rate_spec() == old(self).sample_rate_spec(),
            final(self).block_size_spec() == old(self).block_size_spec(),
            final(self).ticking_spec() == clock_ticking_after(
                old(self).ticking_spec(),
                inputs@,
            ),
            final(self).period_spec() == clock_period_after(
                old(self).period_spec(),
                old(self).sample_rate_spec(),
                inputs@,
            ),
            !final(self).ticking_spec() ==> {
                &&& *final(output) == Bang::Empty
                &&& final(self).accum_spec() == old(self).accum_spec()
            },
            final(self).ticking_spec() ==> {
                let s = old(self).accum_spec() + old(self).block_size_spec();
                let period = clock_period_after(
                    old(self).period_spec(),
                    old(self).sample_rate_spec(),
                    inputs@,
                );
                if s >= period {
                    &&& *final(output) == Bang::Pulse
                    &&& final(self).accum_spec() == if s - period > u64::MAX {
                        u64::MAX as int
                    } else {
                        s - period
                    }
                } else {
                    &&& *final(output) == Bang::Empty
                    &&& final(self).accum_spec() == s
                }
            },
    {
        if inputs.len() >= 1 {
            match inputs[0] {
                Bang::Pulse => {
                    self.is_ticking = !self.is_ticking;
                },
                Bang::BoolVal(v) => {
                    self.is_ticking = v;
                },
                _ => {},
            }
        }
        if inputs.len() >= 2 {
            match inputs[1] {
                Bang::FxVal(s) => {
                    if s < 0 {
                        self.tick_period_samples = 0;
                    } else {
                        proof {
                            assert((s as int) * (self.sample_rate as int)
                                < 0x8000_0000_0000_0000_0000_0000) by (nonlinear_arith)
                                requires
                                    0 <= (s as int) < 0x8000_0000_0000_0000,
                                    0 <= (self.sample_rate as int) < 0x1_0000_0000,
                            ;
                        }
                        let wide: u128 = (s as u128) * (self.sample_rate as u128);
                        let p: u128 = (wide + 32768u128) / 65536u128;
                        if p > u64::MAX as u128 {
                            self.tick_period_samples = u64::MAX;
                        } else {
                            self.tick_period_samples = p as u64;
                        }
                    }
                },
                Bang::U32Val(sec) => {
                    proof {
                        assert((sec as int) * (self.sample_rate as int)
                            < 0x1_0000_0000_0000_0000) by (nonlinear_arith)
                            requires
                                0 <= (sec as int) < 0x1_0000_0000,
                                0 <= (self.sample_rate as int) < 0x1_0000_0000,
                        ;
                    }
                    self.tick_period_samples = (sec as u64) * (self.sample_rate as u64);
                },
                _ => {},
            }
        }
        if !self.is_ticking {
            *output = Bang::Empty;
            return ;
        }
        let s: u128 = (self.samples_accum as u128) + (self.block_size as u128);
        if s >= self.tick_period_samples as u128 {
            *output = Bang::Pulse;
            let rest: u128 = s - self.tick_period_samples as u128;
            if rest > u64::MAX as u128 {
                self.samples_accum = u64::MAX;
            } else {
                self.samples_accum = rest as u64;
            }
        } else {
            *output = Bang::Empty;
            self.samples_accum = s as u64;
        }
    }
}

} // verus!
