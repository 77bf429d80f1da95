//! The closed set of processing nodes and its dispatch.
//!
//! The graph holds nodes as one sum type, [`AnyNode`]; the scheduler
//! reasons about them through [`NodeModel`], a pure mathematical image of
//! each node's state. [`audio_step_model`] and [`bang_step_model`] say, per
//! node kind, exactly what one block of processing does to the model and to
//! the node's output — the dispatch methods promise precisely these steps.

use vstd::prelude::*;
use crate::adsr::Adsr;
use crate::bang::Bang;
use crate::buffer::{Frame, same_dims, inputs_dims_ok, frames_view};
use crate::clock::{Clock, clock_ticking_after, clock_period_after};
use crate::comb_filter::{CombFilter, comb_clip, comb_ring_after, comb_out_at};
use crate::delay_line::{DelayLine, ring_after, delay_out_at};
use crate::fx::{FX_ONE, fx_mul_spec, fx_abs, clamp_spec};
use crate::gain::{Gain, gain_sample};
use crate::gate::{Gate, gate_state_after};
use crate::hard_clipper::HardClipper;
use crate::iter_node::Iter;
use crate::log::Log;
use crate::mixer::{Mixer, mix_sample};
use crate::oscillator::{Oscillator, Wave, wave_amp, phase_at};

verus! {

/// The number of control-input slots every node sees per block.
pub const MAX_BANG_INPUTS: usize = 8;

/// One graph element: any of the built-in processing nodes.
pub enum AnyNode {
    /// A waveform generator.
    Oscillator(Oscillator),
    /// An envelope generator.
    Adsr(Adsr),
    /// An averaging mixer.
    Mixer(Mixer),
    /// A gain stage.
    Gain(Gain),
    /// A hard clipper.
    HardClipper(HardClipper),
    /// A multichannel delay.
    DelayLine(DelayLine),
    /// A feedback comb filter.
    CombFilter(CombFilter),
    /// A switchable pass-through.
    Gate(Gate),
    /// A block-resolution clock.
    Clock(Clock),
    /// A control-value sequencer.
    Iter(Iter),
    /// A control-event observer.
    Log(Log),
}

/// The mathematical image of a node's state.
pub enum NodeModel {
    /// Phase accumulator state.
    Oscillator { step: int, phase: int, wave: Wave },
    /// The envelope state machine, which is already pure data.
    Adsr(Adsr),
    /// No state.
    Mixer,
    /// The gain factor.
    Gain { gain: int },
    /// The clip limit.
    HardClipper { limit: int },
    /// Per-channel ring contents.
    DelayLine { rings: Seq<Seq<i64>> },
    /// Per-channel ring contents and the feedback factor.
    CombFilter { rings: Seq<Seq<int>>, feedback: int },
    /// Whether audio passes through.
    Gate { open: bool },
    /// The clock counters.
    Clock { sample_rate: int, block: int, ticking: bool, period: int, accum: int },
    /// The stored values and the cursor.
    Iter { values: Seq<Bang>, position: int },
    /// The observation counter.
    Log { seen: int },
}

/// A full output grid: for every channel and sample of `dims`, the value
/// `f(c, n)` truncated to a sample.
pub open spec fn grid(dims: Seq<Seq<i64>>, f: spec_fn(int, int) -> int) -> Seq<Seq<i64>> {
    Seq::new(dims.len(), |c: int| Seq::new(dims[c].len(), |n: int| f(c, n) as i64))
}

/// What one block of audio processing does to a node model and its output
/// frame, given the gathered input frames and the frame's previous
/// contents.
pub open spec fn audio_step_model(
    m: NodeModel,
    ivs: Seq<Seq<Seq<i64>>>,
    out0: Seq<Seq<i64>>,
) -> (NodeModel, Seq<Seq<i64>>) {
    match m {
        NodeModel::Oscillator { step, phase, wave } => {
            let n_samples = if out0.len() > 0 {
                out0[0].len() as int
            } else {
                0
            };
            (
                NodeModel::Oscillator {
                    step,
                    phase: phase_at(phase, step, n_samples),
                    wave,
                },
                grid(out0, |c: int, n: int| wave_amp(wave, phase_at(phase, step, n))),
            )
        },
        NodeModel::Adsr(a) => {
            if ivs.len() == 0 {
                (m, out0)
            } else {
                let n_samples = if out0.len() > 0 {
                    out0[0].len() as int
                } else {
                    0
                };
                (
                    NodeModel::Adsr(a.after_spec(n_samples)),
                    grid(
                        out0,
                        |c: int, n: int|
                            fx_mul_spec(a.after_spec(n).level_spec(), ivs[0][c][n] as int),
                    ),
                )
            }
        },
        NodeModel::Mixer => (m, grid(out0, |c: int, n: int| mix_sample(ivs, c, n))),
        NodeModel::Gain { gain } => {
            if ivs.len() == 0 {
                (m, out0)
            } else {
                (m, grid(out0, |c: int, n: int| gain_sample(ivs[0][c][n] as int, gain)))
            }
        },
        NodeModel::HardClipper { limit } => {
            if ivs.len() == 0 {
                (m, out0)
            } else {
                (
                    m,
                    grid(
                        out0,
                        |c: int, n: int| clamp_spec(ivs[0][c][n] as int, -limit, limit),
                    ),
                )
            }
        },
        NodeModel::DelayLine { rings } => {
            if ivs.len() == 0 {
                (m, out0)
            } else {
                (
                    NodeModel::DelayLine {
                        rings: Seq::new(rings.len(), |c: int| ring_after(rings[c], ivs[0][c])),
                    },
                    grid(out0, |c: int, n: int| delay_out_at(rings[c], ivs[0][c], n) as int),
                )
            }
        },
        NodeModel::CombFilter { rings, feedback } => {
            if ivs.len() == 0 {
                (m, out0)
            } else {
                (
                    NodeModel::CombFilter {
                        rings: Seq::new(
                            rings.len(),
                            |c: int|
                                comb_ring_after(
                                    rings[c],
                                    ivs[0][c].map_values(|v: i64| comb_clip(v as int)),
                                    feedback,
                                ),
                        ),
                        feedback,
                    },
                    grid(
                        out0,
                        |c: int, n: int|
                            comb_out_at(
                                rings[c],
                                ivs[0][c].map_values(|v: i64| comb_clip(v as int)),
                                feedback,
                                n,
                            ),
                    ),
                )
            }
        },
        NodeModel::Gate { open } => {
            if ivs.len() == 0 {
                (m, out0)
            } else if open {
                (m, ivs[0])
            } else {
                (m, grid(out0, |c: int, n: int| 0))
            }
        },
        NodeModel::Clock { .. } => (m, out0),
        NodeModel::Iter { .. } => (m, out0),
        NodeModel::Log { .. } => (m, out0),
    }
}

/// What one block of control processing does to a node model, and the
/// event it emits.
pub open spec fn bang_step_model(m: NodeModel, inputs: Seq<Bang>) -> (NodeModel, Bang) {
    match m {
        NodeModel::Adsr(a) => (NodeModel::Adsr(a.trigger_fold(inputs)), Bang::Empty),
        NodeModel::Gate { open } => (
            NodeModel::Gate { open: gate_state_after(open, inputs) },
            Bang::Empty,
        ),
        NodeModel::Clock { sample_rate, block, ticking, period, accum } => {
            let ticking2 = clock_ticking_after(ticking, inputs);
            let period2 = clock_period_after(period, sample_rate, inputs);
            if !ticking2 {
                (
                    NodeModel::Clock {
                        sample_rate,
                        block,
                        ticking: ticking2,
                        period: period2,
                        accum,
                    },
                    Bang::Empty,
                )
            } else {
                let s = accum + block;
                if s >= period2 {
                    (
                        NodeModel::Clock {
                            sample_rate,
                            block,
                            ticking: ticking2,
                            period: period2,
                            accum: if s - period2 > u64::MAX {
                                u64::MAX as int
                            } else {
                                s - period2
                            },
                        },
                        Bang::Pulse,
                    )
                } else {
                    (
                        NodeModel::Clock {
                            sample_rate,
                            block,
                            ticking: ticking2,
                            period: period2,
                            accum: s,
                        },
                        Bang::Empty,
                    )
                }
            }
        },
        NodeModel::Iter { values, position } => {
            if inputs.len() >= 1 && inputs[0] == Bang::Pulse {
                (
                    NodeModel::Iter { values, position: (position + 1) % (values.len() as int) },
                    values[position],
                )
            } else {
                (m, Bang::Empty)
            }
        },
        NodeModel::Log { seen } => (
            NodeModel::Log {
                seen: if inputs.len() >= 1 && inputs[0] != Bang::Empty && seen < u64::MAX {
                    seen + 1
                } else {
                    seen
                },
            },
            Bang::Empty,
        ),
        _ => (m, Bang::Empty),
    }
}

impl AnyNode {
    /// The mathematical image of this node.
    pub open spec fn model(self) -> NodeModel {
        match self {
            AnyNode::Oscillator(o) => NodeModel::Oscillator {
                step: o.step_spec(),
                phase: o.phase_spec(),
                wave: o.wave_spec(),
            },
            AnyNode::Adsr(a) => NodeModel::Adsr(a),
            AnyNode::Mixer(_) => NodeModel::Mixer,
            AnyNode::Gain(g) => NodeModel::Gain { gain: g.gain as int },
            AnyNode::HardClipper(h) => NodeModel::HardClipper { limit: h.limit_spec() },
            AnyNode::DelayLine(d) => NodeModel::DelayLine {
                rings: Seq::new(d.channels_spec() as nat, |c: int| d.ring(c)),
            },
            AnyNode::CombFilter(cf) => NodeModel::CombFilter {
                rings: Seq::new(cf.channels_spec() as nat, |c: int| cf.ring(c)),
                feedback: cf.feedback_spec(),
            },
            AnyNode::Gate(g) => NodeModel::Gate { open: g.open_spec() },
            AnyNode::Clock(c) => NodeModel::Clock {
                sample_rate: c.sample_rate_spec(),
                block: c.block_size_spec(),
                ticking: c.ticking_spec(),
                period: c.period_spec(),
                accum: c.accum_spec(),
            },
            AnyNode::Iter(it) => NodeModel::Iter {
                values: it.values_spec(),
                position: it.position_spec(),
            },
            AnyNode::Log(l) => NodeModel::Log { seen: l.seen_spec() },
        }
    }

    /// The node is ready to process frames of `channels` channels.
    pub open spec fn wf(self, channels: int) -> bool {
        match self {
            AnyNode::Oscillator(o) => o.wf(),
            AnyNode::Adsr(a) => a.wf(),
            AnyNode::Mixer(_) => true,
            AnyNode::Gain(_) => true,
            AnyNode::HardClipper(h) => h.wf(),
            AnyNode::DelayLine(d) => d.channels_spec() == channels,
            AnyNode::CombFilter(cf) => {
                &&& cf.channels_spec() == channels
                &&& fx_abs(cf.feedback_spec()) <= FX_ONE - 1
                &&& forall|c: int|
                    0 <= c < cf.channels_spec() ==> (#[trigger] cf.ring(c)).len() >= 1
                &&& forall|c: int, k: int|
                    0 <= c < cf.channels_spec() && 0 <= k < cf.ring(c).len() ==> fx_abs(
                        #[trigger] cf.ring(c)[k],
                    ) <= crate::comb_filter::COMB_RING_BOUND
            },
            AnyNode::Gate(_) => true,
            AnyNode::Clock(_) => true,
            AnyNode::Iter(it) => it.wf(),
            AnyNode::Log(_) => true,
        }
    }

    /// One block of audio processing, dispatched to the node kind; the
    /// state and the output frame change exactly as [`audio_step_model`]
    /// says.
    #[verifier::loop_isolation(false)]
    pub fn process(&mut self, inputs: &Vec<Frame>, output: &mut Frame)
        requires
            old(self).wf(old(output)@.len() as int),
            inputs_dims_ok(frames_view(inputs@), old(output)@),
            forall|c: int|
                0 <= c < old(output)@.len() ==> #[trigger] old(output)@[c].len() == old(
                    output,
                )@[0].len(),
        ensures
            final(self).wf(final(output)@.len() as int),
            same_dims(final(output)@, old(output)@),
            final(self).model() == audio_step_model(
                old(self).model(),
                frames_view(inputs@),
                old(output)@,
            ).0,
            final(output)@ == audio_step_model(
                old(self).model(),
                frames_view(inputs@),
                old(output)@,
            ).1,
    {
        let ghost ivs = frames_view(inputs@);
        let ghost out0 = old(output)@;
        match self {
            AnyNode::Oscillator(o) => {
                o.process(inputs, output);
                proof {
                    let tgt = audio_step_model(old(self).model(), ivs, out0).1;
                    assert forall|c: int| 0 <= c < output@.len() implies output@[c] =~= tgt[c] by {
                    }
                    assert(output@ =~= tgt);
                }
            },
            AnyNode::Adsr(a) => {
                a.process(inputs, output);
                proof {
                    if ivs.len() > 0 {
                        let tgt = audio_step_model(old(self).model(), ivs, out0).1;
                        assert forall|c: int| 0 <= c < output@.len() implies output@[c] =~= tgt[c]
                            by {}
                        assert(output@ =~= tgt);
                    }
                }
            },
            AnyNode::Mixer(mx) => {
                mx.process(inputs, output);
                proof {
                    let tgt = audio_step_model(old(self).model(), ivs, out0).1;
                    assert forall|c: int| 0 <= c < output@.len() implies output@[c] =~= tgt[c] by {
                    }
                    assert(output@ =~= tgt);
                }
            },
            AnyNode::Gain(g) => {
                if inputs.len() >= 1 {
                    g.process(inputs, output);
                    proof {
                        let tgt = audio_step_model(old(self).model(), ivs, out0).1;
                        assert forall|c: int| 0 <= c < output@.len() implies output@[c] =~= tgt[c]
                            by {}
                        assert(output@ =~= tgt);
                    }
                }
            },
            AnyNode::HardClipper(h) => {
                if inputs.len() >= 1 {
                    h.process(inputs, output);
                    proof {
                        let tgt = audio_step_model(old(self).model(), ivs, out0).1;
                        assert forall|c: int| 0 <= c < output@.len() implies output@[c] =~= tgt[c]
                            by {}
                        assert(output@ =~= tgt);
                    }
                }
            },
            AnyNode::DelayLine(d) => {
                d.process(inputs, output);
                proof {
                    if ivs.len() > 0 {
                        let tgt = audio_step_model(old(self).model(), ivs, out0).1;
                        assert forall|c: int| 0 <= c < output@.len() implies output@[c] =~= tgt[c]
                            by {}
                        assert(output@ =~= tgt);
                        let mtgt = audio_step_model(old(self).model(), ivs, out0).0;
                        assert(self.model() is DelayLine);
                        assert(self.model()->DelayLine_rings =~= mtgt->DelayLine_rings);
                    }
                }
            },
            AnyNode::CombFilter(cf) => {
                cf.process(inputs, output);
                proof {
                    if ivs.len() > 0 {
                        let tgt = audio_step_model(old(self).model(), ivs, out0).1;
                        assert forall|c: int| 0 <= c < output@.len() implies output@[c] =~= tgt[c]
                            by {}
                        assert(output@ =~= tgt);
                        let mtgt = audio_step_model(old(self).model(), ivs, out0).0;
                        assert(self.model()->CombFilter_rings =~= mtgt->CombFilter_rings);
                    }
                }
            },
            AnyNode::Gate(g) => {
                g.process(inputs, output);
                proof {
                    if ivs.len() > 0 && !old(self).model()->Gate_open {
                        let tgt = audio_step_model(old(self).model(), ivs, out0).1;
                        assert forall|c: int| 0 <= c < output@.len() implies output@[c] =~= tgt[c]
                            by {}
                        assert(output@ =~= tgt);
                    }
                }
            },
            AnyNode::Clock(_) => {},
            AnyNode::Iter(_) => {},
            AnyNode::Log(_) => {},
        }
    }

    /// One block of control processing, dispatched to the node kind; the
    /// state and the emitted event are exactly [`bang_step_model`].
    pub fn handle_bang(&mut self, inputs: &Vec<Bang>, output: &mut Bang)
        requires
            (*old(self)) matches AnyNode::Adsr(a) ==> a.wf(),
            (*old(self)) matches AnyNode::Iter(it) ==> it.wf(),
        ensures
            final(self).model() == bang_step_model(old(self).model(), inputs@).0,
            *final(output) == bang_step_model(old(self).model(), inputs@).1,
            forall|ch: int| #[trigger] old(self).wf(ch) ==> final(self).wf(ch),
    {
        match self {
            AnyNode::Adsr(a) => {
                a.handle_bang(inputs, output);
            },
            AnyNode::Gate(g) => {
                g.handle_bang(inputs, output);
            },
            AnyNode::Clock(c) => {
                c.handle_bang(inputs, output);
            },
            AnyNode::Iter(it) => {
                it.handle_bang(inputs, output);
            },
            AnyNode::Log(l) => {
                l.handle_bang(inputs, output);
            },
            AnyNode::Oscillator(_) => {
                *output = Bang::Empty;
            },
            AnyNode::Mixer(_) => {
                *output = Bang::Empty;
            },
            AnyNode::Gain(_) => {
                *output = Bang::Empty;
            },
            AnyNode::HardClipper(_) => {
                *output = Bang::Empty;
            },
            AnyNode::DelayLine(_) => {
                *output = Bang::Empty;
            },
            AnyNode::CombFilter(_) => {
                *output = Bang::Empty;
            },
        }
    }
}

} // verus!
