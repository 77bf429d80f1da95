//! Per-node behaviour: oscillator, envelope, mixer, gain, clipper, delay,
//! comb, gate, clock, sequencer, observer.

use mini_graph::adsr::Adsr;
use mini_graph::bang::Bang;
use mini_graph::buffer::Frame;
use mini_graph::clock::Clock;
use mini_graph::comb_filter::CombFilter;
use mini_graph::delay_line::DelayLine;
use mini_graph::fx::{FX_HALF, FX_ONE};
use mini_graph::gain::Gain;
use mini_graph::gate::Gate;
use mini_graph::hard_clipper::HardClipper;
use mini_graph::iter_node::Iter;
use mini_graph::log::Log;
use mini_graph::mixer::Mixer;
use mini_graph::oscillator::{Oscillator, Wave};

fn mono_frame(samples: &[i64]) -> Frame {
    let mut f = Frame::silent(1, samples.len());
    for (n, &v) in samples.iter().enumerate() {
        f.set(0, n, v);
    }
    f
}

fn channel(f: &Frame, c: usize) -> Vec<i64> {
    let mut out = Vec::new();
    for n in 0..f.channel_len(c) {
        out.push(f.get(c, n));
    }
    out
}

#[test]
fn oscillator_sine_quarter_points() {
    // 1 Hz at 4 Hz sample rate: phases 0, 1/4, 1/2, 3/4
    let mut osc = Oscillator::new(FX_ONE, 4, 0, Wave::SinWave);
    let inputs: Vec<Frame> = Vec::new();
    let mut out = Frame::silent(1, 4);
    osc.process(&inputs, &mut out);
    assert_eq!(channel(&out, 0), vec![0, FX_ONE, 0, -FX_ONE]);
}

#[test]
fn oscillator_square_and_saw() {
    let inputs: Vec<Frame> = Vec::new();
    let mut sq = Oscillator::new(FX_ONE, 4, 0, Wave::SquareWave);
    let mut out = Frame::silent(1, 4);
    sq.process(&inputs, &mut out);
    assert_eq!(channel(&out, 0), vec![FX_ONE, FX_ONE, FX_ONE, -FX_ONE]);
    let mut saw = Oscillator::new(FX_ONE, 4, 0, Wave::SawWave);
    let mut out2 = Frame::silent(1, 4);
    saw.process(&inputs, &mut out2);
    assert_eq!(
        channel(&out2, 0),
        vec![-FX_ONE, -FX_HALF, 0, FX_HALF]
    );
}

#[test]
fn oscillator_phase_wraps() {
    // a full cycle per sample keeps the phase at zero: the triangle starts
    // at its minimum every sample
    let mut osc = Oscillator::new(4 * FX_ONE, 4, 0, Wave::TriangleWave);
    let inputs: Vec<Frame> = Vec::new();
    let mut out = Frame::silent(1, 3);
    osc.process(&inputs, &mut out);
    assert_eq!(channel(&out, 0), vec![FX_ONE, FX_ONE, FX_ONE]);
}

#[test]
fn oscillator_writes_all_channels() {
    let mut osc = Oscillator::new(FX_ONE, 4, 0, Wave::SinWave);
    let inputs: Vec<Frame> = Vec::new();
    let mut out = Frame::silent(2, 4);
    osc.process(&inputs, &mut out);
    assert_eq!(channel(&out, 0), channel(&out, 1));
}

#[test]
fn mixer_averages_and_clamps() {
    let mut mx = Mixer::new();
    let a = mono_frame(&[FX_ONE, 2 * FX_ONE, -3 * FX_ONE, 100]);
    let b = mono_frame(&[0, 2 * FX_ONE, -3 * FX_ONE, 200]);
    let inputs = vec![a, b];
    let mut out = Frame::silent(1, 4);
    mx.process(&inputs, &mut out);
    assert_eq!(
        channel(&out, 0),
        vec![FX_HALF, FX_ONE, -FX_ONE, 150]
    );
}

#[test]
fn mixer_ignores_input_order() {
    let a = mono_frame(&[10, -20, 30]);
    let b = mono_frame(&[5, 7, -9]);
    let c = mono_frame(&[0, 1, 2]);
    let mut out1 = Frame::silent(1, 3);
    let mut out2 = Frame::silent(1, 3);
    let mut mx = Mixer::new();
    mx.process(&vec![a.duplicate(), b.duplicate(), c.duplicate()], &mut out1);
    mx.process(&vec![c, a, b], &mut out2);
    assert_eq!(channel(&out1, 0), channel(&out2, 0));
}

#[test]
fn oscillator_switches_waveform() {
    let inputs: Vec<Frame> = Vec::new();
    let mut osc = Oscillator::new(FX_ONE, 4, 0, Wave::SinWave);
    osc.set_wave_form(Wave::SquareWave);
    let mut out = Frame::silent(1, 2);
    osc.process(&inputs, &mut out);
    assert_eq!(channel(&out, 0), vec![FX_ONE, FX_ONE]);
}

#[test]
fn mixer_without_inputs_is_silent() {
    let mut mx = Mixer::new();
    let inputs: Vec<Frame> = Vec::new();
    let mut out = mono_frame(&[5, 6, 7]);
    mx.process(&inputs, &mut out);
    assert_eq!(channel(&out, 0), vec![0, 0, 0]);
}

#[test]
fn gain_scales_and_clamps() {
    let mut g = Gain::new(FX_HALF);
    let input = mono_frame(&[FX_ONE, -FX_ONE, 4 * FX_ONE, 6]);
    let inputs = vec![input];
    let mut out = Frame::silent(1, 4);
    g.process(&inputs, &mut out);
    assert_eq!(channel(&out, 0), vec![FX_HALF, -FX_HALF, FX_ONE, 3]);
    let mut loud = Gain::new(4 * FX_ONE);
    let inputs2 = vec![mono_frame(&[FX_ONE, -FX_ONE])];
    let mut out2 = Frame::silent(1, 2);
    loud.process(&inputs2, &mut out2);
    assert_eq!(channel(&out2, 0), vec![FX_ONE, -FX_ONE]);
}

#[test]
fn hard_clipper_limits_to_its_bound() {
    let mut h = HardClipper::new(FX_HALF);
    let inputs = vec![mono_frame(&[FX_ONE, -FX_ONE, 100, -100])];
    let mut out = Frame::silent(1, 4);
    h.process(&inputs, &mut out);
    assert_eq!(channel(&out, 0), vec![FX_HALF, -FX_HALF, 100, -100]);
}

#[test]
fn delay_line_shifts_by_its_length() {
    let mut d = DelayLine::new(2, 1);
    let inputs = vec![mono_frame(&[1, 2, 3, 4, 5])];
    let mut out = Frame::silent(1, 5);
    d.process(&inputs, &mut out);
    assert_eq!(channel(&out, 0), vec![0, 0, 1, 2, 3]);
}

#[test]
fn delay_line_keeps_state_across_blocks() {
    let mut d = DelayLine::new(2, 1);
    let inputs = vec![mono_frame(&[1, 2, 3])];
    let mut out = Frame::silent(1, 3);
    d.process(&inputs, &mut out);
    assert_eq!(channel(&out, 0), vec![0, 0, 1]);
    let inputs2 = vec![mono_frame(&[4, 5, 6])];
    d.process(&inputs2, &mut out);
    assert_eq!(channel(&out, 0), vec![2, 3, 4]);
}

#[test]
fn comb_filter_unit_impulse_response() {
    let mut cf = CombFilter::new(1, 1, FX_HALF);
    let inputs = vec![mono_frame(&[FX_ONE, 0, 0, 0, 0])];
    let mut out = Frame::silent(1, 5);
    cf.process(&inputs, &mut out);
    assert_eq!(
        channel(&out, 0),
        vec![0, FX_ONE, FX_HALF, FX_ONE / 4, FX_ONE / 8]
    );
}

#[test]
fn comb_filter_recurrence_with_longer_delay() {
    let mut cf = CombFilter::new(2, 1, FX_HALF);
    let inputs = vec![mono_frame(&[FX_ONE, FX_ONE, 0, 0, 0, 0])];
    let mut out = Frame::silent(1, 6);
    cf.process(&inputs, &mut out);
    // y[n] = x[n-2] + 0.5 * y[n-2]
    assert_eq!(
        channel(&out, 0),
        vec![0, 0, FX_ONE, FX_ONE, FX_HALF, FX_HALF]
    );
}

#[test]
fn gate_passes_when_open_and_silences_when_closed() {
    let mut g = Gate::new();
    let inputs = vec![mono_frame(&[1, 2, 3])];
    let mut out = mono_frame(&[9, 9, 9]);
    g.process(&inputs, &mut out);
    assert_eq!(channel(&out, 0), vec![0, 0, 0]);
    let mut b = Bang::Empty;
    g.handle_bang(&vec![Bang::Pulse], &mut b);
    assert_eq!(b, Bang::Empty);
    g.process(&inputs, &mut out);
    assert_eq!(channel(&out, 0), vec![1, 2, 3]);
    g.handle_bang(&vec![Bang::BoolVal(false)], &mut b);
    g.process(&inputs, &mut out);
    assert_eq!(channel(&out, 0), vec![0, 0, 0]);
}

#[test]
fn adsr_follows_the_envelope_stages() {
    // 10-sample attack, decay and release; hold at 0.5 until note-off
    let mut env = Adsr::new(10, 10, 0, 10, FX_HALF);
    let ones = [FX_ONE; 10];
    let mut b = Bang::Empty;

    // idle: output is silent
    let mut out = Frame::silent(1, 10);
    env.process(&vec![mono_frame(&ones)], &mut out);
    assert_eq!(channel(&out, 0), vec![0; 10]);

    // note on: attack ramps 0 .. 0.9
    env.handle_bang(&vec![Bang::Pulse], &mut b);
    env.process(&vec![mono_frame(&ones)], &mut out);
    let attack: Vec<i64> = (0..10).map(|t| t * FX_ONE / 10).collect();
    assert_eq!(channel(&out, 0), attack);

    // decay: starts at 1.0, falls toward 0.5
    env.process(&vec![mono_frame(&ones)], &mut out);
    let decay: Vec<i64> = (0..10)
        .map(|t| {
            let ratio = t * FX_ONE / 10;
            FX_ONE - (FX_HALF * ratio) / FX_ONE
        })
        .collect();
    assert_eq!(channel(&out, 0), decay);

    // sustain holds 0.5
    env.process(&vec![mono_frame(&ones)], &mut out);
    assert_eq!(channel(&out, 0), vec![FX_HALF; 10]);

    // note off: release falls from 0.5 to 0
    env.handle_bang(&vec![Bang::Pulse], &mut b);
    env.process(&vec![mono_frame(&ones)], &mut out);
    let release: Vec<i64> = (0..10)
        .map(|t| {
            let ratio = t * FX_ONE / 10;
            (FX_HALF * (FX_ONE - ratio)) / FX_ONE
        })
        .collect();
    assert_eq!(channel(&out, 0), release);

    // back to idle
    env.process(&vec![mono_frame(&ones)], &mut out);
    assert_eq!(channel(&out, 0), vec![0; 10]);
}

#[test]
fn adsr_triggers_on_a_pulse_in_any_slot() {
    let mut env = Adsr::new(10, 10, 0, 10, FX_HALF);
    let ones = [FX_ONE; 4];
    let mut b = Bang::Empty;
    // the pulse arrives on the second control slot, as it does when the
    // envelope's first wired neighbour carries audio only
    env.handle_bang(&vec![Bang::Empty, Bang::Pulse], &mut b);
    let mut out = Frame::silent(1, 4);
    env.process(&vec![mono_frame(&ones)], &mut out);
    // the attack has begun: the ramp leaves zero after the first sample
    assert_eq!(channel(&out, 0), vec![0, FX_ONE / 10, 2 * FX_ONE / 10, 3 * FX_ONE / 10]);
}

#[test]
fn adsr_applies_every_pulse_in_slot_order() {
    let mut env = Adsr::new(10, 10, 0, 10, FX_HALF);
    let mut b = Bang::Empty;
    // note-on then immediately note-off: the release starts from the
    // attack's starting level of zero
    env.handle_bang(&vec![Bang::Pulse, Bang::Pulse], &mut b);
    let ones = [FX_ONE; 4];
    let mut out = Frame::silent(1, 4);
    env.process(&vec![mono_frame(&ones)], &mut out);
    assert_eq!(channel(&out, 0), vec![0, 0, 0, 0]);
}

#[test]
fn clock_emits_pulses_with_fractional_overshoot() {
    // 4-sample blocks against a 6-sample period
    let mut clock = Clock::new(48_000, 4, 6);
    let mut pulses = 0;
    let mut b = Bang::Empty;
    for _ in 0..6 {
        clock.handle_bang(&Vec::new(), &mut b);
        if b == Bang::Pulse {
            pulses += 1;
        }
    }
    // floor(6 * 4 / 6) == 4
    assert_eq!(pulses, 4);
}

#[test]
fn clock_control_inputs_toggle_and_retime() {
    let mut clock = Clock::new(10, 5, 5);
    let mut b = Bang::Empty;
    // stop ticking: no pulse even though the period elapses
    clock.handle_bang(&vec![Bang::BoolVal(false)], &mut b);
    assert_eq!(b, Bang::Empty);
    // toggle back on and rewrite the period to 2 seconds = 20 samples
    clock.handle_bang(&vec![Bang::Pulse, Bang::U32Val(2)], &mut b);
    assert_eq!(b, Bang::Empty);
    clock.handle_bang(&vec![], &mut b);
    assert_eq!(b, Bang::Empty);
    clock.handle_bang(&vec![], &mut b);
    assert_eq!(b, Bang::Empty);
    clock.handle_bang(&vec![], &mut b);
    // 5 + 5 + 5 + 5 == 20
    assert_eq!(b, Bang::Pulse);
}

#[test]
fn clock_accepts_fixed_point_seconds() {
    let mut clock = Clock::new(10, 10, 100);
    let mut b = Bang::Empty;
    // 1.0 s at 10 Hz -> period 10 samples: one block fills it exactly
    clock.handle_bang(&vec![Bang::Empty, Bang::FxVal(FX_ONE)], &mut b);
    assert_eq!(b, Bang::Pulse);
}

#[test]
fn iter_cycles_through_its_values() {
    let values = vec![Bang::U32Val(1), Bang::U32Val(2), Bang::U32Val(3)];
    let mut it = Iter::new(values);
    let mut b = Bang::Empty;
    it.handle_bang(&vec![Bang::Empty], &mut b);
    assert_eq!(b, Bang::Empty);
    for expected in [1u32, 2, 3, 1, 2] {
        it.handle_bang(&vec![Bang::Pulse], &mut b);
        assert_eq!(b, Bang::U32Val(expected));
    }
}

#[test]
fn log_counts_non_empty_events() {
    let mut l = Log::new();
    let mut b = Bang::Empty;
    l.handle_bang(&vec![Bang::Empty], &mut b);
    l.handle_bang(&vec![Bang::Pulse], &mut b);
    l.handle_bang(&vec![Bang::U32Val(9)], &mut b);
    l.handle_bang(&Vec::new(), &mut b);
    assert_eq!(l.seen(), 2);
    assert_eq!(b, Bang::Empty);
}
