//! The graph, the scheduler, and end-to-end blocks through the engine.

use mini_graph::audio_graph::DynamicAudioGraph;
use mini_graph::bang::Bang;
use mini_graph::fx::{FX_ONE, FX_HALF};
use mini_graph::gain::Gain;
use mini_graph::gate::Gate;
use mini_graph::graph::{DynamicGraph, GraphError};
use mini_graph::clock::Clock;
use mini_graph::delay_line::DelayLine;
use mini_graph::log::Log;
use mini_graph::mixer::Mixer;
use mini_graph::node::AnyNode;
use mini_graph::oscillator::{Oscillator, Wave};

#[test]
fn topo_sort_of_a_chain_is_the_chain() {
    let mut g: DynamicGraph<u32> = DynamicGraph::with_capacity(4);
    let a = g.add_node(10);
    let b = g.add_node(20);
    let c = g.add_node(30);
    g.add_edge(a, b);
    g.add_edge(b, c);
    let order = g.topo_sort().unwrap();
    assert_eq!(order, vec![a, b, c]);
}

#[test]
fn topo_sort_orders_a_diamond() {
    let mut g: DynamicGraph<u32> = DynamicGraph::with_capacity(4);
    let a = g.add_node(0);
    let b = g.add_node(0);
    let c = g.add_node(0);
    let d = g.add_node(0);
    g.add_edges(&[(a, b), (a, c), (b, d), (c, d)]);
    let order = g.topo_sort().unwrap();
    assert_eq!(order, vec![a, b, c, d]);
}

#[test]
fn topo_sort_detects_a_cycle() {
    let mut g: DynamicGraph<u32> = DynamicGraph::with_capacity(4);
    let a = g.add_node(0);
    let b = g.add_node(0);
    let c = g.add_node(0);
    g.add_edge(a, b);
    g.add_edge(b, c);
    g.add_edge(c, a);
    assert!(matches!(g.topo_sort(), Err(GraphError::CycleDetected)));
}

#[test]
fn duplicate_and_self_edges_are_ignored() {
    let mut g: DynamicGraph<u32> = DynamicGraph::with_capacity(4);
    let a = g.add_node(0);
    let b = g.add_node(0);
    g.add_edge(a, b);
    g.add_edge(a, b);
    g.add_edge(a, a);
    let order = g.topo_sort().unwrap();
    assert_eq!(order, vec![a, b]);
}

#[test]
fn topo_sort_seeds_roots_in_ascending_id_order() {
    let mut g: DynamicGraph<u32> = DynamicGraph::with_capacity(4);
    let a = g.add_node(0);
    let b = g.add_node(0);
    let c = g.add_node(0);
    g.add_edge(c, a);
    let order = g.topo_sort().unwrap();
    // b and c are roots; b has the smaller id
    assert_eq!(order, vec![b, c, a]);
}

#[test]
fn cycle_rejection_keeps_the_old_schedule() {
    let mut ag = DynamicAudioGraph::with_capacity(4, 4, 1);
    let a = ag.add_node(AnyNode::Mixer(Mixer::new()));
    let b = ag.add_node(AnyNode::Mixer(Mixer::new()));
    let c = ag.add_node(AnyNode::Mixer(Mixer::new()));
    assert!(ag.add_edge(a, b).is_ok());
    assert!(ag.add_edge(b, c).is_ok());
    let before = ag.schedule().clone();
    assert_eq!(before, vec![a, b, c]);
    let rejected = ag.add_edge(c, a);
    assert!(matches!(rejected, Err(GraphError::CycleDetected)));
    assert_eq!(ag.schedule(), &vec![a, b, c]);
    // the graph still renders after the rejection
    ag.set_sink_index(c);
    ag.render_block();
}

#[test]
fn single_sine_through_sink() {
    // one oscillator, 4-sample mono block at 4 Hz, 1 Hz sine from phase 0
    let mut ag = DynamicAudioGraph::with_capacity(2, 4, 1);
    let osc = ag.add_node(AnyNode::Oscillator(Oscillator::new(
        FX_ONE,
        4,
        0,
        Wave::SinWave,
    )));
    ag.set_sink_index(osc);
    ag.render_block();
    let f = ag.sink_frame();
    let got: Vec<i64> = (0..4).map(|n| f.get(0, n)).collect();
    assert_eq!(got, vec![0, FX_ONE, 0, -FX_ONE]);
}

#[test]
fn chord_mix_stays_in_the_unit_range() {
    // four sines into a mixer: 512-sample stereo block at 48 kHz
    let mut ag = DynamicAudioGraph::with_capacity(8, 512, 2);
    let mixer = ag.add_node(AnyNode::Mixer(Mixer::new()));
    let freqs = [261.63f32, 329.63, 392.00, 493.88];
    for freq in freqs {
        let fx = (freq * 65536.0).round() as i64;
        let osc = ag.add_node(AnyNode::Oscillator(Oscillator::new(
            fx,
            48_000,
            0,
            Wave::SinWave,
        )));
        assert!(ag.add_edge(osc, mixer).is_ok());
    }
    ag.set_sink_index(mixer);
    ag.render_block();
    let f = ag.sink_frame();
    for c in 0..2 {
        assert_eq!(f.get(c, 0), 0);
        for n in 0..512 {
            let s = f.get(c, n);
            assert!(-FX_ONE <= s && s <= FX_ONE);
        }
    }
}

#[test]
fn oscillator_gain_chain_scales_the_wave() {
    let mut ag = DynamicAudioGraph::with_capacity(4, 4, 1);
    let osc = ag.add_node(AnyNode::Oscillator(Oscillator::new(
        FX_ONE,
        4,
        0,
        Wave::SinWave,
    )));
    let gain = ag.add_node(AnyNode::Gain(Gain::new(FX_HALF)));
    assert!(ag.add_edge(osc, gain).is_ok());
    ag.set_sink_index(gain);
    ag.render_block();
    let f = ag.sink_frame();
    let got: Vec<i64> = (0..4).map(|n| f.get(0, n)).collect();
    assert_eq!(got, vec![0, FX_HALF, 0, -FX_HALF]);
}

#[test]
fn delay_in_the_graph_shifts_across_blocks() {
    // constant full-scale square into a 2-sample delay, observed at the sink
    let mut ag = DynamicAudioGraph::with_capacity(4, 4, 1);
    let osc = ag.add_node(AnyNode::Oscillator(Oscillator::new(
        0,
        4,
        0,
        Wave::SquareWave,
    )));
    let delay = ag.add_node(AnyNode::DelayLine(DelayLine::new(2, 1)));
    assert!(ag.add_edge(osc, delay).is_ok());
    ag.set_sink_index(delay);
    ag.render_block();
    let f = ag.sink_frame();
    let got: Vec<i64> = (0..4).map(|n| f.get(0, n)).collect();
    assert_eq!(got, vec![0, 0, FX_ONE, FX_ONE]);
    ag.render_block();
    let f2 = ag.sink_frame();
    let got2: Vec<i64> = (0..4).map(|n| f2.get(0, n)).collect();
    assert_eq!(got2, vec![FX_ONE, FX_ONE, FX_ONE, FX_ONE]);
}

#[test]
fn clock_pulses_travel_the_control_domain() {
    // a clock firing every block, wired into an observer
    let mut ag = DynamicAudioGraph::with_capacity(4, 4, 1);
    let clock = ag.add_node(AnyNode::Clock(Clock::new(4, 4, 4)));
    let log = ag.add_node(AnyNode::Log(Log::new()));
    assert!(ag.add_edge(clock, log).is_ok());
    ag.set_sink_index(log);
    ag.render_block();
    assert_eq!(ag.bang_output(clock), Bang::Pulse);
    assert_eq!(ag.bang_output(log), Bang::Empty);
}

#[test]
fn gate_in_the_graph_stays_closed_without_events() {
    let mut ag = DynamicAudioGraph::with_capacity(4, 4, 1);
    let osc = ag.add_node(AnyNode::Oscillator(Oscillator::new(
        0,
        4,
        0,
        Wave::SquareWave,
    )));
    let gate = ag.add_node(AnyNode::Gate(Gate::new()));
    assert!(ag.add_edge(osc, gate).is_ok());
    ag.set_sink_index(gate);
    ag.render_block();
    let f = ag.sink_frame();
    for n in 0..4 {
        assert_eq!(f.get(0, n), 0);
    }
}

#[test]
fn batch_edges_build_the_same_topology() {
    let mut ag = DynamicAudioGraph::with_capacity(8, 4, 1);
    let mixer = ag.add_node(AnyNode::Mixer(Mixer::new()));
    let a = ag.add_node(AnyNode::Oscillator(Oscillator::new(
        0,
        4,
        0,
        Wave::SquareWave,
    )));
    let b = ag.add_node(AnyNode::Oscillator(Oscillator::new(
        0,
        4,
        0,
        Wave::SquareWave,
    )));
    assert!(ag.add_edges(&[(a, mixer), (b, mixer)]).is_ok());
    ag.set_sink_index(mixer);
    ag.render_block();
    let f = ag.sink_frame();
    // two constant full-scale squares average to full scale
    for n in 0..4 {
        assert_eq!(f.get(0, n), FX_ONE);
    }
}

#[test]
fn batch_edges_report_a_cycle() {
    let mut ag = DynamicAudioGraph::with_capacity(4, 4, 1);
    let a = ag.add_node(AnyNode::Mixer(Mixer::new()));
    let b = ag.add_node(AnyNode::Mixer(Mixer::new()));
    let r = ag.add_edges(&[(a, b), (b, a)]);
    assert!(matches!(r, Err(GraphError::CycleDetected)));
}
