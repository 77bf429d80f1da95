//! A realtime audio synthesis engine organized as a directed acyclic graph of
//! processing nodes.
//!
//! The engine renders fixed-size blocks of samples by pulling them through the
//! graph in topological order. Two signal domains share the same topology: an
//! audio domain carrying per-sample frames and a control domain carrying
//! discrete [`Bang`](bang::Bang) events.
//!
//! Samples are Q47.16 fixed-point integers: the value [`fx::FX_ONE`] stands
//! for an amplitude of 1.0. Working on integer samples keeps every processing
//! node exactly reproducible, so the whole signal path can carry precise
//! contracts; the host-facing layer converts to the audio driver's native
//! sample type at the very edge.

pub mod adsr;
pub mod audio_graph;
pub mod bang;
pub mod buffer;
pub mod clock;
pub mod comb_filter;
pub mod delay_line;
pub mod fx;
pub mod gain;
pub mod gate;
pub mod graph;
pub mod hard_clipper;
pub mod iset;
pub mod iter_node;
pub mod log;
pub mod mixer;
pub mod node;
pub mod oscillator;
pub mod params;
pub mod stream;
