//! A planar integrated-circuit breadboard: a fixed grid where N-type silicon,
//! P-type silicon, metal wiring and vias combine into a network of wires and
//! enhancement-mode transistors, together with a tick-based signal-propagation
//! simulator and a waveform evaluator that scores a circuit against a test
//! specification.

pub mod circuit;
pub mod edit;
pub mod eval;
pub mod path;
pub mod pins;
pub mod sample;
pub mod sim;
pub mod snippet;
pub mod ui;
