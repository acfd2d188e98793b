//! Verified core of a creative-coding control framework: dependency
//! ordering of parameter modulation graphs, per-frame evaluation caches,
//! MIDI/OSC message decoding, frame pacing and small configuration parsers.
pub mod config;
pub mod framework;
