//! Controls: configuration names and defaults, the per-frame evaluation
//! cache, MIDI control-change decoding and OSC control addresses.
pub mod config;
pub mod eval_cache;
pub mod midi_controls;
pub mod osc_controls;
pub mod param_mod;
pub mod ui_controls;
