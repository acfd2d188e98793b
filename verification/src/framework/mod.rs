//! The control framework: configuration, control decoding, timing and
//! evaluation order.
pub mod text;
pub mod decimal;
pub mod param_mod;
pub mod dep_order;
pub mod named_map;
pub mod disabled;
pub mod control;
pub mod control_hub;
pub mod control_script;
pub mod midi;
pub mod animation;
pub mod frame_controller;
pub mod global;
pub mod animate;
pub mod easing;
pub mod effects;
pub mod serialization;
pub mod osc;
pub mod osc_receiver;
