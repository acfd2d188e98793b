//! Parameter-modulation graph used by the control hub.
pub mod dep_graph;
