//! Control scripts: hot-reloadable control configurations.
pub mod config;
pub mod dep_graph;
pub mod eval_cache;
pub mod hot_params;
pub mod keypath;
pub mod param_mod;
pub mod retain;
pub mod script_state;
pub mod run_plan;
pub mod script_index;
