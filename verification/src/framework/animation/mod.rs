//! Animation support: musical timing from external clocks.
pub mod timing;
