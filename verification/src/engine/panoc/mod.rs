//! PANOC: proximal averaged Newton-type method for optimal control
pub mod panoc_cache;

pub use panoc_cache::PANOCCache;
