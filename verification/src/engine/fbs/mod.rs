//! Forward-backward splitting (projected gradient)
pub mod fbs_cache;
pub mod fbs_engine;
pub mod fbs_optimizer;

pub use fbs_cache::FBSCache;
pub use fbs_engine::FBSEngine;
pub use fbs_optimizer::FBSOptimizer;
