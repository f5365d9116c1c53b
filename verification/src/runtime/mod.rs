//! The generic runtime: versioned steps and the cache that memoizes them.

pub mod cache;
pub mod frame;
pub mod step;
