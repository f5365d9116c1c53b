//! The execution layer: the jobs of the pipeline, the strategies that compose
//! them, and the cache they fill.
//!
//! Jobs are delivered at least once, so each of them is idempotent.

pub mod composition;
pub mod derived;
pub mod jobs;
pub mod lane;
pub mod observer;
pub mod registry;
pub mod replay;
pub mod route;
pub mod routed_work;
pub mod sessions;
pub mod strategy;
pub mod submission;
