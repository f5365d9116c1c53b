//! GitHub: items as messages, projections as drafts.

pub mod consumer;
pub mod model;
pub mod rest;
pub mod source;
