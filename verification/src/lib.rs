//! Mirrorlane: deterministic projections of conversations, and the routing,
//! skill and warmup views derived from them.

pub mod cli;
pub mod double;
pub mod github;
pub mod laws;
pub mod llm;
pub mod model;
pub mod numeral;
pub mod ordered;
pub mod provider;
pub mod runtime;
pub mod storage;
pub mod text;
pub mod worker;
