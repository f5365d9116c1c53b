//! The domain model, its stores and its ports.

pub mod alike;
pub mod cache;
pub mod derivation;
pub mod digest;
pub mod message;
pub mod message_log;
pub mod projection;
pub mod projector;
pub mod routing;
pub mod scope;
pub mod seqs;
pub mod skill;
pub mod store;
pub mod warmup;
